//! Connection-level state: lifecycle phase, connection windows, the stream
//! table, and the requests that wait for a stream across reconnects.

use vstd::prelude::*;

use crate::stream::ClientOrServer;
use crate::stream::data_result;
use crate::stream::StreamEnd;
use crate::stream::StreamError;
use crate::stream::StreamTable;
use crate::window::InWindow;
use crate::window::WindowTracker;
use crate::window::WindowError;
use crate::window::DEFAULT_INITIAL_WINDOW_SIZE;
use crate::window::DEFAULT_MAX_FRAME_SIZE;
use crate::buf_vec_deque::BufVecDeque;
use crate::chunk::Chunk;
use crate::pump::pump_result;
use crate::pump::PumpStep;

verus! {

#[derive(Debug, Clone, Copy, PartialEq, Eq, Structural)]
pub enum ConnPhase {
    Connecting,
    Established,
    /// GOAWAY received: no new streams, existing ones go on.
    Draining,
    Terminated,
}

#[derive(Debug, Clone, Copy, PartialEq, Eq, Structural)]
pub enum ConnError {
    /// The connection is gone and will not be re-established.
    ConnectionLost,
    /// The peer sent GOAWAY and this connection takes no new streams.
    GoingAway,
    /// No stream identifier is left on this connection.
    StreamIdsExhausted,
}

/// A request of the application that waits for a stream: its token, and
/// whether its HEADERS end the stream.
#[derive(Debug, Clone, Copy, PartialEq, Eq, Structural)]
pub struct PendingRequest {
    pub token: u64,
    pub end_stream: bool,
}

pub struct Connection {
    pub phase: ConnPhase,
    pub out_window: WindowTracker,
    pub in_window: InWindow,
    pub streams: StreamTable,
    /// Whether a lost connection is established again.
    pub reconnect: bool,
    /// Requests not yet bound to a stream, oldest first.
    pub pending: Vec<PendingRequest>,
    /// The largest DATA payload the peer accepts.
    pub max_frame_size: u32,
}

/// The largest value SETTINGS may give the maximum frame size: 2^24 - 1.
pub const MAX_MAX_FRAME_SIZE: u32 = 16777215;

/// The stream identifiers of `admitted`, in order.
pub open spec fn admitted_ids(admitted: Seq<(u64, u32)>) -> Seq<u32> {
    admitted.map_values(|p: (u64, u32)| p.1)
}

impl Connection {
    pub open spec fn wf(&self) -> bool {
        self.out_window.wf() && self.in_window.wf() && self.streams.wf()
    }

    /// A connection being established, with default windows and no streams.
    pub fn new(role: ClientOrServer, max_concurrent: u32, reconnect: bool) -> (r: Connection)
        ensures
            r.wf(),
            r.phase == ConnPhase::Connecting,
            r.streams@.len() == 0,
            r.streams.role_spec() == role,
            r.streams.max_concurrent_spec() == max_concurrent,
            r.out_window.available == DEFAULT_INITIAL_WINDOW_SIZE,
            r.in_window.available == DEFAULT_INITIAL_WINDOW_SIZE,
            r.reconnect == reconnect,
            r.pending@.len() == 0,
            r.max_frame_size == DEFAULT_MAX_FRAME_SIZE,
    {
        Connection {
            phase: ConnPhase::Connecting,
            out_window: WindowTracker::new(DEFAULT_INITIAL_WINDOW_SIZE),
            in_window: InWindow::new(DEFAULT_INITIAL_WINDOW_SIZE),
            streams: StreamTable::new(
                role,
                max_concurrent,
                DEFAULT_INITIAL_WINDOW_SIZE,
                DEFAULT_INITIAL_WINDOW_SIZE,
            ),
            reconnect,
            pending: Vec::new(),
            max_frame_size: DEFAULT_MAX_FRAME_SIZE,
        }
    }

    /// A request from the application. On an established connection it gets
    /// a stream at once where the concurrency limit allows; otherwise it
    /// waits in `pending`, unless the connection takes no new streams.
    pub fn submit(&mut self, req: PendingRequest) -> (r: Result<Option<u32>, ConnError>)
        requires
            old(self).wf(),
        ensures
            final(self).wf(),
            final(self).phase == old(self).phase,
            final(self).reconnect == old(self).reconnect,
            final(self).out_window == old(self).out_window,
            final(self).in_window == old(self).in_window,
            match r {
                Ok(Some(id)) => {
                    &&& old(self).phase == ConnPhase::Established
                    &&& id == old(self).streams.next_id_spec()
                    &&& final(self).streams.ids() == old(self).streams.ids().push(id)
                    &&& final(self).pending@ == old(self).pending@
                },
                Ok(None) => {
                    &&& (old(self).phase == ConnPhase::Connecting || (old(self).phase
                        == ConnPhase::Established && old(self).streams@.len()
                        >= old(self).streams.max_concurrent_spec()) || (old(self).phase
                        == ConnPhase::Draining && old(self).reconnect))
                    &&& final(self).streams@ == old(self).streams@
                    &&& final(self).pending@ == old(self).pending@.push(req)
                },
                Err(e) => {
                    &&& match e {
                        ConnError::ConnectionLost => old(self).phase == ConnPhase::Terminated,
                        ConnError::GoingAway => old(self).phase == ConnPhase::Draining
                            && !old(self).reconnect,
                        ConnError::StreamIdsExhausted => old(self).phase
                            == ConnPhase::Established && old(self).streams.next_id_spec()
                            > crate::stream::MAX_STREAM_ID,
                    }
                    &&& final(self).streams@ == old(self).streams@
                    &&& final(self).pending@ == old(self).pending@
                },
            },
    {
        match self.phase {
            ConnPhase::Terminated => Err(ConnError::ConnectionLost),
            ConnPhase::Draining => {
                if self.reconnect {
                    self.pending.push(req);
                    Ok(None)
                } else {
                    Err(ConnError::GoingAway)
                }
            },
            ConnPhase::Connecting => {
                self.pending.push(req);
                Ok(None)
            },
            ConnPhase::Established => {
                match self.streams.open_stream(req.end_stream) {
                    Ok(id) => {
                        Ok(Some(id))
                    },
                    Err(StreamError::ConcurrencyLimitExceeded) => {
                        self.pending.push(req);
                        Ok(None)
                    },
                    Err(_) => Err(ConnError::StreamIdsExhausted),
                }
            },
        }
    }

    /// SETTINGS from the peer gave a maximum frame size. Values outside the
    /// protocol's range are refused, changing nothing.
    pub fn set_max_frame_size(&mut self, size: u32) -> (r: bool)
        ensures
            r == (DEFAULT_MAX_FRAME_SIZE <= size <= MAX_MAX_FRAME_SIZE),
            final(self).max_frame_size == (if r {
                size
            } else {
                old(self).max_frame_size
            }),
            final(self).streams@ == old(self).streams@,
            final(self).out_window == old(self).out_window,
    {
        if DEFAULT_MAX_FRAME_SIZE <= size && size <= MAX_MAX_FRAME_SIZE {
            self.max_frame_size = size;
            true
        } else {
            false
        }
    }

    /// A WINDOW_UPDATE for the whole connection.
    pub fn on_window_update(&mut self, increment: u32) -> (r: Result<(), WindowError>)
        requires
            old(self).wf(),
        ensures
            final(self).wf(),
            r is Ok <==> old(self).out_window.grant_fits(increment as i64),
            final(self).out_window == old(self).out_window.after_grant(increment as i64),
            final(self).streams@ == old(self).streams@,
    {
        self.out_window.grant(increment as i64)
    }

    /// One turn of the outbound pump for stream `id`, against this
    /// connection's window and frame size.
    pub fn pump_stream<B: Chunk>(&mut self, id: u32, queue: &mut BufVecDeque<B>) -> (r: Option<
        PumpStep<B>,
    >)
        requires
            old(self).wf(),
            old(queue).wf(),
        ensures
            final(self).wf(),
            final(queue).wf(),
            !old(self).streams.ids().contains(id) ==> r is None && final(self).streams@ == old(self).streams@ && final(queue)@ == old(queue)@ && final(self).out_window == old(self).out_window,
            forall|i: int|
                0 <= i < old(self).streams@.len() && old(self).streams@[i].id == id ==> {
                    let e = old(self).streams@[i];
                    exists|w: crate::window::WindowTracker|
                        {
                            &&& final(self).streams@ == old(self).streams@.update(
                                i,
                                crate::stream::StreamEntry { out_window: w, ..e },
                            )
                            &&& r matches Some(step) && pump_result(
                                *old(queue),
                                old(self).out_window,
                                e.out_window,
                                old(self).max_frame_size,
                                step,
                                *final(queue),
                                final(self).out_window,
                                w,
                            )
                        }
                },
    {
        self.streams.pump_stream(id, queue, &mut self.out_window, self.max_frame_size)
    }

    /// `n` bytes of DATA from the peer on stream `id`. They count against the
    /// connection's inbound window first, even where the stream then refuses
    /// them; data beyond that window is refused and changes nothing.
    pub fn on_data(&mut self, id: u32, n: u32, end_stream: bool) -> (r: Result<
        Option<StreamEnd>,
        StreamError,
    >)
        requires
            old(self).wf(),
        ensures
            final(self).wf(),
            n > old(self).in_window.available ==> r == Err::<Option<StreamEnd>, StreamError>(
                StreamError::FlowControlOverflow,
            ) && final(self).in_window == old(self).in_window && final(self).streams@ == old(self).streams@,
            n <= old(self).in_window.available ==> final(self).in_window.available == old(self).in_window.available - n && final(self).in_window.unacked
                == old(self).in_window.unacked && data_result(
                old(self).streams@,
                id,
                n,
                end_stream,
                r,
                final(self).streams@,
            ),
            final(self).out_window == old(self).out_window,
    {
        if !self.in_window.consume_inbound(n) {
            return Err(StreamError::FlowControlOverflow);
        }
        self.streams.on_data(id, n, end_stream)
    }

    /// The peer sent GOAWAY: the connection drains.
    pub fn on_goaway(&mut self)
        ensures
            final(self).phase == (if old(self).phase == ConnPhase::Terminated {
                ConnPhase::Terminated
            } else {
                ConnPhase::Draining
            }),
            final(self).streams@ == old(self).streams@,
            final(self).pending@ == old(self).pending@,
    {
        if self.phase != ConnPhase::Terminated {
            self.phase = ConnPhase::Draining;
        }
    }

    /// The physical connection is gone. Every live stream ends, and its
    /// identifier is returned once so that its owner is failed exactly once;
    /// requests still pending stay for the next connection. With reconnection
    /// the connection is being established again; without it, it is over.
    pub fn on_disconnect(&mut self) -> (r: Vec<u32>)
        requires
            old(self).wf(),
        ensures
            final(self).wf(),
            disconnect_result(*old(self), r@, *final(self)),
            final(self).out_window.available == DEFAULT_INITIAL_WINDOW_SIZE,
            final(self).out_window.in_flight == 0,
            final(self).in_window.available == DEFAULT_INITIAL_WINDOW_SIZE,
            final(self).in_window.unacked == 0,
    {
        let failed = self.streams.on_disconnect();
        self.out_window = WindowTracker::new(DEFAULT_INITIAL_WINDOW_SIZE);
        self.in_window = InWindow::new(DEFAULT_INITIAL_WINDOW_SIZE);
        self.phase = if self.reconnect {
            ConnPhase::Connecting
        } else {
            ConnPhase::Terminated
        };
        failed
    }

    /// The connection is established: pending requests get streams, oldest
    /// first, until the table refuses one. Returns each admitted request's
    /// token with its stream identifier.
    pub fn on_established(&mut self) -> (r: Vec<(u64, u32)>)
        requires
            old(self).wf(),
            old(self).phase == ConnPhase::Connecting,
        ensures
            final(self).wf(),
            established_result(*old(self), r@, *final(self)),
    {
        self.phase = ConnPhase::Established;
        let mut admitted: Vec<(u64, u32)> = Vec::new();
        let mut i: usize = 0;
        let n = self.pending.len();
        let mut stopped = false;
        while i < n && !stopped
            invariant
                self.wf(),
                self.phase == ConnPhase::Established,
                self.pending@ == old(self).pending@,
                n == self.pending@.len(),
                i <= n,
                admitted@.len() == i,
                admitted_tokens(admitted@) == tokens_of(old(self).pending@.take(i as int)),
                self.streams.ids() == old(self).streams.ids() + admitted_ids(admitted@),
                self.streams.max_concurrent_spec() == old(self).streams.max_concurrent_spec(),
                stopped ==> self.streams@.len() >= self.streams.max_concurrent_spec()
                    || self.streams.next_id_spec() > crate::stream::MAX_STREAM_ID,
            decreases n - i + (if stopped { 0int } else { 1int }),
        {
            let req = self.pending[i];
            let ghost before = admitted@;
            match self.streams.open_stream(req.end_stream) {
                Ok(id) => {
                    admitted.push((req.token, id));
                    i = i + 1;
                    proof {
                        assert(admitted_ids(admitted@) =~= admitted_ids(before).push(id));
                        assert(admitted_tokens(admitted@) =~= admitted_tokens(before).push(
                            req.token,
                        ));
                        assert(tokens_of(old(self).pending@.take(i as int)) =~= tokens_of(
                            old(self).pending@.take(i - 1),
                        ).push(old(self).pending@[i - 1].token));
                    }
                },
                Err(_) => {
                    stopped = true;
                },
            }
        }
        let rest = self.pending.split_off(i);
        self.pending = rest;
        admitted
    }
}

/// The tokens of `reqs`, in order.
pub open spec fn tokens_of(reqs: Seq<PendingRequest>) -> Seq<u64> {
    reqs.map_values(|p: PendingRequest| p.token)
}

/// The tokens of `admitted`, in order.
pub open spec fn admitted_tokens(admitted: Seq<(u64, u32)>) -> Seq<u64> {
    admitted.map_values(|p: (u64, u32)| p.0)
}

/// What a disconnect of `c0` gives: the identifiers of the streams it ends,
/// and the connection after.
pub open spec fn disconnect_result(c0: Connection, failed: Seq<u32>, c1: Connection) -> bool {
    &&& failed == c0.streams.ids()
    &&& c1.streams@.len() == 0
    &&& c1.streams.next_id_spec() == c0.streams.role_spec().first_id_spec()
    &&& c1.streams.role_spec() == c0.streams.role_spec()
    &&& c1.streams.max_concurrent_spec() == c0.streams.max_concurrent_spec()
    &&& c1.pending@ == c0.pending@
    &&& c1.reconnect == c0.reconnect
    &&& c1.phase == (if c0.reconnect {
        ConnPhase::Connecting
    } else {
        ConnPhase::Terminated
    })
}

/// What establishing `c0` gives: the requests admitted, with their streams,
/// and the connection after.
pub open spec fn established_result(c0: Connection, admitted: Seq<(u64, u32)>, c1: Connection) -> bool {
    &&& c1.phase == ConnPhase::Established
    &&& admitted.len() <= c0.pending@.len()
    &&& admitted_tokens(admitted) == tokens_of(c0.pending@.take(admitted.len() as int))
    &&& c1.pending@ == c0.pending@.skip(admitted.len() as int)
    &&& c1.streams.ids() == c0.streams.ids() + admitted_ids(admitted)
    &&& c1.streams.max_concurrent_spec() == c0.streams.max_concurrent_spec()
    &&& admitted.len() < c0.pending@.len() ==> c1.streams@.len()
        >= c1.streams.max_concurrent_spec() || c1.streams.next_id_spec()
        > crate::stream::MAX_STREAM_ID
}

/// A disconnect followed by the reconnect: each stream of the old connection
/// is reported once, the table then holds only the streams of the new one,
/// and each request that was pending is either admitted, once, or still
/// pending, in the order it came.
pub proof fn lemma_reconnect_cycle(
    c0: Connection,
    failed: Seq<u32>,
    c1: Connection,
    admitted: Seq<(u64, u32)>,
    c2: Connection,
)
    requires
        c0.wf(),
        c0.reconnect,
        disconnect_result(c0, failed, c1),
        established_result(c1, admitted, c2),
    ensures
        failed == c0.streams.ids(),
        failed.no_duplicates(),
        c1.phase == ConnPhase::Connecting,
        c2.streams.ids() == admitted_ids(admitted),
        admitted_tokens(admitted) + tokens_of(c2.pending@) == tokens_of(c0.pending@),
{
    c0.streams.lemma_ids_unique();
    assert(c1.streams.ids() =~= Seq::<u32>::empty());
    assert(c2.streams.ids() =~= admitted_ids(admitted));
    let k = admitted.len() as int;
    assert(c0.pending@ =~= c0.pending@.take(k) + c0.pending@.skip(k));
    assert(tokens_of(c0.pending@) =~= tokens_of(c0.pending@.take(k)) + tokens_of(
        c0.pending@.skip(k),
    ));
}

} // verus!
