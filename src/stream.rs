//! Streams of one connection: identifier allocation by role, per-stream
//! state and flow-control windows, and the table that holds them.

use vstd::prelude::*;

use crate::buf_vec_deque::BufVecDeque;
use crate::chunk::Chunk;
use crate::pump::pump_result;
use crate::pump::pump_step;
use crate::pump::PumpStep;
use crate::window::InWindow;
use crate::window::WindowError;
use crate::window::WindowTracker;
use crate::window::MAX_WINDOW_SIZE;

verus! {

/// The largest stream identifier: 2^31 - 1.
pub const MAX_STREAM_ID: u32 = 2147483647;

/// Which side of the connection this end plays. Clients open streams with
/// odd identifiers, servers with even ones.
#[derive(Debug, Clone, Copy, PartialEq, Eq, Structural)]
pub enum ClientOrServer {
    Client,
    Server,
}

impl ClientOrServer {
    pub open spec fn first_id_spec(self) -> u32 {
        match self {
            ClientOrServer::Client => 1,
            ClientOrServer::Server => 2,
        }
    }

    /// The identifier of the first stream this side opens.
    pub fn first_stream_id(&self) -> (r: u32)
        ensures
            r == self.first_id_spec(),
    {
        match self {
            ClientOrServer::Client => 1,
            ClientOrServer::Server => 2,
        }
    }
}

#[derive(Debug, Clone, Copy, PartialEq, Eq, Structural)]
pub enum StreamState {
    Open,
    /// This side has sent END_STREAM.
    HalfClosedLocal,
    /// The peer has sent END_STREAM.
    HalfClosedRemote,
}

/// How a stream ended, as reported to its owner.
#[derive(Debug, Clone, Copy, PartialEq, Eq, Structural)]
pub enum StreamEnd {
    Completed,
    ResetByPeer(u32),
    ResetBySelf(u32),
    ConnectionLost,
}

#[derive(Debug, Clone, Copy, PartialEq, Eq, Structural)]
pub enum StreamError {
    FlowControlOverflow,
    ConcurrencyLimitExceeded,
    InvalidStateTransition,
    StreamIdsExhausted,
}

#[derive(Debug, Clone, Copy, PartialEq, Eq, Structural)]
pub struct StreamEntry {
    pub id: u32,
    pub state: StreamState,
    pub out_window: WindowTracker,
    pub in_window: InWindow,
}

impl StreamEntry {
    pub open spec fn wf(&self) -> bool {
        self.out_window.wf() && self.in_window.wf()
    }
}

/// The live streams of a connection, each identifier at most once.
pub struct StreamTable {
    role: ClientOrServer,
    entries: Vec<StreamEntry>,
    next_id: u32,
    max_concurrent: u32,
    initial_out: u32,
    initial_in: u32,
}

/// The identifiers of `s`, in order.
pub open spec fn ids_of(s: Seq<StreamEntry>) -> Seq<u32> {
    s.map_values(|e: StreamEntry| e.id)
}

impl View for StreamTable {
    type V = Seq<StreamEntry>;

    closed spec fn view(&self) -> Seq<StreamEntry> {
        self.entries@
    }
}

impl StreamTable {
    pub closed spec fn wf(&self) -> bool {
        &&& self.next_id % 2 == self.role.first_id_spec() % 2
        &&& self.next_id >= self.role.first_id_spec()
        &&& self.initial_out <= MAX_WINDOW_SIZE
        &&& self.initial_in <= MAX_WINDOW_SIZE
        &&& forall|i: int|
            0 <= i < self.entries@.len() ==> {
                &&& (#[trigger] self.entries@[i]).wf()
                &&& self.entries@[i].id < self.next_id
                &&& self.entries@[i].id % 2 == self.role.first_id_spec() % 2
            }
        &&& forall|i: int, j: int|
            0 <= i < j < self.entries@.len() ==> #[trigger] self.entries@[i].id
                != #[trigger] self.entries@[j].id
    }

    pub closed spec fn role_spec(&self) -> ClientOrServer {
        self.role
    }

    /// The identifier the next stream opened will get.
    pub closed spec fn next_id_spec(&self) -> u32 {
        self.next_id
    }

    pub closed spec fn max_concurrent_spec(&self) -> u32 {
        self.max_concurrent
    }

    pub closed spec fn initial_out_spec(&self) -> u32 {
        self.initial_out
    }

    pub closed spec fn initial_in_spec(&self) -> u32 {
        self.initial_in
    }

    pub open spec fn ids(&self) -> Seq<u32> {
        ids_of(self@)
    }

    /// An empty table for one side of a fresh connection. Streams opened get
    /// windows of the given initial sizes.
    pub fn new(role: ClientOrServer, max_concurrent: u32, initial_out: u32, initial_in: u32) -> (r:
        StreamTable)
        requires
            initial_out <= MAX_WINDOW_SIZE,
            initial_in <= MAX_WINDOW_SIZE,
        ensures
            r.wf(),
            r@ == Seq::<StreamEntry>::empty(),
            r.role_spec() == role,
            r.next_id_spec() == role.first_id_spec(),
            r.max_concurrent_spec() == max_concurrent,
            r.initial_out_spec() == initial_out,
            r.initial_in_spec() == initial_in,
    {
        StreamTable {
            role,
            entries: Vec::new(),
            next_id: role.first_stream_id(),
            max_concurrent,
            initial_out,
            initial_in,
        }
    }

    /// The number of live streams.
    pub fn len(&self) -> (r: usize)
        ensures
            r == self@.len(),
    {
        self.entries.len()
    }

    /// The position of stream `id` in the table.
    pub fn find(&self, id: u32) -> (r: Option<usize>)
        requires
            self.wf(),
        ensures
            match r {
                Some(i) => i < self@.len() && self@[i as int].id == id,
                None => !self.ids().contains(id),
            },
    {
        let mut i: usize = 0;
        while i < self.entries.len()
            invariant
                i <= self.entries@.len(),
                forall|k: int| 0 <= k < i ==> (#[trigger] self.entries@[k]).id != id,
            decreases self.entries@.len() - i,
        {
            if self.entries[i].id == id {
                return Some(i);
            }
            i = i + 1;
        }
        proof {
            if self.ids().contains(id) {
                let k = choose|k: int| 0 <= k < self.ids().len() && self.ids()[k] == id;
                assert(self.entries@[k].id == id);
            }
        }
        None
    }

    /// Opens a stream of this side's parity with the next identifier. Its
    /// state is half-closed (local) where the opening HEADERS carried
    /// END_STREAM.
    pub fn open_stream(&mut self, end_stream: bool) -> (r: Result<u32, StreamError>)
        requires
            old(self).wf(),
        ensures
            final(self).wf(),
            final(self).role_spec() == old(self).role_spec(),
            final(self).max_concurrent_spec() == old(self).max_concurrent_spec(),
            match r {
                Ok(id) => {
                    &&& old(self)@.len() < old(self).max_concurrent_spec()
                    &&& old(self).next_id_spec() <= MAX_STREAM_ID
                    &&& id == old(self).next_id_spec()
                    &&& final(self).next_id_spec() == id + 2
                    &&& final(self).ids() == old(self).ids().push(id)
                    &&& final(self)@ == old(self)@.push(
                        StreamEntry {
                            id,
                            state: if end_stream {
                                StreamState::HalfClosedLocal
                            } else {
                                StreamState::Open
                            },
                            out_window: WindowTracker {
                                available: old(self).initial_out_spec() as i64,
                                in_flight: 0,
                            },
                            in_window: InWindow {
                                available: old(self).initial_in_spec() as i64,
                                unacked: 0,
                            },
                        },
                    )
                },
                Err(e) => {
                    &&& e == if old(self)@.len() >= old(self).max_concurrent_spec() {
                        StreamError::ConcurrencyLimitExceeded
                    } else {
                        StreamError::StreamIdsExhausted
                    }
                    &&& (old(self)@.len() >= old(self).max_concurrent_spec()
                        || old(self).next_id_spec() > MAX_STREAM_ID)
                    &&& final(self)@ == old(self)@
                    &&& final(self).next_id_spec() == old(self).next_id_spec()
                },
            },
    {
        if self.entries.len() >= self.max_concurrent as usize {
            return Err(StreamError::ConcurrencyLimitExceeded);
        }
        if self.next_id > MAX_STREAM_ID {
            return Err(StreamError::StreamIdsExhausted);
        }
        let id = self.next_id;
        let state = if end_stream {
            StreamState::HalfClosedLocal
        } else {
            StreamState::Open
        };
        let entry = StreamEntry {
            id,
            state,
            out_window: WindowTracker::new(self.initial_out),
            in_window: InWindow::new(self.initial_in),
        };
        self.entries.push(entry);
        self.next_id = id + 2;
        assert(self.ids() =~= old(self).ids().push(id));
        Ok(id)
    }

    /// A HEADERS block from the peer. An informational block leaves the
    /// stream as it is; a final one with END_STREAM ends the peer's side.
    pub fn on_headers(&mut self, id: u32, informational: bool, end_stream: bool) -> (r: Result<
        Option<StreamEnd>,
        StreamError,
    >)
        requires
            old(self).wf(),
        ensures
            final(self).wf(),
            final(self).same_settings(*old(self)),
            !old(self).ids().contains(id) ==> r == Err::<Option<StreamEnd>, StreamError>(
                StreamError::InvalidStateTransition,
            ) && final(self)@ == old(self)@,
            forall|i: int|
                0 <= i < old(self)@.len() && old(self)@[i].id == id ==> {
                    if old(self)@[i].state == StreamState::HalfClosedRemote {
                        r == Err::<Option<StreamEnd>, StreamError>(
                            StreamError::InvalidStateTransition,
                        ) && final(self)@ == old(self)@
                    } else if informational || !end_stream {
                        r == Ok::<Option<StreamEnd>, StreamError>(None) && final(self)@ == old(self)@
                    } else {
                        close_remote_result(old(self)@, i, r, final(self)@)
                    }
                },
    {
        proof {
            lemma_ids_of(self@);
        }
        match self.find(id) {
            None => Err(StreamError::InvalidStateTransition),
            Some(i) => {
                proof {
                    self.lemma_unique_index(i as int);
                }
                if self.entries[i].state == StreamState::HalfClosedRemote {
                    Err(StreamError::InvalidStateTransition)
                } else if informational || !end_stream {
                    Ok(None)
                } else {
                    self.close_remote_at(i)
                }
            },
        }
    }

    /// `n` bytes of DATA from the peer, counted against the stream's inbound
    /// window; END_STREAM ends the peer's side.
    pub fn on_data(&mut self, id: u32, n: u32, end_stream: bool) -> (r: Result<
        Option<StreamEnd>,
        StreamError,
    >)
        requires
            old(self).wf(),
        ensures
            final(self).wf(),
            final(self).same_settings(*old(self)),
            data_result(old(self)@, id, n, end_stream, r, final(self)@),
    {
        proof {
            lemma_ids_of(self@);
        }
        match self.find(id) {
            None => Err(StreamError::InvalidStateTransition),
            Some(i) => {
                proof {
                    self.lemma_unique_index(i as int);
                }
                let mut e = self.entries[i];
                if e.state == StreamState::HalfClosedRemote {
                    return Err(StreamError::InvalidStateTransition);
                }
                if !e.in_window.consume_inbound(n) {
                    return Err(StreamError::FlowControlOverflow);
                }
                self.replace_at(i, e);
                if end_stream {
                    self.close_remote_at(i)
                } else {
                    Ok(None)
                }
            },
        }
    }

    /// A WINDOW_UPDATE of `increment` for the stream. Returns false where the
    /// stream is not in the table, which is no error.
    pub fn on_window_update(&mut self, id: u32, increment: u32) -> (r: Result<bool, StreamError>)
        requires
            old(self).wf(),
        ensures
            final(self).wf(),
            final(self).same_settings(*old(self)),
            !old(self).ids().contains(id) ==> r == Ok::<bool, StreamError>(false) && final(self)@ == old(self)@,
            forall|i: int|
                0 <= i < old(self)@.len() && old(self)@[i].id == id ==> {
                    let e = old(self)@[i];
                    if e.out_window.grant_fits(increment as i64) {
                        r == Ok::<bool, StreamError>(true) && final(self)@ == old(self)@.update(
                            i,
                            StreamEntry {
                                out_window: e.out_window.after_grant(increment as i64),
                                ..e
                            },
                        )
                    } else {
                        r == Err::<bool, StreamError>(StreamError::FlowControlOverflow)
                            && final(self)@ == old(self)@
                    }
                },
    {
        proof {
            lemma_ids_of(self@);
        }
        match self.find(id) {
            None => Ok(false),
            Some(i) => {
                proof {
                    self.lemma_unique_index(i as int);
                }
                let mut e = self.entries[i];
                match e.out_window.grant(increment as i64) {
                    Ok(()) => {
                        self.replace_at(i, e);
                        Ok(true)
                    },
                    Err(_) => Err(StreamError::FlowControlOverflow),
                }
            },
        }
    }

    /// Removes stream `id`, returning `end` where it was in the table.
    fn remove_with(&mut self, id: u32, end: StreamEnd) -> (r: Option<StreamEnd>)
        requires
            old(self).wf(),
        ensures
            final(self).wf(),
            final(self).same_settings(*old(self)),
            removed(old(self)@, id, final(self)@),
            r == (if old(self).ids().contains(id) {
                Some(end)
            } else {
                None::<StreamEnd>
            }),
    {
        proof {
            lemma_ids_of(self@);
        }
        match self.find(id) {
            None => None,
            Some(i) => {
                proof {
                    self.lemma_unique_index(i as int);
                    assert(self.ids()[i as int] == id);
                }
                self.remove_at(i);
                Some(end)
            },
        }
    }

    /// RST_STREAM from the peer: the stream ends at once, reset with `code`.
    pub fn on_rst_stream(&mut self, id: u32, code: u32) -> (r: Option<StreamEnd>)
        requires
            old(self).wf(),
        ensures
            final(self).wf(),
            final(self).same_settings(*old(self)),
            removed(old(self)@, id, final(self)@),
            !final(self).ids().contains(id),
            r == (if old(self).ids().contains(id) {
                Some(StreamEnd::ResetByPeer(code))
            } else {
                None::<StreamEnd>
            }),
    {
        let r = self.remove_with(id, StreamEnd::ResetByPeer(code));
        proof {
            self.lemma_removed_absent(old(self)@, id);
        }
        r
    }

    /// This side resets the stream with `code`.
    pub fn reset_stream(&mut self, id: u32, code: u32) -> (r: Option<StreamEnd>)
        requires
            old(self).wf(),
        ensures
            final(self).wf(),
            final(self).same_settings(*old(self)),
            removed(old(self)@, id, final(self)@),
            !final(self).ids().contains(id),
            r == (if old(self).ids().contains(id) {
                Some(StreamEnd::ResetBySelf(code))
            } else {
                None::<StreamEnd>
            }),
    {
        let r = self.remove_with(id, StreamEnd::ResetBySelf(code));
        proof {
            self.lemma_removed_absent(old(self)@, id);
        }
        r
    }

    /// The connection is gone: every live stream ends with
    /// `StreamEnd::ConnectionLost` and the table starts over as for a new
    /// connection. Returns the identifiers of the streams that ended.
    pub fn on_disconnect(&mut self) -> (r: Vec<u32>)
        requires
            old(self).wf(),
        ensures
            final(self).wf(),
            r@ == old(self).ids(),
            final(self)@.len() == 0,
            final(self).role_spec() == old(self).role_spec(),
            final(self).next_id_spec() == old(self).role_spec().first_id_spec(),
            final(self).max_concurrent_spec() == old(self).max_concurrent_spec(),
            final(self).initial_out_spec() == old(self).initial_out_spec(),
            final(self).initial_in_spec() == old(self).initial_in_spec(),
    {
        let mut ids: Vec<u32> = Vec::new();
        let mut i: usize = 0;
        while i < self.entries.len()
            invariant
                i <= self.entries@.len(),
                ids@ == ids_of(self.entries@.take(i as int)),
            decreases self.entries@.len() - i,
        {
            ids.push(self.entries[i].id);
            i = i + 1;
            assert(ids@ =~= ids_of(self.entries@.take(i as int)));
        }
        assert(self.entries@.take(i as int) =~= self.entries@);
        self.entries = Vec::new();
        self.next_id = self.role.first_stream_id();
        ids
    }

    /// No identifier is in the table twice.
    pub proof fn lemma_ids_unique(&self)
        requires
            self.wf(),
        ensures
            self.ids().no_duplicates(),
    {
        lemma_ids_of(self@);
        assert forall|i: int, j: int|
            0 <= i < self.ids().len() && 0 <= j < self.ids().len() && i != j implies self.ids()[i]
            != self.ids()[j] by {
            if i < j {
                assert(self.entries@[i].id != self.entries@[j].id);
            } else {
                assert(self.entries@[j].id != self.entries@[i].id);
            }
        }
    }

    /// The entry at `i` is the only one with its identifier.
    proof fn lemma_unique_index(&self, i: int)
        requires
            self.wf(),
            0 <= i < self@.len(),
        ensures
            forall|j: int| 0 <= j < self@.len() && self@[j].id == self@[i].id ==> j == i,
    {
        assert forall|j: int| 0 <= j < self@.len() && self@[j].id == self@[i].id implies j
            == i by {
            if j < i {
                assert(self.entries@[j].id != self.entries@[i].id);
            } else if i < j {
                assert(self.entries@[i].id != self.entries@[j].id);
            }
        }
    }

    /// After `id` was removed from `before`, it is not in the table.
    proof fn lemma_removed_absent(&self, before: Seq<StreamEntry>, id: u32)
        requires
            self.wf(),
            removed(before, id, self@),
            forall|i: int, j: int|
                0 <= i < j < before.len() ==> #[trigger] before[i].id != #[trigger] before[j].id,
        ensures
            !self.ids().contains(id),
    {
        if self.ids().contains(id) {
            let k = choose|k: int| 0 <= k < self.ids().len() && self.ids()[k] == id;
            assert(self@[k].id == id);
            if exists|i: int| 0 <= i < before.len() && before[i].id == id && self@ == before.remove(i) {
                let i = choose|i: int| 0 <= i < before.len() && before[i].id == id && self@ == before.remove(i);
                if k < i {
                    assert(before[k].id == id);
                } else {
                    assert(before[k + 1].id == id);
                }
            } else {
                assert(self@ == before);
                assert(before[k].id == id);
                assert(ids_of(before)[k] == id);
            }
        }
    }

    /// This side has sent END_STREAM on stream `id`: a stream whose peer side
    /// had ended is complete and leaves the table.
    pub fn close_local(&mut self, id: u32) -> (r: Result<Option<StreamEnd>, StreamError>)
        requires
            old(self).wf(),
        ensures
            final(self).wf(),
            final(self).same_settings(*old(self)),
            !old(self).ids().contains(id) ==> r == Err::<Option<StreamEnd>, StreamError>(
                StreamError::InvalidStateTransition,
            ) && final(self)@ == old(self)@,
            forall|i: int|
                0 <= i < old(self)@.len() && old(self)@[i].id == id ==> {
                    let e = old(self)@[i];
                    match e.state {
                        StreamState::Open => r == Ok::<Option<StreamEnd>, StreamError>(None)
                            && final(self)@ == old(self)@.update(
                            i,
                            StreamEntry { state: StreamState::HalfClosedLocal, ..e },
                        ),
                        StreamState::HalfClosedRemote => r == Ok::<
                            Option<StreamEnd>,
                            StreamError,
                        >(Some(StreamEnd::Completed)) && final(self)@ == old(self)@.remove(i),
                        StreamState::HalfClosedLocal => r == Err::<Option<StreamEnd>, StreamError>(
                            StreamError::InvalidStateTransition,
                        ) && final(self)@ == old(self)@,
                    }
                },
    {
        proof {
            lemma_ids_of(self@);
        }
        match self.find(id) {
            None => Err(StreamError::InvalidStateTransition),
            Some(i) => {
                proof {
                    self.lemma_unique_index(i as int);
                }
                let e = self.entries[i];
                match e.state {
                    StreamState::Open => {
                        self.replace_at(i, StreamEntry { state: StreamState::HalfClosedLocal, ..e });
                        Ok(None)
                    },
                    StreamState::HalfClosedRemote => {
                        self.remove_at(i);
                        Ok(Some(StreamEnd::Completed))
                    },
                    StreamState::HalfClosedLocal => Err(StreamError::InvalidStateTransition),
                }
            },
        }
    }

    /// One turn of the outbound pump for stream `id`, whose queued bytes are
    /// `queue`, against the connection's window `conn`. `None` where the
    /// stream is not in the table.
    pub fn pump_stream<B: Chunk>(
        &mut self,
        id: u32,
        queue: &mut BufVecDeque<B>,
        conn: &mut WindowTracker,
        max_frame: u32,
    ) -> (r: Option<PumpStep<B>>)
        requires
            old(self).wf(),
            old(queue).wf(),
            old(conn).wf(),
        ensures
            final(self).wf(),
            final(self).same_settings(*old(self)),
            final(queue).wf(),
            final(conn).wf(),
            !old(self).ids().contains(id) ==> r is None && final(self)@ == old(self)@ && final(queue)@ == old(queue)@ && *final(conn) == *old(conn),
            forall|i: int|
                0 <= i < old(self)@.len() && old(self)@[i].id == id ==> {
                    let e = old(self)@[i];
                    exists|w: WindowTracker|
                        {
                            &&& final(self)@ == old(self)@.update(i, StreamEntry { out_window: w, ..e })
                            &&& r matches Some(step) && pump_result(
                                *old(queue),
                                *old(conn),
                                e.out_window,
                                max_frame,
                                step,
                                *final(queue),
                                *final(conn),
                                w,
                            )
                        }
                },
    {
        proof {
            lemma_ids_of(self@);
        }
        match self.find(id) {
            None => None,
            Some(i) => {
                proof {
                    self.lemma_unique_index(i as int);
                }
                let mut e = self.entries[i];
                let step = pump_step(queue, conn, &mut e.out_window, max_frame);
                self.replace_at(i, e);
                Some(step)
            },
        }
    }

    /// SETTINGS changed the initial window size of streams this side sends
    /// on: every live stream's outbound window moves by the difference, and
    /// streams opened later start from `size`. Fails, changing nothing, where
    /// a window would leave the protocol's bounds.
    pub fn set_initial_out_window(&mut self, size: u32) -> (r: Result<(), StreamError>)
        requires
            old(self).wf(),
        ensures
            final(self).wf(),
            ({
                let delta = size - old(self).initial_out_spec();
                let fits = size <= MAX_WINDOW_SIZE && forall|i: int|
                    0 <= i < old(self)@.len() ==> (#[trigger] old(self)@[i]).out_window.grant_fits(
                        delta as i64,
                    );
                &&& r is Ok <==> fits
                &&& r matches Err(e) ==> e == StreamError::FlowControlOverflow && final(self)@ == old(self)@
                    && final(self).same_settings(*old(self))
                &&& r is Ok ==> {
                    &&& final(self)@.len() == old(self)@.len()
                    &&& forall|i: int|
                        0 <= i < old(self)@.len() ==> #[trigger] final(self)@[i] == (StreamEntry {
                            out_window: old(self)@[i].out_window.after_grant(delta as i64),
                            ..old(self)@[i]
                        })
                    &&& final(self).initial_out_spec() == size
                    &&& final(self).role_spec() == old(self).role_spec()
                    &&& final(self).next_id_spec() == old(self).next_id_spec()
                    &&& final(self).max_concurrent_spec() == old(self).max_concurrent_spec()
                    &&& final(self).initial_in_spec() == old(self).initial_in_spec()
                }
            }),
    {
        if size as i64 > MAX_WINDOW_SIZE {
            return Err(StreamError::FlowControlOverflow);
        }
        let delta: i64 = size as i64 - self.initial_out as i64;
        let n = self.entries.len();
        let mut i: usize = 0;
        while i < n
            invariant
                n == self.entries@.len(),
                i <= n,
                self.wf(),
                -MAX_WINDOW_SIZE <= delta <= MAX_WINDOW_SIZE,
                delta == size - self.initial_out,
                forall|k: int| 0 <= k < i ==> (#[trigger] self.entries@[k]).out_window.grant_fits(delta),
            decreases n - i,
        {
            let w = self.entries[i].out_window;
            if delta > MAX_WINDOW_SIZE - w.available || delta < -MAX_WINDOW_SIZE - w.available {
                return Err(StreamError::FlowControlOverflow);
            }
            i = i + 1;
        }
        let mut j: usize = 0;
        while j < n
            invariant
                n == self.entries@.len(),
                n == old(self).entries@.len(),
                j <= n,
                self.wf(),
                self.same_settings(*old(self)),
                -MAX_WINDOW_SIZE <= delta <= MAX_WINDOW_SIZE,
                delta == size - old(self).initial_out,
                forall|k: int| 0 <= k < n ==> (#[trigger] old(self).entries@[k]).out_window.grant_fits(delta),
                forall|k: int| j <= k < n ==> #[trigger] self.entries@[k] == old(self).entries@[k],
                forall|k: int| 0 <= k < j ==> #[trigger] self.entries@[k] == (StreamEntry {
                    out_window: old(self).entries@[k].out_window.after_grant(delta),
                    ..old(self).entries@[k]
                }),
            decreases n - j,
        {
            let mut e = self.entries[j];
            let _ = e.out_window.grant(delta);
            self.replace_at(j, e);
            j = j + 1;
        }
        self.initial_out = size;
        Ok(())
    }

    /// SETTINGS changed the number of streams the peer accepts at once.
    /// Streams already open stay; new ones wait until the count is below it.
    pub fn set_max_concurrent(&mut self, max_concurrent: u32)
        requires
            old(self).wf(),
        ensures
            final(self).wf(),
            final(self)@ == old(self)@,
            final(self).max_concurrent_spec() == max_concurrent,
            final(self).role_spec() == old(self).role_spec(),
            final(self).next_id_spec() == old(self).next_id_spec(),
            final(self).initial_out_spec() == old(self).initial_out_spec(),
            final(self).initial_in_spec() == old(self).initial_in_spec(),
    {
        self.max_concurrent = max_concurrent;
    }

    /// Takes the entry at `i` out of the table.
    fn remove_at(&mut self, i: usize) -> (r: StreamEntry)
        requires
            old(self).wf(),
            i < old(self)@.len(),
        ensures
            final(self).wf(),
            r == old(self)@[i as int],
            final(self)@ == old(self)@.remove(i as int),
            final(self).same_settings(*old(self)),
    {
        let r = self.entries.remove(i);
        assert forall|a: int, b: int|
            0 <= a < b < self.entries@.len() implies #[trigger] self.entries@[a].id
            != #[trigger] self.entries@[b].id by {
            let a0 = if a < i { a } else { a + 1 };
            let b0 = if b < i { b } else { b + 1 };
            assert(old(self).entries@[a0].id != old(self).entries@[b0].id);
        }
        assert forall|a: int| 0 <= a < self.entries@.len() implies (#[trigger] self.entries@[a]).wf()
            && self.entries@[a].id < self.next_id && self.entries@[a].id % 2
            == self.role.first_id_spec() % 2 by {
            let a0 = if a < i { a } else { a + 1 };
            assert(self.entries@[a] == old(self).entries@[a0]);
        }
        r
    }

    /// Puts `e` in place of the entry at `i`, which has the same identifier.
    fn replace_at(&mut self, i: usize, e: StreamEntry)
        requires
            old(self).wf(),
            i < old(self)@.len(),
            e.wf(),
            e.id == old(self)@[i as int].id,
        ensures
            final(self).wf(),
            final(self)@ == old(self)@.update(i as int, e),
            final(self).same_settings(*old(self)),
    {
        self.entries.set(i, e);
        assert forall|a: int, b: int|
            0 <= a < b < self.entries@.len() implies #[trigger] self.entries@[a].id
            != #[trigger] self.entries@[b].id by {
            assert(self.entries@[a].id == old(self).entries@[a].id);
            assert(self.entries@[b].id == old(self).entries@[b].id);
        }
        assert forall|a: int| 0 <= a < self.entries@.len() implies (#[trigger] self.entries@[a]).wf()
            && self.entries@[a].id < self.next_id && self.entries@[a].id % 2
            == self.role.first_id_spec() % 2 by {
            if a != i {
                assert(self.entries@[a] == old(self).entries@[a]);
            }
        }
    }

    /// The role, limits and next identifier are those of `other`.
    pub closed spec fn same_settings(&self, other: StreamTable) -> bool {
        &&& self.role == other.role
        &&& self.next_id == other.next_id
        &&& self.max_concurrent == other.max_concurrent
        &&& self.initial_out == other.initial_out
        &&& self.initial_in == other.initial_in
    }

    /// The peer has ended its side of the stream at `i`: a stream whose local
    /// side had ended is complete and leaves the table.
    fn close_remote_at(&mut self, i: usize) -> (r: Result<Option<StreamEnd>, StreamError>)
        requires
            old(self).wf(),
            i < old(self)@.len(),
        ensures
            final(self).wf(),
            final(self).same_settings(*old(self)),
            close_remote_result(old(self)@, i as int, r, final(self)@),
    {
        let e = self.entries[i];
        match e.state {
            StreamState::Open => {
                self.replace_at(i, StreamEntry { state: StreamState::HalfClosedRemote, ..e });
                Ok(None)
            },
            StreamState::HalfClosedLocal => {
                self.remove_at(i);
                Ok(Some(StreamEnd::Completed))
            },
            StreamState::HalfClosedRemote => Err(StreamError::InvalidStateTransition),
        }
    }
}

/// What ending the remote side of entry `i` of `before` gives: the result and
/// the entries after.
pub open spec fn close_remote_result(
    before: Seq<StreamEntry>,
    i: int,
    r: Result<Option<StreamEnd>, StreamError>,
    after: Seq<StreamEntry>,
) -> bool {
    let e = before[i];
    match e.state {
        StreamState::Open => r == Ok::<Option<StreamEnd>, StreamError>(None) && after
            == before.update(i, StreamEntry { state: StreamState::HalfClosedRemote, ..e }),
        StreamState::HalfClosedLocal => r == Ok::<Option<StreamEnd>, StreamError>(
            Some(StreamEnd::Completed),
        ) && after == before.remove(i),
        StreamState::HalfClosedRemote => r == Err::<Option<StreamEnd>, StreamError>(
            StreamError::InvalidStateTransition,
        ) && after == before,
    }
}

/// `after` is `before` without the entry of identifier `id`, or `before`
/// itself where no entry has it.
pub open spec fn removed(before: Seq<StreamEntry>, id: u32, after: Seq<StreamEntry>) -> bool {
    if ids_of(before).contains(id) {
        exists|i: int| 0 <= i < before.len() && before[i].id == id && after == before.remove(i)
    } else {
        after == before
    }
}

/// An identifier is among those of `s` exactly where some entry has it.
pub proof fn lemma_ids_of(s: Seq<StreamEntry>)
    ensures
        ids_of(s).len() == s.len(),
        forall|i: int| 0 <= i < s.len() ==> ids_of(s)[i] == (#[trigger] s[i]).id,
        forall|id: u32|
            #![trigger ids_of(s).contains(id)]
            ids_of(s).contains(id) <==> exists|i: int| 0 <= i < s.len() && s[i].id == id,
{
    assert forall|id: u32| ids_of(s).contains(id) implies exists|i: int|
        0 <= i < s.len() && s[i].id == id by {
        let k = choose|k: int| 0 <= k < ids_of(s).len() && ids_of(s)[k] == id;
        assert(s[k].id == id);
    }
    assert forall|id: u32| (exists|i: int| 0 <= i < s.len() && s[i].id == id) implies ids_of(
        s,
    ).contains(id) by {
        let k = choose|k: int| 0 <= k < s.len() && s[k].id == id;
        assert(ids_of(s)[k] == id);
    }
}

/// What `n` bytes of DATA on stream `id` give: the result, and the entries
/// after.
pub open spec fn data_result(
    before: Seq<StreamEntry>,
    id: u32,
    n: u32,
    end_stream: bool,
    r: Result<Option<StreamEnd>, StreamError>,
    after: Seq<StreamEntry>,
) -> bool {
    &&& !ids_of(before).contains(id) ==> r == Err::<Option<StreamEnd>, StreamError>(
            StreamError::InvalidStateTransition,
        ) && after == before
    &&& forall|i: int|
        0 <= i < before.len() && before[i].id == id ==> {
            let e = before[i];
            let e2 = StreamEntry {
                in_window: InWindow {
                    available: (e.in_window.available - n) as i64,
                    ..e.in_window
                },
                ..e
            };
            if e.state == StreamState::HalfClosedRemote {
                r == Err::<Option<StreamEnd>, StreamError>(
                    StreamError::InvalidStateTransition,
                ) && after == before
            } else if n > e.in_window.available {
                r == Err::<Option<StreamEnd>, StreamError>(
                    StreamError::FlowControlOverflow,
                ) && after == before
            } else if !end_stream {
                r == Ok::<Option<StreamEnd>, StreamError>(None) && after == before.update(i, e2)
            } else {
                close_remote_result(before.update(i, e2), i, r, after)
            }
        }
}

} // verus!
