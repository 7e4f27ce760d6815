//! The outbound pump: drains a stream's queued bytes into DATA units that the
//! flow-control windows permit.

use vstd::prelude::*;

use crate::buf_vec_deque::BufVecDeque;
use crate::chunk::Chunk;
use crate::window::WindowTracker;

verus! {

/// What one turn of the pump did.
pub enum PumpStep<B> {
    /// One DATA unit taken from the front of the queue, already committed to
    /// both windows.
    Data(B),
    /// Bytes are queued but a window has no credit for them.
    NotReady,
    /// Nothing is queued.
    Idle,
}

/// The most bytes one DATA unit may carry: the frame size limit and the
/// credit left in the connection's and the stream's windows.
pub open spec fn send_limit(conn: WindowTracker, stream: WindowTracker, max_frame: u32) -> int {
    let a = if conn.sendable_spec() <= stream.sendable_spec() {
        conn.sendable_spec()
    } else {
        stream.sendable_spec()
    };
    if max_frame <= a {
        max_frame as int
    } else {
        a
    }
}

/// What one turn of the pump gives: the step taken, and the queue and the
/// connection's and stream's windows after it.
pub open spec fn pump_result<B: Chunk>(
    queue: BufVecDeque<B>,
    conn: WindowTracker,
    stream: WindowTracker,
    max_frame: u32,
    r: PumpStep<B>,
    queue2: BufVecDeque<B>,
    conn2: WindowTracker,
    stream2: WindowTracker,
) -> bool {
    let limit = send_limit(conn, stream, max_frame);
    let unchanged = queue2@ == queue@ && conn2 == conn && stream2 == stream;
    match r {
        PumpStep::Idle => queue.content().len() == 0 && unchanged,
        PumpStep::NotReady => queue.content().len() > 0 && limit <= 0 && unchanged,
        PumpStep::Data(c) => {
            let n = c.bytes_of().len();
            let front = queue@[0].bytes_of().len();
            &&& queue.content().len() > 0
            &&& limit > 0
            &&& n == (if front <= limit {
                front as int
            } else {
                limit
            })
            &&& c.bytes_of() == queue.content().take(n as int)
            &&& queue2.content() == queue.content().skip(n as int)
            &&& conn2 == conn.after_commit(n as u32)
            &&& stream2 == stream.after_commit(n as u32)
            &&& conn2.available == conn.available - n
            &&& stream2.available == stream.available - n
        },
    }
}

/// Takes one DATA unit off the queue: the front chunk, split at the send
/// limit where it is longer, committed to both windows together.
pub fn pump_step<B: Chunk>(
    queue: &mut BufVecDeque<B>,
    conn: &mut WindowTracker,
    stream: &mut WindowTracker,
    max_frame: u32,
) -> (r: PumpStep<B>)
    requires
        old(queue).wf(),
        old(conn).wf(),
        old(stream).wf(),
    ensures
        final(queue).wf(),
        final(conn).wf(),
        final(stream).wf(),
        pump_result(*old(queue), *old(conn), *old(stream), max_frame, r, *final(queue), *final(conn), *final(stream)),
{
    if queue.remaining() == 0 {
        return PumpStep::Idle;
    }
    let c = conn.sendable();
    let s = stream.sendable();
    let a = if c <= s {
        c
    } else {
        s
    };
    let limit = if (max_frame as i64) <= a {
        max_frame as i64
    } else {
        a
    };
    if limit <= 0 {
        return PumpStep::NotReady;
    }
    proof {
        if old(queue)@.len() == 0 {
            assert(old(queue).content() =~= Seq::<u8>::empty());
        }
    }
    let unit = queue.pop_front_max(limit as usize).unwrap();
    let n = unit.remaining();
    let ok_conn = conn.commit(n as u32);
    let ok_stream = stream.commit(n as u32);
    assert(ok_conn && ok_stream);
    PumpStep::Data(unit)
}

/// Settles `n` bytes on both windows once their DATA unit was written out.
pub fn data_written(conn: &mut WindowTracker, stream: &mut WindowTracker, n: u32)
    requires
        old(conn).wf(),
        old(stream).wf(),
    ensures
        final(conn).wf(),
        final(stream).wf(),
        *final(conn) == old(conn).after_settle(n),
        *final(stream) == old(stream).after_settle(n),
{
    conn.settle(n);
    stream.settle(n);
}

/// A reset of the stream: discards what is still queued and what is in
/// flight on its window, keeping the peer's remaining credit.
pub fn reset_stream<B: Chunk>(queue: &mut BufVecDeque<B>, stream: &mut WindowTracker)
    requires
        old(stream).wf(),
    ensures
        final(queue).wf(),
        final(queue)@.len() == 0,
        final(queue).content().len() == 0,
        final(stream).wf(),
        final(stream).in_flight == 0,
        final(stream).available == old(stream).available,
        final(stream).sendable_spec() == old(stream).available,
{
    *queue = BufVecDeque::new();
    stream.reset_in_flight();
    assert(queue.content() =~= Seq::<u8>::empty());
}

} // verus!
