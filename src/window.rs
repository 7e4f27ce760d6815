//! Flow-control window accounting for one direction of a connection or a
//! stream.

use vstd::prelude::*;

verus! {

/// The largest flow-control window the protocol allows: 2^31 - 1.
pub const MAX_WINDOW_SIZE: i64 = 2147483647;

/// The initial window size of a connection or stream before any SETTINGS.
pub const DEFAULT_INITIAL_WINDOW_SIZE: u32 = 65535;

/// The largest DATA payload before any SETTINGS.
pub const DEFAULT_MAX_FRAME_SIZE: u32 = 16384;

#[derive(Debug, Clone, Copy, PartialEq, Eq, Structural)]
pub enum WindowError {
    /// An update would carry a window past the protocol's bounds.
    FlowControlOverflow,
}

/// Outbound credit. `available` is the credit the peer granted that no send
/// has used; `in_flight` counts bytes already committed to a send and not yet
/// settled, which a new commit must leave room for.
#[derive(Debug, Clone, Copy, PartialEq, Eq, Structural)]
pub struct WindowTracker {
    pub available: i64,
    pub in_flight: i64,
}

/// One update of an outbound window.
pub enum WindowOp {
    Grant(i64),
    Commit(u32),
    Settle(u32),
    ResetInFlight,
}

impl WindowTracker {
    pub open spec fn wf(&self) -> bool {
        &&& -MAX_WINDOW_SIZE <= self.available <= MAX_WINDOW_SIZE
        &&& 0 <= self.in_flight <= MAX_WINDOW_SIZE
    }

    /// Credit a new commit may still use.
    pub open spec fn sendable_spec(&self) -> int {
        self.available - self.in_flight
    }

    pub open spec fn grant_fits(&self, delta: i64) -> bool {
        -MAX_WINDOW_SIZE <= self.available + delta <= MAX_WINDOW_SIZE
    }

    pub open spec fn after_grant(self, delta: i64) -> WindowTracker {
        if self.grant_fits(delta) {
            WindowTracker { available: (self.available + delta) as i64, ..self }
        } else {
            self
        }
    }

    pub open spec fn can_commit(&self, n: u32) -> bool {
        n <= self.sendable_spec()
    }

    pub open spec fn after_commit(self, n: u32) -> WindowTracker {
        if self.can_commit(n) {
            WindowTracker {
                available: (self.available - n) as i64,
                in_flight: (self.in_flight + n) as i64,
            }
        } else {
            self
        }
    }

    pub open spec fn after_settle(self, n: u32) -> WindowTracker {
        if n <= self.in_flight {
            WindowTracker { in_flight: (self.in_flight - n) as i64, ..self }
        } else {
            WindowTracker { in_flight: 0, ..self }
        }
    }

    pub open spec fn after_reset_in_flight(self) -> WindowTracker {
        WindowTracker { in_flight: 0, ..self }
    }

    pub open spec fn apply(self, op: WindowOp) -> WindowTracker {
        match op {
            WindowOp::Grant(delta) => self.after_grant(delta),
            WindowOp::Commit(n) => self.after_commit(n),
            WindowOp::Settle(n) => self.after_settle(n),
            WindowOp::ResetInFlight => self.after_reset_in_flight(),
        }
    }

    /// Whether `op` takes effect: a grant that fits, a commit that the
    /// credit covers, or any settle or reset.
    pub open spec fn accepts(self, op: WindowOp) -> bool {
        match op {
            WindowOp::Grant(delta) => self.grant_fits(delta),
            WindowOp::Commit(n) => self.can_commit(n),
            _ => true,
        }
    }

    /// The tracker after each of `ops` in turn.
    pub open spec fn run(self, ops: Seq<WindowOp>) -> WindowTracker
        decreases ops.len(),
    {
        if ops.len() == 0 {
            self
        } else {
            self.run(ops.drop_last()).apply(ops.last())
        }
    }

    /// A window of `initial` bytes with nothing in flight.
    pub fn new(initial: u32) -> (r: WindowTracker)
        requires
            initial <= MAX_WINDOW_SIZE,
        ensures
            r.wf(),
            r.available == initial,
            r.in_flight == 0,
    {
        WindowTracker { available: initial as i64, in_flight: 0 }
    }

    pub fn available(&self) -> (r: i64)
        ensures
            r == self.available,
    {
        self.available
    }

    /// Credit a new commit may still use: `available` less what is in flight.
    pub fn sendable(&self) -> (r: i64)
        requires
            self.wf(),
        ensures
            r == self.sendable_spec(),
    {
        self.available - self.in_flight
    }

    /// Adds `delta` to the credit: a WINDOW_UPDATE, or a change of the
    /// initial window size (then `delta` may be negative).
    pub fn grant(&mut self, delta: i64) -> (r: Result<(), WindowError>)
        requires
            old(self).wf(),
        ensures
            final(self).wf(),
            r is Ok <==> old(self).grant_fits(delta),
            r matches Err(e) ==> e == WindowError::FlowControlOverflow,
            *final(self) == old(self).after_grant(delta),
    {
        if delta > MAX_WINDOW_SIZE - self.available || delta < -MAX_WINDOW_SIZE - self.available {
            Err(WindowError::FlowControlOverflow)
        } else {
            self.available = self.available + delta;
            Ok(())
        }
    }

    /// Commits `n` bytes to a send if the credit not yet in flight covers
    /// them; otherwise changes nothing and returns false.
    pub fn commit(&mut self, n: u32) -> (r: bool)
        requires
            old(self).wf(),
        ensures
            final(self).wf(),
            r == old(self).can_commit(n),
            *final(self) == old(self).after_commit(n),
            r ==> final(self).available == old(self).available - n,
            old(self).available >= 0 ==> final(self).available >= 0,
    {
        if (n as i64) > self.available - self.in_flight {
            false
        } else {
            self.available = self.available - n as i64;
            self.in_flight = self.in_flight + n as i64;
            true
        }
    }

    /// Settles `n` committed bytes once they have been written out.
    pub fn settle(&mut self, n: u32)
        requires
            old(self).wf(),
        ensures
            final(self).wf(),
            *final(self) == old(self).after_settle(n),
    {
        if (n as i64) <= self.in_flight {
            self.in_flight = self.in_flight - n as i64;
        } else {
            self.in_flight = 0;
        }
    }

    /// Forgets every commitment still in flight, as on a stream reset: later
    /// sends see exactly the peer's remaining credit.
    pub fn reset_in_flight(&mut self)
        requires
            old(self).wf(),
        ensures
            final(self).wf(),
            *final(self) == old(self).after_reset_in_flight(),
            final(self).in_flight == 0,
            final(self).available == old(self).available,
            final(self).sendable_spec() == old(self).available,
    {
        self.in_flight = 0;
    }

    /// Applies one update; returns whether it took effect.
    pub fn apply_op(&mut self, op: WindowOp) -> (r: bool)
        requires
            old(self).wf(),
        ensures
            final(self).wf(),
            r == old(self).accepts(op),
            *final(self) == old(self).apply(op),
    {
        match op {
            WindowOp::Grant(delta) => self.grant(delta).is_ok(),
            WindowOp::Commit(n) => self.commit(n),
            WindowOp::Settle(n) => {
                self.settle(n);
                true
            },
            WindowOp::ResetInFlight => {
                self.reset_in_flight();
                true
            },
        }
    }
}

/// Inbound credit. `available` is the credit this side granted that the peer
/// has not used; `unacked` counts bytes the application has consumed that no
/// WINDOW_UPDATE has given back yet.
#[derive(Debug, Clone, Copy, PartialEq, Eq, Structural)]
pub struct InWindow {
    pub available: i64,
    pub unacked: i64,
}

impl InWindow {
    pub open spec fn wf(&self) -> bool {
        &&& -MAX_WINDOW_SIZE <= self.available
        &&& 0 <= self.unacked
        &&& self.available + self.unacked <= MAX_WINDOW_SIZE
    }

    /// A window of `initial` bytes with nothing consumed.
    pub fn new(initial: u32) -> (r: InWindow)
        requires
            initial <= MAX_WINDOW_SIZE,
        ensures
            r.wf(),
            r.available == initial,
            r.unacked == 0,
    {
        InWindow { available: initial as i64, unacked: 0 }
    }

    /// Accounts for `n` bytes of DATA received from the peer. Returns false,
    /// changing nothing, if they exceed the credit granted.
    pub fn consume_inbound(&mut self, n: u32) -> (r: bool)
        requires
            old(self).wf(),
        ensures
            final(self).wf(),
            r == (n <= old(self).available),
            r ==> final(self).available == old(self).available - n && final(self).unacked
                == old(self).unacked,
            !r ==> *final(self) == *old(self),
    {
        if (n as i64) > self.available {
            false
        } else {
            self.available = self.available - n as i64;
            true
        }
    }

    /// Accounts for `n` bytes the application has consumed. Credit given
    /// back is gathered until it reaches `threshold`; then it is all returned
    /// to the window and its amount is the increment of the WINDOW_UPDATE to
    /// send. Fails, changing nothing, if the window would pass its maximum.
    pub fn replenish_inbound(&mut self, n: u32, threshold: u32) -> (r: Result<
        Option<u32>,
        WindowError,
    >)
        requires
            old(self).wf(),
        ensures
            final(self).wf(),
            ({
                let total = old(self).unacked + n;
                match r {
                    Err(e) => e == WindowError::FlowControlOverflow && old(self).available + total
                        > MAX_WINDOW_SIZE && *final(self) == *old(self),
                    Ok(Some(inc)) => old(self).available + total <= MAX_WINDOW_SIZE && total
                        >= threshold && inc == total && final(self).available == old(
                        self,
                    ).available + total && final(self).unacked == 0,
                    Ok(None) => old(self).available + total <= MAX_WINDOW_SIZE && total
                        < threshold && final(self).available == old(self).available
                        && final(self).unacked == total,
                }
            }),
    {
        if n as i64 > MAX_WINDOW_SIZE - self.available - self.unacked {
            return Err(WindowError::FlowControlOverflow);
        }
        let total = self.unacked + n as i64;
        if total >= threshold as i64 {
            self.available = self.available + total;
            self.unacked = 0;
            Ok(Some(total as u32))
        } else {
            self.unacked = total;
            Ok(None)
        }
    }
}

/// Any sequence of updates keeps a tracker well formed, and, when no grant
/// takes credit away, never drives a non-negative `available` below zero.
pub proof fn lemma_available_never_negative(w: WindowTracker, ops: Seq<WindowOp>)
    requires
        w.wf(),
        w.available >= 0,
        forall|i: int| 0 <= i < ops.len() ==> (#[trigger] ops[i] matches WindowOp::Grant(d)
            ==> d >= 0),
    ensures
        w.run(ops).wf(),
        w.run(ops).available >= 0,
    decreases ops.len(),
{
    if ops.len() > 0 {
        let init = ops.drop_last();
        assert forall|i: int| 0 <= i < init.len() implies (#[trigger] init[i] matches WindowOp::Grant(
            d,
        ) ==> d >= 0) by {
            assert(init[i] == ops[i]);
        }
        lemma_available_never_negative(w, init);
        assert(ops.last() == ops[ops.len() - 1]);
    }
}

/// After a reset of what is in flight, nothing is pending and all the credit
/// that is left may be committed, whatever came before.
pub proof fn lemma_reset_restores_available(w: WindowTracker, ops: Seq<WindowOp>)
    requires
        w.wf(),
    ensures
        w.run(ops.push(WindowOp::ResetInFlight)).in_flight == 0,
        w.run(ops.push(WindowOp::ResetInFlight)).available == w.run(ops).available,
        w.run(ops.push(WindowOp::ResetInFlight)).sendable_spec() == w.run(ops).available,
{
    assert(ops.push(WindowOp::ResetInFlight).drop_last() =~= ops);
}

} // verus!
