//! The server's count of incoming connections: how many arrived, how many
//! found the server busy, and when to write the counts out.

use vstd::prelude::*;

verus! {

/// The counts are written out after every this many connections.
pub const REPORT_EVERY: i64 = 1000;

/// The counts as written out.
#[derive(Debug, Clone, Copy, PartialEq, Eq, Structural)]
pub struct TallyReport {
    pub total: i64,
    pub failed: i64,
    pub successful: i64,
}

/// Connections seen so far, and those turned away because the server was
/// busy.
pub struct RequestTally {
    total: i64,
    failed: i64,
}

impl RequestTally {
    #[verifier::type_invariant]
    spec fn inv(self) -> bool {
        0 <= self.failed <= self.total
    }

    /// Connections seen so far.
    pub closed spec fn total(&self) -> int {
        self.total as int
    }

    /// Connections turned away so far.
    pub closed spec fn failed(&self) -> int {
        self.failed as int
    }

    /// No connection seen yet.
    pub fn new() -> (res: RequestTally)
        ensures
            res.total() == 0,
            res.failed() == 0,
    {
        RequestTally { total: 0, failed: 0 }
    }

    /// Connections seen so far.
    pub fn total_count(&self) -> (res: i64)
        ensures
            res == self.total(),
    {
        self.total
    }

    /// Whether one more connection can be counted.
    pub fn has_room(&self) -> (res: bool)
        ensures
            res == (self.total() < i64::MAX),
    {
        self.total < i64::MAX
    }

    /// Counts a connection, `accepted` when the server was free to take it.
    /// An accepted connection whose number is a multiple of
    /// [`REPORT_EVERY`] yields the counts to write out.
    pub fn record(&mut self, accepted: bool) -> (res: Option<TallyReport>)
        requires
            old(self).total() < i64::MAX,
        ensures
            final(self).total() == old(self).total() + 1,
            final(self).failed() == old(self).failed() + if accepted { 0int } else { 1int },
            res is Some <==> accepted && final(self).total() % (REPORT_EVERY as int) == 0,
            res matches Some(r) ==> r.total == final(self).total() && r.failed == final(self).failed()
                && r.successful == final(self).total() - final(self).failed(),
            0 <= final(self).failed() <= final(self).total(),
    {
        proof {
            use_type_invariant(&*self);
        }
        self.total = self.total + 1;
        proof {
            use_type_invariant(&*self);
        }
        if accepted {
            if self.total % REPORT_EVERY == 0 {
                Some(TallyReport { total: self.total, failed: self.failed, successful: self.total - self.failed })
            } else {
                None
            }
        } else {
            self.failed = self.failed + 1;
            None
        }
    }
}

} // verus!
