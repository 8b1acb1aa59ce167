//! The phases that every scan passes through.

use vstd::prelude::*;

verus! {

/// Where a scan stands. A scan is made fresh for each call and is not used
/// again once it is done.
#[derive(Clone, Copy, Debug, PartialEq, Eq, Structural)]
pub enum Phase {
    /// Made, and not yet asked for anything.
    Idle,
    /// Walking.
    Scanning,
    /// A locator that has its match; what is still running is told to quit.
    Cancelling,
    /// A collector whose walk is over; the actions still running are awaited.
    Draining,
    /// Over. Nothing leads out of this phase.
    Done,
}

impl Phase {
    /// Whether a scan may pass from `self` to `next` in one step, staying
    /// where it is included. A scan that has nothing to cancel and nothing
    /// to drain passes from scanning straight to done.
    pub open spec fn may_become(self, next: Phase) -> bool {
        ||| self == next
        ||| self == Phase::Idle && next == Phase::Scanning
        ||| self == Phase::Scanning && next == Phase::Cancelling
        ||| self == Phase::Scanning && next == Phase::Draining
        ||| self == Phase::Scanning && next == Phase::Done
        ||| self == Phase::Cancelling && next == Phase::Done
        ||| self == Phase::Draining && next == Phase::Done
    }

    /// How far along a phase is; no step makes this smaller.
    pub open spec fn rank(self) -> int {
        match self {
            Phase::Idle => 0,
            Phase::Scanning => 1,
            Phase::Cancelling => 2,
            Phase::Draining => 2,
            Phase::Done => 3,
        }
    }

    /// Whether a scan that is in `self` can ever be in `later`.
    pub open spec fn leads_to(self, later: Phase) -> bool {
        self == later || self.rank() < later.rank()
    }

    /// Decides whether a scan may pass from `self` to `next`.
    pub fn allows(self, next: Phase) -> (allowed: bool)
        ensures
            allowed == self.may_become(next),
    {
        match (self, next) {
            (Phase::Idle, Phase::Idle) => true,
            (Phase::Idle, Phase::Scanning) => true,
            (Phase::Scanning, Phase::Scanning) => true,
            (Phase::Scanning, Phase::Cancelling) => true,
            (Phase::Scanning, Phase::Draining) => true,
            (Phase::Scanning, Phase::Done) => true,
            (Phase::Cancelling, Phase::Cancelling) => true,
            (Phase::Cancelling, Phase::Done) => true,
            (Phase::Draining, Phase::Draining) => true,
            (Phase::Draining, Phase::Done) => true,
            (Phase::Done, Phase::Done) => true,
            _ => false,
        }
    }

    /// Whether the scan is over.
    pub fn is_terminal(self) -> (terminal: bool)
        ensures
            terminal == (self == Phase::Done),
    {
        self == Phase::Done
    }
}

/// Nothing leads out of `Done`, and no step leads backwards.
pub proof fn lemma_phases_only_advance(from: Phase, to: Phase)
    requires
        from.may_become(to),
    ensures
        from.leads_to(to),
        from == Phase::Done ==> to == Phase::Done,
        to == Phase::Idle ==> from == Phase::Idle,
{
}

/// `leads_to` is what steps add up to: it holds of every step, it is
/// transitive, and whatever it holds of is reached in at most three steps.
pub proof fn lemma_leads_to_is_reachability(from: Phase, mid: Phase, to: Phase)
    ensures
        from.leads_to(mid) && mid.leads_to(to) ==> from.leads_to(to),
        from.leads_to(to) ==> exists|a: Phase, b: Phase|
            from.may_become(a) && a.may_become(b) && b.may_become(to),
{
    if from.leads_to(to) {
        if from == Phase::Idle && to != Phase::Idle {
            assert(from.may_become(Phase::Scanning) && Phase::Scanning.may_become(to)
                && to.may_become(to));
        } else {
            assert(from.may_become(from) && from.may_become(to) && to.may_become(to));
        }
    }
}

} // verus!
