//! Arbitration of the single advertising set between the connectable
//! advertiser and the two offline-finding advertisers.
//!
//! Lower rank wins. A caller of higher priority than the holder asks the holder
//! to yield (cooperative preemption) and waits; on release the connectable
//! advertiser is served first, and the two background users alternate.
use vstd::prelude::*;

verus! {

pub const PRIORITY_COUNT: usize = 3;

/// Seconds each background user advertises before yielding to the other.
pub const ALTERNATION_SECS: u64 = 5;

#[derive(Clone, Copy, Debug, PartialEq, Eq, Structural)]
pub enum AdvPriority {
    MainAdv,
    FindMyAdv,
    FmdnAdv,
}

impl AdvPriority {
    /// 0 for the connectable advertiser, then Find My, then FMDN.
    pub open spec fn rank(self) -> nat {
        match self {
            AdvPriority::MainAdv => 0,
            AdvPriority::FindMyAdv => 1,
            AdvPriority::FmdnAdv => 2,
        }
    }

    pub fn index(self) -> (r: usize)
        ensures
            r == self.rank(),
    {
        match self {
            AdvPriority::MainAdv => 0,
            AdvPriority::FindMyAdv => 1,
            AdvPriority::FmdnAdv => 2,
        }
    }

    /// The priority of rank 0, or Find My for any other index.
    pub fn from_index(index: usize) -> (r: Self)
        ensures
            r == (if index == 0 {
                AdvPriority::MainAdv
            } else {
                AdvPriority::FindMyAdv
            }),
    {
        if index == 0 {
            AdvPriority::MainAdv
        } else {
            AdvPriority::FindMyAdv
        }
    }
}

/// What a caller of `acquire` does next.
#[derive(Clone, Copy, Debug, PartialEq, Eq, Structural)]
pub enum AcquireDecision {
    /// The caller holds the resource.
    Granted,
    /// The caller waits for its grant; `preempt` names a holder to signal.
    Wait { preempt: Option<AdvPriority> },
}

/// The holder and the waiting flags, one per priority.
pub struct SchedulerState {
    pub current_holder: Option<AdvPriority>,
    pub waiting: [bool; 3],
    /// A pending request to yield, per priority: the preempt signal.
    pub preempt: [bool; 3],
}

/// Abstract scheduler state: holder and waiting flags by rank.
pub struct SchedView {
    pub holder: Option<AdvPriority>,
    pub waiting: Seq<bool>,
    pub preempt: Seq<bool>,
}

/// The decision and the next state when `p` asks for the resource.
pub open spec fn acquire_step(s: SchedView, p: AdvPriority) -> (SchedView, AcquireDecision) {
    match s.holder {
        None => (SchedView { holder: Some(p), ..s }, AcquireDecision::Granted),
        Some(h) => if h == p {
            (s, AcquireDecision::Granted)
        } else if p.rank() < h.rank() {
            (
                SchedView {
                    waiting: s.waiting.update(p.rank() as int, true),
                    preempt: s.preempt.update(h.rank() as int, true),
                    ..s
                },
                AcquireDecision::Wait { preempt: Some(h) },
            )
        } else {
            (
                SchedView { waiting: s.waiting.update(p.rank() as int, true), ..s },
                AcquireDecision::Wait { preempt: None },
            )
        },
    }
}

/// The background user served first after `p` releases.
pub open spec fn first_choice(p: AdvPriority) -> AdvPriority {
    match p {
        AdvPriority::FindMyAdv => AdvPriority::FmdnAdv,
        _ => AdvPriority::FindMyAdv,
    }
}

pub open spec fn second_choice(p: AdvPriority) -> AdvPriority {
    match p {
        AdvPriority::FmdnAdv => AdvPriority::FmdnAdv,
        AdvPriority::FindMyAdv => AdvPriority::FindMyAdv,
        _ => AdvPriority::FmdnAdv,
    }
}

/// The next state, and who is granted, when `p` releases; the releaser's
/// pending preempt signal is dropped.
pub open spec fn release_step(s0: SchedView, p: AdvPriority) -> (SchedView, Option<AdvPriority>) {
    if s0.holder != Some(p) {
        (s0, None)
    } else {
        let s = SchedView { preempt: s0.preempt.update(p.rank() as int, false), ..s0 };
        if s.waiting[0] {
            (
                SchedView {
                    holder: Some(AdvPriority::MainAdv),
                    waiting: s.waiting.update(0, false),
                    ..s
                },
                Some(AdvPriority::MainAdv),
            )
        } else if s.waiting[first_choice(p).rank() as int] {
            let q = first_choice(p);
            (
                SchedView {
                    holder: Some(q),
                    waiting: s.waiting.update(q.rank() as int, false),
                    ..s
                },
                Some(q),
            )
        } else if s.waiting[second_choice(p).rank() as int] {
            let q = second_choice(p);
            (
                SchedView {
                    holder: Some(q),
                    waiting: s.waiting.update(q.rank() as int, false),
                    ..s
                },
                Some(q),
            )
        } else {
            (SchedView { holder: None, ..s }, None)
        }
    }
}

impl SchedulerState {
    pub open spec fn view(&self) -> SchedView {
        SchedView { holder: self.current_holder, waiting: self.waiting@, preempt: self.preempt@ }
    }

    pub fn new() -> (r: Self)
        ensures
            r.view().holder is None,
            r.view().waiting == seq![false, false, false],
            r.view().preempt == seq![false, false, false],
    {
        let r = SchedulerState { current_holder: None, waiting: [false; 3], preempt: [false; 3] };
        assert(r.waiting@ =~= seq![false, false, false]);
        assert(r.preempt@ =~= seq![false, false, false]);
        r
    }

    /// `p` asks for the resource.
    pub fn acquire(&mut self, p: AdvPriority) -> (r: AcquireDecision)
        ensures
            (final(self).view(), r) == acquire_step(old(self).view(), p),
    {
        match self.current_holder {
            None => {
                self.current_holder = Some(p);
                AcquireDecision::Granted
            },
            Some(h) => {
                if h == p {
                    AcquireDecision::Granted
                } else if p.index() < h.index() {
                    self.waiting[p.index()] = true;
                    self.preempt[h.index()] = true;
                    AcquireDecision::Wait { preempt: Some(h) }
                } else {
                    self.waiting[p.index()] = true;
                    AcquireDecision::Wait { preempt: None }
                }
            },
        }
    }

    /// `p` gives the resource up; returns the waiter that now holds it.
    pub fn release(&mut self, p: AdvPriority) -> (r: Option<AdvPriority>)
        ensures
            (final(self).view(), r) == release_step(old(self).view(), p),
    {
        if self.current_holder != Some(p) {
            return None;
        }
        self.preempt[p.index()] = false;
        if self.waiting[0] {
            self.waiting[0] = false;
            self.current_holder = Some(AdvPriority::MainAdv);
            return Some(AdvPriority::MainAdv);
        }
        let first = match p {
            AdvPriority::FindMyAdv => AdvPriority::FmdnAdv,
            _ => AdvPriority::FindMyAdv,
        };
        let second = match p {
            AdvPriority::FmdnAdv => AdvPriority::FmdnAdv,
            AdvPriority::FindMyAdv => AdvPriority::FindMyAdv,
            _ => AdvPriority::FmdnAdv,
        };
        if self.waiting[first.index()] {
            self.waiting[first.index()] = false;
            self.current_holder = Some(first);
            return Some(first);
        }
        if self.waiting[second.index()] {
            self.waiting[second.index()] = false;
            self.current_holder = Some(second);
            return Some(second);
        }
        self.current_holder = None;
        None
    }
}

impl SchedulerState {
    /// Consumes `p`'s preempt signal: whether it was raised.
    pub fn take_preempt(&mut self, p: AdvPriority) -> (r: bool)
        ensures
            r == old(self).view().preempt[p.rank() as int],
            final(self).view() == (SchedView {
                preempt: old(self).view().preempt.update(p.rank() as int, false),
                ..old(self).view()
            }),
    {
        let r = self.preempt[p.index()];
        self.preempt[p.index()] = false;
        r
    }
}

/// A holder only changes through a release by that holder: an acquire never
/// takes the resource from someone else, so at most one user holds it.
pub proof fn lemma_acquire_keeps_holder(s: SchedView, p: AdvPriority, h: AdvPriority)
    requires
        s.holder == Some(h),
    ensures
        acquire_step(s, p).0.holder == Some(h),
        acquire_step(s, p).1 == AcquireDecision::Granted <==> p == h,
{
}

/// An acquire of higher priority than the holder signals the holder's preemption
/// and does not return granted until that holder has released.
pub proof fn lemma_preempt_before_grant(s: SchedView, p: AdvPriority, h: AdvPriority)
    requires
        s.holder == Some(h),
        p.rank() < h.rank(),
        s.waiting.len() == 3,
        s.preempt.len() == 3,
    ensures
        acquire_step(s, p).1 == (AcquireDecision::Wait { preempt: Some(h) }),
        acquire_step(s, p).0.preempt[h.rank() as int],
        acquire_step(s, p).0.holder == Some(h),
        acquire_step(s, p).0.waiting[p.rank() as int],
        release_step(acquire_step(s, p).0, h).0.holder != Some(h),
        p == AdvPriority::MainAdv ==> release_step(acquire_step(s, p).0, h).1 == Some(p),
{
}

/// A background user that releases while the other waits (and the connectable
/// advertiser does not) hands the resource to the other.
pub proof fn lemma_background_round_robin(s: SchedView, p: AdvPriority)
    requires
        s.holder == Some(p),
        p != AdvPriority::MainAdv,
        s.waiting.len() == 3,
        !s.waiting[0],
        s.waiting[first_choice(p).rank() as int],
    ensures
        release_step(s, p).1 == Some(first_choice(p)),
        first_choice(p) != p,
{
}

/// Every live guard belongs to the current holder; so at most one is live.
pub open spec fn guards_ok(s: SchedView, guards: Set<AdvPriority>) -> bool {
    forall|q: AdvPriority| #[trigger] guards.contains(q) ==> s.holder == Some(q)
}

/// The guards after an acquire by `p`: one more when it was granted.
pub open spec fn guards_after_acquire(s: SchedView, guards: Set<AdvPriority>, p: AdvPriority) -> Set<
    AdvPriority,
> {
    if acquire_step(s, p).1 == AcquireDecision::Granted {
        guards.insert(p)
    } else {
        guards
    }
}

/// Under any interleaving of acquires and releases (a guard is dropped by
/// releasing it), live guards always belong to the holder: at most one user
/// holds the resource at any point.
pub proof fn lemma_guards_stay_single(s: SchedView, guards: Set<AdvPriority>, p: AdvPriority)
    requires
        guards_ok(s, guards),
    ensures
        guards_ok(acquire_step(s, p).0, guards_after_acquire(s, guards, p)),
        guards.contains(p) ==> guards_ok(release_step(s, p).0, guards.remove(p)),
        forall|a: AdvPriority, b: AdvPriority|
            guards.contains(a) && guards.contains(b) ==> a == b,
{
    if guards.contains(p) {
        assert forall|q: AdvPriority| #[trigger] guards.remove(p).contains(q) implies release_step(
            s,
            p,
        ).0.holder == Some(q) by {
            assert(guards.contains(q));
        }
    }
    assert forall|a: AdvPriority, b: AdvPriority|
        guards.contains(a) && guards.contains(b) implies a == b by {
        assert(s.holder == Some(a) && s.holder == Some(b));
    }
}

} // verus!
