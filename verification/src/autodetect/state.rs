//! The tick-driven call state machine and the process-name matcher: what
//! meeting detection decides, with no OS calls in it.

use vstd::prelude::*;

use crate::text::{
    chars_of, contains, contains_exec, ends_with, lowercase, str_to_lowercase, views,
};
use crate::types::AppId;

verus! {

/// One transition the detector emits.
#[derive(Debug, PartialEq, Eq)]
pub enum Detection {
    /// A call has been continuously present for the arming window.
    Start(String),
    /// The call has been gone for the grace window.
    Stop,
}

/// The abstract form of an emitted transition.
pub enum DetectionView {
    Start(Seq<char>),
    Stop,
}

impl View for Detection {
    type V = DetectionView;

    open spec fn view(&self) -> DetectionView {
        match self {
            Detection::Start(app) => DetectionView::Start(app@),
            Detection::Stop => DetectionView::Stop,
        }
    }
}

/// The view of an optional transition.
pub open spec fn detection_view(d: Option<Detection>) -> Option<DetectionView> {
    match d {
        Some(x) => Some(x@),
        None => None,
    }
}

enum Phase {
    Idle,
    /// Mic in use; waiting out the detection delay before acting.
    Arming { app: String, ticks: u32 },
    /// A call is considered live.
    Active,
    /// Call disappeared; waiting out the grace window before declaring it over.
    Grace { ticks: u32 },
}

/// Where the detector stands.
pub enum PhaseView {
    Idle,
    /// A candidate has been seen for `ticks` consecutive ticks, the latest
    /// under the name `app`.
    Arming { app: Seq<char>, ticks: nat },
    Active,
    /// The call has been gone for `ticks` consecutive ticks.
    Grace { ticks: nat },
}

/// The detector as a state: its phase and its two windows.
pub struct DetectorView {
    pub phase: PhaseView,
    pub arm_ticks: nat,
    pub grace_ticks: nat,
}

pub struct Detector {
    phase: Phase,
    /// Consecutive candidate ticks required before `Start` (at least 1).
    arm_ticks: u32,
    /// Consecutive empty ticks required before `Stop` (at least 1).
    grace_ticks: u32,
}

impl View for Detector {
    type V = DetectorView;

    closed spec fn view(&self) -> DetectorView {
        DetectorView {
            phase: match self.phase {
                Phase::Idle => PhaseView::Idle,
                Phase::Arming { app, ticks } => PhaseView::Arming { app: app@, ticks: ticks as nat },
                Phase::Active => PhaseView::Active,
                Phase::Grace { ticks } => PhaseView::Grace { ticks: ticks as nat },
            },
            arm_ticks: self.arm_ticks as nat,
            grace_ticks: self.grace_ticks as nat,
        }
    }
}

/// A detector state the machine can be in: both windows at least one tick
/// (and small enough to count in a `u32`), and a phase counter strictly
/// inside its window.
pub open spec fn valid(v: DetectorView) -> bool {
    &&& 1 <= v.arm_ticks <= u32::MAX
    &&& 1 <= v.grace_ticks <= u32::MAX
    &&& match v.phase {
        PhaseView::Arming { ticks, .. } => 1 <= ticks < v.arm_ticks,
        PhaseView::Grace { ticks } => 1 <= ticks < v.grace_ticks,
        _ => true,
    }
}

/// Whether a call is considered live: active, or in its grace window.
pub open spec fn live(p: PhaseView) -> bool {
    p is Active || p is Grace
}

/// One tick of the machine: the next phase, and the transition it emits.
///
/// - Idle: a candidate starts arming (or starts the call at once when the
///   arming window is one tick).
/// - Arming: the candidate staying counts toward the window, under its
///   latest name, and fills it into `Start`; a tick without one goes idle.
/// - Active: a tick without a candidate opens the grace window (or ends
///   the call at once when it is one tick).
/// - Grace: a candidate coming back resumes the same call silently; empty
///   ticks count toward the window and fill it into `Stop`.
pub open spec fn step(v: DetectorView, cand: Option<Seq<char>>) -> (DetectorView, Option<DetectionView>) {
    let with = |p: PhaseView| DetectorView { phase: p, arm_ticks: v.arm_ticks, grace_ticks: v.grace_ticks };
    match (v.phase, cand) {
        (PhaseView::Idle, Some(app)) => if v.arm_ticks <= 1 {
            (with(PhaseView::Active), Some(DetectionView::Start(app)))
        } else {
            (with(PhaseView::Arming { app, ticks: 1 }), None)
        },
        (PhaseView::Idle, None) => (v, None),
        (PhaseView::Arming { ticks, .. }, Some(app)) => if ticks + 1 >= v.arm_ticks {
            (with(PhaseView::Active), Some(DetectionView::Start(app)))
        } else {
            (with(PhaseView::Arming { app, ticks: ticks + 1 }), None)
        },
        (PhaseView::Arming { .. }, None) => (with(PhaseView::Idle), None),
        (PhaseView::Active, Some(_)) => (v, None),
        (PhaseView::Active, None) => if v.grace_ticks <= 1 {
            (with(PhaseView::Idle), Some(DetectionView::Stop))
        } else {
            (with(PhaseView::Grace { ticks: 1 }), None)
        },
        (PhaseView::Grace { .. }, Some(_)) => (with(PhaseView::Active), None),
        (PhaseView::Grace { ticks }, None) => if ticks + 1 >= v.grace_ticks {
            (with(PhaseView::Idle), Some(DetectionView::Stop))
        } else {
            (with(PhaseView::Grace { ticks: ticks + 1 }), None)
        },
    }
}

/// Feeding a sequence of observations: the final state and every tick's
/// output, in order.
pub open spec fn run(v: DetectorView, cands: Seq<Option<Seq<char>>>) -> (DetectorView, Seq<
    Option<DetectionView>,
>)
    decreases cands.len(),
{
    if cands.len() == 0 {
        (v, Seq::empty())
    } else {
        let (v1, out) = step(v, cands[0]);
        let (vn, outs) = run(v1, cands.drop_first());
        (vn, seq![out] + outs)
    }
}

impl Detector {
    /// A fresh detector, idle, with each window at least one tick.
    pub fn new(arm_ticks: u32, grace_ticks: u32) -> (d: Detector)
        ensures
            d@.phase is Idle,
            d@.arm_ticks == if arm_ticks < 1 {
                1
            } else {
                arm_ticks as nat
            },
            d@.grace_ticks == if grace_ticks < 1 {
                1
            } else {
                grace_ticks as nat
            },
            valid(d@),
    {
        Detector {
            phase: Phase::Idle,
            arm_ticks: if arm_ticks < 1 {
                1
            } else {
                arm_ticks
            },
            grace_ticks: if grace_ticks < 1 {
                1
            } else {
                grace_ticks
            },
        }
    }

    /// Whether a call is currently considered live (Active or in Grace).
    pub fn call_live(&self) -> (r: bool)
        ensures
            r == live(self@.phase),
    {
        match self.phase {
            Phase::Active => true,
            Phase::Grace { .. } => true,
            _ => false,
        }
    }

    /// The current phase's name, for the poller's transition log.
    pub fn phase_name(&self) -> (r: &'static str)
        ensures
            self@.phase is Idle ==> r@ == "idle"@,
            self@.phase is Arming ==> r@ == "arming"@,
            self@.phase is Active ==> r@ == "active"@,
            self@.phase is Grace ==> r@ == "grace"@,
    {
        match self.phase {
            Phase::Idle => "idle",
            Phase::Arming { .. } => "arming",
            Phase::Active => "active",
            Phase::Grace { .. } => "grace",
        }
    }

    /// Feeds one tick's observation; returns a transition when one fires.
    pub fn tick(&mut self, candidate: Option<&str>) -> (r: Option<Detection>)
        requires
            valid(old(self)@),
        ensures
            valid(final(self)@),
            (final(self)@, detection_view(r)) == step(
                old(self)@,
                match candidate {
                    Some(c) => Some(c@),
                    None => None,
                },
            ),
    {
        let arm = self.arm_ticks;
        let grace = self.grace_ticks;
        match candidate {
            Some(app) => {
                let next_arming: Option<u32> = match &self.phase {
                    Phase::Idle => Some(0),
                    Phase::Arming { ticks, .. } => Some(*ticks),
                    _ => None,
                };
                match next_arming {
                    Some(seen) => {
                        if seen + 1 >= arm {
                            self.phase = Phase::Active;
                            Some(Detection::Start(app.to_owned()))
                        } else {
                            self.phase = Phase::Arming { app: app.to_owned(), ticks: seen + 1 };
                            None
                        }
                    },
                    None => {
                        self.phase = Phase::Active;
                        None
                    },
                }
            },
            None => {
                let next_grace: Option<u32> = match &self.phase {
                    Phase::Active => Some(0),
                    Phase::Grace { ticks } => Some(*ticks),
                    _ => None,
                };
                match next_grace {
                    Some(gone) => {
                        if gone + 1 >= grace {
                            self.phase = Phase::Idle;
                            Some(Detection::Stop)
                        } else {
                            self.phase = Phase::Grace { ticks: gone + 1 };
                            None
                        }
                    },
                    None => {
                        self.phase = Phase::Idle;
                        None
                    },
                }
            },
        }
    }
}

// --- Laws of the machine ---

/// `Start` and `Stop` alternate: a `Start` fires only from a state with no
/// live call and leaves one live; a `Stop` fires only from a live call and
/// leaves none. Every tick keeps the state valid.
pub proof fn lemma_transitions_alternate(v: DetectorView, cand: Option<Seq<char>>)
    requires
        valid(v),
    ensures
        valid(step(v, cand).0),
        step(v, cand).1 matches Some(DetectionView::Start(_)) ==> !live(v.phase) && live(
            step(v, cand).0.phase,
        ),
        step(v, cand).1 matches Some(DetectionView::Stop) ==> live(v.phase) && !live(
            step(v, cand).0.phase,
        ),
        step(v, cand).1 is None ==> live(v.phase) == live(step(v, cand).0.phase),
        step(v, cand).0.arm_ticks == v.arm_ticks,
        step(v, cand).0.grace_ticks == v.grace_ticks,
{
}

/// Only a candidate starts a call, and only its absence ends one.
pub proof fn lemma_start_needs_a_candidate(v: DetectorView, cand: Option<Seq<char>>)
    requires
        valid(v),
    ensures
        step(v, cand).1 matches Some(DetectionView::Start(app)) ==> cand == Some(app),
        step(v, cand).1 matches Some(DetectionView::Stop) ==> cand is None,
{
}

/// The first tick of a run, split off.
proof fn lemma_run_unfold(v: DetectorView, cands: Seq<Option<Seq<char>>>)
    requires
        cands.len() > 0,
    ensures
        run(v, cands).0 == run(step(v, cands[0]).0, cands.drop_first()).0,
        run(v, cands).1 == seq![step(v, cands[0]).1] + run(step(v, cands[0]).0, cands.drop_first()).1,
{
}

/// Every run outputs one entry per tick.
proof fn lemma_run_len(v: DetectorView, cands: Seq<Option<Seq<char>>>)
    ensures
        run(v, cands).1.len() == cands.len(),
    decreases cands.len(),
{
    if cands.len() > 0 {
        lemma_run_len(step(v, cands[0]).0, cands.drop_first());
    }
}

/// Feeding `n` ticks of the same candidate.
pub open spec fn present_for(app: Seq<char>, n: nat) -> Seq<Option<Seq<char>>> {
    Seq::new(n, |i: int| Some(app))
}

/// Feeding `n` ticks with no candidate.
pub open spec fn absent_for(n: nat) -> Seq<Option<Seq<char>>> {
    Seq::new(n, |i: int| None::<Seq<char>>)
}

/// From idle, a candidate present for exactly the arming window starts the
/// call on the window's last tick and not before, reporting its name.
pub proof fn lemma_start_fires_after_arming_window(v: DetectorView, app: Seq<char>)
    requires
        valid(v),
        v.phase is Idle,
    ensures
        run(v, present_for(app, v.arm_ticks)).1.len() == v.arm_ticks,
        run(v, present_for(app, v.arm_ticks)).1[v.arm_ticks - 1] == Some(DetectionView::Start(app)),
        forall|i: int|
            0 <= i < v.arm_ticks - 1 ==> (#[trigger] run(v, present_for(app, v.arm_ticks)).1[i]) is None,
        run(v, present_for(app, v.arm_ticks)).0.phase is Active,
{
    let cands = present_for(app, v.arm_ticks);
    lemma_run_unfold(v, cands);
    lemma_run_len(v, cands);
    let (v1, o1) = step(v, cands[0]);
    if v.arm_ticks == 1 {
        assert(cands.drop_first() =~= Seq::<Option<Seq<char>>>::empty());
        assert(run(v, cands).1 =~= seq![o1]);
    } else {
        assert(v1.phase == PhaseView::Arming { app, ticks: 1 });
        assert(cands.drop_first() =~= present_for(app, (v.arm_ticks - 1) as nat));
        lemma_arming_continues(v1, app, 1);
        let outs = run(v1, cands.drop_first()).1;
        let all = run(v, cands).1;
        assert(all == seq![o1] + outs);
        assert(all[v.arm_ticks - 1] == outs[v.arm_ticks - 2]);
        assert forall|i: int| 0 <= i < v.arm_ticks - 1 implies (#[trigger] all[i]) is None by {
            if i > 0 {
                assert(all[i] == outs[i - 1]);
            }
        }
    }
}

/// While arming, the rest of the window filled with the candidate starts
/// the call on its last tick and not before.
proof fn lemma_arming_continues(v: DetectorView, app: Seq<char>, t: nat)
    requires
        valid(v),
        v.phase == (PhaseView::Arming { app, ticks: t }),
    ensures
        run(v, present_for(app, (v.arm_ticks - t) as nat)).1.len() == v.arm_ticks - t,
        run(v, present_for(app, (v.arm_ticks - t) as nat)).1[v.arm_ticks - t - 1] == Some(
            DetectionView::Start(app),
        ),
        forall|i: int|
            0 <= i < v.arm_ticks - t - 1 ==> (#[trigger] run(
                v,
                present_for(app, (v.arm_ticks - t) as nat),
            ).1[i]) is None,
        run(v, present_for(app, (v.arm_ticks - t) as nat)).0.phase is Active,
    decreases v.arm_ticks - t,
{
    let n = (v.arm_ticks - t) as nat;
    let cands = present_for(app, n);
    lemma_run_unfold(v, cands);
    lemma_run_len(v, cands);
    let (v1, o1) = step(v, cands[0]);
    if t + 1 >= v.arm_ticks {
        assert(cands.drop_first() =~= Seq::<Option<Seq<char>>>::empty());
        assert(run(v, cands).1 =~= seq![o1]);
    } else {
        assert(cands.drop_first() =~= present_for(app, (v.arm_ticks - (t + 1)) as nat));
        lemma_arming_continues(v1, app, t + 1);
        let outs = run(v1, cands.drop_first()).1;
        let all = run(v, cands).1;
        assert(all == seq![o1] + outs);
        assert(all[n - 1] == outs[n - 2]);
        assert forall|i: int| 0 <= i < n - 1 implies (#[trigger] all[i]) is None by {
            if i > 0 {
                assert(all[i] == outs[i - 1]);
            }
        }
    }
}

/// A live call whose candidate stays away for the whole grace window ends
/// with `Stop` on the window's last tick, and not before.
pub proof fn lemma_stop_fires_after_grace_window(v: DetectorView)
    requires
        valid(v),
        v.phase is Active,
    ensures
        run(v, absent_for(v.grace_ticks)).1.len() == v.grace_ticks,
        run(v, absent_for(v.grace_ticks)).1[v.grace_ticks - 1] == Some(DetectionView::Stop),
        forall|i: int|
            0 <= i < v.grace_ticks - 1 ==> (#[trigger] run(v, absent_for(v.grace_ticks)).1[i]) is None,
        run(v, absent_for(v.grace_ticks)).0.phase is Idle,
{
    let cands = absent_for(v.grace_ticks);
    lemma_run_unfold(v, cands);
    lemma_run_len(v, cands);
    let (v1, o1) = step(v, cands[0]);
    if v.grace_ticks == 1 {
        assert(cands.drop_first() =~= Seq::<Option<Seq<char>>>::empty());
        assert(run(v, cands).1 =~= seq![o1]);
    } else {
        assert(cands.drop_first() =~= absent_for((v.grace_ticks - 1) as nat));
        lemma_grace_continues(v1, 1);
        let outs = run(v1, cands.drop_first()).1;
        let all = run(v, cands).1;
        assert(all == seq![o1] + outs);
        assert(all[v.grace_ticks - 1] == outs[v.grace_ticks - 2]);
        assert forall|i: int| 0 <= i < v.grace_ticks - 1 implies (#[trigger] all[i]) is None by {
            if i > 0 {
                assert(all[i] == outs[i - 1]);
            }
        }
    }
}

proof fn lemma_grace_continues(v: DetectorView, t: nat)
    requires
        valid(v),
        v.phase == (PhaseView::Grace { ticks: t }),
    ensures
        run(v, absent_for((v.grace_ticks - t) as nat)).1.len() == v.grace_ticks - t,
        run(v, absent_for((v.grace_ticks - t) as nat)).1[v.grace_ticks - t - 1] == Some(
            DetectionView::Stop,
        ),
        forall|i: int|
            0 <= i < v.grace_ticks - t - 1 ==> (#[trigger] run(
                v,
                absent_for((v.grace_ticks - t) as nat),
            ).1[i]) is None,
        run(v, absent_for((v.grace_ticks - t) as nat)).0.phase is Idle,
    decreases v.grace_ticks - t,
{
    let n = (v.grace_ticks - t) as nat;
    let cands = absent_for(n);
    lemma_run_unfold(v, cands);
    lemma_run_len(v, cands);
    let (v1, o1) = step(v, cands[0]);
    if t + 1 >= v.grace_ticks {
        assert(cands.drop_first() =~= Seq::<Option<Seq<char>>>::empty());
        assert(run(v, cands).1 =~= seq![o1]);
    } else {
        assert(cands.drop_first() =~= absent_for((v.grace_ticks - (t + 1)) as nat));
        lemma_grace_continues(v1, t + 1);
        let outs = run(v1, cands.drop_first()).1;
        let all = run(v, cands).1;
        assert(all == seq![o1] + outs);
        assert(all[n - 1] == outs[n - 2]);
        assert forall|i: int| 0 <= i < n - 1 implies (#[trigger] all[i]) is None by {
            if i > 0 {
                assert(all[i] == outs[i - 1]);
            }
        }
    }
}

/// A candidate coming back inside the grace window resumes the same call:
/// no transition, and the call is active again.
pub proof fn lemma_rejoin_within_grace_is_the_same_call(v: DetectorView, app: Seq<char>)
    requires
        valid(v),
        v.phase is Grace,
    ensures
        step(v, Some(app)).1 is None,
        step(v, Some(app)).0.phase is Active,
{
}

/// A candidate vanishing before the arming window fills sends the detector
/// back to idle without a transition: arming starts over.
pub proof fn lemma_arming_resets_when_candidate_disappears(v: DetectorView)
    requires
        valid(v),
        v.phase is Arming,
    ensures
        step(v, None).1 is None,
        step(v, None).0.phase is Idle,
{
}

// --- What a whole history of ticks decides ---

/// How many of the latest ticks saw a candidate, counting back from the
/// last tick.
pub open spec fn trailing_present(h: Seq<Option<Seq<char>>>) -> nat
    decreases h.len(),
{
    if h.len() == 0 {
        0
    } else if h.last() is Some {
        trailing_present(h.drop_last()) + 1
    } else {
        0
    }
}

/// How many of the latest ticks saw no candidate, counting back from the
/// last tick.
pub open spec fn trailing_absent(h: Seq<Option<Seq<char>>>) -> nat
    decreases h.len(),
{
    if h.len() == 0 {
        0
    } else if h.last() is None {
        trailing_absent(h.drop_last()) + 1
    } else {
        0
    }
}

/// Whether a tick's output starts a call.
pub open spec fn starts(o: Option<DetectionView>) -> bool {
    o matches Some(DetectionView::Start(_))
}

/// The arming count a phase holds (zero outside arming).
pub open spec fn arm_count(p: PhaseView) -> nat {
    match p {
        PhaseView::Arming { ticks, .. } => ticks,
        _ => 0,
    }
}

/// The grace count a phase holds (zero outside grace).
pub open spec fn grace_count(p: PhaseView) -> nat {
    match p {
        PhaseView::Grace { ticks } => ticks,
        _ => 0,
    }
}

/// A run's last tick, split off.
proof fn lemma_run_push(v: DetectorView, h: Seq<Option<Seq<char>>>, c: Option<Seq<char>>)
    ensures
        run(v, h.push(c)).0 == step(run(v, h).0, c).0,
        run(v, h.push(c)).1 == run(v, h).1.push(step(run(v, h).0, c).1),
    decreases h.len(),
{
    lemma_run_unfold(v, h.push(c));
    if h.len() == 0 {
        let e = Seq::<Option<Seq<char>>>::empty();
        assert(h.push(c).drop_first() =~= e);
        assert(h.push(c)[0] == c);
        assert(run(step(v, c).0, e).0 == step(v, c).0);
        assert(run(step(v, c).0, e).1 =~= Seq::<Option<DetectionView>>::empty());
        assert(run(v, h).0 == v);
        assert(run(v, h).1 =~= Seq::<Option<DetectionView>>::empty());
        assert(run(v, h.push(c)).1 =~= seq![step(v, c).1]);
    } else {
        let v1 = step(v, h[0]).0;
        lemma_run_unfold(v, h);
        assert(h.push(c).drop_first() =~= h.drop_first().push(c));
        assert(h.push(c)[0] == h[0]);
        lemma_run_push(v1, h.drop_first(), c);
        assert(run(v, h.push(c)).1 =~= run(v, h).1.push(step(run(v, h).0, c).1));
    }
}

/// What a detector that started idle knows of its history: while no call
/// is live, its arming count is the run of latest ticks that saw a
/// candidate; while a call is live, its grace count is the run of latest
/// empty ticks.
proof fn lemma_history(v0: DetectorView, h: Seq<Option<Seq<char>>>)
    requires
        valid(v0),
        v0.phase is Idle,
    ensures
        valid(run(v0, h).0),
        run(v0, h).0.arm_ticks == v0.arm_ticks,
        run(v0, h).0.grace_ticks == v0.grace_ticks,
        !live(run(v0, h).0.phase) ==> trailing_present(h) == arm_count(run(v0, h).0.phase),
        live(run(v0, h).0.phase) ==> trailing_absent(h) == grace_count(run(v0, h).0.phase),
    decreases h.len(),
{
    if h.len() > 0 {
        let init = h.drop_last();
        let c = h.last();
        assert(init.push(c) =~= h);
        lemma_history(v0, init);
        lemma_run_push(v0, init, c);
        assert(h.drop_last() =~= init);
    }
}

/// From a fresh detector (idle, windows `A` and `G` as `Detector::new`
/// sets them), whatever ticks came before: while no call is live, the next
/// tick starts one, under its candidate's name, exactly when that tick and
/// the ones just before it make a full arming window of `A` ticks with a
/// candidate; it never stops one; and after it the call is live exactly
/// when it started.
pub proof fn lemma_start_iff_full_arming_window(
    v0: DetectorView,
    h: Seq<Option<Seq<char>>>,
    c: Option<Seq<char>>,
)
    requires
        valid(v0),
        v0.phase is Idle,
        !live(run(v0, h).0.phase),
    ensures
        starts(step(run(v0, h).0, c).1) <==> (c is Some && trailing_present(h.push(c))
            >= v0.arm_ticks),
        step(run(v0, h).0, c).1 matches Some(DetectionView::Start(x)) ==> c == Some(x),
        !(step(run(v0, h).0, c).1 matches Some(DetectionView::Stop)),
        live(step(run(v0, h).0, c).0.phase) <==> starts(step(run(v0, h).0, c).1),
{
    lemma_history(v0, h);
    assert(h.push(c).drop_last() =~= h);
    assert(h.push(c).last() == c);
}

/// From a fresh detector, whatever ticks came before: while a call is
/// live, the next tick stops it exactly when that tick and the ones just
/// before it make a full grace window of `G` ticks without a candidate (a
/// candidate inside the window starts the count over); it never starts
/// one; and after it the call is live exactly when it did not stop.
pub proof fn lemma_stop_iff_full_grace_window(
    v0: DetectorView,
    h: Seq<Option<Seq<char>>>,
    c: Option<Seq<char>>,
)
    requires
        valid(v0),
        v0.phase is Idle,
        live(run(v0, h).0.phase),
    ensures
        step(run(v0, h).0, c).1 == Some(DetectionView::Stop) <==> (c is None && trailing_absent(
            h.push(c),
        ) >= v0.grace_ticks),
        !(starts(step(run(v0, h).0, c).1)),
        live(step(run(v0, h).0, c).0.phase) <==> step(run(v0, h).0, c).1 is None,
{
    lemma_history(v0, h);
    assert(h.push(c).drop_last() =~= h);
    assert(h.push(c).last() == c);
}

// --- The app matcher ---

/// `s` with every trailing `.exe` removed, as `trim_end_matches(".exe")`
/// leaves it.
pub open spec fn strip_exe(s: Seq<char>) -> Seq<char>
    decreases s.len(),
{
    if s.len() >= 4 && ends_with(s, seq!['.', 'e', 'x', 'e']) {
        strip_exe(s.take(s.len() - 4))
    } else {
        s
    }
}

/// An identity or allowlist entry in the form they are compared in:
/// lowercased, `.exe` stripped.
pub open spec fn match_key(s: Seq<char>) -> Seq<char> {
    strip_exe(lowercase(s))
}

/// Whether one identity matches one allowlist entry: both non-empty, and
/// one contains the other.
pub open spec fn identity_matches_entry(identity: Seq<char>, entry: Seq<char>) -> bool {
    let name = match_key(identity);
    let e = match_key(entry);
    name.len() > 0 && e.len() > 0 && (contains(name, e) || contains(e, name))
}

/// Whether an identity matches some allowlist entry.
pub open spec fn identity_matches(identity: Seq<char>, allowlist: Seq<Seq<char>>) -> bool {
    exists|k: int| 0 <= k < allowlist.len() && identity_matches_entry(identity, #[trigger] allowlist[k])
}

/// `v[..len]` with every trailing `.exe` removed: the new length.
fn strip_exe_len(v: &[char]) -> (n: usize)
    ensures
        n <= v@.len(),
        v@.take(n as int) == strip_exe(v@),
{
    let mut n = v.len();
    proof {
        assert(v@.take(n as int) =~= v@);
    }
    while n >= 4 && v[n - 4] == '.' && v[n - 3] == 'e' && v[n - 2] == 'x' && v[n - 1] == 'e'
        invariant
            n <= v@.len(),
            strip_exe(v@) == strip_exe(v@.take(n as int)),
        decreases n,
    {
        proof {
            let t = v@.take(n as int);
            assert(t.subrange(t.len() - 4, t.len() as int) =~= seq!['.', 'e', 'x', 'e']);
            assert(t.take(t.len() - 4) =~= v@.take(n - 4));
        }
        n = n - 4;
    }
    proof {
        let t = v@.take(n as int);
        if n >= 4 && ends_with(t, seq!['.', 'e', 'x', 'e']) {
            assert(t.subrange(t.len() - 4, t.len() as int)[0] == v@[n - 4]);
            assert(t.subrange(t.len() - 4, t.len() as int)[1] == v@[n - 3]);
            assert(t.subrange(t.len() - 4, t.len() as int)[2] == v@[n - 2]);
            assert(t.subrange(t.len() - 4, t.len() as int)[3] == v@[n - 1]);
        }
    }
    n
}

/// The comparison key of a string, as characters.
fn match_key_exec(s: &str) -> (k: Vec<char>)
    ensures
        k@ == match_key(s@),
{
    let lower = str_to_lowercase(s);
    let mut v = chars_of(lower.as_str());
    let n = strip_exe_len(v.as_slice());
    v.truncate(n);
    v
}

/// One identity string (exe name, bundle id, display name) against the
/// allowlist: case-insensitive, `.exe`-stripped, substring either way.
pub fn match_identity(identity: &str, allowlist: &[String]) -> (r: bool)
    ensures
        r == identity_matches(identity@, views(allowlist@)),
{
    let name = match_key_exec(identity);
    if name.len() == 0 {
        proof {
            assert forall|k: int| 0 <= k < allowlist@.len() implies !identity_matches_entry(
                identity@,
                #[trigger] views(allowlist@)[k],
            ) by {}
        }
        return false;
    }
    let mut k: usize = 0;
    while k < allowlist.len()
        invariant
            k <= allowlist@.len(),
            name@ == match_key(identity@),
            name@.len() > 0,
            forall|m: int|
                0 <= m < k ==> !identity_matches_entry(identity@, #[trigger] views(allowlist@)[m]),
        decreases allowlist.len() - k,
    {
        let entry = match_key_exec(allowlist[k].as_str());
        proof {
            assert(views(allowlist@)[k as int] == allowlist@[k as int]@);
        }
        if entry.len() > 0 && (contains_exec(name.as_slice(), entry.as_slice()) || contains_exec(
            entry.as_slice(),
            name.as_slice(),
        )) {
            proof {
                assert(identity_matches_entry(identity@, views(allowlist@)[k as int]));
            }
            return true;
        }
        k = k + 1;
    }
    false
}

/// Whether an app counts as a meeting app: some identity of it matches
/// the allowlist.
pub fn match_app(app: &AppId, allowlist: &[String]) -> (r: bool)
    ensures
        r == exists|i: int|
            0 <= i < app.identity_views().len() && identity_matches(
                #[trigger] app.identity_views()[i],
                views(allowlist@),
            ),
{
    let ids = app.identities();
    let mut i: usize = 0;
    while i < ids.len()
        invariant
            i <= ids@.len(),
            ids@.map_values(|s: &str| s@) == app.identity_views(),
            forall|m: int|
                0 <= m < i ==> !identity_matches(
                    #[trigger] app.identity_views()[m],
                    views(allowlist@),
                ),
        decreases ids.len() - i,
    {
        let hit = match_identity(ids[i], allowlist);
        proof {
            assert(app.identity_views()[i as int] == ids@[i as int]@);
        }
        if hit {
            return true;
        }
        i = i + 1;
    }
    false
}

} // verus!
