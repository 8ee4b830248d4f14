//! The transaction applier, as a state machine: it hands out one request at a time
//! (disables, then the screen resize, then enables, then the layout's own screen size)
//! and moves on when the display server acknowledges it.
use vstd::prelude::*;
use crate::reconcile::{CrtcRequest, Plan};

verus! {

/// Where a transaction stands.
#[derive(Debug, Clone, Copy, PartialEq, Eq, Structural)]
pub enum Stage {
    Disabling,
    Resizing,
    Enabling,
    FinalResize,
    Done,
    Failed,
}

/// What the server answered to the last action.
#[derive(Debug, Clone, Copy, PartialEq, Eq, Structural)]
pub enum Event {
    /// A controller request succeeded; the reply carries the new configuration timestamp.
    CrtcDone { timestamp: u32 },
    /// A screen resize succeeded.
    ScreenDone,
    /// The last request failed.
    Failed,
}

/// What to do next.
#[derive(Debug, Clone, Copy, PartialEq, Eq, Structural)]
pub enum Action {
    /// Send this request, which turns a controller off.
    Disable(CrtcRequest),
    /// Send this request, which sets a controller to drive an output.
    Enable(CrtcRequest),
    /// Resize the virtual screen.
    SetScreenSize { width: u16, height: u16, mm_width: u32, mm_height: u32 },
    /// The transaction is over; `changed` says whether it sent any request.
    Finished { changed: bool },
    /// A request failed or an answer came out of turn: the rest of the plan is dropped.
    Abort,
}

/// The mutable part of a transaction.
#[derive(Debug, Clone, Copy, PartialEq, Eq, Structural)]
pub struct Progress {
    pub stage: Stage,
    /// Disables acknowledged so far.
    pub acked: usize,
    /// Index of the enable in flight.
    pub next: usize,
    /// The newest timestamp that a disable reply carried.
    pub newest: Option<u32>,
}

/// A plan being applied.
#[derive(Debug)]
pub struct Transaction {
    pub plan: Plan,
    pub progress: Progress,
}

pub open spec fn newer(newest: Option<u32>, t: u32) -> Option<u32> {
    match newest {
        Some(n) => Some(if n >= t { n } else { t }),
        None => Some(t),
    }
}

/// An enable request, stamped with the newest timestamp that the disables produced.
pub open spec fn stamped(req: CrtcRequest, newest: Option<u32>) -> CrtcRequest {
    match newest {
        Some(t) => CrtcRequest { timestamp: t, ..req },
        None => req,
    }
}

pub open spec fn resize_action(plan: Plan) -> Action {
    Action::SetScreenSize {
        width: plan.width,
        height: plan.height,
        mm_width: plan.mm_width,
        mm_height: plan.mm_height,
    }
}

/// After the enables: set the layout's declared screen size if it differs, else finish.
pub open spec fn finish(plan: Plan, p: Progress) -> (Progress, Action) {
    if plan.fb_size.w != plan.width || plan.fb_size.h != plan.height {
        (
            Progress { stage: Stage::FinalResize, ..p },
            Action::SetScreenSize {
                width: plan.fb_size.w,
                height: plan.fb_size.h,
                mm_width: plan.mm_width,
                mm_height: plan.mm_height,
            },
        )
    } else {
        (Progress { stage: Stage::Done, ..p }, Action::Finished { changed: true })
    }
}

/// After the disables: resize the screen.
pub open spec fn after_disables(plan: Plan, p: Progress) -> (Progress, Action) {
    (Progress { stage: Stage::Resizing, ..p }, resize_action(plan))
}

/// The first action of a transaction.
pub open spec fn start_spec(plan: Plan) -> (Progress, Action) {
    let p = Progress { stage: Stage::Disabling, acked: 0, next: 0, newest: None };
    if !plan.spec_changed() {
        (Progress { stage: Stage::Done, ..p }, Action::Finished { changed: false })
    } else if plan.disables@.len() > 0 {
        (p, Action::Disable(plan.disables@[0]))
    } else {
        after_disables(plan, p)
    }
}

/// The step of a transaction on one answer of the server.
pub open spec fn advance(plan: Plan, p: Progress, ev: Event) -> (Progress, Action) {
    match ev {
        Event::Failed => (Progress { stage: Stage::Failed, ..p }, Action::Abort),
        Event::CrtcDone { timestamp } => match p.stage {
            Stage::Disabling => {
                let q = Progress { acked: (p.acked + 1) as usize, newest: newer(p.newest, timestamp), ..p };
                if q.acked < plan.disables@.len() {
                    (q, Action::Disable(plan.disables@[q.acked as int]))
                } else {
                    after_disables(plan, q)
                }
            },
            Stage::Enabling => {
                let q = Progress { next: (p.next + 1) as usize, ..p };
                if q.next < plan.enables@.len() {
                    (q, Action::Enable(stamped(plan.enables@[q.next as int], q.newest)))
                } else {
                    finish(plan, q)
                }
            },
            _ => (Progress { stage: Stage::Failed, ..p }, Action::Abort),
        },
        Event::ScreenDone => match p.stage {
            Stage::Resizing => if plan.enables@.len() > 0 {
                (
                    Progress { stage: Stage::Enabling, next: 0, ..p },
                    Action::Enable(stamped(plan.enables@[0], p.newest)),
                )
            } else {
                finish(plan, p)
            },
            Stage::FinalResize => (Progress { stage: Stage::Done, ..p }, Action::Finished { changed: true }),
            _ => (Progress { stage: Stage::Failed, ..p }, Action::Abort),
        },
    }
}

impl Transaction {
    /// The transaction's invariant: a request is in flight exactly in the stages that send
    /// one, and every disable is acknowledged once the disabling stage is over.
    pub open spec fn wf(&self) -> bool {
        progress_wf(self.plan, self.progress)
    }

    /// Starts applying `plan`, returning the first action.
    pub fn start(plan: Plan) -> (r: (Transaction, Action))
        ensures
            r.0.plan == plan,
            (r.0.progress, r.1) == start_spec(plan),
            r.0.wf(),
    {
        let p = Progress { stage: Stage::Disabling, acked: 0, next: 0, newest: None };
        if !plan.changed() {
            let a = Action::Finished { changed: false };
            (Transaction { plan, progress: Progress { stage: Stage::Done, ..p } }, a)
        } else if plan.disables.len() > 0 {
            let a = Action::Disable(plan.disables[0]);
            (Transaction { plan, progress: p }, a)
        } else {
            let a = Action::SetScreenSize {
                width: plan.width,
                height: plan.height,
                mm_width: plan.mm_width,
                mm_height: plan.mm_height,
            };
            (Transaction { plan, progress: Progress { stage: Stage::Resizing, ..p } }, a)
        }
    }

    fn finish_exec(&mut self) -> (a: Action)
        requires
            old(self).progress.stage == Stage::Enabling || old(self).progress.stage == Stage::Resizing,
        ensures
            final(self).plan == old(self).plan,
            (final(self).progress, a) == finish(old(self).plan, old(self).progress),
    {
        if self.plan.fb_size.w != self.plan.width || self.plan.fb_size.h != self.plan.height {
            self.progress.stage = Stage::FinalResize;
            Action::SetScreenSize {
                width: self.plan.fb_size.w,
                height: self.plan.fb_size.h,
                mm_width: self.plan.mm_width,
                mm_height: self.plan.mm_height,
            }
        } else {
            self.progress.stage = Stage::Done;
            Action::Finished { changed: true }
        }
    }

    fn stamp(&self, i: usize) -> (r: CrtcRequest)
        requires
            i < self.plan.enables@.len(),
        ensures
            r == stamped(self.plan.enables@[i as int], self.progress.newest),
    {
        let req = self.plan.enables[i];
        match self.progress.newest {
            Some(t) => CrtcRequest { timestamp: t, ..req },
            None => req,
        }
    }

    /// Takes the server's answer to the last action and returns the next one.
    pub fn on_event(&mut self, ev: Event) -> (a: Action)
        requires
            old(self).wf(),
        ensures
            final(self).plan == old(self).plan,
            (final(self).progress, a) == advance(old(self).plan, old(self).progress, ev),
            final(self).wf(),
    {
        match ev {
            Event::Failed => {
                self.progress.stage = Stage::Failed;
                Action::Abort
            },
            Event::CrtcDone { timestamp } => match self.progress.stage {
                Stage::Disabling => {
                    let total = self.plan.disables.len();
                    self.progress.acked = self.progress.acked + 1;
                    self.progress.newest = match self.progress.newest {
                        Some(n) => Some(if n >= timestamp { n } else { timestamp }),
                        None => Some(timestamp),
                    };
                    if self.progress.acked < total {
                        Action::Disable(self.plan.disables[self.progress.acked])
                    } else {
                        self.progress.stage = Stage::Resizing;
                        Action::SetScreenSize {
                            width: self.plan.width,
                            height: self.plan.height,
                            mm_width: self.plan.mm_width,
                            mm_height: self.plan.mm_height,
                        }
                    }
                },
                Stage::Enabling => {
                    let total = self.plan.enables.len();
                    self.progress.next = self.progress.next + 1;
                    if self.progress.next < total {
                        Action::Enable(self.stamp(self.progress.next))
                    } else {
                        self.finish_exec()
                    }
                },
                _ => {
                    self.progress.stage = Stage::Failed;
                    Action::Abort
                },
            },
            Event::ScreenDone => match self.progress.stage {
                Stage::Resizing => if self.plan.enables.len() > 0 {
                    self.progress.stage = Stage::Enabling;
                    self.progress.next = 0;
                    Action::Enable(self.stamp(0))
                } else {
                    self.finish_exec()
                },
                Stage::FinalResize => {
                    self.progress.stage = Stage::Done;
                    Action::Finished { changed: true }
                },
                _ => {
                    self.progress.stage = Stage::Failed;
                    Action::Abort
                },
            },
        }
    }
}

/// See `Transaction::wf`.
pub open spec fn progress_wf(plan: Plan, p: Progress) -> bool {
    &&& p.acked <= plan.disables@.len()
    &&& p.stage == Stage::Disabling ==> p.acked < plan.disables@.len()
    &&& p.stage == Stage::Enabling ==> p.next < plan.enables@.len()
    &&& (p.stage == Stage::Resizing || p.stage == Stage::Enabling || p.stage == Stage::FinalResize
        || p.stage == Stage::Done) ==> p.acked == plan.disables@.len()
}

/// Disables come first: a transaction sends an enable request only once every disable
/// request has been acknowledged and the screen has been resized, and a disable request
/// never after that.
pub proof fn lemma_disables_acknowledged_before_enables(plan: Plan, p: Progress, ev: Event)
    requires
        progress_wf(plan, p),
    ensures
        progress_wf(plan, advance(plan, p, ev).0),
        advance(plan, p, ev).1 is Enable ==> {
            &&& advance(plan, p, ev).0.acked == plan.disables@.len()
            &&& (p.stage == Stage::Resizing && ev == Event::ScreenDone) || p.stage == Stage::Enabling
        },
        advance(plan, p, ev).1 is Disable ==> p.stage == Stage::Disabling,
        !(start_spec(plan).1 is Enable),
        progress_wf(plan, start_spec(plan).0),
{
}

/// The actions a transaction hands out when the server gives the answers `evs`, one per
/// action, and where it then stands.
pub open spec fn run(plan: Plan, evs: Seq<Event>) -> (Progress, Seq<Action>)
    decreases evs.len(),
{
    if evs.len() == 0 {
        (start_spec(plan).0, seq![start_spec(plan).1])
    } else {
        let (p, acts) = run(plan, evs.drop_last());
        let (q, a) = advance(plan, p, evs.last());
        (q, acts.push(a))
    }
}

pub open spec fn before_enabling(st: Stage) -> bool {
    st == Stage::Disabling || st == Stage::Resizing
}

/// What holds of every prefix of a run.
pub open spec fn run_inv(plan: Plan, p: Progress, acts: Seq<Action>) -> bool {
    &&& progress_wf(plan, p)
    &&& before_enabling(p.stage) ==> forall|i: int| 0 <= i < acts.len() ==> !(#[trigger] acts[i] is Enable)
    &&& p.stage != Stage::Disabling ==> forall|i: int| 0 <= i < acts.len() ==> !(#[trigger] acts[i] is Disable) || i < first_resize(acts)
    &&& p.stage == Stage::Resizing ==> acts.last() is SetScreenSize
    &&& forall|i: int| 0 <= i < acts.len() && #[trigger] acts[i] is Enable ==> {
        &&& first_resize(acts) < i
        &&& forall|d: int| 0 <= d < acts.len() && #[trigger] acts[d] is Disable ==> d < first_resize(acts)
    }
    &&& p.stage == Stage::Disabling ==> forall|i: int| 0 <= i < acts.len() ==> !(#[trigger] acts[i] is SetScreenSize)
}

/// Index of the first screen resize of `acts`, or its length if there is none.
pub open spec fn first_resize(acts: Seq<Action>) -> int
    decreases acts.len(),
{
    if acts.len() == 0 {
        0
    } else if first_resize(acts.drop_last()) < acts.len() - 1 {
        first_resize(acts.drop_last())
    } else if acts.last() is SetScreenSize {
        acts.len() - 1
    } else {
        acts.len() as int
    }
}

proof fn lemma_first_resize_push(acts: Seq<Action>, a: Action)
    ensures
        0 <= first_resize(acts) <= acts.len(),
        first_resize(acts) < acts.len() ==> acts[first_resize(acts)] is SetScreenSize,
        first_resize(acts) < acts.len() ==> first_resize(acts.push(a)) == first_resize(acts),
        first_resize(acts) == acts.len() ==> first_resize(acts.push(a)) == if a is SetScreenSize {
            acts.len() as int
        } else {
            acts.len() + 1 as int
        },
        forall|i: int| 0 <= i < first_resize(acts) ==> !(#[trigger] acts[i] is SetScreenSize),
    decreases acts.len(),
{
    assert(acts.push(a).drop_last() =~= acts);
    if acts.len() > 0 {
        lemma_first_resize_push(acts.drop_last(), acts.last());
        assert(acts.drop_last().push(acts.last()) =~= acts);
        let fr = first_resize(acts.drop_last());
        if fr < acts.len() - 1 {
            assert(acts[fr] == acts.drop_last()[fr]);
        }
        assert forall|i: int| 0 <= i < first_resize(acts) implies !(#[trigger] acts[i] is SetScreenSize) by {
            if i < acts.len() - 1 {
                assert(acts[i] == acts.drop_last()[i]);
            }
        }
    }
}

proof fn lemma_run_inv(plan: Plan, evs: Seq<Event>)
    ensures
        run_inv(plan, run(plan, evs).0, run(plan, evs).1),
        run(plan, evs).1.len() == evs.len() + 1,
    decreases evs.len(),
{
    if evs.len() == 0 {
        let acts = run(plan, evs).1;
        lemma_first_resize_push(Seq::empty(), start_spec(plan).1);
        assert(acts =~= Seq::<Action>::empty().push(start_spec(plan).1));
    } else {
        lemma_run_inv(plan, evs.drop_last());
        let (p, acts) = run(plan, evs.drop_last());
        let ev = evs.last();
        let (q, a) = advance(plan, p, ev);
        let t = acts.push(a);
        lemma_disables_acknowledged_before_enables(plan, p, ev);
        lemma_first_resize_push(acts, a);
        assert forall|i: int| 0 <= i < acts.len() implies #[trigger] t[i] == acts[i] by {}
        assert(t.last() == a);
        if p.stage == Stage::Disabling {
            assert forall|i: int| 0 <= i < acts.len() implies !(#[trigger] acts[i] is SetScreenSize) by {}
            assert(first_resize(acts) == acts.len()) by {
                if first_resize(acts) < acts.len() {
                    assert(acts[first_resize(acts)] is SetScreenSize);
                }
            }
        }
        assert(run_inv(plan, q, t));
    }
}

/// Over a whole run, whatever the server answers: every disable request is handed out
/// before every enable request, and the screen is resized after the last disable and
/// before the first enable.
pub proof fn lemma_run_orders_requests(plan: Plan, evs: Seq<Event>)
    ensures
        ({
            let acts = run(plan, evs).1;
            &&& forall|d: int, e: int|
                0 <= d < acts.len() && 0 <= e < acts.len() && #[trigger] acts[d] is Disable && #[trigger] acts[e] is Enable ==> d < e
            &&& forall|e: int| 0 <= e < acts.len() && #[trigger] acts[e] is Enable ==> {
                &&& 0 <= first_resize(acts) < e
                &&& acts[first_resize(acts)] is SetScreenSize
                &&& forall|d: int| 0 <= d < acts.len() && #[trigger] acts[d] is Disable ==> d < first_resize(acts)
            }
        }),
{
    lemma_run_inv(plan, evs);
    let acts = run(plan, evs).1;
    lemma_first_resize_push(acts, Action::Abort);
}

} // verus!
