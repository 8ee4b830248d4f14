//! What the reconciler guarantees across a whole pass and across two passes: controllers
//! are allocated exclusively, configured outputs are applied, the screen holds every
//! output, and a second pass over the state the first one produced changes nothing.
use vstd::prelude::*;
use crate::config::{Mode, MonConfig};
use crate::reconcile::{
    allocate_upto, allocation, assign_output, claimed, config_for, crtc_is, disables_of,
    enable_request, enables_of, extent, is_active, lemma_error_sticks, needs_change, pickable,
    plan_matches, screen_height, screen_width, state_of, Assignment, Plan, ReconcileError,
};
use crate::resources::{CrtcInfo, ModeMap, OutputId, ScreenResources};
use crate::search::{first_in, lemma_first_in, lemma_first_in_found, lemma_first_in_index};

verus! {

/// No configured output from index `n` on is driven by a controller that `s` took.
pub open spec fn untouched_after(res: ScreenResources, setup: Seq<(OutputId, MonConfig)>, s: Seq<Assignment>, n: nat) -> bool {
    forall|k: int, j: int|
        0 <= k < s.len() && n <= j < res.outputs@.len() && config_for(setup, res.outputs@[j].id) is Some
            ==> (#[trigger] res.outputs@[j]).crtc != Some((#[trigger] s[k]).crtc)
}

/// No two outputs that the setup lists are driven by the same controller.
pub open spec fn configured_crtcs_distinct(res: ScreenResources, setup: Seq<(OutputId, MonConfig)>) -> bool {
    forall|i: int, j: int|
        0 <= i < res.outputs@.len() && 0 <= j < res.outputs@.len() && i != j
            && config_for(setup, res.outputs@[i].id) is Some && config_for(setup, res.outputs@[j].id) is Some
            && res.outputs@[i].crtc is Some ==> res.outputs@[i].crtc != res.outputs@[j].crtc
}

proof fn lemma_allocation_exclusive(res: ScreenResources, setup: Seq<(OutputId, MonConfig)>, modes: ModeMap, n: nat)
    requires
        n <= res.outputs@.len(),
        configured_crtcs_distinct(res, setup),
        allocate_upto(res, setup, modes, n) is Ok,
    ensures
        untouched_after(res, setup, allocate_upto(res, setup, modes, n)->Ok_0, n),
        forall|a: int, b: int|
            0 <= a < b < allocate_upto(res, setup, modes, n)->Ok_0.len() ==> allocate_upto(res, setup, modes, n)->Ok_0[a].crtc
                != allocate_upto(res, setup, modes, n)->Ok_0[b].crtc,
    decreases n,
{
    if n > 0 {
        let prev = (n - 1) as nat;
        lemma_allocation_exclusive(res, setup, modes, prev);
        let s = allocate_upto(res, setup, modes, prev)->Ok_0;
        let out = res.outputs@[n - 1];
        if let Ok(Some(a)) = assign_output(res, setup, modes, s, out) {
            let t = s.push(a);
            if out.crtc is None {
                lemma_first_in_found(out.crtcs@, pickable(res, s));
            }
            assert forall|j: int|
                n <= j < res.outputs@.len() && config_for(setup, res.outputs@[j].id) is Some implies res.outputs@[j].crtc
                    != Some(a.crtc) by {
                if out.crtc is Some && res.outputs@[j].crtc == Some(a.crtc) {
                    assert(res.outputs@[j].crtc == res.outputs@[n - 1].crtc);
                }
            }
            assert forall|k: int| 0 <= k < s.len() implies s[k].crtc != a.crtc by {
                if out.crtc is Some {
                    assert(res.outputs@[n - 1].crtc != Some(s[k].crtc));
                }
            }
            assert(untouched_after(res, setup, t, n)) by {
                assert forall|k: int, j: int|
                    0 <= k < t.len() && n <= j < res.outputs@.len() && config_for(setup, res.outputs@[j].id) is Some
                        implies (#[trigger] res.outputs@[j]).crtc != Some((#[trigger] t[k]).crtc) by {
                    if k < s.len() {
                        assert(t[k] == s[k]);
                    }
                }
            }
            assert forall|x: int, y: int| 0 <= x < y < t.len() implies t[x].crtc != t[y].crtc by {
                if y < s.len() {
                    assert(s[x].crtc != s[y].crtc);
                } else {
                    assert(t[x] == s[x]);
                }
            }
        }
    }
}

/// Controllers are allocated exclusively: within one pass no controller is given to two
/// outputs, even where the outputs could use the same controllers. This holds whenever no
/// two configured outputs are already driven by one controller (a cloned display).
pub proof fn lemma_crtc_allocation_exclusive(res: ScreenResources, setup: Seq<(OutputId, MonConfig)>, modes: ModeMap)
    requires
        configured_crtcs_distinct(res, setup),
        allocation(res, setup, modes) is Ok,
    ensures
        forall|a: int, b: int|
            0 <= a < b < allocation(res, setup, modes)->Ok_0.len() ==> allocation(res, setup, modes)->Ok_0[a].crtc
                != allocation(res, setup, modes)->Ok_0[b].crtc,
{
    lemma_allocation_exclusive(res, setup, modes, res.outputs@.len());
}

proof fn lemma_allocation_covers(res: ScreenResources, setup: Seq<(OutputId, MonConfig)>, modes: ModeMap, n: nat)
    requires
        n <= res.outputs@.len(),
        allocate_upto(res, setup, modes, n) is Ok,
    ensures
        forall|idx: int| #![trigger res.outputs@[idx]]
            0 <= idx < n && config_for(setup, res.outputs@[idx].id) is Some ==> exists|k: int|
                0 <= k < allocate_upto(res, setup, modes, n)->Ok_0.len()
                    && (#[trigger] allocate_upto(res, setup, modes, n)->Ok_0[k]).output == res.outputs@[idx].id
                    && allocate_upto(res, setup, modes, n)->Ok_0[k].config == config_for(setup, res.outputs@[idx].id)->Some_0,
    decreases n,
{
    if n > 0 {
        let prev = (n - 1) as nat;
        lemma_allocation_covers(res, setup, modes, prev);
        let s = allocate_upto(res, setup, modes, prev)->Ok_0;
        let t = allocate_upto(res, setup, modes, n)->Ok_0;
        assert forall|idx: int| #![trigger res.outputs@[idx]]
            0 <= idx < n && config_for(setup, res.outputs@[idx].id) is Some implies exists|k: int|
                0 <= k < t.len() && (#[trigger] t[k]).output == res.outputs@[idx].id
                    && t[k].config == config_for(setup, res.outputs@[idx].id)->Some_0 by {
            if idx < prev {
                let k = choose|k: int|
                    0 <= k < s.len() && (#[trigger] s[k]).output == res.outputs@[idx].id
                        && s[k].config == config_for(setup, res.outputs@[idx].id)->Some_0;
                assert(t[k] == s[k]);
            } else {
                assert(t[s.len() as int].output == res.outputs@[idx].id);
            }
        }
    }
}

proof fn lemma_enables_cover(s: Seq<Assignment>)
    ensures
        forall|k: int| 0 <= k < s.len() && needs_change(#[trigger] s[k]) ==> enables_of(s).contains(enable_request(s[k])),
    decreases s.len(),
{
    if s.len() > 0 {
        lemma_enables_cover(s.drop_last());
        assert forall|k: int| 0 <= k < s.len() && needs_change(#[trigger] s[k]) implies enables_of(s).contains(enable_request(s[k])) by {
            if k < s.len() - 1 {
                assert(s.drop_last()[k] == s[k]);
                let r = enables_of(s.drop_last());
                let j = choose|j: int| 0 <= j < r.len() && r[j] == enable_request(s[k]);
                if needs_change(s.last()) {
                    assert(enables_of(s)[j] == r[j]);
                }
            } else {
                assert(enables_of(s).last() == enable_request(s[k]));
            }
        }
    }
}

/// A configured output is never left unconfigured by a pass that succeeds: every output
/// that the setup lists gets a controller and its desired settings, and the plan enables
/// that controller unless it already shows the desired position and mode.
pub proof fn lemma_configured_outputs_applied(
    r: Result<Plan, ReconcileError>,
    res: ScreenResources,
    setup: Seq<(OutputId, MonConfig)>,
    modes: ModeMap,
    fb_size: Mode,
)
    requires
        plan_matches(r, res, setup, modes, fb_size),
        r is Ok,
    ensures
        forall|idx: int| #![trigger res.outputs@[idx]]
            0 <= idx < res.outputs@.len() && config_for(setup, res.outputs@[idx].id) is Some ==> exists|k: int|
                0 <= k < r->Ok_0.assignments@.len() && {
                    let a = #[trigger] r->Ok_0.assignments@[k];
                    &&& a.output == res.outputs@[idx].id
                    &&& a.config == config_for(setup, res.outputs@[idx].id)->Some_0
                    &&& (needs_change(a) ==> r->Ok_0.enables@.contains(enable_request(a)))
                },
{
    let s = allocation(res, setup, modes)->Ok_0;
    lemma_allocation_covers(res, setup, modes, res.outputs@.len());
    lemma_enables_cover(s);
}

proof fn lemma_screen_bounds(s: Seq<Assignment>)
    ensures
        forall|k: int| 0 <= k < s.len() ==> {
            &&& screen_width(s) >= extent((#[trigger] s[k]).config.position.x, s[k].config.mode.w)
            &&& screen_height(s) >= extent(s[k].config.position.y, s[k].config.mode.h)
            &&& screen_width(s) >= extent(s[k].current.x, s[k].current.width)
            &&& screen_height(s) >= extent(s[k].current.y, s[k].current.height)
        },
    decreases s.len(),
{
    if s.len() > 0 {
        lemma_screen_bounds(s.drop_last());
        assert forall|k: int| 0 <= k < s.len() - 1 implies s.drop_last()[k] == s[k] by {}
    }
}

/// The screen holds every output: after a successful pass the screen is at least as wide
/// and as tall as every configured output's position plus mode, and as every chosen
/// controller's current extent.
pub proof fn lemma_screen_holds_outputs(
    r: Result<Plan, ReconcileError>,
    res: ScreenResources,
    setup: Seq<(OutputId, MonConfig)>,
    modes: ModeMap,
    fb_size: Mode,
)
    requires
        plan_matches(r, res, setup, modes, fb_size),
        r is Ok,
    ensures
        forall|k: int| 0 <= k < r->Ok_0.assignments@.len() ==> {
            let a = #[trigger] r->Ok_0.assignments@[k];
            &&& r->Ok_0.width as int >= extent(a.config.position.x, a.config.mode.w)
            &&& r->Ok_0.height as int >= extent(a.config.position.y, a.config.mode.h)
            &&& r->Ok_0.width as int >= extent(a.current.x, a.current.width)
            &&& r->Ok_0.height as int >= extent(a.current.y, a.current.height)
        },
{
    lemma_screen_bounds(allocation(res, setup, modes)->Ok_0);
}

/// `res2` is what the server shows once the requests of a pass that made assignments `s`
/// on `res` have taken effect: the same outputs, controllers and modes; every assigned
/// output driven by its controller; every assigned controller at its assignment's position
/// and mode; every other controller off.
pub open spec fn shows_plan(res: ScreenResources, s: Seq<Assignment>, res2: ScreenResources) -> bool {
    &&& res2.outputs@.len() == res.outputs@.len()
    &&& forall|i: int| #![trigger res2.outputs@[i]] 0 <= i < res.outputs@.len() ==> {
        &&& res2.outputs@[i].id == res.outputs@[i].id
        &&& res2.outputs@[i].modes@ == res.outputs@[i].modes@
    }
    &&& forall|i: int, k: int|
        0 <= i < res.outputs@.len() && 0 <= k < s.len() && (#[trigger] s[k]).output == (#[trigger] res.outputs@[i]).id
            ==> res2.outputs@[i].crtc == Some(s[k].crtc)
    &&& res2.crtcs@.len() == res.crtcs@.len()
    &&& forall|j: int| #![trigger res2.crtcs@[j]] 0 <= j < res.crtcs@.len() ==> {
        &&& res2.crtcs@[j].id == res.crtcs@[j].id
        &&& !claimed(s, res.crtcs@[j].id) ==> !is_active(res2.crtcs@[j])
    }
    &&& forall|j: int, k: int|
        0 <= j < res.crtcs@.len() && 0 <= k < s.len() && (#[trigger] s[k]).crtc == (#[trigger] res2.crtcs@[j]).id ==> {
            &&& res2.crtcs@[j].x == s[k].config.position.x
            &&& res2.crtcs@[j].y == s[k].config.position.y
            &&& res2.crtcs@[j].mode == Some(s[k].mode)
        }
}

/// Two assignments pick the same output, controller, mode and settings.
pub open spec fn same_choice(a: Assignment, b: Assignment) -> bool {
    a.output == b.output && a.crtc == b.crtc && a.mode == b.mode && a.config == b.config
}

proof fn lemma_prefix(res: ScreenResources, setup: Seq<(OutputId, MonConfig)>, modes: ModeMap, n: nat, m: nat)
    requires
        n <= m <= res.outputs@.len(),
        allocate_upto(res, setup, modes, m) is Ok,
    ensures
        allocate_upto(res, setup, modes, n) is Ok,
        allocate_upto(res, setup, modes, n)->Ok_0.len() <= allocate_upto(res, setup, modes, m)->Ok_0.len(),
        forall|k: int| 0 <= k < allocate_upto(res, setup, modes, n)->Ok_0.len() ==>
            #[trigger] allocate_upto(res, setup, modes, n)->Ok_0[k] == allocate_upto(res, setup, modes, m)->Ok_0[k],
    decreases m - n,
{
    if allocate_upto(res, setup, modes, n) is Err {
        lemma_error_sticks(res, setup, modes, n, m);
    } else if n < m {
        lemma_prefix(res, setup, modes, n + 1, m);
        let sn = allocate_upto(res, setup, modes, n)->Ok_0;
        let sn1 = allocate_upto(res, setup, modes, n + 1)->Ok_0;
        if let Ok(Some(a)) = assign_output(res, setup, modes, sn, res.outputs@[n as int]) {
            assert(sn1 == sn.push(a));
        } else {
            assert(sn1 == sn);
        }
        assert forall|k: int| 0 <= k < sn.len() implies #[trigger] sn[k] == allocate_upto(res, setup, modes, m)->Ok_0[k] by {
            assert(sn1[k] == sn[k]);
        }
    }
}

proof fn lemma_second_pass(
    res: ScreenResources,
    setup: Seq<(OutputId, MonConfig)>,
    modes: ModeMap,
    res2: ScreenResources,
    n: nat,
)
    requires
        n <= res.outputs@.len(),
        allocation(res, setup, modes) is Ok,
        shows_plan(res, allocation(res, setup, modes)->Ok_0, res2),
    ensures
        allocate_upto(res2, setup, modes, n) is Ok,
        allocate_upto(res, setup, modes, n) is Ok,
        allocate_upto(res2, setup, modes, n)->Ok_0.len() == allocate_upto(res, setup, modes, n)->Ok_0.len(),
        forall|k: int| #![trigger allocate_upto(res2, setup, modes, n)->Ok_0[k]]
            0 <= k < allocate_upto(res2, setup, modes, n)->Ok_0.len() ==> {
                &&& same_choice(allocate_upto(res2, setup, modes, n)->Ok_0[k], allocate_upto(res, setup, modes, n)->Ok_0[k])
                &&& !needs_change(allocate_upto(res2, setup, modes, n)->Ok_0[k])
            },
    decreases n,
{
    let full = allocation(res, setup, modes)->Ok_0;
    lemma_prefix(res, setup, modes, n, res.outputs@.len());
    if n > 0 {
        let prev = (n - 1) as nat;
        lemma_second_pass(res, setup, modes, res2, prev);
        let s = allocate_upto(res, setup, modes, prev)->Ok_0;
        let t = allocate_upto(res2, setup, modes, prev)->Ok_0;
        let out = res.outputs@[n - 1];
        let out2 = res2.outputs@[n - 1];
        assert(out2.id == out.id && out2.modes@ == out.modes@);
        if let Ok(Some(a)) = assign_output(res, setup, modes, s, out) {
            lemma_prefix(res, setup, modes, n, res.outputs@.len());
            assert(allocate_upto(res, setup, modes, n)->Ok_0 == s.push(a));
            assert(allocate_upto(res, setup, modes, n)->Ok_0[s.len() as int] == a);
            assert(full[s.len() as int] == a);
            assert(out2.crtc == Some(a.crtc));
            let ci = first_in(res.crtcs@, crtc_is(a.crtc))->Some_0;
            let j = lemma_first_in_index(res.crtcs@, crtc_is(a.crtc));
            assert forall|l: int| 0 <= l < j implies !crtc_is(a.crtc)(#[trigger] res2.crtcs@[l]) by {
                assert(!crtc_is(a.crtc)(res.crtcs@[l]));
            }
            lemma_first_in(res2.crtcs@, crtc_is(a.crtc), j);
            let b = assign_output(res2, setup, modes, t, out2)->Ok_0->Some_0;
            assert(assign_output(res2, setup, modes, t, out2) == Ok::<Option<Assignment>, ReconcileError>(Some(b)));
            assert(b.current == state_of(res2.crtcs@[j]));
            assert(full[s.len() as int].crtc == res2.crtcs@[j].id);
            assert(!needs_change(b));
            let t2 = t.push(b);
            assert(allocate_upto(res2, setup, modes, n) == Ok::<Seq<Assignment>, ReconcileError>(t2));
            assert forall|k: int| #![trigger t2[k]] 0 <= k < t2.len() implies same_choice(t2[k], s.push(a)[k]) && !needs_change(t2[k]) by {
                if k < t.len() {
                    assert(t2[k] == t[k] && s.push(a)[k] == s[k]);
                }
            }
        } else {
            assert(allocate_upto(res2, setup, modes, n) == Ok::<Seq<Assignment>, ReconcileError>(t));
        }
    }
}

proof fn lemma_no_enables(s: Seq<Assignment>)
    requires
        forall|k: int| 0 <= k < s.len() ==> !needs_change(#[trigger] s[k]),
    ensures
        enables_of(s).len() == 0,
    decreases s.len(),
{
    if s.len() > 0 {
        lemma_no_enables(s.drop_last());
    }
}

proof fn lemma_no_disables(crtcs: Seq<CrtcInfo>, s: Seq<Assignment>)
    requires
        forall|j: int| 0 <= j < crtcs.len() ==> claimed(s, (#[trigger] crtcs[j]).id) || !is_active(crtcs[j]),
    ensures
        disables_of(crtcs, s).len() == 0,
    decreases crtcs.len(),
{
    if crtcs.len() > 0 {
        assert forall|j: int| 0 <= j < crtcs.drop_last().len() implies claimed(s, (#[trigger] crtcs.drop_last()[j]).id)
            || !is_active(crtcs.drop_last()[j]) by {
            assert(crtcs.drop_last()[j] == crtcs[j]);
        }
        lemma_no_disables(crtcs.drop_last(), s);
    }
}

/// Reconciling is idempotent: once the server shows what a pass planned, a second pass
/// with the same setup and modes makes the same choices and plans no disable and no
/// enable request.
pub proof fn lemma_second_pass_is_quiet(
    res: ScreenResources,
    setup: Seq<(OutputId, MonConfig)>,
    modes: ModeMap,
    res2: ScreenResources,
)
    requires
        allocation(res, setup, modes) is Ok,
        shows_plan(res, allocation(res, setup, modes)->Ok_0, res2),
    ensures
        allocation(res2, setup, modes) is Ok,
        enables_of(allocation(res2, setup, modes)->Ok_0).len() == 0,
        disables_of(res2.crtcs@, allocation(res2, setup, modes)->Ok_0).len() == 0,
{
    let s = allocation(res, setup, modes)->Ok_0;
    lemma_second_pass(res, setup, modes, res2, res.outputs@.len());
    let t = allocation(res2, setup, modes)->Ok_0;
    lemma_no_enables(t);
    assert forall|j: int| 0 <= j < res2.crtcs@.len() implies claimed(t, (#[trigger] res2.crtcs@[j]).id)
        || !is_active(res2.crtcs@[j]) by {
        if claimed(s, res.crtcs@[j].id) {
            let k = choose|k: int| 0 <= k < s.len() && s[k].crtc == res.crtcs@[j].id;
            assert(same_choice(t[k], s[k]));
        }
    }
    lemma_no_disables(res2.crtcs@, t);
}

} // verus!
