//! The reconciler: allocates a display controller to each configured output and
//! plans the disable and enable requests that bring the hardware to the layout.
use vstd::prelude::*;
use crate::config::{max_int, Mode, MonConfig};
use crate::search::{first_in, lemma_first_in};
use crate::resources::{CrtcId, CrtcInfo, ModeId, ModeMap, OutputId, OutputInfo, ScreenResources};

verus! {

/// Why a reconciliation pass could not be planned.
#[derive(Debug, Clone, Copy, PartialEq, Eq, Structural)]
pub enum ReconcileError {
    /// No mode of the screen has the resolution the layout asks for.
    ModeNotFound { output: OutputId, mode: Mode },
    /// The output supports no mode of the resolution the layout asks for.
    ModeUnsupported { output: OutputId, mode: Mode },
    /// Every controller that could drive the output is taken.
    NoFreeCrtc { output: OutputId },
    /// The chosen controller is not in the snapshot.
    UnknownCrtc { output: OutputId, crtc: CrtcId },
    /// The outputs reach beyond the largest screen the protocol can describe.
    ScreenTooLarge { width: u32, height: u32 },
}

/// The part of a controller's live state that the reconciler reads.
#[derive(Debug, Clone, Copy, PartialEq, Eq, Structural)]
pub struct CrtcState {
    pub x: i16,
    pub y: i16,
    pub width: u16,
    pub height: u16,
    pub mode: Option<ModeId>,
    pub rotation: u16,
    pub timestamp: u32,
}

/// A configured output together with the controller and mode chosen for it.
#[derive(Debug, Clone, Copy, PartialEq, Eq, Structural)]
pub struct Assignment {
    pub output: OutputId,
    pub crtc: CrtcId,
    pub mode: ModeId,
    pub config: MonConfig,
    pub mm_width: u32,
    pub mm_height: u32,
    /// The chosen controller's state before the pass.
    pub current: CrtcState,
}

/// A request that sets one controller: its mode and position, and the output it drives
/// (`None` for none).
#[derive(Debug, Clone, Copy, PartialEq, Eq, Structural)]
pub struct CrtcRequest {
    pub crtc: CrtcId,
    pub timestamp: u32,
    pub config_timestamp: u32,
    pub x: i16,
    pub y: i16,
    pub mode: Option<ModeId>,
    pub rotation: u16,
    pub output: Option<OutputId>,
}

pub open spec fn key_is(o: OutputId) -> spec_fn((OutputId, MonConfig)) -> bool {
    |p: (OutputId, MonConfig)| p.0 == o
}

pub open spec fn crtc_is(c: CrtcId) -> spec_fn(CrtcInfo) -> bool {
    |ci: CrtcInfo| ci.id == c
}

pub open spec fn supports(modes: ModeMap, m: Mode) -> spec_fn(ModeId) -> bool {
    |id: ModeId| modes.has(m, id)
}

/// The desired configuration of output `o`, if the setup lists it.
pub open spec fn config_for(setup: Seq<(OutputId, MonConfig)>, o: OutputId) -> Option<MonConfig> {
    match first_in(setup, key_is(o)) {
        Some(p) => Some(p.1),
        None => None,
    }
}

/// Some output of the snapshot is driven by controller `c`.
pub open spec fn bound(res: ScreenResources, c: CrtcId) -> bool {
    exists|k: int| 0 <= k < res.outputs@.len() && res.outputs@[k].crtc == Some(c)
}

/// An earlier output of this pass took controller `c`.
pub open spec fn claimed(s: Seq<Assignment>, c: CrtcId) -> bool {
    exists|k: int| 0 <= k < s.len() && s[k].crtc == c
}

/// A controller is free for an output that has none: it drives no output and no
/// earlier output of this pass took it.
pub open spec fn pickable(res: ScreenResources, s: Seq<Assignment>) -> spec_fn(CrtcId) -> bool {
    |c: CrtcId| !bound(res, c) && !claimed(s, c)
}

/// The controller for an output: the one driving it, or else the first free one it can use.
pub open spec fn chosen_crtc(res: ScreenResources, s: Seq<Assignment>, out: OutputInfo) -> Option<CrtcId> {
    match out.crtc {
        Some(c) => Some(c),
        None => first_in(out.crtcs@, pickable(res, s)),
    }
}

pub open spec fn state_of(ci: CrtcInfo) -> CrtcState {
    CrtcState {
        x: ci.x,
        y: ci.y,
        width: ci.width,
        height: ci.height,
        mode: ci.mode,
        rotation: ci.rotation,
        timestamp: ci.timestamp,
    }
}

/// What the pass does with one output, given the assignments made so far:
/// nothing when the setup does not list it, else an assignment or the error that stops the pass.
pub open spec fn assign_output(
    res: ScreenResources,
    setup: Seq<(OutputId, MonConfig)>,
    modes: ModeMap,
    s: Seq<Assignment>,
    out: OutputInfo,
) -> Result<Option<Assignment>, ReconcileError> {
    match config_for(setup, out.id) {
        None => Ok(None),
        Some(conf) => if !modes.has_mode(conf.mode) {
            Err(ReconcileError::ModeNotFound { output: out.id, mode: conf.mode })
        } else {
            match first_in(out.modes@, supports(modes, conf.mode)) {
                None => Err(ReconcileError::ModeUnsupported { output: out.id, mode: conf.mode }),
                Some(mode) => match chosen_crtc(res, s, out) {
                    None => Err(ReconcileError::NoFreeCrtc { output: out.id }),
                    Some(c) => match first_in(res.crtcs@, crtc_is(c)) {
                        None => Err(ReconcileError::UnknownCrtc { output: out.id, crtc: c }),
                        Some(ci) => Ok(
                            Some(
                                Assignment {
                                    output: out.id,
                                    crtc: c,
                                    mode,
                                    config: conf,
                                    mm_width: out.mm_width,
                                    mm_height: out.mm_height,
                                    current: state_of(ci),
                                },
                            ),
                        ),
                    },
                },
            }
        },
    }
}

/// The assignments for the first `n` outputs, in the order the server reports them.
pub open spec fn allocate_upto(
    res: ScreenResources,
    setup: Seq<(OutputId, MonConfig)>,
    modes: ModeMap,
    n: nat,
) -> Result<Seq<Assignment>, ReconcileError>
    decreases n,
{
    if n == 0 {
        Ok(Seq::empty())
    } else {
        match allocate_upto(res, setup, modes, (n - 1) as nat) {
            Err(e) => Err(e),
            Ok(s) => match assign_output(res, setup, modes, s, res.outputs@[n - 1]) {
                Err(e) => Err(e),
                Ok(None) => Ok(s),
                Ok(Some(a)) => Ok(s.push(a)),
            },
        }
    }
}

/// The assignments for every output of the snapshot.
pub open spec fn allocation(
    res: ScreenResources,
    setup: Seq<(OutputId, MonConfig)>,
    modes: ModeMap,
) -> Result<Seq<Assignment>, ReconcileError> {
    allocate_upto(res, setup, modes, res.outputs@.len())
}

/// Once a pass fails, it fails with the same error for every longer prefix.
pub proof fn lemma_error_sticks(
    res: ScreenResources,
    setup: Seq<(OutputId, MonConfig)>,
    modes: ModeMap,
    n: nat,
    m: nat,
)
    requires
        n <= m,
        allocate_upto(res, setup, modes, n) is Err,
    ensures
        allocate_upto(res, setup, modes, m) == allocate_upto(res, setup, modes, n),
    decreases m - n,
{
    if n < m {
        lemma_error_sticks(res, setup, modes, n, (m - 1) as nat);
    }
}

fn find_config(setup: &Vec<(OutputId, MonConfig)>, o: OutputId) -> (r: Option<MonConfig>)
    ensures
        r == config_for(setup@, o),
{
    let mut i: usize = 0;
    while i < setup.len()
        invariant
            0 <= i <= setup@.len(),
            forall|j: int| 0 <= j < i ==> !key_is(o)(#[trigger] setup@[j]),
        decreases setup@.len() - i,
    {
        if setup[i].0 == o {
            proof {
                lemma_first_in(setup@, key_is(o), i as int);
            }
            return Some(setup[i].1);
        }
        i += 1;
    }
    proof {
        lemma_first_in(setup@, key_is(o), i as int);
    }
    None
}

fn find_crtc(crtcs: &Vec<CrtcInfo>, c: CrtcId) -> (r: Option<usize>)
    ensures
        r matches Some(i) ==> i < crtcs@.len() && first_in(crtcs@, crtc_is(c)) == Some(crtcs@[i as int]),
        r is None ==> first_in(crtcs@, crtc_is(c)) is None,
{
    let mut i: usize = 0;
    while i < crtcs.len()
        invariant
            0 <= i <= crtcs@.len(),
            forall|j: int| 0 <= j < i ==> !crtc_is(c)(#[trigger] crtcs@[j]),
        decreases crtcs@.len() - i,
    {
        if crtcs[i].id == c {
            proof {
                lemma_first_in(crtcs@, crtc_is(c), i as int);
            }
            return Some(i);
        }
        i += 1;
    }
    proof {
        lemma_first_in(crtcs@, crtc_is(c), i as int);
    }
    None
}

fn find_mode(out: &OutputInfo, modes: &ModeMap, m: Mode) -> (r: Option<ModeId>)
    ensures
        r == first_in(out.modes@, supports(*modes, m)),
{
    let mut i: usize = 0;
    while i < out.modes.len()
        invariant
            0 <= i <= out.modes@.len(),
            forall|j: int| 0 <= j < i ==> !supports(*modes, m)(#[trigger] out.modes@[j]),
        decreases out.modes@.len() - i,
    {
        if modes.contains(m, out.modes[i]) {
            proof {
                lemma_first_in(out.modes@, supports(*modes, m), i as int);
            }
            return Some(out.modes[i]);
        }
        i += 1;
    }
    proof {
        lemma_first_in(out.modes@, supports(*modes, m), i as int);
    }
    None
}

fn is_bound(res: &ScreenResources, c: CrtcId) -> (r: bool)
    ensures
        r == bound(*res, c),
{
    let mut k: usize = 0;
    while k < res.outputs.len()
        invariant
            0 <= k <= res.outputs@.len(),
            forall|j: int| 0 <= j < k ==> res.outputs@[j].crtc != Some(c),
        decreases res.outputs@.len() - k,
    {
        if res.outputs[k].crtc == Some(c) {
            return true;
        }
        k += 1;
    }
    false
}

fn is_claimed(s: &Vec<Assignment>, c: CrtcId) -> (r: bool)
    ensures
        r == claimed(s@, c),
{
    let mut k: usize = 0;
    while k < s.len()
        invariant
            0 <= k <= s@.len(),
            forall|j: int| 0 <= j < k ==> s@[j].crtc != c,
        decreases s@.len() - k,
    {
        if s[k].crtc == c {
            return true;
        }
        k += 1;
    }
    false
}

fn pick_crtc(res: &ScreenResources, s: &Vec<Assignment>, out: &OutputInfo) -> (r: Option<CrtcId>)
    ensures
        r == chosen_crtc(*res, s@, *out),
{
    if let Some(c) = out.crtc {
        return Some(c);
    }
    let mut i: usize = 0;
    while i < out.crtcs.len()
        invariant
            out.crtc is None,
            0 <= i <= out.crtcs@.len(),
            forall|j: int| 0 <= j < i ==> !pickable(*res, s@)(#[trigger] out.crtcs@[j]),
        decreases out.crtcs@.len() - i,
    {
        let c = out.crtcs[i];
        if !is_bound(res, c) && !is_claimed(s, c) {
            proof {
                lemma_first_in(out.crtcs@, pickable(*res, s@), i as int);
            }
            return Some(c);
        }
        i += 1;
    }
    proof {
        lemma_first_in(out.crtcs@, pickable(*res, s@), i as int);
    }
    None
}

fn assign_one(
    res: &ScreenResources,
    setup: &Vec<(OutputId, MonConfig)>,
    modes: &ModeMap,
    s: &Vec<Assignment>,
    out: &OutputInfo,
) -> (r: Result<Option<Assignment>, ReconcileError>)
    ensures
        r == assign_output(*res, setup@, *modes, s@, *out),
{
    let conf = match find_config(setup, out.id) {
        None => return Ok(None),
        Some(conf) => conf,
    };
    if !modes.contains_mode(conf.mode) {
        return Err(ReconcileError::ModeNotFound { output: out.id, mode: conf.mode });
    }
    let mode = match find_mode(out, modes, conf.mode) {
        None => return Err(ReconcileError::ModeUnsupported { output: out.id, mode: conf.mode }),
        Some(m) => m,
    };
    let c = match pick_crtc(res, s, out) {
        None => return Err(ReconcileError::NoFreeCrtc { output: out.id }),
        Some(c) => c,
    };
    let idx = match find_crtc(&res.crtcs, c) {
        None => return Err(ReconcileError::UnknownCrtc { output: out.id, crtc: c }),
        Some(idx) => idx,
    };
    let ci = &res.crtcs[idx];
    Ok(
        Some(
            Assignment {
                output: out.id,
                crtc: c,
                mode,
                config: conf,
                mm_width: out.mm_width,
                mm_height: out.mm_height,
                current: CrtcState {
                    x: ci.x,
                    y: ci.y,
                    width: ci.width,
                    height: ci.height,
                    mode: ci.mode,
                    rotation: ci.rotation,
                    timestamp: ci.timestamp,
                },
            },
        ),
    )
}

/// Chooses a controller and mode for each output that the setup lists, in the order
/// the server reports the outputs.
pub fn allocate(res: &ScreenResources, setup: &Vec<(OutputId, MonConfig)>, modes: &ModeMap) -> (r:
    Result<Vec<Assignment>, ReconcileError>)
    ensures
        match r {
            Ok(v) => allocation(*res, setup@, *modes) == Ok::<Seq<Assignment>, ReconcileError>(v@),
            Err(e) => allocation(*res, setup@, *modes) == Err::<Seq<Assignment>, ReconcileError>(e),
        },
{
    let mut s: Vec<Assignment> = Vec::new();
    let mut i: usize = 0;
    while i < res.outputs.len()
        invariant
            0 <= i <= res.outputs@.len(),
            allocate_upto(*res, setup@, *modes, i as nat) == Ok::<Seq<Assignment>, ReconcileError>(s@),
        decreases res.outputs@.len() - i,
    {
        match assign_one(res, setup, modes, &s, &res.outputs[i]) {
            Err(e) => {
                proof {
                    lemma_error_sticks(*res, setup@, *modes, (i + 1) as nat, res.outputs@.len());
                }
                return Err(e);
            },
            Ok(None) => {},
            Ok(Some(a)) => s.push(a),
        }
        i += 1;
    }
    Ok(s)
}

/// The enabled controller would not already show the desired position and mode.
pub open spec fn needs_change(a: Assignment) -> bool {
    a.current.x != a.config.position.x || a.current.y != a.config.position.y || a.current.mode
        != Some(a.mode)
}

/// The request that sets an assignment's controller to drive exactly its output,
/// at the desired position and mode, keeping the controller's rotation (none if unset).
pub open spec fn enable_request(a: Assignment) -> CrtcRequest {
    CrtcRequest {
        crtc: a.crtc,
        timestamp: a.current.timestamp,
        config_timestamp: a.current.timestamp,
        x: a.config.position.x,
        y: a.config.position.y,
        mode: Some(a.mode),
        rotation: if a.current.rotation != 0 {
            a.current.rotation
        } else {
            1
        },
        output: Some(a.output),
    }
}

/// The enable requests for the assignments whose controller needs a change, in order.
pub open spec fn enables_of(s: Seq<Assignment>) -> Seq<CrtcRequest>
    decreases s.len(),
{
    if s.len() == 0 {
        Seq::empty()
    } else if needs_change(s.last()) {
        enables_of(s.drop_last()).push(enable_request(s.last()))
    } else {
        enables_of(s.drop_last())
    }
}

/// A controller that drives an output or has a mode set.
pub open spec fn is_active(ci: CrtcInfo) -> bool {
    ci.outputs@.len() > 0 || ci.mode is Some
}

/// The request that turns a controller off: no mode, no output.
pub open spec fn disable_request(ci: CrtcInfo) -> CrtcRequest {
    CrtcRequest {
        crtc: ci.id,
        timestamp: ci.timestamp,
        config_timestamp: ci.timestamp,
        x: ci.x,
        y: ci.y,
        mode: None,
        rotation: ci.rotation,
        output: None,
    }
}

/// The disable requests for the active controllers that no assignment took, in the
/// order the server reports the controllers.
pub open spec fn disables_of(crtcs: Seq<CrtcInfo>, s: Seq<Assignment>) -> Seq<CrtcRequest>
    decreases crtcs.len(),
{
    if crtcs.len() == 0 {
        Seq::empty()
    } else if !claimed(s, crtcs.last().id) && is_active(crtcs.last()) {
        disables_of(crtcs.drop_last(), s).push(disable_request(crtcs.last()))
    } else {
        disables_of(crtcs.drop_last(), s)
    }
}

/// How far an output reaches on one axis: its offset plus its length.
pub open spec fn extent(pos: i16, len: u16) -> int {
    pos as int + len as int
}

/// The least screen width that holds every assigned output, both where the layout puts
/// it and where its controller is now.
pub open spec fn screen_width(s: Seq<Assignment>) -> int
    decreases s.len(),
{
    if s.len() == 0 {
        0
    } else {
        let a = s.last();
        max_int(
            max_int(screen_width(s.drop_last()), extent(a.config.position.x, a.config.mode.w)),
            extent(a.current.x, a.current.width),
        )
    }
}

/// The least screen height that holds every assigned output, as `screen_width`.
pub open spec fn screen_height(s: Seq<Assignment>) -> int
    decreases s.len(),
{
    if s.len() == 0 {
        0
    } else {
        let a = s.last();
        max_int(
            max_int(screen_height(s.drop_last()), extent(a.config.position.y, a.config.mode.h)),
            extent(a.current.y, a.current.height),
        )
    }
}

/// The sum of the assigned outputs' physical widths in millimetres.
pub open spec fn mm_width_total(s: Seq<Assignment>) -> int
    decreases s.len(),
{
    if s.len() == 0 {
        0
    } else {
        mm_width_total(s.drop_last()) + s.last().mm_width
    }
}

/// The sum of the assigned outputs' physical heights in millimetres.
pub open spec fn mm_height_total(s: Seq<Assignment>) -> int
    decreases s.len(),
{
    if s.len() == 0 {
        0
    } else {
        mm_height_total(s.drop_last()) + s.last().mm_height
    }
}

pub open spec fn saturate_u32(v: int) -> u32 {
    if v > u32::MAX {
        u32::MAX
    } else {
        v as u32
    }
}

/// The largest screen width or height the protocol can describe.
pub const MAX_SCREEN: u32 = 65535;

/// A planned reconciliation: the chosen controllers, the requests in the order they must
/// be applied (disables, then a resize, then enables), and the screen sizes.
#[derive(Debug, Clone)]
pub struct Plan {
    pub assignments: Vec<Assignment>,
    pub disables: Vec<CrtcRequest>,
    pub enables: Vec<CrtcRequest>,
    /// The screen size between the disables and the enables.
    pub width: u16,
    pub height: u16,
    /// Physical size: the sum of the outputs' sizes, an approximation.
    pub mm_width: u32,
    pub mm_height: u32,
    /// The layout's declared screen size, set once the enables are done.
    pub fb_size: Mode,
}

impl Plan {
    /// The plan issues at least one request.
    pub open spec fn spec_changed(&self) -> bool {
        self.disables@.len() > 0 || self.enables@.len() > 0
    }

    pub fn changed(&self) -> (r: bool)
        ensures
            r == self.spec_changed(),
    {
        self.disables.len() > 0 || self.enables.len() > 0
    }
}

/// The outcome of a pass over the snapshot, stated over the allocation.
pub open spec fn plan_matches(
    r: Result<Plan, ReconcileError>,
    res: ScreenResources,
    setup: Seq<(OutputId, MonConfig)>,
    modes: ModeMap,
    fb_size: Mode,
) -> bool {
    match allocation(res, setup, modes) {
        Err(e) => r == Err::<Plan, ReconcileError>(e),
        Ok(s) => if screen_width(s) > MAX_SCREEN || screen_height(s) > MAX_SCREEN {
            r == Err::<Plan, ReconcileError>(
                ReconcileError::ScreenTooLarge {
                    width: screen_width(s) as u32,
                    height: screen_height(s) as u32,
                },
            )
        } else {
            &&& r is Ok
            &&& r->Ok_0.assignments@ == s
            &&& r->Ok_0.enables@ == enables_of(s)
            &&& r->Ok_0.disables@ == disables_of(res.crtcs@, s)
            &&& r->Ok_0.width as int == screen_width(s)
            &&& r->Ok_0.height as int == screen_height(s)
            &&& r->Ok_0.mm_width == saturate_u32(mm_width_total(s))
            &&& r->Ok_0.mm_height == saturate_u32(mm_height_total(s))
            &&& r->Ok_0.fb_size == fb_size
        },
    }
}

fn enables(s: &Vec<Assignment>) -> (r: Vec<CrtcRequest>)
    ensures
        r@ == enables_of(s@),
{
    let mut r: Vec<CrtcRequest> = Vec::new();
    let mut i: usize = 0;
    while i < s.len()
        invariant
            0 <= i <= s@.len(),
            r@ == enables_of(s@.take(i as int)),
        decreases s@.len() - i,
    {
        let a = s[i];
        assert(s@.take(i + 1).drop_last() =~= s@.take(i as int));
        if a.current.x != a.config.position.x || a.current.y != a.config.position.y
            || a.current.mode != Some(a.mode) {
            r.push(
                CrtcRequest {
                    crtc: a.crtc,
                    timestamp: a.current.timestamp,
                    config_timestamp: a.current.timestamp,
                    x: a.config.position.x,
                    y: a.config.position.y,
                    mode: Some(a.mode),
                    rotation: if a.current.rotation != 0 {
                        a.current.rotation
                    } else {
                        1
                    },
                    output: Some(a.output),
                },
            );
        }
        i += 1;
    }
    assert(s@.take(i as int) =~= s@);
    r
}

fn disables(crtcs: &Vec<CrtcInfo>, s: &Vec<Assignment>) -> (r: Vec<CrtcRequest>)
    ensures
        r@ == disables_of(crtcs@, s@),
{
    let mut r: Vec<CrtcRequest> = Vec::new();
    let mut i: usize = 0;
    while i < crtcs.len()
        invariant
            0 <= i <= crtcs@.len(),
            r@ == disables_of(crtcs@.take(i as int), s@),
        decreases crtcs@.len() - i,
    {
        let ci = &crtcs[i];
        assert(crtcs@.take(i + 1).drop_last() =~= crtcs@.take(i as int));
        if !is_claimed(s, ci.id) && (ci.outputs.len() > 0 || ci.mode.is_some()) {
            r.push(
                CrtcRequest {
                    crtc: ci.id,
                    timestamp: ci.timestamp,
                    config_timestamp: ci.timestamp,
                    x: ci.x,
                    y: ci.y,
                    mode: None,
                    rotation: ci.rotation,
                    output: None,
                },
            );
        }
        i += 1;
    }
    assert(crtcs@.take(i as int) =~= crtcs@);
    r
}

/// Screen width and height that hold the assignments, and their summed physical size.
fn geometry(s: &Vec<Assignment>) -> (r: (u32, u32, u32, u32))
    ensures
        r.0 as int == screen_width(s@),
        r.1 as int == screen_height(s@),
        r.2 == saturate_u32(mm_width_total(s@)),
        r.3 == saturate_u32(mm_height_total(s@)),
{
    let mut w: i32 = 0;
    let mut h: i32 = 0;
    let mut mm_w: u32 = 0;
    let mut mm_h: u32 = 0;
    let mut i: usize = 0;
    while i < s.len()
        invariant
            0 <= i <= s@.len(),
            w as int == screen_width(s@.take(i as int)),
            h as int == screen_height(s@.take(i as int)),
            0 <= w <= 98302,
            0 <= h <= 98302,
            mm_w == saturate_u32(mm_width_total(s@.take(i as int))),
            mm_h == saturate_u32(mm_height_total(s@.take(i as int))),
            mm_width_total(s@.take(i as int)) >= 0,
            mm_height_total(s@.take(i as int)) >= 0,
        decreases s@.len() - i,
    {
        let a = s[i];
        assert(s@.take(i + 1).drop_last() =~= s@.take(i as int));
        assert(s@.take(i + 1).last() == a);
        let ew = a.config.position.x as i32 + a.config.mode.w as i32;
        let cw = a.current.x as i32 + a.current.width as i32;
        if ew > w {
            w = ew;
        }
        if cw > w {
            w = cw;
        }
        let eh = a.config.position.y as i32 + a.config.mode.h as i32;
        let ch = a.current.y as i32 + a.current.height as i32;
        if eh > h {
            h = eh;
        }
        if ch > h {
            h = ch;
        }
        mm_w = mm_w.saturating_add(a.mm_width);
        mm_h = mm_h.saturating_add(a.mm_height);
        i += 1;
    }
    assert(s@.take(i as int) =~= s@);
    (w as u32, h as u32, mm_w, mm_h)
}

/// Plans one reconciliation pass: a controller and mode for each output the setup lists,
/// the disables for controllers left active and unused, the enables for controllers
/// whose state differs from the layout, and the screen size that holds them.
pub fn plan(
    res: &ScreenResources,
    setup: &Vec<(OutputId, MonConfig)>,
    modes: &ModeMap,
    fb_size: Mode,
) -> (r: Result<Plan, ReconcileError>)
    ensures
        plan_matches(r, *res, setup@, *modes, fb_size),
{
    let s = match allocate(res, setup, modes) {
        Err(e) => return Err(e),
        Ok(s) => s,
    };
    let (w, h, mm_w, mm_h) = geometry(&s);
    if w > MAX_SCREEN || h > MAX_SCREEN {
        return Err(ReconcileError::ScreenTooLarge { width: w, height: h });
    }
    let enables = enables(&s);
    let disables = disables(&res.crtcs, &s);
    Ok(
        Plan {
            assignments: s,
            disables,
            enables,
            width: w as u16,
            height: h as u16,
            mm_width: mm_w,
            mm_height: mm_h,
            fb_size,
        },
    )
}

} // verus!
