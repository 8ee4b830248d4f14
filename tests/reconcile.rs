use monitor_layout::reconcile::{plan, CrtcRequest, Plan, ReconcileError};
use monitor_layout::resources::{mode_map, CrtcId, CrtcInfo, ModeId, ModeInfo, OutputId, OutputInfo, ScreenResources};
use monitor_layout::{Mode, MonConfig, Position};

fn output(id: u32, crtc: Option<u32>, crtcs: &[u32], modes: &[u32]) -> OutputInfo {
    OutputInfo {
        id: OutputId(id),
        crtc: crtc.map(CrtcId),
        crtcs: crtcs.iter().map(|c| CrtcId(*c)).collect(),
        modes: modes.iter().map(|m| ModeId(*m)).collect(),
        mm_width: 520,
        mm_height: 290,
    }
}

fn idle_crtc(id: u32) -> CrtcInfo {
    CrtcInfo {
        id: CrtcId(id),
        x: 0,
        y: 0,
        width: 0,
        height: 0,
        mode: None,
        rotation: 1,
        outputs: vec![],
        timestamp: 7,
    }
}

fn active_crtc(id: u32, out: u32, x: i16, y: i16, w: u16, h: u16, mode: u32) -> CrtcInfo {
    CrtcInfo {
        id: CrtcId(id),
        x,
        y,
        width: w,
        height: h,
        mode: Some(ModeId(mode)),
        rotation: 1,
        outputs: vec![OutputId(out)],
        timestamp: 7,
    }
}

fn modes() -> Vec<ModeInfo> {
    vec![
        ModeInfo { id: ModeId(100), width: 1920, height: 1080 },
        ModeInfo { id: ModeId(101), width: 1920, height: 1080 },
        ModeInfo { id: ModeId(200), width: 1280, height: 1024 },
    ]
}

fn conf(x: i16, y: i16, w: u16, h: u16, primary: bool) -> MonConfig {
    MonConfig { mode: Mode { w, h }, position: Position { x, y }, primary }
}

fn hd() -> Mode {
    Mode { w: 1920, h: 1080 }
}

/// The state the display server is in once a plan has been applied.
fn apply(res: &ScreenResources, p: &Plan) -> ScreenResources {
    let mut next = res.clone();
    for req in p.disables.iter().chain(p.enables.iter()) {
        set_crtc(&mut next, req);
    }
    next
}

fn set_crtc(res: &mut ScreenResources, req: &CrtcRequest) {
    let size = req.mode.and_then(|m| res.modes.iter().find(|mi| mi.id == m)).map(|mi| (mi.width, mi.height));
    let crtc = res.crtcs.iter_mut().find(|c| c.id == req.crtc).unwrap();
    crtc.x = req.x;
    crtc.y = req.y;
    crtc.mode = req.mode;
    crtc.rotation = req.rotation;
    crtc.outputs = req.output.into_iter().collect();
    let (w, h) = size.unwrap_or((0, 0));
    crtc.width = w;
    crtc.height = h;
    for o in res.outputs.iter_mut() {
        if o.crtc == Some(req.crtc) {
            o.crtc = None;
        }
        if Some(o.id) == req.output {
            o.crtc = Some(req.crtc);
        }
    }
}

fn dual_resources() -> ScreenResources {
    ScreenResources {
        outputs: vec![output(1, None, &[10, 11], &[101, 100]), output(2, None, &[10, 11], &[100])],
        crtcs: vec![idle_crtc(10), idle_crtc(11)],
        modes: modes(),
    }
}

fn dual_setup() -> Vec<(OutputId, MonConfig)> {
    vec![(OutputId(1), conf(0, 0, 1920, 1080, true)), (OutputId(2), conf(1920, 0, 1920, 1080, false))]
}

#[test]
fn union_takes_the_larger_side_of_each() {
    let a = Mode { w: 1920, h: 1080 };
    let b = Mode { w: 1280, h: 1440 };
    assert_eq!(a.union(&b), Mode { w: 1920, h: 1440 });
    assert_eq!(b.union(&a), Mode { w: 1920, h: 1440 });
}

#[test]
fn mode_map_groups_identifiers_by_resolution() {
    let m = mode_map(&modes());
    assert!(m.contains(hd(), ModeId(100)));
    assert!(m.contains(hd(), ModeId(101)));
    assert!(!m.contains(hd(), ModeId(200)));
    assert!(m.contains_mode(Mode { w: 1280, h: 1024 }));
    assert!(!m.contains_mode(Mode { w: 800, h: 600 }));
}

#[test]
fn two_idle_outputs_get_two_enables_and_no_disables() {
    let res = dual_resources();
    let p = plan(&res, &dual_setup(), &mode_map(&res.modes), Mode { w: 3840, h: 1080 }).unwrap();
    assert!(p.changed());
    assert_eq!(p.disables.len(), 0);
    assert_eq!(p.enables.len(), 2);
    assert_eq!(p.enables[0].crtc, CrtcId(10));
    assert_eq!(p.enables[0].output, Some(OutputId(1)));
    assert_eq!(p.enables[0].mode, Some(ModeId(101)));
    assert_eq!((p.enables[0].x, p.enables[0].y), (0, 0));
    assert_eq!(p.enables[1].crtc, CrtcId(11));
    assert_eq!(p.enables[1].output, Some(OutputId(2)));
    assert_eq!(p.enables[1].mode, Some(ModeId(100)));
    assert_eq!((p.enables[1].x, p.enables[1].y), (1920, 0));
    assert_eq!((p.width, p.height), (3840, 1080));
    assert_eq!((p.mm_width, p.mm_height), (1040, 580));
}

#[test]
fn enables_keep_the_controller_timestamp_and_rotation() {
    let mut res = dual_resources();
    res.crtcs[0].rotation = 0;
    res.crtcs[1].rotation = 4;
    res.crtcs[1].timestamp = 99;
    let p = plan(&res, &dual_setup(), &mode_map(&res.modes), hd()).unwrap();
    assert_eq!(p.enables[0].rotation, 1);
    assert_eq!(p.enables[1].rotation, 4);
    assert_eq!(p.enables[0].timestamp, 7);
    assert_eq!(p.enables[1].timestamp, 99);
    assert_eq!(p.enables[1].config_timestamp, 99);
}

#[test]
fn second_pass_issues_no_requests() {
    let res = dual_resources();
    let setup = dual_setup();
    let first = plan(&res, &setup, &mode_map(&res.modes), hd()).unwrap();
    let after = apply(&res, &first);
    let second = plan(&after, &setup, &mode_map(&after.modes), hd()).unwrap();
    assert!(!second.changed());
    assert_eq!(second.disables.len(), 0);
    assert_eq!(second.enables.len(), 0);
}

#[test]
fn stale_output_is_disabled_and_its_crtc_is_not_reused() {
    let res = ScreenResources {
        outputs: vec![
            output(3, Some(10), &[10, 11, 12], &[200]),
            output(1, None, &[10, 11, 12], &[100]),
            output(2, None, &[10, 11, 12], &[100]),
        ],
        crtcs: vec![active_crtc(10, 3, 0, 0, 1280, 1024, 200), idle_crtc(11), idle_crtc(12)],
        modes: modes(),
    };
    let p = plan(&res, &dual_setup(), &mode_map(&res.modes), hd()).unwrap();
    assert_eq!(p.disables.len(), 1);
    assert_eq!(p.disables[0].crtc, CrtcId(10));
    assert_eq!(p.disables[0].mode, None);
    assert_eq!(p.disables[0].output, None);
    assert_eq!(p.enables.len(), 2);
    assert!(p.enables.iter().all(|e| e.crtc != CrtcId(10)));
    assert_eq!(p.enables[0].crtc, CrtcId(11));
    assert_eq!(p.enables[1].crtc, CrtcId(12));
    // the screen also holds the controller that is still live until the disables run
    assert_eq!((p.width, p.height), (3840, 1080));
}

#[test]
fn overlapping_controller_lists_never_share_a_crtc() {
    let res = ScreenResources {
        outputs: vec![output(1, None, &[10, 11], &[100]), output(2, None, &[10], &[100]), output(4, None, &[11, 10], &[100])],
        crtcs: vec![idle_crtc(10), idle_crtc(11)],
        modes: modes(),
    };
    let setup = vec![(OutputId(1), conf(0, 0, 1920, 1080, true)), (OutputId(4), conf(1920, 0, 1920, 1080, false))];
    let p = plan(&res, &setup, &mode_map(&res.modes), hd()).unwrap();
    assert_eq!(p.assignments.len(), 2);
    assert_eq!(p.assignments[0].crtc, CrtcId(10));
    assert_eq!(p.assignments[1].crtc, CrtcId(11));
}

#[test]
fn exhausted_controllers_are_reported() {
    let res = ScreenResources {
        outputs: vec![output(1, None, &[10], &[100]), output(2, None, &[10], &[100])],
        crtcs: vec![idle_crtc(10)],
        modes: modes(),
    };
    let r = plan(&res, &dual_setup(), &mode_map(&res.modes), hd());
    assert_eq!(r.unwrap_err(), ReconcileError::NoFreeCrtc { output: OutputId(2) });
}

#[test]
fn unknown_resolution_is_reported() {
    let res = dual_resources();
    let setup = vec![(OutputId(1), conf(0, 0, 800, 600, true))];
    let r = plan(&res, &setup, &mode_map(&res.modes), hd());
    assert_eq!(r.unwrap_err(), ReconcileError::ModeNotFound { output: OutputId(1), mode: Mode { w: 800, h: 600 } });
}

#[test]
fn unsupported_mode_is_reported() {
    let res = dual_resources();
    let setup = vec![(OutputId(2), conf(0, 0, 1280, 1024, true))];
    let r = plan(&res, &setup, &mode_map(&res.modes), hd());
    assert_eq!(r.unwrap_err(), ReconcileError::ModeUnsupported { output: OutputId(2), mode: Mode { w: 1280, h: 1024 } });
}

#[test]
fn controller_missing_from_snapshot_is_reported() {
    let res = ScreenResources {
        outputs: vec![output(1, Some(30), &[30], &[100])],
        crtcs: vec![idle_crtc(10)],
        modes: modes(),
    };
    let setup = vec![(OutputId(1), conf(0, 0, 1920, 1080, true))];
    let r = plan(&res, &setup, &mode_map(&res.modes), hd());
    assert_eq!(r.unwrap_err(), ReconcileError::UnknownCrtc { output: OutputId(1), crtc: CrtcId(30) });
}

#[test]
fn oversized_screen_is_reported() {
    let mut res = dual_resources();
    res.modes.push(ModeInfo { id: ModeId(300), width: 40000, height: 1080 });
    res.outputs[0].modes.push(ModeId(300));
    let setup = vec![(OutputId(1), conf(30000, 0, 40000, 1080, true))];
    let r = plan(&res, &setup, &mode_map(&res.modes), hd());
    assert_eq!(r.unwrap_err(), ReconcileError::ScreenTooLarge { width: 70000, height: 1080 });
    let setup = vec![(OutputId(1), conf(32000, 0, 1920, 1080, true)), (OutputId(2), conf(32767, 0, 1920, 1080, false))];
    let p = plan(&res, &setup, &mode_map(&res.modes), hd()).unwrap();
    assert_eq!((p.width, p.height), (34687, 1080));
}

#[test]
fn negative_positions_do_not_shrink_the_screen_below_zero() {
    let res = dual_resources();
    let setup = vec![(OutputId(1), conf(-1920, -1080, 1920, 1080, true))];
    let p = plan(&res, &setup, &mode_map(&res.modes), hd()).unwrap();
    assert_eq!((p.width, p.height), (0, 0));
}

#[test]
fn unclaimed_active_controller_of_an_unlisted_output_is_disabled() {
    let res = ScreenResources {
        outputs: vec![output(1, None, &[10, 11], &[100]), output(5, Some(11), &[11], &[100])],
        crtcs: vec![idle_crtc(10), active_crtc(11, 5, 0, 0, 1920, 1080, 100)],
        modes: modes(),
    };
    let setup = vec![(OutputId(1), conf(1920, 0, 1920, 1080, true))];
    let p = plan(&res, &setup, &mode_map(&res.modes), hd()).unwrap();
    assert_eq!(p.assignments.len(), 1);
    assert_eq!(p.enables.len(), 1);
    assert_eq!(p.enables[0].crtc, CrtcId(10));
    assert_eq!(p.disables.len(), 1);
    assert_eq!(p.disables[0].crtc, CrtcId(11));
}

#[test]
fn bound_controller_already_in_place_needs_no_request() {
    let res = ScreenResources {
        outputs: vec![output(1, Some(10), &[10, 11], &[100])],
        crtcs: vec![active_crtc(10, 1, 0, 0, 1920, 1080, 100), idle_crtc(11)],
        modes: modes(),
    };
    let setup = vec![(OutputId(1), conf(0, 0, 1920, 1080, true))];
    let p = plan(&res, &setup, &mode_map(&res.modes), hd()).unwrap();
    assert!(!p.changed());
    assert_eq!(p.assignments[0].crtc, CrtcId(10));
}

#[test]
fn moved_output_gets_an_enable_on_its_own_controller() {
    let res = ScreenResources {
        outputs: vec![output(1, Some(11), &[10, 11], &[100])],
        crtcs: vec![idle_crtc(10), active_crtc(11, 1, 0, 0, 1920, 1080, 100)],
        modes: modes(),
    };
    let setup = vec![(OutputId(1), conf(100, 0, 1920, 1080, true))];
    let p = plan(&res, &setup, &mode_map(&res.modes), hd()).unwrap();
    assert_eq!(p.enables.len(), 1);
    assert_eq!(p.enables[0].crtc, CrtcId(11));
    assert_eq!(p.enables[0].x, 100);
    assert_eq!(p.disables.len(), 0);
}
