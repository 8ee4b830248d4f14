use monitor_layout::reconcile::{plan, CrtcRequest, Plan};
use monitor_layout::resources::{mode_map, CrtcId, CrtcInfo, ModeId, ModeInfo, OutputId, OutputInfo, ScreenResources};
use monitor_layout::transaction::{Action, Event, Stage, Transaction};
use monitor_layout::{Mode, MonConfig, Position};

fn request(crtc: u32, output: Option<u32>, ts: u32) -> CrtcRequest {
    CrtcRequest {
        crtc: CrtcId(crtc),
        timestamp: ts,
        config_timestamp: ts,
        x: 0,
        y: 0,
        mode: output.map(|_| ModeId(100)),
        rotation: 1,
        output: output.map(OutputId),
    }
}

fn plan_with(disables: Vec<CrtcRequest>, enables: Vec<CrtcRequest>, fb: Mode) -> Plan {
    Plan {
        assignments: vec![],
        disables,
        enables,
        width: 3840,
        height: 1080,
        mm_width: 1040,
        mm_height: 290,
        fb_size: fb,
    }
}

/// A server that acknowledges every request and records what it was sent.
fn run(p: Plan, timestamps: &[u32]) -> Vec<Action> {
    let (mut t, mut a) = Transaction::start(p);
    let mut log = vec![a];
    let mut ts = timestamps.iter();
    loop {
        let ev = match a {
            Action::Disable(_) | Action::Enable(_) => Event::CrtcDone { timestamp: *ts.next().unwrap_or(&0) },
            Action::SetScreenSize { .. } => Event::ScreenDone,
            Action::Finished { .. } | Action::Abort => break,
        };
        a = t.on_event(ev);
        log.push(a);
    }
    log
}

#[test]
fn disables_are_acknowledged_before_resize_and_enables() {
    let p = plan_with(
        vec![request(12, None, 5), request(13, None, 5)],
        vec![request(10, Some(1), 5), request(11, Some(2), 5)],
        Mode { w: 3840, h: 1080 },
    );
    let log = run(p, &[30, 20, 40, 41]);
    assert_eq!(log.len(), 6);
    assert!(matches!(log[0], Action::Disable(r) if r.crtc == CrtcId(12)));
    assert!(matches!(log[1], Action::Disable(r) if r.crtc == CrtcId(13)));
    assert_eq!(log[2], Action::SetScreenSize { width: 3840, height: 1080, mm_width: 1040, mm_height: 290 });
    // enables carry the newest timestamp that the disables produced
    assert_eq!(log[3], Action::Enable(CrtcRequest { timestamp: 30, ..request(10, Some(1), 5) }));
    assert_eq!(log[4], Action::Enable(CrtcRequest { timestamp: 30, ..request(11, Some(2), 5) }));
    assert_eq!(log[5], Action::Finished { changed: true });
}

#[test]
fn enables_keep_their_timestamp_without_disables() {
    let p = plan_with(vec![], vec![request(10, Some(1), 5)], Mode { w: 3840, h: 1080 });
    let log = run(p, &[9]);
    assert_eq!(log[0], Action::SetScreenSize { width: 3840, height: 1080, mm_width: 1040, mm_height: 290 });
    assert_eq!(log[1], Action::Enable(request(10, Some(1), 5)));
    assert_eq!(log[2], Action::Finished { changed: true });
}

#[test]
fn declared_screen_size_is_set_last_when_it_differs() {
    let p = plan_with(vec![request(12, None, 5)], vec![], Mode { w: 4000, h: 1200 });
    let log = run(p, &[6]);
    assert_eq!(log.len(), 4);
    assert_eq!(log[2], Action::SetScreenSize { width: 4000, height: 1200, mm_width: 1040, mm_height: 290 });
    assert_eq!(log[3], Action::Finished { changed: true });
}

#[test]
fn unchanged_plan_finishes_at_once() {
    let (t, a) = Transaction::start(plan_with(vec![], vec![], Mode { w: 1, h: 1 }));
    assert_eq!(a, Action::Finished { changed: false });
    assert_eq!(t.progress.stage, Stage::Done);
}

#[test]
fn failure_aborts_the_rest_of_the_plan() {
    let p = plan_with(vec![request(12, None, 5)], vec![request(10, Some(1), 5)], Mode { w: 3840, h: 1080 });
    let (mut t, a) = Transaction::start(p);
    assert!(matches!(a, Action::Disable(_)));
    assert_eq!(t.on_event(Event::Failed), Action::Abort);
    assert_eq!(t.progress.stage, Stage::Failed);
}

#[test]
fn answer_out_of_turn_aborts() {
    let p = plan_with(vec![request(12, None, 5)], vec![], Mode { w: 3840, h: 1080 });
    let (mut t, _) = Transaction::start(p);
    assert_eq!(t.on_event(Event::ScreenDone), Action::Abort);
}

#[test]
fn planned_pass_runs_in_protocol_order() {
    let res = ScreenResources {
        outputs: vec![
            OutputInfo { id: OutputId(3), crtc: Some(CrtcId(12)), crtcs: vec![CrtcId(12)], modes: vec![ModeId(100)], mm_width: 1, mm_height: 1 },
            OutputInfo { id: OutputId(1), crtc: None, crtcs: vec![CrtcId(10)], modes: vec![ModeId(100)], mm_width: 520, mm_height: 290 },
        ],
        crtcs: vec![
            CrtcInfo { id: CrtcId(10), x: 0, y: 0, width: 0, height: 0, mode: None, rotation: 1, outputs: vec![], timestamp: 3 },
            CrtcInfo {
                id: CrtcId(12),
                x: 0,
                y: 0,
                width: 1920,
                height: 1080,
                mode: Some(ModeId(100)),
                rotation: 1,
                outputs: vec![OutputId(3)],
                timestamp: 3,
            },
        ],
        modes: vec![ModeInfo { id: ModeId(100), width: 1920, height: 1080 }],
    };
    let setup = vec![(OutputId(1), MonConfig { mode: Mode { w: 1920, h: 1080 }, position: Position { x: 0, y: 0 }, primary: true })];
    let p = plan(&res, &setup, &mode_map(&res.modes), Mode { w: 1920, h: 1080 }).unwrap();
    let log = run(p, &[8, 9]);
    assert!(matches!(log[0], Action::Disable(r) if r.crtc == CrtcId(12)));
    assert_eq!(log[1], Action::SetScreenSize { width: 1920, height: 1080, mm_width: 520, mm_height: 290 });
    assert!(matches!(log[2], Action::Enable(r) if r.crtc == CrtcId(10) && r.timestamp == 8 && r.output == Some(OutputId(1))));
    assert_eq!(log[3], Action::Finished { changed: true });
}
