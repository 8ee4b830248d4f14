use monitor_layout::document::{Node, Value};
use monitor_layout::matcher::get_config;
use monitor_layout::reconcile::plan;
use monitor_layout::resources::{mode_map, CrtcId, CrtcInfo, ModeId, ModeInfo, OutputId, OutputInfo, ScreenResources};
use monitor_layout::transaction::{Action, Event, Transaction};
use monitor_layout::{Config, Monitor};

fn node(name: &str, values: Vec<Value>, props: Vec<(&str, Value)>, children: Vec<Node>) -> Node {
    Node {
        name: name.to_string(),
        values,
        properties: props.into_iter().map(|(k, v)| (k.to_string(), v)).collect(),
        children,
    }
}

fn s(v: &str) -> Value {
    Value::String(v.to_string())
}

fn placed(name: &str, x: i64, primary: bool) -> Node {
    node(
        "monitor",
        vec![s(name)],
        vec![("x", Value::Int(x)), ("y", Value::Int(0)), ("w", Value::Int(1920)), ("h", Value::Int(1080)), ("primary", Value::Boolean(primary))],
        vec![],
    )
}

/// Layout "dual": A at (0,0) 1920x1080 primary, B at (1920,0) 1920x1080.
fn dual_config() -> Config {
    let doc = vec![
        node("monitor", vec![s("A")], vec![("serial", s("A"))], vec![]),
        node("monitor", vec![s("B")], vec![("serial", s("B"))], vec![]),
        node(
            "layout",
            vec![s("dual")],
            vec![],
            vec![node("matches", vec![s("A"), s("B")], vec![], vec![]), placed("A", 0, true), placed("B", 1920, false)],
        ),
    ];
    Config::from_nodes(&doc).unwrap()
}

fn serial(v: &str) -> Monitor {
    Monitor { product: None, serial: Some(v.to_string()) }
}

fn out(id: u32, crtc: Option<u32>) -> OutputInfo {
    OutputInfo {
        id: OutputId(id),
        crtc: crtc.map(CrtcId),
        crtcs: vec![CrtcId(10), CrtcId(11), CrtcId(12)],
        modes: vec![ModeId(100)],
        mm_width: 530,
        mm_height: 300,
    }
}

fn crtc(id: u32, driving: Option<u32>) -> CrtcInfo {
    CrtcInfo {
        id: CrtcId(id),
        x: 0,
        y: 0,
        width: if driving.is_some() { 1920 } else { 0 },
        height: if driving.is_some() { 1080 } else { 0 },
        mode: driving.map(|_| ModeId(100)),
        rotation: 1,
        outputs: driving.into_iter().map(OutputId).collect(),
        timestamp: 1,
    }
}

/// Runs a pass the way the daemon does; returns the requests sent, in order, and
/// whether the layout name would be printed.
fn pass(config: &Config, res: &ScreenResources, attached: &Vec<(OutputId, Monitor)>) -> Option<(Vec<Action>, bool)> {
    let m = get_config(config, attached)?;
    let p = plan(res, &m.setup, &mode_map(&res.modes), m.fb_size).unwrap();
    let (mut t, mut a) = Transaction::start(p);
    let mut sent = Vec::new();
    loop {
        let ev = match a {
            Action::Disable(_) | Action::Enable(_) => Event::CrtcDone { timestamp: 2 },
            Action::SetScreenSize { .. } => Event::ScreenDone,
            Action::Finished { changed } => return Some((sent, changed)),
            Action::Abort => panic!("aborted"),
        };
        sent.push(a);
        a = t.on_event(ev);
    }
}

#[test]
fn dual_layout_on_idle_controllers_prints_once_with_two_enables() {
    let config = dual_config();
    let res = ScreenResources {
        outputs: vec![out(1, None), out(2, None)],
        crtcs: vec![crtc(10, None), crtc(11, None), crtc(12, None)],
        modes: vec![ModeInfo { id: ModeId(100), width: 1920, height: 1080 }],
    };
    let attached = vec![(OutputId(1), serial("A")), (OutputId(2), serial("B"))];
    let (sent, printed) = pass(&config, &res, &attached).unwrap();
    assert!(printed);
    assert_eq!(sent.iter().filter(|a| matches!(a, Action::Enable(_))).count(), 2);
    assert_eq!(sent.iter().filter(|a| matches!(a, Action::Disable(_))).count(), 0);
    assert!(matches!(sent[1], Action::Enable(r) if r.output == Some(OutputId(1)) && r.x == 0));
    assert!(matches!(sent[2], Action::Enable(r) if r.output == Some(OutputId(2)) && r.x == 1920));
}

#[test]
fn only_a_attached_matches_nothing_and_sends_nothing() {
    let config = dual_config();
    let res = ScreenResources {
        outputs: vec![out(1, None)],
        crtcs: vec![crtc(10, None)],
        modes: vec![ModeInfo { id: ModeId(100), width: 1920, height: 1080 }],
    };
    assert!(pass(&config, &res, &vec![(OutputId(1), serial("A"))]).is_none());
}

#[test]
fn third_active_output_is_disabled_first_and_its_crtc_stays_out_of_the_pool() {
    let config = dual_config();
    let res = ScreenResources {
        outputs: vec![out(3, Some(10)), out(1, None), out(2, None)],
        crtcs: vec![crtc(10, Some(3)), crtc(11, None), crtc(12, None)],
        modes: vec![ModeInfo { id: ModeId(100), width: 1920, height: 1080 }],
    };
    let attached = vec![(OutputId(3), serial("C")), (OutputId(1), serial("A")), (OutputId(2), serial("B"))];
    assert!(pass(&config, &res, &attached).is_none());
    let attached = vec![(OutputId(1), serial("A")), (OutputId(2), serial("B"))];
    let (sent, printed) = pass(&config, &res, &attached).unwrap();
    assert!(printed);
    assert!(matches!(sent[0], Action::Disable(r) if r.crtc == CrtcId(10)));
    assert!(matches!(sent[1], Action::SetScreenSize { .. }));
    assert!(matches!(sent[2], Action::Enable(r) if r.crtc == CrtcId(11) && r.timestamp == 2));
    assert!(matches!(sent[3], Action::Enable(r) if r.crtc == CrtcId(12) && r.timestamp == 2));
    assert_eq!(sent.len(), 4);
}
