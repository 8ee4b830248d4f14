use monitor_layout::document::{Error, LayoutIn, Node, Value};
use monitor_layout::matcher::get_config;
use monitor_layout::resources::OutputId;
use monitor_layout::{Config, Mode, MonConfig, Monitor, Position};

fn node(name: &str, values: Vec<Value>, props: Vec<(&str, Value)>, children: Vec<Node>) -> Node {
    Node {
        name: name.to_string(),
        values,
        properties: props.into_iter().map(|(k, v)| (k.to_string(), v)).collect(),
        children,
    }
}

fn s(v: &str) -> Value {
    Value::String(v.to_string())
}

fn monitor_def(name: &str, serial: &str) -> Node {
    node("monitor", vec![s(name)], vec![("serial", s(serial))], vec![])
}

fn placed(name: &str, x: i64, y: i64, w: i64, h: i64, primary: bool) -> Node {
    let mut props = vec![("x", Value::Int(x)), ("y", Value::Int(y)), ("w", Value::Int(w)), ("h", Value::Int(h))];
    if primary {
        props.push(("primary", Value::Boolean(true)));
    }
    node("monitor", vec![s(name)], props, vec![])
}

fn matches(names: &[&str]) -> Node {
    node("matches", names.iter().map(|n| s(n)).collect(), vec![], vec![])
}

fn layout(name: &str, children: Vec<Node>) -> Node {
    node("layout", vec![s(name)], vec![], children)
}

fn dual_document() -> Vec<Node> {
    vec![
        monitor_def("a", "A"),
        monitor_def("b", "B"),
        layout(
            "dual",
            vec![matches(&["a", "b"]), placed("a", 0, 0, 1920, 1080, true), placed("b", 1920, 0, 1920, 1080, false)],
        ),
    ]
}

fn mon(serial: &str) -> Monitor {
    Monitor { product: None, serial: Some(serial.to_string()) }
}

#[test]
fn dual_layout_is_read_and_matched() {
    let config = Config::from_nodes(&dual_document()).unwrap();
    assert_eq!(config.layouts.len(), 1);
    let (key, single) = &config.layouts[0];
    assert_eq!(key, &vec![mon("A"), mon("B")]);
    assert_eq!(single.name, "dual");
    assert_eq!(single.fb_size, Mode { w: 3840, h: 1080 });
    assert_eq!(single.setup.len(), 2);
    let m = get_config(&config, &vec![(OutputId(7), mon("B")), (OutputId(3), mon("A"))]).unwrap();
    assert_eq!(m.name, "dual");
    assert_eq!(m.fb_size, Mode { w: 3840, h: 1080 });
    assert_eq!(
        m.setup,
        vec![
            (OutputId(7), MonConfig { mode: Mode { w: 1920, h: 1080 }, position: Position { x: 1920, y: 0 }, primary: false }),
            (OutputId(3), MonConfig { mode: Mode { w: 1920, h: 1080 }, position: Position { x: 0, y: 0 }, primary: true }),
        ]
    );
}

#[test]
fn single_monitor_without_its_own_layout_does_not_match() {
    let config = Config::from_nodes(&dual_document()).unwrap();
    assert!(get_config(&config, &vec![(OutputId(3), mon("A"))]).is_none());
    assert!(get_config(&config, &vec![]).is_none());
    assert!(get_config(&config, &vec![(OutputId(3), mon("A")), (OutputId(4), mon("A"))]).is_none());
}

#[test]
fn later_layout_for_the_same_monitors_replaces_the_earlier() {
    let mut doc = dual_document();
    doc.push(layout("other", vec![matches(&["b", "a"]), placed("a", 0, 0, 1280, 1024, true)]));
    let config = Config::from_nodes(&doc).unwrap();
    assert_eq!(config.layouts.len(), 1);
    assert_eq!(config.layouts[0].1.name, "other");
    assert_eq!(config.layouts[0].1.fb_size, Mode { w: 1280, h: 1024 });
}

#[test]
fn later_monitor_definition_wins() {
    let mut doc = dual_document();
    doc.insert(2, monitor_def("a", "Z"));
    let config = Config::from_nodes(&doc).unwrap();
    assert_eq!(config.layouts[0].0, vec![mon("B"), mon("Z")]);
}

#[test]
fn missing_field_is_reported() {
    let doc = vec![monitor_def("a", "A"), layout("l", vec![matches(&["a"]), node("monitor", vec![s("a")], vec![("x", Value::Int(0))], vec![])])];
    assert_eq!(Config::from_nodes(&doc).unwrap_err(), Error::MissingField("layout.monitor", "y"));
    let doc = vec![layout("l", vec![])];
    assert_eq!(Config::from_nodes(&doc).unwrap_err(), Error::MissingField("layout", "matches"));
    let doc = vec![node("monitor", vec![], vec![], vec![])];
    assert_eq!(Config::from_nodes(&doc).unwrap_err(), Error::MissingField("monitor", "name"));
}

#[test]
fn wrong_value_types_are_reported() {
    let doc = vec![layout("l", vec![node("matches", vec![Value::Int(1)], vec![], vec![])])];
    assert_eq!(Config::from_nodes(&doc).unwrap_err(), Error::FieldTypeMisMatch("matches", "String"));
    let doc = vec![layout("l", vec![node("monitor", vec![s("a")], vec![("x", s("0"))], vec![])])];
    assert_eq!(Config::from_nodes(&doc).unwrap_err(), Error::FieldTypeMisMatch("layout.monitor", "int"));
    let doc = vec![node("monitor", vec![s("a")], vec![("serial", Value::Int(3))], vec![])];
    assert_eq!(Config::from_nodes(&doc).unwrap_err(), Error::FieldTypeMisMatch("monitor", "String"));
    let mut bad = placed("a", 0, 0, 1, 1, false);
    bad.properties.push(("primary".to_string(), Value::Int(1)));
    let doc = vec![layout("l", vec![bad])];
    assert_eq!(Config::from_nodes(&doc).unwrap_err(), Error::FieldTypeMisMatch("layout.monitor", "boolean"));
    let doc = vec![node("layout", vec![Value::Boolean(true)], vec![], vec![])];
    assert_eq!(Config::from_nodes(&doc).unwrap_err(), Error::FieldTypeMisMatch("layout", "String"));
}

#[test]
fn unknown_and_unmatched_monitors_are_reported() {
    let doc = vec![monitor_def("a", "A"), layout("l", vec![matches(&["a", "c"])])];
    assert_eq!(Config::from_nodes(&doc).unwrap_err(), Error::UnknownMonitor("l".to_string(), "c".to_string()));
    let doc = vec![monitor_def("a", "A"), layout("l", vec![matches(&["a"]), placed("d", 0, 0, 1, 1, false)])];
    assert_eq!(Config::from_nodes(&doc).unwrap_err(), Error::UnknownMonitor("l".to_string(), "d".to_string()));
    let doc = vec![monitor_def("a", "A"), monitor_def("b", "B"), layout("l", vec![matches(&["a"]), placed("b", 0, 0, 1, 1, false)])];
    assert_eq!(Config::from_nodes(&doc).unwrap_err(), Error::UnmatchedMonitor("l".to_string(), "b".to_string()));
}

#[test]
fn structural_errors_are_reported() {
    let doc = vec![layout("l", vec![matches(&[]), matches(&[])])];
    assert_eq!(Config::from_nodes(&doc).unwrap_err(), Error::DuplicateSingleton("layout.matches"));
    let doc = vec![layout("l", vec![node("screen", vec![], vec![], vec![])])];
    assert_eq!(Config::from_nodes(&doc).unwrap_err(), Error::Unexpected("screen".to_string()));
    let doc = vec![node("output", vec![], vec![], vec![])];
    assert_eq!(Config::from_nodes(&doc).unwrap_err(), Error::Unexpected("output".to_string()));
    let doc = vec![node("monitor", vec![s("a")], vec![], vec![node("x", vec![], vec![], vec![])])];
    assert_eq!(Config::from_nodes(&doc).unwrap_err(), Error::UnexpectedChildren("a".to_string()));
    let n = node("layout", vec![s("x")], vec![], vec![]);
    assert_eq!(MonConfig::from_node(&n).unwrap_err(), Error::NodeTypeMismatch("monitor", "layout".to_string()));
    let n = node("monitor", vec![s("x")], vec![], vec![]);
    assert_eq!(LayoutIn::from_node(&n).unwrap_err(), Error::NodeTypeMismatch("layout", "monitor".to_string()));
}

#[test]
fn oversized_layout_is_reported() {
    let doc = vec![monitor_def("a", "A"), layout("big", vec![matches(&["a"]), placed("a", 32767, 0, 65535, 10, true)])];
    assert_eq!(Config::from_nodes(&doc).unwrap_err(), Error::LayoutTooLarge("big".to_string()));
}

#[test]
fn monitor_node_reads_casts_and_defaults() {
    let n = placed("a", 70000, -5, 1920, 1080, false);
    let (name, c) = MonConfig::from_node(&n).unwrap();
    assert_eq!(name, "a");
    assert_eq!(c, MonConfig { mode: Mode { w: 1920, h: 1080 }, position: Position { x: 70000i64 as i16, y: -5 }, primary: false });
}

#[test]
fn layout_node_keeps_its_parts() {
    let n = layout("dual", vec![placed("a", 0, 0, 1, 1, true), matches(&["a", "b"])]);
    let l = LayoutIn::from_node(&n).unwrap();
    assert_eq!(l.name, "dual");
    assert_eq!(l.matches, vec!["a".to_string(), "b".to_string()]);
    assert_eq!(l.layout.len(), 1);
    assert_eq!(l.layout[0].0, "a");
}
