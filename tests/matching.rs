use monitor_layout::config::SingleConfig;
use monitor_layout::matcher::{find_layout, get_config, join_setup};
use monitor_layout::monitor::sort_monitors;
use monitor_layout::resources::OutputId;
use monitor_layout::{Config, Mode, MonConfig, Monitor, Position};

fn mon(product: Option<&str>, serial: Option<&str>) -> Monitor {
    Monitor { product: product.map(|p| p.to_string()), serial: serial.map(|s| s.to_string()) }
}

fn at(x: i16) -> MonConfig {
    MonConfig { mode: Mode { w: 1920, h: 1080 }, position: Position { x, y: 0 }, primary: x == 0 }
}

fn three() -> Vec<Monitor> {
    vec![mon(Some("DELL"), Some("2")), mon(None, Some("Z")), mon(Some("DELL"), Some("10"))]
}

fn config() -> Config {
    let key = sort_monitors(&three());
    let setup = vec![(mon(Some("DELL"), Some("2")), at(0)), (mon(None, Some("Z")), at(1920))];
    Config {
        layouts: vec![(key, SingleConfig { name: "triple".to_string(), fb_size: Mode { w: 3840, h: 1080 }, setup })],
    }
}

#[test]
fn canonical_order_is_product_then_serial() {
    let sorted = sort_monitors(&three());
    assert_eq!(sorted, vec![mon(None, Some("Z")), mon(Some("DELL"), Some("10")), mon(Some("DELL"), Some("2"))]);
    assert!(mon(None, None).le(&mon(None, Some(""))));
    assert!(mon(Some("A"), None).le(&mon(Some("AB"), None)));
    assert!(!mon(Some("B"), None).le(&mon(Some("AB"), None)));
}

#[test]
fn lookup_does_not_depend_on_connector_order() {
    let c = config();
    let m = three();
    let orders = [[0, 1, 2], [0, 2, 1], [1, 0, 2], [1, 2, 0], [2, 0, 1], [2, 1, 0]];
    for order in orders.iter() {
        let permuted: Vec<Monitor> = order.iter().map(|i| m[*i].clone()).collect();
        assert_eq!(sort_monitors(&permuted), sort_monitors(&m));
        assert_eq!(find_layout(&c, &permuted), Some(0));
    }
}

#[test]
fn unlisted_monitor_is_left_out_of_the_join() {
    let c = config();
    let attached = vec![
        (OutputId(1), mon(Some("DELL"), Some("10"))),
        (OutputId(2), mon(None, Some("Z"))),
        (OutputId(3), mon(Some("DELL"), Some("2"))),
    ];
    let m = get_config(&c, &attached).unwrap();
    assert_eq!(m.name, "triple");
    assert_eq!(m.setup, vec![(OutputId(2), at(1920)), (OutputId(3), at(0))]);
    assert_eq!(join_setup(&attached, &c.layouts[0].1), m.setup);
}

#[test]
fn subset_or_superset_of_monitors_does_not_match() {
    let c = config();
    let mut more = three();
    more.push(mon(Some("HP"), None));
    assert_eq!(find_layout(&c, &more), None);
    assert_eq!(find_layout(&c, &three()[..2].to_vec()), None);
}
