use brandelier::config::check_topology;
use brandelier::config::render;
use brandelier::config::render_value;
use brandelier::config::validate_topology;
use brandelier::config::Driver;
use brandelier::config::I2c;
use brandelier::config::Topology;
use brandelier::config::TopologyError;
use brandelier::config::ValueTree;
use brandelier::topology::bulbs;
use brandelier::topology::DISABLED_ADDRESS;
use brandelier::topology::MAX_VALID_ADDRESS;
use brandelier::topology::MIN_VALID_ADDRESS;
use std::time::Duration;

fn leaf(text: &str, source: &str) -> ValueTree {
    ValueTree::Leaf { text: text.to_string(), source: source.to_string() }
}

#[test]
fn i2c_defaults() {
    let c = I2c::default();
    assert_eq!(c.device_path, "/dev/i2c-1");
    assert_eq!(c.retries, 3);
    assert_eq!(c.retry_delay(), Duration::from_millis(20));
    assert_eq!(c.rate_limit(), Duration::from_millis(40));
}

#[test]
fn i2c_durations_are_milliseconds() {
    let c = I2c { device_path: String::new(), retries: 0, retry_delay_ms: 1500, rate_limit_ms: 7 };
    assert_eq!(c.retry_delay(), Duration::from_millis(1500));
    assert_eq!(c.rate_limit(), Duration::from_millis(7));
}

#[test]
fn driver_durations_are_seconds() {
    let d = Driver::default();
    assert_eq!(d.zero_timeout(), Duration::from_secs(60));
    assert_eq!(d.refresh_interval(), Duration::from_secs(1));
    let d = Driver { zero_timeout_secs: 5, refresh_interval_secs: 3 };
    assert_eq!(d.zero_timeout(), Duration::from_secs(5));
    assert_eq!(d.refresh_interval(), Duration::from_secs(3));
}

#[test]
fn default_topology_is_consecutive_and_valid() {
    let t = Topology::default();
    assert_eq!(t.center, 0x08);
    assert_eq!(t.inner, (0x09..=0x0E).collect::<Vec<u16>>());
    assert_eq!(t.outer, (0x0F..=0x1A).collect::<Vec<u16>>());
    assert_eq!(check_topology(&t), Ok(()));
    assert!(validate_topology(&t).is_ok());
}

#[test]
fn ring_sizes_are_checked_first() {
    let mut t = Topology::default();
    t.inner.pop();
    t.center = 0x01;
    assert_eq!(check_topology(&t), Err(TopologyError::InnerCount));
    let e = validate_topology(&t).unwrap_err();
    assert_eq!(e.code, "topology.inner must have 6 addresses");
    assert!(e.message.is_none());
    assert!(e.params.is_empty());
    let mut t = Topology::default();
    t.outer.push(0x30);
    assert_eq!(check_topology(&t), Err(TopologyError::OuterCount));
    assert_eq!(validate_topology(&t).unwrap_err().code, "topology.outer must have 12 addresses");
}

#[test]
fn addresses_outside_the_legal_range_are_refused() {
    let mut t = Topology::default();
    t.outer[3] = 0x78;
    assert_eq!(check_topology(&t), Err(TopologyError::AddressOutOfRange));
    assert_eq!(validate_topology(&t).unwrap_err().code, "All i2c addresses must be 0x08-0x77");
    let mut t = Topology::default();
    t.center = 0x07;
    assert_eq!(check_topology(&t), Err(TopologyError::AddressOutOfRange));
    let mut t = Topology::default();
    t.inner[0] = 0x77;
    assert_eq!(check_topology(&t), Ok(()));
}

#[test]
fn repeated_addresses_are_refused() {
    let mut t = Topology::default();
    t.outer[11] = 0x08;
    assert_eq!(check_topology(&t), Err(TopologyError::DuplicateAddress));
    assert_eq!(validate_topology(&t).unwrap_err().code, "All i2c addresses must be unique");
}

#[test]
fn disabled_positions_may_repeat_the_sentinel() {
    let mut t = Topology::default();
    t.center = DISABLED_ADDRESS;
    t.inner[2] = DISABLED_ADDRESS;
    t.outer[5] = DISABLED_ADDRESS;
    assert_eq!(check_topology(&t), Ok(()));
}

#[test]
fn the_first_broken_position_decides() {
    let mut t = Topology::default();
    t.inner[1] = 0x08; // repeats the center
    t.outer[0] = 0x00; // out of range, but later
    assert_eq!(check_topology(&t), Err(TopologyError::DuplicateAddress));
    let mut t = Topology::default();
    t.inner[1] = 0x00;
    t.outer[0] = 0x08;
    assert_eq!(check_topology(&t), Err(TopologyError::AddressOutOfRange));
}

#[test]
fn slots_come_in_canonical_order() {
    let mut t = Topology::default();
    t.inner[4] = DISABLED_ADDRESS;
    let slots = bulbs(&t);
    assert_eq!(slots.len(), 19);
    assert_eq!(slots[0].id, "c");
    assert_eq!(slots[0].ring, 0);
    assert_eq!(slots[0].address, 0x08);
    assert_eq!(slots[1].id, "r1-0");
    assert_eq!(slots[5].id, "r1-4");
    assert!(slots[5].disabled);
    assert_eq!(slots[5].address, DISABLED_ADDRESS);
    assert!(!slots[6].disabled);
    assert_eq!(slots[7].id, "r2-0");
    assert_eq!(slots[7].ring, 2);
    assert_eq!(slots[7].index, 0);
    assert_eq!(slots[18].id, "r2-11");
    assert_eq!(slots[18].index, 11);
    assert_eq!(slots[18].address, 0x1A);
    let ids: std::collections::HashSet<&str> = slots.iter().map(|s| s.id.as_str()).collect();
    assert_eq!(ids.len(), 19);
}

#[test]
fn render_marks_sources_and_unknown_keys() {
    let merged = ValueTree::Dict(vec![
        ("server".to_string(), ValueTree::Dict(vec![("port".to_string(), leaf("5001", "defaults"))])),
        ("srever".to_string(), leaf("1", "BRANDELIER__SREVER env")),
    ]);
    let known = ValueTree::Dict(vec![(
        "server".to_string(),
        ValueTree::Dict(vec![("port".to_string(), leaf("5001", "defaults"))]),
    )]);
    let out = render(&merged, &known);
    assert_eq!(
        out,
        "{\n    server: {\n        port: 5001 (defaults),\n    },\n    srever: 1 (BRANDELIER__SREVER env) \u{2190} unknown,\n}"
    );
}

#[test]
fn render_arrays_and_empty_containers() {
    let merged = ValueTree::Dict(vec![
        ("inner".to_string(), ValueTree::Array(vec![leaf("9", "defaults"), leaf("10", "brandelier.toml")])),
        ("none".to_string(), ValueTree::Array(vec![])),
        ("nothing".to_string(), ValueTree::Dict(vec![])),
    ]);
    let known = ValueTree::Dict(vec![("inner".to_string(), ValueTree::Array(vec![leaf("9", "x")]))]);
    let out = render(&merged, &known);
    assert_eq!(
        out,
        "{\n    inner: [\n        9 (defaults),\n        10 (brandelier.toml) \u{2190} unknown,\n    ],\n    none: [],\n    nothing: {},\n}"
    );
}

#[test]
fn render_value_appends_at_the_given_indent() {
    let mut out = String::from(">");
    render_value(&ValueTree::Array(vec![leaf("a", "s")]), None, 1, &mut out);
    assert_eq!(out, ">[\n        a (s) \u{2190} unknown,\n    ]");
}

#[test]
fn disabled_sentinel_is_outside_the_legal_range() {
    assert!(!(MIN_VALID_ADDRESS..=MAX_VALID_ADDRESS).contains(&DISABLED_ADDRESS));
}

#[test]
fn validated_topology_lays_out_with_distinct_addresses() {
    let mut t = Topology::default();
    t.inner[3] = DISABLED_ADDRESS;
    t.outer[7] = DISABLED_ADDRESS;
    assert_eq!(check_topology(&t), Ok(()));
    let slots = bulbs(&t);
    let enabled: Vec<u16> = slots.iter().filter(|s| !s.disabled).map(|s| s.address).collect();
    let distinct: std::collections::HashSet<u16> = enabled.iter().copied().collect();
    assert_eq!(enabled.len(), 17);
    assert_eq!(distinct.len(), 17);
    assert!(enabled.iter().all(|a| (0x08..=0x77).contains(a)));
}
