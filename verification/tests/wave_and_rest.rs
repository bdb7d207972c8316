use brandelier::server::RestAction;
use brandelier::server::RestMonitor;
use brandelier::server::RestStep;
use brandelier::wave::ring_members;
use brandelier::wave::spin_neighbours;
use brandelier::wave::targets;
use tokio::time::Instant;

fn ids(v: &[&str]) -> Vec<String> {
    v.iter().map(|s| s.to_string()).collect()
}

#[test]
fn targets_keep_bulb_order() {
    let bulbs = ids(&["c", "r1-0", "r1-1", "r2-0", "r2-1"]);
    assert_eq!(targets(&bulbs, &ids(&["r2-0", "c", "nope"])), vec![0, 3]);
    assert_eq!(targets(&bulbs, &ids(&[])), Vec::<usize>::new());
    assert_eq!(targets(&bulbs, &ids(&["r1-1", "r1-1"])), vec![2]);
}

#[test]
fn ring_members_split_targets_by_ring() {
    let rings = vec![0u8, 1, 1, 2, 2];
    let t = vec![0usize, 2, 3, 4];
    assert_eq!(ring_members(&rings, &t, 1), vec![2]);
    assert_eq!(ring_members(&rings, &t, 2), vec![3, 4]);
    assert_eq!(ring_members(&rings, &t, 0), vec![0]);
}

#[test]
fn spin_neighbours_wrap_round_the_ring() {
    assert_eq!(spin_neighbours(6, 2), (2, 3));
    assert_eq!(spin_neighbours(6, 5), (5, 0));
    assert_eq!(spin_neighbours(6, 6), (0, 1));
    assert_eq!(spin_neighbours(1, 0), (0, 0));
}

#[test]
fn movement_marks_stored_positions_stale_once() {
    let mut m = RestMonitor::new();
    let now = Instant::now();
    assert!(matches!(m.poll(true, false, now), RestStep::Moving { action: RestAction::MarkMoving }));
    assert!(matches!(m.poll(true, true, now), RestStep::Moving { action: RestAction::Nothing }));
}

#[test]
fn rest_period_starts_at_the_first_quiet_poll() {
    let mut m = RestMonitor::new();
    let first = Instant::now();
    let later = first + std::time::Duration::from_millis(50);
    match m.poll(false, true, first) {
        RestStep::Quiet { since } => assert_eq!(since, first),
        RestStep::Moving { .. } => panic!("no bulb moves"),
    }
    match m.poll(false, true, later) {
        RestStep::Quiet { since } => assert_eq!(since, first),
        RestStep::Moving { .. } => panic!("no bulb moves"),
    }
    assert_eq!(m.rested(false, true), RestAction::Nothing);
    assert_eq!(m.rested(true, true), RestAction::SavePositions);
    match m.poll(false, false, later) {
        RestStep::Quiet { since } => assert_eq!(since, later),
        RestStep::Moving { .. } => panic!("no bulb moves"),
    }
    assert_eq!(m.rested(true, false), RestAction::Nothing);
    m.wave_running();
    match m.poll(false, false, first) {
        RestStep::Quiet { since } => assert_eq!(since, first),
        RestStep::Moving { .. } => panic!("no bulb moves"),
    }
}
