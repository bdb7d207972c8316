use brandelier::bulb::Error as BulbError;
use brandelier::bulb::Response;
use brandelier::bulb::SendFailure;
use brandelier::config::Driver as DriverConfig;
use brandelier::config::Topology;
use brandelier::driver::Driver;
use brandelier::driver::Idle;
use brandelier::driver::ReadAllPlan;
use brandelier::driver::RefreshSchedule;
use brandelier::driver::State;
use brandelier::driver::Task;
use brandelier::topology::DISABLED_ADDRESS;
use std::time::Duration;

fn topology_with_two_disabled() -> Topology {
    let mut t = Topology::default();
    t.inner[0] = DISABLED_ADDRESS;
    t.outer[11] = DISABLED_ADDRESS;
    t
}

#[test]
fn initialize_skips_disabled_positions() {
    let state = State::initialize(&DriverConfig::default(), &topology_with_two_disabled());
    assert_eq!(state.len(), 17);
    assert_eq!(state.id(0), "c");
    assert_eq!(state.id(1), "r1-1");
    assert_eq!(state.bulb(1).address(), 0x0A);
    assert_eq!(state.id(16), "r2-10");
    assert!(state.find(&"r1-0".to_string()).is_none());
    assert_eq!(state.zero_timeout(), Duration::from_secs(60));
    assert_eq!(state.refresh_interval(), Duration::from_secs(1));
}

#[test]
fn write_to_an_unknown_bulb_is_skipped() {
    let mut state = State::initialize(&DriverConfig::default(), &topology_with_two_disabled());
    let c = brandelier::bulb::Command::SetBrightness { extension: 512, brightness: 9 };
    assert!(state.write_to(&"r1-0".to_string(), c).is_none());
    assert!(state.write_to(&"nope".to_string(), c).is_none());
    let w = state.write_to(&"r2-3".to_string(), c).unwrap();
    assert_eq!(w.address, 0x12);
    assert_eq!(&w.data[..], &[2, 0, 1, 9]);
    let i = state.find(&"r2-3".to_string()).unwrap();
    assert_eq!(state.bulb(i).last_requested_extension(), 512);
}

#[test]
fn zeroing_starts_with_max_extension_then_zero() {
    let mut state = State::initialize(&DriverConfig::default(), &Topology::default());
    let (first, second) = state.prepare_zero(0);
    assert_eq!(first.address, 0x08);
    assert_eq!(&first.data[..], &[0, 0, 0x0A, 65]);
    assert_eq!(&second.data[..], &[0, 0, 0x09, 0]);
    assert_eq!(state.read_at(0).address, 0x08);
}

#[test]
fn any_zeroing_follows_the_telemetry() {
    let mut state = State::initialize(&DriverConfig::default(), &Topology::default());
    assert!(!state.any_zeroing());
    state.refresh_at(3, Ok(Response::parse(&[0, 0, 0, 0b0010]).unwrap()));
    assert!(state.any_zeroing());
    state.refresh_at(3, Err(BulbError::SendRead(SendFailure::MailboxFull)));
    assert!(state.any_zeroing());
    state.refresh_at(3, Ok(Response::parse(&[0, 0, 0, 0]).unwrap()));
    assert!(!state.any_zeroing());
}

#[test]
fn configure_max_extension_keeps_each_bulb_where_it_is() {
    let mut state = State::initialize(&DriverConfig::default(), &Topology::default());
    state.refresh_at(2, Ok(Response::parse(&[5, 0, 0, 0]).unwrap()));
    let writes = state.configure_max_extension(40);
    assert_eq!(writes.len(), 19);
    assert_eq!(&writes[0].data[..], &[0, 0, 0x0A, 40]);
    assert_eq!(&writes[2].data[..], &[5, 0, 0x0A, 40]);
    assert_eq!(writes[2].address, 0x0A);
    assert_eq!(state.bulb(2).last_requested_extension(), 5 * 256);
}

#[test]
fn idle_initializes_then_hands_back_the_state() {
    let mut d = Driver::new(&DriverConfig::default(), &Topology::default());
    assert!(d.is_uninitialized());
    assert!(d.answers_waiters_now());
    assert_eq!(d.read_all_plan(), ReadAllPlan::Refresh);
    let state = match d.idle() {
        Idle::Initialized(s) => s,
        _ => panic!("an uninitialized driver sets itself up"),
    };
    assert_eq!(state.len(), 19);
    d.settle(state);
    assert!(!d.is_uninitialized());
    match d.idle() {
        Idle::Ready(s) => assert_eq!(s.len(), 19),
        _ => panic!("an idle driver hands its state back"),
    }
}

#[test]
fn background_tasks_must_be_reaped() {
    let mut d = Driver::new(&DriverConfig::default(), &Topology::default());
    d.start(Task::Zeroing);
    assert!(!d.answers_waiters_now());
    assert_eq!(d.read_all_plan(), ReadAllPlan::MarkZeroing);
    assert!(matches!(d.idle(), Idle::AwaitZeroing));
    d.start(Task::Cycling);
    assert_eq!(d.read_all_plan(), ReadAllPlan::Keep);
    assert!(matches!(d.idle(), Idle::CancelCycle));
    assert!(d.answers_waiters_now());
}

#[test]
fn statuses_are_recorded_and_marked_zeroing() {
    let mut d = Driver::new(&DriverConfig::default(), &Topology::default());
    let mut state = State::initialize(&DriverConfig::default(), &Topology::default());
    state.refresh_at(1, Ok(Response::parse(&[3, 0, 0, 0b0101]).unwrap()));
    d.record_statuses(&state);
    let s = d.last_status();
    assert_eq!(s.len(), 19);
    assert_eq!(s[1].0, "r1-0");
    assert_eq!(s[1].1.extension, 3);
    assert!(s[1].1.light_on && s[1].1.disabled && !s[1].1.zeroing);
    d.mark_zeroing();
    assert!(d.last_status().iter().all(|(_, s)| s.zeroing));
    assert_eq!(d.last_status()[1].1.extension, 3);
}

#[test]
fn fresh_refresh_schedule_never_comes_due() {
    let mut schedule = RefreshSchedule::new();
    let now = tokio::time::Instant::now();
    assert!(!schedule.step(now, true));
    assert!(!schedule.step(now, false));
    assert!(!schedule.step(now + Duration::from_secs(3600), true));
    assert!(schedule.last_check().is_none());
}
