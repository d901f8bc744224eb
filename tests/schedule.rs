use patrol::schedule::{direction_flag, heartbeat_alive, next_step, ping_url, Step};

#[test]
fn heartbeat_500_terminates() {
    let alive = heartbeat_alive(Some(500));
    assert!(!alive);
    assert_eq!(next_step(Step::Heartbeat, alive, true, 3), Step::Terminate);
    assert_eq!(next_step(Step::Terminate, true, true, 3), Step::Terminate);
}

#[test]
fn heartbeat_verdicts() {
    assert!(heartbeat_alive(Some(200)));
    assert!(!heartbeat_alive(Some(204)));
    assert!(!heartbeat_alive(None));
}

#[test]
fn tick_order_with_packages() {
    let mut s = Step::Heartbeat;
    let mut seen = vec![s];
    while s != Step::Sleep {
        s = next_step(s, true, true, 2);
        seen.push(s);
    }
    assert_eq!(
        seen,
        vec![Step::Heartbeat, Step::Processes, Step::Packages, Step::File(0), Step::File(1), Step::Sleep]
    );
    assert_eq!(next_step(Step::Sleep, false, true, 2), Step::Heartbeat);
}

#[test]
fn tick_order_without_packages_or_files() {
    assert_eq!(next_step(Step::Processes, true, false, 0), Step::Sleep);
    assert_eq!(next_step(Step::Processes, true, false, 1), Step::File(0));
    assert_eq!(next_step(Step::Packages, true, true, 0), Step::Sleep);
}

#[test]
fn ping_url_carries_three_parameters() {
    assert_eq!(
        ping_url("192.168.1.129", "ubuntu", "abc", "0123-0123-0123"),
        "http://192.168.1.129:3000/ping?machine=ubuntu&uid=abc&id=0123-0123-0123"
    );
}

#[test]
fn direction_flags() {
    assert_eq!(direction_flag(true), "1");
    assert_eq!(direction_flag(false), "0");
}
