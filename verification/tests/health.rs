use mwan3_nft::health_check::{HealthChecker, InterfaceHealth, probe_outcome};

fn probe(h: &mut InterfaceHealth, outcome: Option<u64>, now: u64) {
    h.record_probe(outcome, now, 3, 2);
}

#[test]
fn starts_offline_with_zero_counters() {
    let h = InterfaceHealth::new();
    assert!(!h.is_online);
    assert!(h.latency.is_none());
    assert_eq!(h.failure_count, 0);
    assert_eq!(h.recovery_count, 0);
}

#[test]
fn goes_online_only_after_succ_threshold_consecutive_successes() {
    let mut h = InterfaceHealth::new();
    probe(&mut h, Some(10), 1);
    assert!(!h.is_online, "one success of two must not bring it online");
    probe(&mut h, Some(11), 2);
    assert!(h.is_online, "two consecutive successes must bring it online");
    assert_eq!(h.recovery_count, 2);
    assert_eq!(h.failure_count, 0);
}

#[test]
fn goes_offline_only_after_fail_threshold_consecutive_failures() {
    let mut h = InterfaceHealth::new();
    probe(&mut h, Some(10), 1);
    probe(&mut h, Some(10), 2);
    assert!(h.is_online);
    probe(&mut h, None, 3);
    probe(&mut h, None, 4);
    assert!(h.is_online, "two failures of three must not take it offline");
    probe(&mut h, None, 5);
    assert!(!h.is_online, "three consecutive failures must take it offline");
    assert_eq!(h.failure_count, 3);
}

#[test]
fn isolated_failures_amid_successes_never_flip_state() {
    let mut h = InterfaceHealth::new();
    probe(&mut h, Some(10), 1);
    probe(&mut h, Some(10), 2);
    assert!(h.is_online);
    for t in 0..50u64 {
        probe(&mut h, None, 10 + 2 * t);
        probe(&mut h, Some(7), 11 + 2 * t);
        assert!(h.is_online, "a single alternating failure must never flip state");
    }
}

#[test]
fn success_resets_failure_count_and_vice_versa() {
    let mut h = InterfaceHealth::new();
    probe(&mut h, None, 1);
    probe(&mut h, None, 2);
    assert_eq!(h.failure_count, 2);
    probe(&mut h, Some(5), 3);
    assert_eq!(h.failure_count, 0);
    assert_eq!(h.recovery_count, 1);
    probe(&mut h, None, 4);
    assert_eq!(h.recovery_count, 0);
    assert_eq!(h.failure_count, 1);
}

#[test]
fn latency_is_kept_stale_across_failures() {
    let mut h = InterfaceHealth::new();
    probe(&mut h, Some(42), 1);
    probe(&mut h, None, 2);
    assert_eq!(h.latency, Some(42), "failure must retain the last good latency");
    assert_eq!(h.last_check, 2, "the check timestamp still advances");
}

#[test]
fn probe_outcome_requires_transport_and_2xx() {
    assert_eq!(probe_outcome(true, "200", 17), Some(17));
    assert_eq!(probe_outcome(true, "204", 9), Some(9));
    assert_eq!(probe_outcome(true, "404", 17), None);
    assert_eq!(probe_outcome(true, "", 17), None);
    assert_eq!(probe_outcome(false, "200", 17), None);
}

#[test]
fn registry_creates_records_on_first_probe() {
    let mut hc = HealthChecker::new();
    hc.record_probe_result("wan1", Some(12), 100, 3, 2);
    let h = hc.get_interface_health("wan1").expect("record must exist");
    assert!(!h.is_online);
    assert_eq!(h.recovery_count, 1);
    assert!(hc.get_interface_health("wan2").is_none());
}

#[test]
fn registry_online_set_follows_records_in_order() {
    let mut hc = HealthChecker::new();
    for name in ["wan1", "wan2", "wan3"] {
        hc.record_probe_result(name, Some(5), 1, 3, 1);
    }
    assert_eq!(hc.get_online_interfaces(), vec!["wan1", "wan2", "wan3"]);
    // take wan2 offline: three consecutive failures
    for t in 0..3 {
        hc.record_probe_result("wan2", None, 2 + t, 3, 1);
    }
    assert_eq!(hc.get_online_interfaces(), vec!["wan1", "wan3"]);
}

#[test]
fn registry_retain_drops_unconfigured_records() {
    let mut hc = HealthChecker::new();
    hc.record_probe_result("wan1", Some(5), 1, 3, 1);
    hc.record_probe_result("wan2", Some(5), 1, 3, 1);
    hc.retain_configured(&vec!["wan1".to_string()]);
    assert!(hc.get_interface_health("wan1").is_some());
    assert!(hc.get_interface_health("wan2").is_none());
    // a reappearing uplink starts over from a fresh record
    hc.record_probe_result("wan2", Some(5), 9, 3, 2);
    let h = hc.get_interface_health("wan2").unwrap();
    assert!(!h.is_online);
    assert_eq!(h.recovery_count, 1);
}
