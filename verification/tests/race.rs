use mwan3_nft::config::Interface;
use mwan3_nft::udp_race::{RaceError, RaceResponse, UdpRaceManager};

fn uplink(name: &str, enabled: bool) -> Interface {
    Interface {
        name: name.to_string(),
        interface_name: format!("dev_{}", name),
        weight: 1,
        mark: 1,
        enabled,
        nftables_sets: vec![],
    }
}

fn response(name: &str, latency: u64) -> RaceResponse {
    RaceResponse { interface: name.to_string(), response: b"pong".to_vec(), latency }
}

#[test]
fn race_ids_grow_monotonically() {
    let mut m = UdpRaceManager::new();
    let ifs = vec![uplink("wan1", true)];
    let a = m.start_race(true, &ifs).unwrap();
    let b = m.start_race(true, &ifs).unwrap();
    assert_eq!(a, 1);
    assert_eq!(b, 2);
    assert!(a < b);
}

#[test]
fn only_enabled_uplinks_participate() {
    let mut m = UdpRaceManager::new();
    let ifs = vec![uplink("wan1", true), uplink("wan2", false), uplink("wan3", true)];
    let id = m.start_race(true, &ifs).unwrap();
    let entry = m.active_races.iter().find(|r| r.id == id).unwrap();
    assert_eq!(entry.participants, vec!["wan1", "wan3"]);
}

#[test]
fn race_with_zero_enabled_uplinks_fails_before_any_socket() {
    let mut m = UdpRaceManager::new();
    let ifs = vec![uplink("wan1", false), uplink("wan2", false)];
    let r = m.start_race(true, &ifs);
    assert_eq!(r.unwrap_err(), RaceError::NoUplinksAvailable);
    assert!(m.active_races.is_empty(), "no bookkeeping is created for a failed start");
}

#[test]
fn race_fails_when_disabled_in_configuration() {
    let mut m = UdpRaceManager::new();
    let ifs = vec![uplink("wan1", true)];
    let r = m.start_race(false, &ifs);
    assert_eq!(r.unwrap_err(), RaceError::RaceDisabled);
}

#[test]
fn fastest_responder_wins_with_latency_no_higher_than_the_others() {
    let mut m = UdpRaceManager::new();
    let ifs = vec![uplink("wan_a", true), uplink("wan_b", true), uplink("wan_c", true)];
    let id = m.start_race(true, &ifs).unwrap();
    let responses = vec![response("wan_a", 35), response("wan_b", 9), response("wan_c", 21)];
    let all_latencies: Vec<u64> = responses.iter().map(|r| r.latency).collect();
    let result = m.finish_race(id, responses).unwrap();
    assert_eq!(result.interface, "wan_b", "the fastest responder wins");
    assert_eq!(result.latency, 9);
    assert_eq!(result.race_id, id);
    assert_eq!(result.response, b"pong".to_vec());
    for l in all_latencies {
        assert!(result.latency <= l, "the winner's latency is no higher than any other");
    }
}

#[test]
fn race_times_out_when_nothing_responds() {
    let mut m = UdpRaceManager::new();
    let ifs = vec![uplink("wan1", true)];
    let id = m.start_race(true, &ifs).unwrap();
    let r = m.finish_race(id, vec![]);
    assert_eq!(r.unwrap_err(), RaceError::RaceTimedOut);
}

#[test]
fn race_bookkeeping_is_removed_once_resolved() {
    let mut m = UdpRaceManager::new();
    let ifs = vec![uplink("wan1", true)];
    let id = m.start_race(true, &ifs).unwrap();
    assert_eq!(m.active_races.len(), 1);
    let _ = m.finish_race(id, vec![response("wan1", 5)]);
    assert!(m.active_races.is_empty(), "no long-lived accumulation of race state");
    // a second resolution of the same race finds nothing
    let r = m.finish_race(id, vec![response("wan1", 5)]);
    assert_eq!(r.unwrap_err(), RaceError::RaceNotFound);
}

#[test]
fn unresolved_race_lookup_reports_no_result_yet() {
    let mut m = UdpRaceManager::new();
    let ifs = vec![uplink("wan1", true)];
    let id = m.start_race(true, &ifs).unwrap();
    assert_eq!(m.get_race_result(id).unwrap_err(), RaceError::RaceTimedOut);
    assert_eq!(m.get_race_result(id + 1).unwrap_err(), RaceError::RaceNotFound);
}

#[test]
fn ties_go_to_the_earlier_response() {
    let responses = vec![response("wan_a", 10), response("wan_b", 10)];
    let idx = UdpRaceManager::select_winner(&responses).unwrap();
    assert_eq!(idx, 0, "equal latencies resolve to the response that arrived first");
    assert_eq!(UdpRaceManager::select_winner(&vec![]), None);
}
