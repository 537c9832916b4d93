use mwan3_nft::config::{Interface, find_interface, find_interface_by_device};
use mwan3_nft::daemon::{DaemonManager, parse_pid};
use mwan3_nft::interface_monitor::{contains_pattern, extract_interface_name, parse_interface_event};
use mwan3_nft::mptcp::{MptcpAction, plan_endpoint_change, plan_mptcp_setup};
use mwan3_nft::config::{GlobalConfig, HealthCheckConfig};

#[test]
fn monitor_line_yields_its_device_name() {
    let line = "2: eth0: <BROADCAST,MULTICAST,UP,LOWER_UP> mtu 1500";
    assert_eq!(extract_interface_name(line), Some("eth0".to_string()));
    assert_eq!(extract_interface_name("3: wan_ppp0:"), Some("wan_ppp0".to_string()));
    assert_eq!(extract_interface_name("  lonely"), None, "a one-field line names no device");
    assert_eq!(extract_interface_name(""), None);
}

#[test]
fn monitor_line_up_and_down_events() {
    let up = "2: eth0: <BROADCAST,MULTICAST,UP,LOWER_UP> mtu 1500";
    assert_eq!(parse_interface_event(up), Some(("eth0".to_string(), true)));
    let down = "2: eth1: <BROADCAST,MULTICAST> mtu 1500 state DOWN";
    assert_eq!(parse_interface_event(down), Some(("eth1".to_string(), false)));
    assert_eq!(parse_interface_event("noise without events"), None);
}

#[test]
fn pattern_search_finds_substrings() {
    assert!(contains_pattern("state LOWER_UP here", "UP"));
    assert!(!contains_pattern("state quiet", "UP"));
    assert!(contains_pattern("anything", ""));
    assert!(!contains_pattern("ab", "abc"));
}

#[test]
fn pid_file_content_parses_with_surrounding_whitespace() {
    assert_eq!(parse_pid("1234"), Some(1234));
    assert_eq!(parse_pid("  987\n"), Some(987));
    assert_eq!(parse_pid("\t4294967295\r\n"), Some(u32::MAX));
    assert_eq!(parse_pid("4294967296"), None, "one past u32::MAX must be rejected");
    assert_eq!(parse_pid("12a4"), None);
    assert_eq!(parse_pid("-5"), None);
    assert_eq!(parse_pid(""), None);
    assert_eq!(parse_pid("   \n"), None);
}

#[test]
fn daemon_manager_remembers_its_pid_file() {
    let dm = DaemonManager::new("/run/gateway.pid".to_string());
    assert_eq!(dm.pid_file_path(), "/run/gateway.pid");
}

#[test]
fn interfaces_are_found_by_name_and_by_device() {
    let ifs = vec![
        Interface {
            name: "wan1".to_string(),
            interface_name: "eth0".to_string(),
            weight: 1,
            mark: 1,
            enabled: true,
            nftables_sets: vec![],
        },
        Interface {
            name: "wan2".to_string(),
            interface_name: "eth1".to_string(),
            weight: 1,
            mark: 2,
            enabled: true,
            nftables_sets: vec![],
        },
    ];
    assert_eq!(find_interface(&ifs, &"wan2".to_string()), Some(1));
    assert_eq!(find_interface(&ifs, &"wan9".to_string()), None);
    assert_eq!(find_interface_by_device(&ifs, &"eth0".to_string()), Some(0));
    assert_eq!(find_interface_by_device(&ifs, &"tun0".to_string()), None);
}

fn global(mptcp: bool, tfo: bool) -> GlobalConfig {
    GlobalConfig {
        policy: "fallback".to_string(),
        udp_race: false,
        mptcp,
        tfo,
        health_check: HealthCheckConfig {
            timeout: 5,
            interval: 10,
            url: "http://probe.example/health".to_string(),
            fail_threshold: 3,
            succ_threshold: 2,
        },
    }
}

#[test]
fn mptcp_plan_follows_the_flags() {
    assert!(plan_mptcp_setup(&global(false, true)).is_empty());
    let plan = plan_mptcp_setup(&global(true, false));
    assert_eq!(plan.len(), 2);
    assert_eq!(plan[0], MptcpAction::EnableMptcp);
    assert_eq!(plan[1], MptcpAction::SetScheduler { scheduler: "default".to_string() });
    let plan = plan_mptcp_setup(&global(true, true));
    assert_eq!(
        plan,
        vec![
            MptcpAction::EnableMptcp,
            MptcpAction::EnableTfo,
            MptcpAction::SetScheduler { scheduler: "default".to_string() },
        ]
    );
}

#[test]
fn endpoint_changes_name_their_device() {
    assert_eq!(
        plan_endpoint_change("eth0", true),
        MptcpAction::AddEndpoint { device: "eth0".to_string() }
    );
    assert_eq!(
        plan_endpoint_change("eth0", false),
        MptcpAction::RemoveEndpoint { device: "eth0".to_string() }
    );
}
