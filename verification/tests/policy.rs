use mwan3_nft::config::{Config, ConfigError, GlobalConfig, HealthCheckConfig, Interface, Policy};
use mwan3_nft::load_balancer::{
    LatencySample, LoadBalancer, PolicyError, PolicyKind, compute_intent, first_online_member,
    parse_policy_kind, pick_weighted, select_best_path_with_latency,
};
use mwan3_nft::nftables::{ForwardingIntent, Match, Rule, WeightedMember};

fn uplink(name: &str, weight: u32, mark: u32, enabled: bool) -> Interface {
    Interface {
        name: name.to_string(),
        interface_name: format!("dev_{}", name),
        weight,
        mark,
        enabled,
        nftables_sets: vec![],
    }
}

fn names(v: &[&str]) -> Vec<String> {
    v.iter().map(|s| s.to_string()).collect()
}

fn config_with(policies: Vec<Policy>, interfaces: Vec<Interface>) -> Config {
    Config {
        global: GlobalConfig {
            policy: "fallback".to_string(),
            udp_race: true,
            mptcp: false,
            tfo: false,
            health_check: HealthCheckConfig {
                timeout: 5,
                interval: 10,
                url: "http://probe.example/health".to_string(),
                fail_threshold: 3,
                succ_threshold: 2,
            },
        },
        interfaces,
        policies,
    }
}

#[test]
fn policy_kinds_parse_from_their_configured_names() {
    assert_eq!(parse_policy_kind("url-test"), Some(PolicyKind::BestPath));
    assert_eq!(parse_policy_kind("load-balance"), Some(PolicyKind::WeightedBalance));
    assert_eq!(parse_policy_kind("fallback"), Some(PolicyKind::PriorityFailover));
    assert_eq!(parse_policy_kind("round-robin"), None);
}

#[test]
fn best_path_returns_first_online_member_in_list_order() {
    let list = names(&["wan1", "wan2", "wan3"]);
    let online = names(&["wan3", "wan2"]);
    assert_eq!(first_online_member(&list, &online), Some(1));
    let ifs = vec![uplink("wan1", 1, 1, true), uplink("wan2", 1, 2, true), uplink("wan3", 1, 3, true)];
    let intent = compute_intent(PolicyKind::BestPath, &list, &ifs, &online).unwrap();
    match intent {
        ForwardingIntent::Single { name, mark } => {
            assert_eq!(name, "wan2");
            assert_eq!(mark, 2);
        },
        other => panic!("expected a single-winner intent, got {:?}", other),
    }
}

#[test]
fn priority_failover_returns_first_online_member_too() {
    let list = names(&["wan1", "wan2", "wan3"]);
    let online = names(&["wan2", "wan3"]);
    let ifs = vec![uplink("wan1", 1, 1, true), uplink("wan2", 1, 2, true), uplink("wan3", 1, 3, true)];
    let intent = compute_intent(PolicyKind::PriorityFailover, &list, &ifs, &online).unwrap();
    match intent {
        ForwardingIntent::Priority { members } => {
            assert_eq!(members[0].name, "wan2", "the primary is the first online member");
        },
        other => panic!("expected a priority intent, got {:?}", other),
    }
}

#[test]
fn selection_fails_with_no_uplinks_available_when_none_online() {
    let list = names(&["wan1", "wan2"]);
    let online: Vec<String> = vec![];
    assert_eq!(first_online_member(&list, &online), None);
    let ifs = vec![uplink("wan1", 1, 1, true), uplink("wan2", 1, 2, true)];
    let r = compute_intent(PolicyKind::BestPath, &list, &ifs, &online);
    assert_eq!(r.unwrap_err(), PolicyError::NoUplinksAvailable);
    let r = compute_intent(PolicyKind::PriorityFailover, &list, &ifs, &online);
    assert_eq!(r.unwrap_err(), PolicyError::NoUplinksAvailable);
    let r = compute_intent(PolicyKind::WeightedBalance, &list, &ifs, &online);
    assert_eq!(r.unwrap_err(), PolicyError::NoUplinksAvailable);
}

#[test]
fn weighted_distribution_converges_to_the_weight_ratio() {
    let members = vec![
        WeightedMember { name: "a".to_string(), weight: 1, mark: 1 },
        WeightedMember { name: "b".to_string(), weight: 3, mark: 2 },
    ];
    let total: u64 = 4;
    let trials: u64 = 4000;
    let mut counts = [0u64; 2];
    // a simple uniform sweep of draws; a real deployment feeds a random draw
    for t in 0..trials {
        let idx = pick_weighted(&members, t % total);
        counts[idx] += 1;
    }
    assert_eq!(counts[0], 1000, "weight 1 of 4 owns a quarter of the draws");
    assert_eq!(counts[1], 3000, "weight 3 of 4 owns three quarters");
}

#[test]
fn best_path_with_latency_lets_the_lowest_measurement_win() {
    let list = names(&["wan1", "wan2", "wan3"]);
    let online = names(&["wan1", "wan2", "wan3"]);
    let lats = vec![
        LatencySample { name: "wan1".to_string(), latency: 40 },
        LatencySample { name: "wan2".to_string(), latency: 12 },
        LatencySample { name: "wan3".to_string(), latency: 30 },
    ];
    assert_eq!(select_best_path_with_latency(&list, &online, &lats), Some(1));
    // ties go to list order; unmeasured members count as slowest
    let lats = vec![
        LatencySample { name: "wan1".to_string(), latency: 30 },
        LatencySample { name: "wan3".to_string(), latency: 30 },
    ];
    assert_eq!(select_best_path_with_latency(&list, &online, &lats), Some(0));
    assert_eq!(select_best_path_with_latency(&list, &names(&[]), &lats), None);
}

#[test]
fn activation_fails_with_policy_not_found_for_an_unknown_name() {
    let cfg = config_with(
        vec![Policy { policy_type: "fallback".to_string(), interfaces: names(&["wan1"]) }],
        vec![uplink("wan1", 1, 1, true)],
    );
    let mut lb = LoadBalancer::new();
    let r = lb.apply_policy("url-test", &cfg.policies, &cfg.interfaces, &names(&["wan1"]));
    assert_eq!(r.unwrap_err(), PolicyError::PolicyNotFound);
}

#[test]
fn activation_fails_with_unknown_policy_kind() {
    let cfg = config_with(
        vec![Policy { policy_type: "round-robin".to_string(), interfaces: names(&["wan1"]) }],
        vec![uplink("wan1", 1, 1, true)],
    );
    let mut lb = LoadBalancer::new();
    let r = lb.apply_policy("round-robin", &cfg.policies, &cfg.interfaces, &names(&["wan1"]));
    assert_eq!(r.unwrap_err(), PolicyError::UnknownPolicyKind);
}

#[test]
fn unconfigured_uplink_name_fails_at_activation_not_at_load() {
    let cfg = config_with(
        vec![Policy {
            policy_type: "fallback".to_string(),
            interfaces: names(&["wan1", "ghost"]),
        }],
        vec![uplink("wan1", 1, 1, true)],
    );
    // loading/validation does not look at policy uplink names
    assert!(cfg.validate().is_ok(), "the bad reference must pass load-time validation");
    // activation rejects it
    let mut lb = LoadBalancer::new();
    let r = lb.apply_policy("fallback", &cfg.policies, &cfg.interfaces, &names(&["wan1"]));
    assert_eq!(r.unwrap_err(), PolicyError::UplinkNotConfigured);
    assert!(lb.current_policy.is_none(), "a failed activation records no policy");
}

#[test]
fn successful_activation_records_the_policy_and_reapplies_idempotently() {
    let cfg = config_with(
        vec![Policy {
            policy_type: "fallback".to_string(),
            interfaces: names(&["wan1", "wan2"]),
        }],
        vec![uplink("wan1", 1, 1, true), uplink("wan2", 1, 2, true)],
    );
    let online = names(&["wan1", "wan2"]);
    let mut lb = LoadBalancer::new();
    let cmds = lb.apply_policy("fallback", &cfg.policies, &cfg.interfaces, &online).unwrap();
    assert_eq!(cmds.len(), 2, "flush plus one primary rule");
    assert_eq!(lb.current_policy.as_deref(), Some("fallback"));
    assert_eq!(lb.nftables.policy_chain, vec![Rule { matcher: Match::All, mark: 1 }]);
    // a health/up-down trigger with the same online set re-applies idempotently
    let cmds = lb
        .handle_interface_change("dev_wan1", true, &cfg.policies, &cfg.interfaces, &online)
        .unwrap();
    assert!(cmds.is_empty(), "an unchanged selection must emit nothing");
    // losing the primary re-routes to the next member
    let cmds = lb
        .handle_interface_change("dev_wan1", false, &cfg.policies, &cfg.interfaces, &names(&["wan2"]))
        .unwrap();
    assert_eq!(cmds.len(), 2);
    assert_eq!(lb.nftables.policy_chain, vec![Rule { matcher: Match::All, mark: 2 }]);
}

#[test]
fn failed_reevaluation_leaves_previous_rules_in_place() {
    let cfg = config_with(
        vec![Policy { policy_type: "fallback".to_string(), interfaces: names(&["wan1"]) }],
        vec![uplink("wan1", 1, 1, true)],
    );
    let mut lb = LoadBalancer::new();
    lb.apply_policy("fallback", &cfg.policies, &cfg.interfaces, &names(&["wan1"])).unwrap();
    let chain_before = lb.nftables.policy_chain.clone();
    let r = lb.on_health_changed(&cfg.policies, &cfg.interfaces, &names(&[]));
    assert_eq!(r.unwrap_err(), PolicyError::NoUplinksAvailable);
    assert_eq!(lb.nftables.policy_chain, chain_before, "previous rules stay in place");
    assert_eq!(lb.current_policy.as_deref(), Some("fallback"));
}

#[test]
fn reevaluation_without_an_active_policy_does_nothing() {
    let cfg = config_with(vec![], vec![]);
    let mut lb = LoadBalancer::new();
    let cmds = lb.on_health_changed(&cfg.policies, &cfg.interfaces, &names(&[])).unwrap();
    assert!(cmds.is_empty());
}

#[test]
fn validate_accepts_a_sound_snapshot_and_names_the_broken_rule() {
    let good = config_with(vec![], vec![uplink("wan1", 1, 1, true), uplink("wan2", 2, 2, true)]);
    assert!(good.validate().is_ok());

    let mut bad = good.clone();
    bad.interfaces[0].weight = 0;
    assert_eq!(bad.validate().unwrap_err(), ConfigError::ZeroWeight);

    let mut bad = good.clone();
    bad.interfaces[1].mark = 1;
    assert_eq!(bad.validate().unwrap_err(), ConfigError::DuplicateMark);

    // the data model constrains only weights and marks: a zero hysteresis
    // threshold is accepted (it simply behaves like a threshold of one)
    let mut lax = good.clone();
    lax.global.health_check.succ_threshold = 0;
    assert!(lax.validate().is_ok());
}
