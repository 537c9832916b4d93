use mwan3_nft::config::Interface;
use mwan3_nft::nftables::{
    ChainId, ForwardingIntent, Match, NftCommand, NftablesManager, Rule, WeightedMember,
};

fn uplink(name: &str, device: &str, weight: u32, mark: u32, enabled: bool, sets: &[&str]) -> Interface {
    Interface {
        name: name.to_string(),
        interface_name: device.to_string(),
        weight,
        mark,
        enabled,
        nftables_sets: sets.iter().map(|s| s.to_string()).collect(),
    }
}

#[test]
fn initialize_creates_table_five_chains_and_hook() {
    let mut m = NftablesManager::new();
    let cmds = m.initialize();
    assert_eq!(
        cmds,
        vec![
            NftCommand::AddTable,
            NftCommand::AddChain { chain: ChainId::Hook },
            NftCommand::AddChain { chain: ChainId::Connected },
            NftCommand::AddChain { chain: ChainId::Track },
            NftCommand::AddChain { chain: ChainId::Policy },
            NftCommand::AddChain { chain: ChainId::Rules },
            NftCommand::AddHookChain,
        ]
    );
    // safe to call on an already-initialized table: same commands again
    let again = m.initialize();
    assert_eq!(cmds, again);
}

#[test]
fn apply_single_intent_flushes_and_fills_policy_chain() {
    let mut m = NftablesManager::new();
    let cmds = m.apply(ForwardingIntent::Single { name: "wan1".to_string(), mark: 0x10 });
    assert_eq!(
        cmds,
        vec![
            NftCommand::FlushChain { chain: ChainId::Policy },
            NftCommand::AddRule {
                chain: ChainId::Policy,
                rule: Rule { matcher: Match::All, mark: 0x10 },
            },
        ]
    );
    assert_eq!(m.policy_chain, vec![Rule { matcher: Match::All, mark: 0x10 }]);
}

#[test]
fn applying_the_same_intent_twice_changes_nothing() {
    let mut m = NftablesManager::new();
    let first = m.apply(ForwardingIntent::Single { name: "wan1".to_string(), mark: 0x10 });
    assert_eq!(first.len(), 2);
    let chain_after_first = m.policy_chain.clone();
    let second = m.apply(ForwardingIntent::Single { name: "wan1".to_string(), mark: 0x10 });
    assert!(second.is_empty(), "an identical intent must emit no commands");
    assert_eq!(m.policy_chain, chain_after_first, "rule count and content unchanged");
}

#[test]
fn a_different_intent_rewrites_only_the_policy_chain() {
    let mut m = NftablesManager::new();
    let ups = vec![uplink("wan1", "eth0", 1, 1, true, &["lan_hosts"])];
    m.sync_uplink_rules(&ups);
    let rules_before = m.rules_chain.clone();
    m.apply(ForwardingIntent::Single { name: "wan1".to_string(), mark: 1 });
    let cmds = m.apply(ForwardingIntent::Single { name: "wan2".to_string(), mark: 2 });
    assert_eq!(cmds[0], NftCommand::FlushChain { chain: ChainId::Policy });
    assert_eq!(m.policy_chain, vec![Rule { matcher: Match::All, mark: 2 }]);
    assert_eq!(m.rules_chain, rules_before, "the rules chain must be untouched");
}

#[test]
fn weighted_intent_compiles_to_proportional_ranges() {
    let mut m = NftablesManager::new();
    let members = vec![
        WeightedMember { name: "a".to_string(), weight: 1, mark: 0x1 },
        WeightedMember { name: "b".to_string(), weight: 3, mark: 0x2 },
    ];
    m.apply(ForwardingIntent::Weighted { members });
    assert_eq!(
        m.policy_chain,
        vec![
            Rule { matcher: Match::NumRange { modulus: 4, lo: 0, hi: 1 }, mark: 0x1 },
            Rule { matcher: Match::NumRange { modulus: 4, lo: 1, hi: 4 }, mark: 0x2 },
        ]
    );
}

#[test]
fn priority_intent_marks_everything_to_the_primary() {
    let mut m = NftablesManager::new();
    let members = vec![
        WeightedMember { name: "a".to_string(), weight: 1, mark: 0x1 },
        WeightedMember { name: "b".to_string(), weight: 1, mark: 0x2 },
    ];
    m.apply(ForwardingIntent::Priority { members });
    assert_eq!(m.policy_chain, vec![Rule { matcher: Match::All, mark: 0x1 }]);
}

#[test]
fn rules_chain_is_a_pure_function_of_the_uplink_list() {
    let ups = vec![
        uplink("wan1", "eth0", 1, 1, true, &["seta", "setb"]),
        uplink("wan2", "eth1", 1, 2, false, &["setc"]),
        uplink("wan3", "eth2", 1, 3, true, &["setd"]),
    ];
    let mut m1 = NftablesManager::new();
    m1.sync_uplink_rules(&ups);
    let mut m2 = NftablesManager::new();
    m2.sync_uplink_rules(&ups);
    assert_eq!(m1.rules_chain, m2.rules_chain, "same uplink state, same chain");
    assert_eq!(
        m1.rules_chain,
        vec![
            Rule { matcher: Match::SaddrSet { set_name: "seta".to_string() }, mark: 1 },
            Rule { matcher: Match::SaddrSet { set_name: "setb".to_string() }, mark: 1 },
            Rule { matcher: Match::SaddrSet { set_name: "setd".to_string() }, mark: 3 },
        ],
        "disabled uplinks contribute no rules"
    );
}

#[test]
fn disabling_an_uplink_removes_exactly_its_rules() {
    let mut ups = vec![
        uplink("wan1", "eth0", 1, 1, true, &["seta"]),
        uplink("wan2", "eth1", 1, 2, true, &["setb", "setc"]),
        uplink("wan3", "eth2", 1, 3, true, &["setd"]),
    ];
    let mut m = NftablesManager::new();
    m.sync_uplink_rules(&ups);
    let before = m.rules_chain.clone();
    ups[1].enabled = false;
    m.sync_uplink_rules(&ups);
    let after = m.rules_chain.clone();
    let expected: Vec<Rule> =
        before.into_iter().filter(|r| r.mark != 2).collect();
    assert_eq!(after, expected, "exactly the disabled uplink's rules are gone");
}

#[test]
fn update_interface_mark_tracks_and_untracks_a_device() {
    let mut m = NftablesManager::new();
    let cmds = m.update_interface_mark("eth0", 0x7, true);
    assert_eq!(
        cmds,
        vec![NftCommand::AddRule {
            chain: ChainId::Track,
            rule: Rule { matcher: Match::Oif { device: "eth0".to_string() }, mark: 0x7 },
        }]
    );
    m.update_interface_mark("eth1", 0x8, true);
    assert_eq!(m.track_chain.len(), 2);
    let cmds = m.update_interface_mark("eth0", 0x7, false);
    assert_eq!(cmds[0], NftCommand::FlushChain { chain: ChainId::Track });
    assert_eq!(
        m.track_chain,
        vec![Rule { matcher: Match::Oif { device: "eth1".to_string() }, mark: 0x8 }]
    );
}
