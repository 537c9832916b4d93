//! The rule compiler: from a forwarding intent to a named, chained rule set.
//!
//! The compiler owns a model of the packet-filter table `mwan3` with its five
//! chains (`hook`, `connected`, `track`, `policy`, `rules`).  Every operation
//! is pure: it updates the model and returns the structured commands that
//! bring the live table in line with it; the surrounding program renders and
//! executes those commands.  Applying an intent equal to the last-applied one
//! emits no commands at all, so re-application is idempotent.

use vstd::prelude::*;

verus! {

/// One member of a forwarding intent: an uplink name with the weight and
/// firewall mark it carries.
#[derive(Clone, Debug, PartialEq, Eq)]
pub struct WeightedMember {
    pub name: String,
    pub weight: u32,
    pub mark: u32,
}

/// The policy engine's output: which uplink(s) should carry new flows.
///
/// `Single` marks everything to one winner; `Weighted` distributes flows
/// over its members proportionally to weight; `Priority` lists members in
/// failover order, all traffic marking to the first (the primary).
#[derive(Clone, Debug, PartialEq, Eq)]
pub enum ForwardingIntent {
    Single { name: String, mark: u32 },
    Weighted { members: Vec<WeightedMember> },
    Priority { members: Vec<WeightedMember> },
}

/// The five chains of the `mwan3` table.
#[derive(Clone, Copy, Debug, PartialEq, Eq, Structural)]
pub enum ChainId {
    Hook,
    Connected,
    Track,
    Policy,
    Rules,
}

/// What a rule matches on.
///
/// `NumRange` stands for a uniform random draw below `modulus` landing in
/// `lo..hi`; it is how a weighted intent's proportional shares are encoded.
#[derive(Debug, PartialEq, Eq)]
pub enum Match {
    /// Traffic leaving through the named device.
    Oif { device: String },
    /// Traffic whose source address lies in the named set.
    SaddrSet { set_name: String },
    /// A uniform random draw below `modulus` landing in `lo..hi`.
    NumRange { modulus: u64, lo: u64, hi: u64 },
    /// All traffic.
    All,
}

/// One rule: assign `mark` to the traffic selected by `matcher`.
#[derive(Debug, PartialEq, Eq)]
pub struct Rule {
    pub matcher: Match,
    pub mark: u32,
}

impl Clone for Match {
    /// A clone is equal to the original.
    fn clone(&self) -> (r: Self)
        ensures
            r == *self,
    {
        match self {
            Match::Oif { device } => Match::Oif { device: device.clone() },
            Match::SaddrSet { set_name } => Match::SaddrSet { set_name: set_name.clone() },
            Match::NumRange { modulus, lo, hi } => Match::NumRange {
                modulus: *modulus,
                lo: *lo,
                hi: *hi,
            },
            Match::All => Match::All,
        }
    }
}

impl Clone for Rule {
    /// A clone is equal to the original.
    fn clone(&self) -> (r: Self)
        ensures
            r == *self,
    {
        Rule { matcher: self.matcher.clone(), mark: self.mark }
    }
}

/// One structured command against the live table.
#[derive(Debug, PartialEq, Eq)]
pub enum NftCommand {
    /// Ensure the `mwan3` table exists.
    AddTable,
    /// Ensure the named chain exists.
    AddChain { chain: ChainId },
    /// Ensure the hook chain is attached at the output path with
    /// mangle-equivalent priority.
    AddHookChain,
    /// Empty the named chain.
    FlushChain { chain: ChainId },
    /// Append a rule to the named chain.
    AddRule { chain: ChainId, rule: Rule },
}

/// Two members carry the same name, weight and mark.
pub open spec fn spec_member_matches(a: WeightedMember, b: WeightedMember) -> bool {
    a.name@ == b.name@ && a.weight == b.weight && a.mark == b.mark
}

/// Two member lists match pointwise.
pub open spec fn spec_members_match(a: Seq<WeightedMember>, b: Seq<WeightedMember>) -> bool {
    a.len() == b.len() && forall|i: int| 0 <= i < a.len() ==> spec_member_matches(#[trigger] a[i], b[i])
}

/// Two intents are the same selection: same variant, same names, weights
/// and marks.  This is the equality the compiler diffs by.
pub open spec fn spec_intent_matches(a: ForwardingIntent, b: ForwardingIntent) -> bool {
    match (a, b) {
        (
            ForwardingIntent::Single { name: an, mark: am },
            ForwardingIntent::Single { name: bn, mark: bm },
        ) => an@ == bn@ && am == bm,
        (
            ForwardingIntent::Weighted { members: av },
            ForwardingIntent::Weighted { members: bv },
        ) => spec_members_match(av@, bv@),
        (
            ForwardingIntent::Priority { members: av },
            ForwardingIntent::Priority { members: bv },
        ) => spec_members_match(av@, bv@),
        _ => false,
    }
}

/// The sum of the members' weights.
pub open spec fn spec_total_weight(s: Seq<WeightedMember>) -> int
    decreases s.len(),
{
    if s.len() == 0 {
        0
    } else {
        spec_total_weight(s.drop_last()) + s.last().weight
    }
}

/// The sum of the weights of the members before index `i`.
pub open spec fn spec_cum_before(s: Seq<WeightedMember>, i: int) -> int {
    spec_total_weight(s.take(i))
}

/// The rules that distribute flows over `s` proportionally to weight: one
/// random-draw range of width `weight` per member, against the total.
pub open spec fn spec_weighted_rules(s: Seq<WeightedMember>) -> Seq<Rule> {
    Seq::new(
        s.len(),
        |i: int|
            Rule {
                matcher: Match::NumRange {
                    modulus: spec_total_weight(s) as u64,
                    lo: spec_cum_before(s, i) as u64,
                    hi: (spec_cum_before(s, i) + s[i].weight) as u64,
                },
                mark: s[i].mark,
            },
    )
}

/// The policy chain an intent compiles to.
pub open spec fn spec_compile(intent: ForwardingIntent) -> Seq<Rule> {
    match intent {
        ForwardingIntent::Single { name, mark } => seq![Rule { matcher: Match::All, mark }],
        ForwardingIntent::Weighted { members } => spec_weighted_rules(members@),
        ForwardingIntent::Priority { members } => {
            if members@.len() == 0 {
                Seq::empty()
            } else {
                seq![Rule { matcher: Match::All, mark: members@[0].mark }]
            }
        },
    }
}

/// One append command per rule, in order.
pub open spec fn spec_add_rule_cmds(chain: ChainId, rules: Seq<Rule>) -> Seq<NftCommand> {
    Seq::new(rules.len(), |i: int| NftCommand::AddRule { chain, rule: rules[i] })
}

/// The commands that create the table, its five chains, and the hook
/// attachment; safe against an already-initialized table.
pub open spec fn spec_init_cmds() -> Seq<NftCommand> {
    seq![
        NftCommand::AddTable,
        NftCommand::AddChain { chain: ChainId::Hook },
        NftCommand::AddChain { chain: ChainId::Connected },
        NftCommand::AddChain { chain: ChainId::Track },
        NftCommand::AddChain { chain: ChainId::Policy },
        NftCommand::AddChain { chain: ChainId::Rules },
        NftCommand::AddHookChain,
    ]
}

/// The rules of one uplink's source sets: one mark-assignment per bound set.
pub open spec fn spec_set_rules(itf: crate::config::Interface) -> Seq<Rule> {
    Seq::new(
        itf.nftables_sets@.len(),
        |j: int|
            Rule { matcher: Match::SaddrSet { set_name: itf.nftables_sets@[j] }, mark: itf.mark },
    )
}

/// The whole `rules` chain as a pure function of the uplink list: every
/// enabled uplink contributes the rules of its source sets, in list order;
/// disabled uplinks contribute nothing.
pub open spec fn spec_uplink_rules(s: Seq<crate::config::Interface>) -> Seq<Rule>
    decreases s.len(),
{
    if s.len() == 0 {
        Seq::empty()
    } else {
        spec_uplink_rules(s.drop_last()) + (if s.last().enabled {
            spec_set_rules(s.last())
        } else {
            Seq::empty()
        })
    }
}

/// The `track` chain with every rule of the named device removed.
pub open spec fn spec_remove_device_rules(s: Seq<Rule>, device: Seq<char>) -> Seq<Rule>
    decreases s.len(),
{
    if s.len() == 0 {
        Seq::empty()
    } else {
        let rest = spec_remove_device_rules(s.drop_last(), device);
        if (match s.last().matcher {
            Match::Oif { device: d } => d@ == device,
            _ => false,
        }) {
            rest
        } else {
            rest.push(s.last())
        }
    }
}

/// The model of the compiled table: the rewritable chains' contents and the
/// last intent that was applied.  (`hook` and `connected` carry no
/// per-uplink state and are written only at initialization.)
pub struct NftablesManager {
    pub table_name: String,
    pub initialized: bool,
    pub policy_chain: Vec<Rule>,
    pub rules_chain: Vec<Rule>,
    pub track_chain: Vec<Rule>,
    pub last_intent: Option<ForwardingIntent>,
}

impl NftablesManager {
    /// The model is coherent: the policy chain holds exactly the compilation
    /// of the last-applied intent.
    pub open spec fn wf(&self) -> bool {
        match self.last_intent {
            Some(i) => self.policy_chain@ == spec_compile(i),
            None => self.policy_chain@.len() == 0,
        }
    }

    /// A fresh manager for the fixed table `mwan3`: all chains empty,
    /// nothing applied yet.
    pub fn new() -> (r: NftablesManager)
        ensures
            r.wf(),
            r.table_name@ == "mwan3"@,
            !r.initialized,
            r.policy_chain@.len() == 0,
            r.rules_chain@.len() == 0,
            r.track_chain@.len() == 0,
            r.last_intent is None,
    {
        NftablesManager {
            table_name: ("mwan3").to_owned(),
            initialized: false,
            policy_chain: Vec::new(),
            rules_chain: Vec::new(),
            track_chain: Vec::new(),
            last_intent: None,
        }
    }

    /// Commands that ensure the table and its five chains exist.  Re-running
    /// them against a live table is harmless, so this may be called on an
    /// already-initialized system.
    pub fn initialize(&mut self) -> (r: Vec<NftCommand>)
        requires
            old(self).wf(),
        ensures
            final(self).wf(),
            final(self).initialized,
            final(self).policy_chain == old(self).policy_chain,
            final(self).rules_chain == old(self).rules_chain,
            final(self).track_chain == old(self).track_chain,
            final(self).last_intent == old(self).last_intent,
            final(self).table_name == old(self).table_name,
            r@ == spec_init_cmds(),
    {
        self.initialized = true;
        let mut cmds: Vec<NftCommand> = Vec::new();
        cmds.push(NftCommand::AddTable);
        cmds.push(NftCommand::AddChain { chain: ChainId::Hook });
        cmds.push(NftCommand::AddChain { chain: ChainId::Connected });
        cmds.push(NftCommand::AddChain { chain: ChainId::Track });
        cmds.push(NftCommand::AddChain { chain: ChainId::Policy });
        cmds.push(NftCommand::AddChain { chain: ChainId::Rules });
        cmds.push(NftCommand::AddHookChain);
        proof {
            assert(cmds@ =~= spec_init_cmds());
        }
        cmds
    }

    /// Rewrite the `policy` chain to reflect `intent`; every other chain is
    /// untouched.  Idempotent: when `intent` is the same selection as the
    /// last-applied one, the chain already holds its compilation and no
    /// command is emitted; otherwise the chain is flushed and refilled.
    pub fn apply(&mut self, intent: ForwardingIntent) -> (r: Vec<NftCommand>)
        requires
            old(self).wf(),
            intent matches ForwardingIntent::Weighted { members } ==> members@.len()
                <= 0xFFFF_FFFF && (forall|i: int|
                0 <= i < members@.len() ==> (#[trigger] members@[i]).weight >= 1),
        ensures
            final(self).wf(),
            final(self).policy_chain@ == spec_compile(intent),
            final(self).last_intent matches Some(i) && spec_intent_matches(i, intent),
            final(self).rules_chain == old(self).rules_chain,
            final(self).track_chain == old(self).track_chain,
            final(self).initialized == old(self).initialized,
            final(self).table_name == old(self).table_name,
            (match old(self).last_intent {
                Some(j) => spec_intent_matches(j, intent),
                None => false,
            }) ==> r@ == Seq::<NftCommand>::empty() && final(self).policy_chain == old(
                self,
            ).policy_chain,
            !(match old(self).last_intent {
                Some(j) => spec_intent_matches(j, intent),
                None => false,
            }) ==> r@ == seq![NftCommand::FlushChain { chain: ChainId::Policy }]
                + spec_add_rule_cmds(ChainId::Policy, spec_compile(intent)),
    {
        let same = match &self.last_intent {
            Some(prev) => intent_eq(prev, &intent),
            None => false,
        };
        if same {
            proof {
                let prev = self.last_intent->Some_0;
                lemma_matching_compile(prev, intent);
            }
            return Vec::new();
        }
        let rules = compile_intent(&intent);
        let n = rules.len();
        let mut cmds: Vec<NftCommand> = Vec::new();
        cmds.push(NftCommand::FlushChain { chain: ChainId::Policy });
        let mut k: usize = 0;
        while k < n
            invariant
                k <= n,
                n == rules@.len(),
                cmds@ == seq![NftCommand::FlushChain { chain: ChainId::Policy }]
                    + spec_add_rule_cmds(ChainId::Policy, rules@).take(k as int),
            decreases n - k,
        {
            cmds.push(NftCommand::AddRule { chain: ChainId::Policy, rule: rules[k].clone() });
            proof {
                assert(cmds@ =~= seq![NftCommand::FlushChain { chain: ChainId::Policy }]
                    + spec_add_rule_cmds(ChainId::Policy, rules@).take(k + 1));
            }
            k = k + 1;
        }
        proof {
            assert(spec_add_rule_cmds(ChainId::Policy, rules@).take(n as int)
                =~= spec_add_rule_cmds(ChainId::Policy, rules@));
        }
        self.policy_chain = rules;
        self.last_intent = Some(intent);
        cmds
    }

    /// Rewrite the `rules` chain from the full uplink list: for every
    /// enabled uplink, one mark-assignment per bound source set; disabled
    /// uplinks contribute no rules.  Independent of the active policy.
    pub fn sync_uplink_rules(&mut self, uplinks: &Vec<crate::config::Interface>) -> (r: Vec<
        NftCommand,
    >)
        requires
            old(self).wf(),
        ensures
            final(self).wf(),
            final(self).rules_chain@ == spec_uplink_rules(uplinks@),
            final(self).policy_chain == old(self).policy_chain,
            final(self).track_chain == old(self).track_chain,
            final(self).last_intent == old(self).last_intent,
            final(self).initialized == old(self).initialized,
            final(self).table_name == old(self).table_name,
            r@ == seq![NftCommand::FlushChain { chain: ChainId::Rules }] + spec_add_rule_cmds(
                ChainId::Rules,
                spec_uplink_rules(uplinks@),
            ),
    {
        let n = uplinks.len();
        let mut rules: Vec<Rule> = Vec::new();
        proof {
            assert(rules@ =~= spec_uplink_rules(uplinks@.take(0)));
        }
        let mut i: usize = 0;
        while i < n
            invariant
                i <= n,
                n == uplinks@.len(),
                rules@ == spec_uplink_rules(uplinks@.take(i as int)),
            decreases n - i,
        {
            proof {
                assert(uplinks@.take(i + 1).drop_last() =~= uplinks@.take(i as int));
                assert(uplinks@.take(i + 1).last() == uplinks@[i as int]);
            }
            if uplinks[i].enabled {
                let m = uplinks[i].nftables_sets.len();
                let mut j: usize = 0;
                while j < m
                    invariant
                        j <= m,
                        i < n,
                        n == uplinks@.len(),
                        m == uplinks@[i as int].nftables_sets@.len(),
                        uplinks@[i as int].enabled,
                        rules@ == spec_uplink_rules(uplinks@.take(i as int)) + spec_set_rules(
                            uplinks@[i as int],
                        ).take(j as int),
                    decreases m - j,
                {
                    rules.push(
                        Rule {
                            matcher: Match::SaddrSet {
                                set_name: uplinks[i].nftables_sets[j].clone(),
                            },
                            mark: uplinks[i].mark,
                        },
                    );
                    proof {
                        assert(rules@ =~= spec_uplink_rules(uplinks@.take(i as int))
                            + spec_set_rules(uplinks@[i as int]).take(j + 1));
                    }
                    j = j + 1;
                }
                proof {
                    assert(spec_set_rules(uplinks@[i as int]).take(m as int) =~= spec_set_rules(
                        uplinks@[i as int],
                    ));
                    assert(rules@ =~= spec_uplink_rules(uplinks@.take(i + 1)));
                }
            } else {
                proof {
                    assert(rules@ =~= spec_uplink_rules(uplinks@.take(i + 1)));
                }
            }
            i = i + 1;
        }
        proof {
            assert(uplinks@.take(n as int) =~= uplinks@);
        }
        let rn = rules.len();
        let mut cmds: Vec<NftCommand> = Vec::new();
        cmds.push(NftCommand::FlushChain { chain: ChainId::Rules });
        let mut k: usize = 0;
        while k < rn
            invariant
                k <= rn,
                rn == rules@.len(),
                cmds@ == seq![NftCommand::FlushChain { chain: ChainId::Rules }]
                    + spec_add_rule_cmds(ChainId::Rules, rules@).take(k as int),
            decreases rn - k,
        {
            cmds.push(NftCommand::AddRule { chain: ChainId::Rules, rule: rules[k].clone() });
            proof {
                assert(cmds@ =~= seq![NftCommand::FlushChain { chain: ChainId::Rules }]
                    + spec_add_rule_cmds(ChainId::Rules, rules@).take(k + 1));
            }
            k = k + 1;
        }
        proof {
            assert(spec_add_rule_cmds(ChainId::Rules, rules@).take(rn as int)
                =~= spec_add_rule_cmds(ChainId::Rules, rules@));
        }
        self.rules_chain = rules;
        cmds
    }

    /// Track or stop tracking one device in the `track` chain.  Enabling
    /// appends a mark rule for traffic leaving through the device; disabling
    /// removes exactly that device's rules (the chain is flushed and the
    /// remaining rules are re-added).
    pub fn update_interface_mark(&mut self, device: &str, mark: u32, enabled: bool) -> (r: Vec<
        NftCommand,
    >)
        requires
            old(self).wf(),
        ensures
            final(self).wf(),
            final(self).policy_chain == old(self).policy_chain,
            final(self).rules_chain == old(self).rules_chain,
            final(self).last_intent == old(self).last_intent,
            final(self).initialized == old(self).initialized,
            final(self).table_name == old(self).table_name,
            enabled ==> r@.len() == 1 && (r@[0] matches NftCommand::AddRule { chain, rule }
                && chain == ChainId::Track && rule.mark == mark && (rule.matcher
                matches Match::Oif { device: d } && d@ == device@) && final(self).track_chain@
                == old(self).track_chain@.push(rule)),
            !enabled ==> final(self).track_chain@ == spec_remove_device_rules(
                old(self).track_chain@,
                device@,
            ) && r@ == seq![NftCommand::FlushChain { chain: ChainId::Track }] + spec_add_rule_cmds(
                ChainId::Track,
                spec_remove_device_rules(old(self).track_chain@, device@),
            ),
    {
        if enabled {
            let rule = Rule { matcher: Match::Oif { device: device.to_owned() }, mark };
            let cmd_rule = rule.clone();
            self.track_chain.push(rule);
            let mut cmds: Vec<NftCommand> = Vec::new();
            cmds.push(NftCommand::AddRule { chain: ChainId::Track, rule: cmd_rule });
            cmds
        } else {
            let key: String = device.to_owned();
            let n = self.track_chain.len();
            let mut kept: Vec<Rule> = Vec::new();
            proof {
                assert(kept@ =~= spec_remove_device_rules(self.track_chain@.take(0), device@));
            }
            let mut i: usize = 0;
            while i < n
                invariant
                    i <= n,
                    n == self.track_chain@.len(),
                    key@ == device@,
                    kept@ == spec_remove_device_rules(self.track_chain@.take(i as int), device@),
                decreases n - i,
            {
                proof {
                    assert(self.track_chain@.take(i + 1).drop_last() =~= self.track_chain@.take(
                        i as int,
                    ));
                    assert(self.track_chain@.take(i + 1).last() == self.track_chain@[i as int]);
                }
                let is_device = match &self.track_chain[i].matcher {
                    Match::Oif { device: d } => *d == key,
                    _ => false,
                };
                if !is_device {
                    kept.push(self.track_chain[i].clone());
                    proof {
                        assert(kept@ =~= spec_remove_device_rules(
                            self.track_chain@.take(i + 1),
                            device@,
                        ));
                    }
                } else {
                    proof {
                        assert(kept@ =~= spec_remove_device_rules(
                            self.track_chain@.take(i + 1),
                            device@,
                        ));
                    }
                }
                i = i + 1;
            }
            proof {
                assert(self.track_chain@.take(n as int) =~= self.track_chain@);
            }
            let rn = kept.len();
            let mut cmds: Vec<NftCommand> = Vec::new();
            cmds.push(NftCommand::FlushChain { chain: ChainId::Track });
            let mut k: usize = 0;
            while k < rn
                invariant
                    k <= rn,
                    rn == kept@.len(),
                    cmds@ == seq![NftCommand::FlushChain { chain: ChainId::Track }]
                        + spec_add_rule_cmds(ChainId::Track, kept@).take(k as int),
                decreases rn - k,
            {
                cmds.push(NftCommand::AddRule { chain: ChainId::Track, rule: kept[k].clone() });
                proof {
                    assert(cmds@ =~= seq![NftCommand::FlushChain { chain: ChainId::Track }]
                        + spec_add_rule_cmds(ChainId::Track, kept@).take(k + 1));
                }
                k = k + 1;
            }
            proof {
                assert(spec_add_rule_cmds(ChainId::Track, kept@).take(rn as int)
                    =~= spec_add_rule_cmds(ChainId::Track, kept@));
            }
            self.track_chain = kept;
            cmds
        }
    }
}

/// The total weight is never negative.
pub proof fn lemma_total_weight_nonneg(s: Seq<WeightedMember>)
    ensures
        spec_total_weight(s) >= 0,
    decreases s.len(),
{
    if s.len() > 0 {
        lemma_total_weight_nonneg(s.drop_last());
    }
}

/// The total weight grows by one member's weight at a time.
pub proof fn lemma_total_weight_take_step(s: Seq<WeightedMember>, i: int)
    requires
        0 <= i < s.len(),
    ensures
        spec_total_weight(s.take(i + 1)) == spec_total_weight(s.take(i)) + s[i].weight,
{
    assert(s.take(i + 1).drop_last() =~= s.take(i));
    assert(s.take(i + 1).last() == s[i]);
}

/// Cumulative weights never pass the total.
pub proof fn lemma_cum_le_total(s: Seq<WeightedMember>, i: int)
    requires
        0 <= i <= s.len(),
    ensures
        0 <= spec_cum_before(s, i),
        spec_cum_before(s, i) <= spec_total_weight(s),
    decreases s.len() - i,
{
    lemma_total_weight_nonneg(s.take(i));
    if i == s.len() {
        assert(s.take(i) =~= s);
    } else {
        lemma_total_weight_take_step(s, i);
        lemma_cum_le_total(s, i + 1);
    }
}

/// Matching member lists have the same total weight.
pub proof fn lemma_matching_total(a: Seq<WeightedMember>, b: Seq<WeightedMember>)
    requires
        spec_members_match(a, b),
    ensures
        spec_total_weight(a) == spec_total_weight(b),
    decreases a.len(),
{
    if a.len() > 0 {
        assert(spec_members_match(a.drop_last(), b.drop_last())) by {
            assert(forall|i: int|
                0 <= i < a.len() - 1 ==> spec_member_matches(
                    #[trigger] a.drop_last()[i],
                    b.drop_last()[i],
                ));
        }
        lemma_matching_total(a.drop_last(), b.drop_last());
        assert(spec_member_matches(a[a.len() - 1], b[a.len() - 1]));
    }
}

/// Matching intents compile to the same policy chain.
pub proof fn lemma_matching_compile(a: ForwardingIntent, b: ForwardingIntent)
    requires
        spec_intent_matches(a, b),
    ensures
        spec_compile(a) == spec_compile(b),
{
    match (a, b) {
        (
            ForwardingIntent::Weighted { members: av },
            ForwardingIntent::Weighted { members: bv },
        ) => {
            lemma_matching_total(av@, bv@);
            assert forall|i: int| 0 <= i < av@.len() implies spec_weighted_rules(av@)[i]
                == spec_weighted_rules(bv@)[i] by {
                assert(spec_member_matches(av@[i], bv@[i]));
                assert(spec_members_match(av@.take(i), bv@.take(i))) by {
                    assert(forall|k: int|
                        0 <= k < i ==> spec_member_matches(
                            #[trigger] av@.take(i)[k],
                            bv@.take(i)[k],
                        ));
                }
                lemma_matching_total(av@.take(i), bv@.take(i));
            }
            assert(spec_weighted_rules(av@) =~= spec_weighted_rules(bv@));
        },
        (
            ForwardingIntent::Priority { members: av },
            ForwardingIntent::Priority { members: bv },
        ) => {
            if av@.len() > 0 {
                assert(spec_member_matches(av@[0], bv@[0]));
                assert(spec_compile(a) =~= spec_compile(b));
            }
        },
        (ForwardingIntent::Single { .. }, ForwardingIntent::Single { .. }) => {
            assert(spec_compile(a) =~= spec_compile(b));
        },
        _ => {},
    }
}

/// Compile an intent into the policy-chain rules it stands for.  Weights
/// are positive per the data model, so a weighted intent's total is never
/// zero and every random-draw range is non-empty.
pub fn compile_intent(intent: &ForwardingIntent) -> (r: Vec<Rule>)
    requires
        intent matches ForwardingIntent::Weighted { members } ==> members@.len() <= 0xFFFF_FFFF
            && (forall|i: int| 0 <= i < members@.len() ==> (#[trigger] members@[i]).weight >= 1),
    ensures
        r@ == spec_compile(*intent),
{
    match intent {
        ForwardingIntent::Single { name: _, mark } => {
            let mut out: Vec<Rule> = Vec::new();
            out.push(Rule { matcher: Match::All, mark: *mark });
            proof {
                assert(out@ =~= spec_compile(*intent));
            }
            out
        },
        ForwardingIntent::Priority { members } => {
            let mut out: Vec<Rule> = Vec::new();
            if members.len() > 0 {
                out.push(Rule { matcher: Match::All, mark: members[0].mark });
            }
            proof {
                assert(out@ =~= spec_compile(*intent));
            }
            out
        },
        ForwardingIntent::Weighted { members } => {
            let n = members.len();
            // first pass: the total weight
            let mut total: u64 = 0;
            let mut i: usize = 0;
            while i < n
                invariant
                    i <= n,
                    n == members@.len(),
                    n <= 0xFFFF_FFFF,
                    total == spec_total_weight(members@.take(i as int)),
                    total <= i * 0xFFFF_FFFF,
                decreases n - i,
            {
                proof {
                    lemma_total_weight_take_step(members@, i as int);
                    assert((i + 1) * 0xFFFF_FFFF <= 0xFFFF_FFFF * 0xFFFF_FFFF) by (nonlinear_arith)
                        requires
                            0 <= i,
                            i + 1 <= 0xFFFF_FFFF,
                    ;
                }
                total = total + members[i].weight as u64;
                i = i + 1;
            }
            proof {
                assert(members@.take(n as int) =~= members@);
            }
            // second pass: one range of width `weight` per member
            let mut out: Vec<Rule> = Vec::new();
            let mut cum: u64 = 0;
            let mut i: usize = 0;
            while i < n
                invariant
                    i <= n,
                    n == members@.len(),
                    n <= 0xFFFF_FFFF,
                    total == spec_total_weight(members@),
                    cum == spec_cum_before(members@, i as int),
                    out@ == spec_weighted_rules(members@).take(i as int),
                decreases n - i,
            {
                proof {
                    lemma_total_weight_take_step(members@, i as int);
                    lemma_cum_le_total(members@, i + 1);
                }
                let w = members[i].weight as u64;
                out.push(
                    Rule {
                        matcher: Match::NumRange { modulus: total, lo: cum, hi: cum + w },
                        mark: members[i].mark,
                    },
                );
                proof {
                    assert(out@ =~= spec_weighted_rules(members@).take(i + 1));
                }
                cum = cum + w;
                i = i + 1;
            }
            proof {
                assert(spec_weighted_rules(members@).take(n as int) =~= spec_weighted_rules(
                    members@,
                ));
            }
            out
        },
    }
}

/// The `rules` chain splits around any position: the rules of the uplinks
/// before `k`, then uplink `k`'s own rules (none if it is disabled), then
/// the rules of the uplinks after `k`.
pub proof fn lemma_uplink_rules_split(s: Seq<crate::config::Interface>, k: int)
    requires
        0 <= k < s.len(),
    ensures
        spec_uplink_rules(s) == spec_uplink_rules(s.take(k)) + (if s[k].enabled {
            spec_set_rules(s[k])
        } else {
            Seq::<Rule>::empty()
        }) + spec_uplink_rules(s.skip(k + 1)),
    decreases s.len(),
{
    let mid = if s[k].enabled {
        spec_set_rules(s[k])
    } else {
        Seq::<Rule>::empty()
    };
    if k == s.len() - 1 {
        assert(s.take(k) =~= s.drop_last());
        assert(s.skip(k + 1) =~= Seq::<crate::config::Interface>::empty());
        assert(spec_uplink_rules(s) =~= spec_uplink_rules(s.take(k)) + mid + spec_uplink_rules(
            s.skip(k + 1),
        ));
    } else {
        let t = s.drop_last();
        lemma_uplink_rules_split(t, k);
        assert(t.take(k) =~= s.take(k));
        let lastpart = if s.last().enabled {
            spec_set_rules(s.last())
        } else {
            Seq::<Rule>::empty()
        };
        assert(s.skip(k + 1).drop_last() =~= t.skip(k + 1));
        assert(s.skip(k + 1).last() == s.last());
        assert(spec_uplink_rules(s.skip(k + 1)) == spec_uplink_rules(t.skip(k + 1)) + lastpart);
        assert(spec_uplink_rules(s) == spec_uplink_rules(t) + lastpart);
        assert(spec_uplink_rules(s) =~= spec_uplink_rules(s.take(k)) + mid + spec_uplink_rules(
            s.skip(k + 1),
        ));
    }
}

/// Disabling one uplink removes exactly its rules from the `rules` chain
/// and no others: the chain for the list with uplink `k` disabled is the
/// chain of the other uplinks alone, while the original chain carried
/// uplink `k`'s rules in between.
pub proof fn lemma_disabling_removes_exactly_its_rules(s: Seq<crate::config::Interface>, k: int)
    requires
        0 <= k < s.len(),
    ensures
        spec_uplink_rules(
            s.update(
                k,
                crate::config::Interface {
                    name: s[k].name,
                    interface_name: s[k].interface_name,
                    weight: s[k].weight,
                    mark: s[k].mark,
                    enabled: false,
                    nftables_sets: s[k].nftables_sets,
                },
            ),
        ) == spec_uplink_rules(s.take(k)) + spec_uplink_rules(s.skip(k + 1)),
        s[k].enabled ==> spec_uplink_rules(s) == spec_uplink_rules(s.take(k)) + spec_set_rules(
            s[k],
        ) + spec_uplink_rules(s.skip(k + 1)),
{
    let d = crate::config::Interface {
        name: s[k].name,
        interface_name: s[k].interface_name,
        weight: s[k].weight,
        mark: s[k].mark,
        enabled: false,
        nftables_sets: s[k].nftables_sets,
    };
    let s2 = s.update(k, d);
    lemma_uplink_rules_split(s, k);
    lemma_uplink_rules_split(s2, k);
    assert(s2.take(k) =~= s.take(k));
    assert(s2.skip(k + 1) =~= s.skip(k + 1));
    assert(spec_uplink_rules(s2.take(k)) + Seq::<Rule>::empty() + spec_uplink_rules(
        s2.skip(k + 1),
    ) =~= spec_uplink_rules(s.take(k)) + spec_uplink_rules(s.skip(k + 1)));
}

/// Whether two members carry the same name, weight and mark.
pub fn member_eq(a: &WeightedMember, b: &WeightedMember) -> (r: bool)
    ensures
        r == spec_member_matches(*a, *b),
{
    a.name == b.name && a.weight == b.weight && a.mark == b.mark
}

/// Whether two member lists match pointwise.
pub fn members_eq(a: &Vec<WeightedMember>, b: &Vec<WeightedMember>) -> (r: bool)
    ensures
        r == spec_members_match(a@, b@),
{
    if a.len() != b.len() {
        return false;
    }
    let n = a.len();
    let mut i: usize = 0;
    while i < n
        invariant
            i <= n,
            n == a@.len(),
            n == b@.len(),
            forall|k: int| 0 <= k < i ==> spec_member_matches(#[trigger] a@[k], b@[k]),
        decreases n - i,
    {
        if !member_eq(&a[i], &b[i]) {
            return false;
        }
        i = i + 1;
    }
    true
}

/// Whether two intents are the same selection (the compiler's diff test).
pub fn intent_eq(a: &ForwardingIntent, b: &ForwardingIntent) -> (r: bool)
    ensures
        r == spec_intent_matches(*a, *b),
{
    match (a, b) {
        (
            ForwardingIntent::Single { name: an, mark: am },
            ForwardingIntent::Single { name: bn, mark: bm },
        ) => *an == *bn && *am == *bm,
        (ForwardingIntent::Weighted { members: av }, ForwardingIntent::Weighted { members: bv }) => {
            members_eq(av, bv)
        },
        (ForwardingIntent::Priority { members: av }, ForwardingIntent::Priority { members: bv }) => {
            members_eq(av, bv)
        },
        _ => false,
    }
}

} // verus!
