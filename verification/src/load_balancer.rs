//! The policy engine: from the current online set and the active policy to
//! a forwarding intent, handed to the rule compiler.
//!
//! Three policy kinds are supported.  *Best-path* picks the first online
//! member of the policy's ordered uplink list (or, when race latencies are
//! supplied, the online member with the lowest latency).  *Weighted-balance*
//! spreads flows over the online members proportionally to weight.
//! *Priority-failover* marks all traffic to the first online member.  A
//! policy naming an unconfigured uplink is rejected here, at activation —
//! never at configuration load.

use vstd::prelude::*;

use crate::config::{Interface, Policy};
use crate::config::{find_interface, spec_has_interface, spec_weights_positive};
use crate::health_check::contains_name;
use crate::nftables::{
    ForwardingIntent, NftCommand, NftablesManager, Rule, WeightedMember, ChainId, Match,
};
use crate::nftables::{
    spec_add_rule_cmds, spec_cum_before, spec_members_match, spec_total_weight,
    spec_weighted_rules, lemma_cum_le_total, lemma_total_weight_take_step,
};

verus! {

/// The closed set of policy kinds.
#[derive(Clone, Copy, Debug, PartialEq, Eq, Structural)]
pub enum PolicyKind {
    BestPath,
    WeightedBalance,
    PriorityFailover,
}

/// Why an activation failed.  Activation errors leave the previously
/// applied rules and the previously active policy in place.
#[derive(Clone, Copy, Debug, PartialEq, Eq, Structural)]
pub enum PolicyError {
    /// No configured policy carries the requested name.
    PolicyNotFound,
    /// The named policy's kind is not one of the known three.
    UnknownPolicyKind,
    /// The policy names an uplink that is not configured.
    UplinkNotConfigured,
    /// No uplink of the policy's list is currently online.
    NoUplinksAvailable,
}

impl PolicyError {
    /// A short human-readable name for the error.
    pub fn describe(&self) -> &'static str {
        match self {
            PolicyError::PolicyNotFound => "policy not found",
            PolicyError::UnknownPolicyKind => "unknown policy kind",
            PolicyError::UplinkNotConfigured => "policy references an unconfigured uplink",
            PolicyError::NoUplinksAvailable => "no uplinks available",
        }
    }
}

/// The kind a policy-type string denotes, if any.
pub open spec fn spec_parse_kind(s: Seq<char>) -> Option<PolicyKind> {
    if s == "url-test"@ {
        Some(PolicyKind::BestPath)
    } else if s == "load-balance"@ {
        Some(PolicyKind::WeightedBalance)
    } else if s == "fallback"@ {
        Some(PolicyKind::PriorityFailover)
    } else {
        None
    }
}

/// Parse a policy-type string into its kind.
pub fn parse_policy_kind(s: &str) -> (r: Option<PolicyKind>)
    ensures
        r == spec_parse_kind(s@),
{
    let t: String = s.to_owned();
    if t == ("url-test").to_owned() {
        Some(PolicyKind::BestPath)
    } else if t == ("load-balance").to_owned() {
        Some(PolicyKind::WeightedBalance)
    } else if t == ("fallback").to_owned() {
        Some(PolicyKind::PriorityFailover)
    } else {
        None
    }
}

/// The first member of `list` that is online: the best-path and
/// priority-failover selection rule.
pub fn first_online_member(list: &Vec<String>, online: &Vec<String>) -> (r: Option<usize>)
    ensures
        match r {
            Some(i) => i < list@.len() && online.deep_view().contains(list@[i as int]@) && forall|
                k: int,
            | 0 <= k < i ==> !online.deep_view().contains(#[trigger] list@[k]@),
            None => forall|k: int|
                0 <= k < list@.len() ==> !online.deep_view().contains(#[trigger] list@[k]@),
        },
{
    let n = list.len();
    let mut i: usize = 0;
    while i < n
        invariant
            i <= n,
            n == list@.len(),
            forall|k: int| 0 <= k < i ==> !online.deep_view().contains(#[trigger] list@[k]@),
        decreases n - i,
    {
        if contains_name(online, &list[i]) {
            return Some(i);
        }
        i = i + 1;
    }
    None
}

/// One uplink's measured latency, as a race reports it.
pub struct LatencySample {
    pub name: String,
    pub latency: u64,
}

/// The latency recorded for `name`: the first matching sample's value, or
/// `u64::MAX` when no race measured the uplink.
pub open spec fn spec_latency_of(lats: Seq<LatencySample>, name: Seq<char>) -> u64
    decreases lats.len(),
{
    if lats.len() == 0 {
        u64::MAX
    } else if lats[0].name@ == name {
        lats[0].latency
    } else {
        spec_latency_of(lats.drop_first(), name)
    }
}

/// Look up the latency recorded for `name`.
fn latency_of(lats: &Vec<LatencySample>, name: &String) -> (r: u64)
    ensures
        r == spec_latency_of(lats@, name@),
{
    let n = lats.len();
    let mut i: usize = 0;
    proof {
        assert(lats@.skip(0) =~= lats@);
    }
    while i < n
        invariant
            i <= n,
            n == lats@.len(),
            spec_latency_of(lats@, name@) == spec_latency_of(lats@.skip(i as int), name@),
        decreases n - i,
    {
        proof {
            assert(lats@.skip(i as int)[0] == lats@[i as int]);
            assert(lats@.skip(i as int).drop_first() =~= lats@.skip(i + 1));
        }
        if lats[i].name == *name {
            return lats[i].latency;
        }
        i = i + 1;
    }
    u64::MAX
}

/// Best-path selection when race latencies are supplied: among the online
/// members of the policy's ordered list, the one with the lowest measured
/// latency wins; ties are broken by list order; an unmeasured member counts
/// as slowest.  `None` exactly when no member is online.
pub fn select_best_path_with_latency(
    list: &Vec<String>,
    online: &Vec<String>,
    lats: &Vec<LatencySample>,
) -> (r: Option<usize>)
    ensures
        match r {
            Some(i) => {
                &&& i < list@.len()
                &&& online.deep_view().contains(list@[i as int]@)
                &&& forall|k: int|
                    0 <= k < list@.len() && online.deep_view().contains(#[trigger] list@[k]@)
                        ==> spec_latency_of(lats@, list@[i as int]@) <= spec_latency_of(
                        lats@,
                        list@[k]@,
                    )
                &&& forall|k: int|
                    0 <= k < i && online.deep_view().contains(#[trigger] list@[k]@)
                        ==> spec_latency_of(lats@, list@[i as int]@) < spec_latency_of(
                        lats@,
                        list@[k]@,
                    )
            },
            None => forall|k: int|
                0 <= k < list@.len() ==> !online.deep_view().contains(#[trigger] list@[k]@),
        },
{
    let n = list.len();
    let mut have: bool = false;
    let mut best_idx: usize = 0;
    let mut best_lat: u64 = 0;
    let mut i: usize = 0;
    while i < n
        invariant
            i <= n,
            n == list@.len(),
            !have ==> forall|k: int|
                0 <= k < i ==> !online.deep_view().contains(#[trigger] list@[k]@),
            have ==> {
                &&& best_idx < i
                &&& online.deep_view().contains(list@[best_idx as int]@)
                &&& best_lat == spec_latency_of(lats@, list@[best_idx as int]@)
                &&& forall|k: int|
                    0 <= k < i && online.deep_view().contains(#[trigger] list@[k]@) ==> best_lat
                        <= spec_latency_of(lats@, list@[k]@)
                &&& forall|k: int|
                    0 <= k < best_idx && online.deep_view().contains(#[trigger] list@[k]@)
                        ==> best_lat < spec_latency_of(lats@, list@[k]@)
            },
        decreases n - i,
    {
        if contains_name(online, &list[i]) {
            let l = latency_of(lats, &list[i]);
            if !have || l < best_lat {
                have = true;
                best_idx = i;
                best_lat = l;
            }
        }
        i = i + 1;
    }
    if have {
        Some(best_idx)
    } else {
        None
    }
}

/// Pick the member owning the draw `draw`: the one whose cumulative-weight
/// slot `[cum_before, cum_before + weight)` contains it.  Each member owns
/// exactly `weight` of the `total_weight` possible draws, which makes the
/// assignment proportional to weight.
pub fn pick_weighted(members: &Vec<WeightedMember>, draw: u64) -> (idx: usize)
    requires
        spec_total_weight(members@) <= u64::MAX,
        draw < spec_total_weight(members@),
    ensures
        idx < members@.len(),
        spec_cum_before(members@, idx as int) <= draw < spec_cum_before(members@, idx as int)
            + members@[idx as int].weight,
{
    let n = members.len();
    let mut acc: u64 = 0;
    let mut i: usize = 0;
    proof {
        assert(members@.take(n as int) =~= members@);
    }
    while i < n
        invariant
            i <= n,
            n == members@.len(),
            spec_total_weight(members@) <= u64::MAX,
            draw < spec_total_weight(members@),
            spec_total_weight(members@.take(n as int)) == spec_total_weight(members@),
            acc == spec_cum_before(members@, i as int),
            acc <= draw,
        decreases n - i,
    {
        proof {
            lemma_total_weight_take_step(members@, i as int);
            lemma_cum_le_total(members@, i + 1);
        }
        let w = members[i].weight as u64;
        if draw < acc + w {
            return i;
        }
        acc = acc + w;
        i = i + 1;
    }
    proof {
        assert(false);
    }
    0
}

/// Cumulative weights are monotone along the list.
pub proof fn lemma_cum_monotone(s: Seq<WeightedMember>, i: int, j: int)
    requires
        0 <= i <= j <= s.len(),
    ensures
        spec_cum_before(s, i) <= spec_cum_before(s, j),
    decreases j - i,
{
    if i < j {
        lemma_total_weight_take_step(s, i);
        lemma_cum_monotone(s, i + 1, j);
    }
}

/// The weighted slots are disjoint: a draw selects exactly one member.
pub proof fn lemma_pick_unique(s: Seq<WeightedMember>, draw: int, i: int, j: int)
    requires
        0 <= i < s.len(),
        0 <= j < s.len(),
        spec_cum_before(s, i) <= draw < spec_cum_before(s, i) + s[i].weight,
        spec_cum_before(s, j) <= draw < spec_cum_before(s, j) + s[j].weight,
    ensures
        i == j,
{
    if i < j {
        lemma_total_weight_take_step(s, i);
        lemma_cum_monotone(s, i + 1, j);
        assert(false);
    }
    if j < i {
        lemma_total_weight_take_step(s, j);
        lemma_cum_monotone(s, j + 1, i);
        assert(false);
    }
}

/// Proportionality of weighted balance: of the `total_weight` possible
/// draws, exactly `weight` select member `i` — the distribution over a
/// uniform draw is proportional to the weights.
pub proof fn lemma_weighted_share(s: Seq<WeightedMember>, i: int)
    requires
        0 <= i < s.len(),
    ensures
        Set::new(
            |draw: int|
                0 <= draw < spec_total_weight(s) && spec_cum_before(s, i) <= draw < spec_cum_before(
                    s,
                    i,
                ) + s[i].weight,
        ).len() == s[i].weight,
{
    let lo = spec_cum_before(s, i);
    let hi = spec_cum_before(s, i) + s[i].weight;
    lemma_cum_le_total(s, i);
    lemma_total_weight_take_step(s, i);
    lemma_cum_le_total(s, i + 1);
    assert(Set::new(
        |draw: int| 0 <= draw < spec_total_weight(s) && lo <= draw < hi,
    ) =~= vstd::set_lib::set_int_range(lo, hi));
    vstd::set_lib::lemma_int_range(lo, hi);
}

/// Index of the first uplink named `name`, `-1` if there is none.
pub open spec fn spec_iface_idx(interfaces: Seq<Interface>, name: Seq<char>) -> int
    decreases interfaces.len(),
{
    if interfaces.len() == 0 {
        -1
    } else if interfaces[0].name@ == name {
        0
    } else {
        let r = spec_iface_idx(interfaces.drop_first(), name);
        if r < 0 {
            -1
        } else {
            1 + r
        }
    }
}

/// `spec_iface_idx` finds the first match, and finds one exactly when one
/// exists.
pub proof fn lemma_iface_idx(interfaces: Seq<Interface>, name: Seq<char>)
    ensures
        spec_has_interface(interfaces, name) <==> spec_iface_idx(interfaces, name) >= 0,
        spec_iface_idx(interfaces, name) >= 0 ==> spec_iface_idx(interfaces, name)
            < interfaces.len() && interfaces[spec_iface_idx(interfaces, name)].name@ == name
            && forall|k: int|
            0 <= k < spec_iface_idx(interfaces, name) ==> (#[trigger] interfaces[k]).name@ != name,
    decreases interfaces.len(),
{
    if interfaces.len() > 0 && interfaces[0].name@ != name {
        let rest = interfaces.drop_first();
        lemma_iface_idx(rest, name);
        assert(spec_has_interface(interfaces, name) <==> spec_has_interface(rest, name)) by {
            if spec_has_interface(interfaces, name) {
                let w = choose|i: int|
                    0 <= i < interfaces.len() && interfaces[i].name@ == name;
                assert(rest[w - 1].name@ == name);
            }
            if spec_has_interface(rest, name) {
                let w = choose|i: int| 0 <= i < rest.len() && rest[i].name@ == name;
                assert(interfaces[w + 1].name@ == name);
            }
        }
        if spec_iface_idx(rest, name) >= 0 {
            let r = spec_iface_idx(rest, name);
            assert forall|k: int| 0 <= k < r + 1 implies (#[trigger] interfaces[k]).name@
                != name by {
                if k > 0 {
                    assert(rest[k - 1].name@ != name);
                }
            }
        }
    }
}

/// All names in `list` are configured uplinks.
pub open spec fn spec_all_configured(list: Seq<String>, interfaces: Seq<Interface>) -> bool {
    forall|j: int| 0 <= j < list.len() ==> spec_has_interface(interfaces, (#[trigger] list[j])@)
}

/// The members that a policy list yields against the current online set, in
/// list order: every listed name that is online and configured, carrying its
/// uplink's weight and mark.
pub open spec fn spec_online_members(
    list: Seq<String>,
    interfaces: Seq<Interface>,
    online: Seq<Seq<char>>,
) -> Seq<WeightedMember>
    decreases list.len(),
{
    if list.len() == 0 {
        Seq::empty()
    } else {
        let rest = spec_online_members(list.drop_last(), interfaces, online);
        let nm = list.last();
        let k = spec_iface_idx(interfaces, nm@);
        if online.contains(nm@) && k >= 0 {
            rest.push(
                WeightedMember {
                    name: interfaces[k].name,
                    weight: interfaces[k].weight,
                    mark: interfaces[k].mark,
                },
            )
        } else {
            rest
        }
    }
}

/// There are never more members than listed names.
pub proof fn lemma_members_len(list: Seq<String>, interfaces: Seq<Interface>, online: Seq<Seq<char>>)
    ensures
        spec_online_members(list, interfaces, online).len() <= list.len(),
    decreases list.len(),
{
    if list.len() > 0 {
        lemma_members_len(list.drop_last(), interfaces, online);
    }
}

/// Members carry configured uplinks' weights, which the data model keeps
/// positive.
pub proof fn lemma_members_weights_positive(
    list: Seq<String>,
    interfaces: Seq<Interface>,
    online: Seq<Seq<char>>,
)
    requires
        spec_weights_positive(interfaces),
    ensures
        forall|i: int|
            0 <= i < spec_online_members(list, interfaces, online).len() ==> (
            #[trigger] spec_online_members(list, interfaces, online)[i]).weight >= 1,
    decreases list.len(),
{
    if list.len() > 0 {
        lemma_members_weights_positive(list.drop_last(), interfaces, online);
        lemma_iface_idx(interfaces, list.last()@);
        let members = spec_online_members(list, interfaces, online);
        let rest = spec_online_members(list.drop_last(), interfaces, online);
        assert forall|i: int| 0 <= i < members.len() implies (#[trigger] members[i]).weight
            >= 1 by {
            if i < rest.len() {
                assert(members[i] == rest[i]);
            }
        }
    }
}

/// With every listed name configured, an empty member list means no listed
/// name is online: exactly the situation in which activation fails with
/// `NoUplinksAvailable`.
pub proof fn lemma_no_members_means_none_online(
    list: Seq<String>,
    interfaces: Seq<Interface>,
    online: Seq<Seq<char>>,
)
    requires
        spec_all_configured(list, interfaces),
        spec_online_members(list, interfaces, online).len() == 0,
    ensures
        forall|i: int| 0 <= i < list.len() ==> !online.contains((#[trigger] list[i])@),
    decreases list.len(),
{
    if list.len() > 0 {
        let prefix = list.drop_last();
        assert(spec_all_configured(prefix, interfaces)) by {
            assert(forall|j: int|
                0 <= j < prefix.len() ==> spec_has_interface(
                    interfaces,
                    (#[trigger] prefix[j])@,
                ));
        }
        lemma_no_members_means_none_online(prefix, interfaces, online);
        lemma_iface_idx(interfaces, list.last()@);
        assert forall|i: int| 0 <= i < list.len() implies !online.contains(
            (#[trigger] list[i])@,
        ) by {
            if i < list.len() - 1 {
                assert(!online.contains(prefix[i]@));
            }
        }
    }
}

/// The head member stands for the *first* online name of the list: the
/// best-path / priority-failover selection rule.
pub proof fn lemma_first_member_is_first_online(
    list: Seq<String>,
    interfaces: Seq<Interface>,
    online: Seq<Seq<char>>,
)
    requires
        spec_all_configured(list, interfaces),
        spec_online_members(list, interfaces, online).len() > 0,
    ensures
        exists|i: int|
            0 <= i < list.len() && online.contains((#[trigger] list[i])@) && (forall|k: int|
                0 <= k < i ==> !online.contains((#[trigger] list[k])@)) && spec_online_members(
                list,
                interfaces,
                online,
            )[0].name@ == list[i]@,
    decreases list.len(),
{
    let members = spec_online_members(list, interfaces, online);
    let prefix = list.drop_last();
    assert(spec_all_configured(prefix, interfaces)) by {
        assert(forall|j: int|
            0 <= j < prefix.len() ==> spec_has_interface(interfaces, (#[trigger] prefix[j])@));
    }
    if spec_online_members(prefix, interfaces, online).len() > 0 {
        lemma_first_member_is_first_online(prefix, interfaces, online);
        let i = choose|i: int|
            0 <= i < prefix.len() && online.contains((#[trigger] prefix[i])@) && (forall|k: int|
                0 <= k < i ==> !online.contains((#[trigger] prefix[k])@)) && spec_online_members(
                prefix,
                interfaces,
                online,
            )[0].name@ == prefix[i]@;
        assert(list[i]@ == prefix[i]@);
        assert forall|k: int| 0 <= k < i implies !online.contains((#[trigger] list[k])@) by {
            assert(list[k] == prefix[k]);
        }
        assert(members[0] == spec_online_members(prefix, interfaces, online)[0]);
    } else {
        // the sole member comes from the last name; nothing earlier is online
        lemma_no_members_means_none_online(prefix, interfaces, online);
        let i = list.len() - 1;
        lemma_iface_idx(interfaces, list.last()@);
        assert(online.contains(list[i]@));
        assert(members[0].name@ == list[i]@);
        assert forall|k: int| 0 <= k < i implies !online.contains((#[trigger] list[k])@) by {
            assert(list[k] == prefix[k]);
            assert(!online.contains(prefix[k]@));
        }
    }
}

/// Collect the online, configured members of a policy list, in order.
fn build_members(list: &Vec<String>, interfaces: &Vec<Interface>, online: &Vec<String>) -> (r:
    Vec<WeightedMember>)
    ensures
        r@ == spec_online_members(list@, interfaces@, online.deep_view()),
        r@.len() <= list@.len(),
{
    let n = list.len();
    let mut out: Vec<WeightedMember> = Vec::new();
    proof {
        assert(out@ =~= spec_online_members(list@.take(0), interfaces@, online.deep_view()));
    }
    let mut i: usize = 0;
    while i < n
        invariant
            i <= n,
            n == list@.len(),
            out@ == spec_online_members(list@.take(i as int), interfaces@, online.deep_view()),
            out@.len() <= i,
        decreases n - i,
    {
        proof {
            assert(list@.take(i + 1).drop_last() =~= list@.take(i as int));
            assert(list@.take(i + 1).last() == list@[i as int]);
            lemma_iface_idx(interfaces@, list@[i as int]@);
        }
        if contains_name(online, &list[i]) {
            match find_interface(interfaces, &list[i]) {
                Some(k) => {
                    proof {
                        let si = spec_iface_idx(interfaces@, list@[i as int]@);
                        assert(si == k as int) by {
                            if si < k as int {
                                assert(interfaces@[si].name@ != list@[i as int]@);
                            }
                            if (k as int) < si {
                                assert(interfaces@[k as int].name@ != list@[i as int]@);
                            }
                        }
                    }
                    out.push(
                        WeightedMember {
                            name: interfaces[k].name.clone(),
                            weight: interfaces[k].weight,
                            mark: interfaces[k].mark,
                        },
                    );
                    proof {
                        assert(out@ =~= spec_online_members(
                            list@.take(i + 1),
                            interfaces@,
                            online.deep_view(),
                        ));
                    }
                },
                None => {
                    proof {
                        assert(out@ =~= spec_online_members(
                            list@.take(i + 1),
                            interfaces@,
                            online.deep_view(),
                        ));
                    }
                },
            }
        } else {
            proof {
                assert(out@ =~= spec_online_members(
                    list@.take(i + 1),
                    interfaces@,
                    online.deep_view(),
                ));
            }
        }
        i = i + 1;
    }
    proof {
        assert(list@.take(n as int) =~= list@);
    }
    out
}

/// Whether every name of `list` is a configured uplink.
fn all_configured(list: &Vec<String>, interfaces: &Vec<Interface>) -> (r: bool)
    ensures
        r == spec_all_configured(list@, interfaces@),
{
    let n = list.len();
    let mut i: usize = 0;
    while i < n
        invariant
            i <= n,
            n == list@.len(),
            forall|k: int|
                0 <= k < i ==> spec_has_interface(interfaces@, (#[trigger] list@[k])@),
        decreases n - i,
    {
        match find_interface(interfaces, &list[i]) {
            Some(_) => {
                proof {
                    assert(spec_has_interface(interfaces@, list@[i as int]@));
                }
            },
            None => {
                return false;
            },
        }
        i = i + 1;
    }
    true
}

/// Compute the forwarding intent of one policy evaluation.
///
/// Fails with `UplinkNotConfigured` exactly when the list names an uplink
/// that is not configured, and with `NoUplinksAvailable` exactly when the
/// list is fully configured but none of its members is online.  Otherwise
/// the intent follows the policy kind over the online members.
pub fn compute_intent(
    kind: PolicyKind,
    list: &Vec<String>,
    interfaces: &Vec<Interface>,
    online: &Vec<String>,
) -> (r: Result<ForwardingIntent, PolicyError>)
    ensures
        r == Result::<ForwardingIntent, PolicyError>::Err(PolicyError::UplinkNotConfigured)
            <==> !spec_all_configured(list@, interfaces@),
        r == Result::<ForwardingIntent, PolicyError>::Err(PolicyError::NoUplinksAvailable) <==> (
        spec_all_configured(list@, interfaces@) && spec_online_members(
            list@,
            interfaces@,
            online.deep_view(),
        ).len() == 0),
        r is Ok <==> (spec_all_configured(list@, interfaces@) && spec_online_members(
            list@,
            interfaces@,
            online.deep_view(),
        ).len() > 0),
        r is Ok ==> ({
            let members = spec_online_members(list@, interfaces@, online.deep_view());
            match kind {
                PolicyKind::BestPath => r == Result::<ForwardingIntent, PolicyError>::Ok(
                    ForwardingIntent::Single { name: members[0].name, mark: members[0].mark },
                ),
                PolicyKind::WeightedBalance => r matches Ok(ForwardingIntent::Weighted {
                    members: mv,
                }) && mv@ == members,
                PolicyKind::PriorityFailover => r matches Ok(ForwardingIntent::Priority {
                    members: mv,
                }) && mv@ == members,
            }
        }),
{
    if !all_configured(list, interfaces) {
        return Err(PolicyError::UplinkNotConfigured);
    }
    let members = build_members(list, interfaces, online);
    if members.len() == 0 {
        return Err(PolicyError::NoUplinksAvailable);
    }
    match kind {
        PolicyKind::BestPath => {
            let name = members[0].name.clone();
            let mark = members[0].mark;
            Ok(ForwardingIntent::Single { name, mark })
        },
        PolicyKind::WeightedBalance => Ok(ForwardingIntent::Weighted { members }),
        PolicyKind::PriorityFailover => Ok(ForwardingIntent::Priority { members }),
    }
}

/// Whether some policy in `ps` carries the type name `name`.
pub open spec fn spec_has_policy(ps: Seq<Policy>, name: Seq<char>) -> bool {
    exists|i: int| 0 <= i < ps.len() && ps[i].policy_type@ == name
}

/// `p` is the first policy of `ps` with type name `name`.
pub open spec fn spec_is_first_policy(ps: Seq<Policy>, name: Seq<char>, p: int) -> bool {
    &&& 0 <= p < ps.len()
    &&& ps[p].policy_type@ == name
    &&& forall|k: int| 0 <= k < p ==> (#[trigger] ps[k]).policy_type@ != name
}

/// Index of the first policy with type name `name`, if any.
fn find_policy(policies: &Vec<Policy>, name: &str) -> (r: Option<usize>)
    ensures
        match r {
            Some(p) => spec_is_first_policy(policies@, name@, p as int),
            None => !spec_has_policy(policies@, name@),
        },
{
    let key: String = name.to_owned();
    let n = policies.len();
    let mut i: usize = 0;
    while i < n
        invariant
            i <= n,
            n == policies@.len(),
            key@ == name@,
            forall|k: int| 0 <= k < i ==> (#[trigger] policies@[k]).policy_type@ != name@,
        decreases n - i,
    {
        if policies[i].policy_type == key {
            return Some(i);
        }
        i = i + 1;
    }
    None
}

/// The policy chain a kind yields over its online members.
pub open spec fn spec_rules_for(kind: PolicyKind, members: Seq<WeightedMember>) -> Seq<Rule> {
    match kind {
        PolicyKind::BestPath => seq![
            Rule { matcher: Match::All, mark: members[0].mark },
        ],
        PolicyKind::WeightedBalance => spec_weighted_rules(members),
        PolicyKind::PriorityFailover => seq![
            Rule { matcher: Match::All, mark: members[0].mark },
        ],
    }
}

/// Whether the stored intent `j` is the same selection as `kind` over
/// `members` would produce.
pub open spec fn spec_intent_matches_parts(
    j: ForwardingIntent,
    kind: PolicyKind,
    members: Seq<WeightedMember>,
) -> bool {
    match kind {
        PolicyKind::BestPath => j matches ForwardingIntent::Single { name, mark } && name@
            == members[0].name@ && mark == members[0].mark,
        PolicyKind::WeightedBalance => j matches ForwardingIntent::Weighted { members: mv }
            && spec_members_match(mv@, members),
        PolicyKind::PriorityFailover => j matches ForwardingIntent::Priority { members: mv }
            && spec_members_match(mv@, members),
    }
}

/// What one policy evaluation does: the full case analysis of `activate`.
///
/// Errors leave the engine untouched; success leaves the policy chain
/// holding exactly the kind's rules over the online members, records the
/// policy as active, and emits either nothing (the intent was already
/// applied) or a flush of the policy chain followed by its new rules.
pub open spec fn spec_policy_applied(
    old_lb: LoadBalancer,
    new_lb: LoadBalancer,
    r: Result<Vec<NftCommand>, PolicyError>,
    name: Seq<char>,
    policies: Seq<Policy>,
    interfaces: Seq<Interface>,
    online: Seq<Seq<char>>,
) -> bool {
    &&& (r == Result::<Vec<NftCommand>, PolicyError>::Err(PolicyError::PolicyNotFound)
        <==> !spec_has_policy(policies, name))
    &&& (r is Err ==> new_lb == old_lb)
    &&& forall|p: int|
        spec_is_first_policy(policies, name, p) ==> {
            let list = (#[trigger] policies[p]).interfaces;
            let kind = spec_parse_kind(policies[p].policy_type@);
            let members = spec_online_members(list@, interfaces, online);
            &&& (r == Result::<Vec<NftCommand>, PolicyError>::Err(PolicyError::UnknownPolicyKind)
                <==> kind is None)
            &&& (kind matches Some(k) ==> {
                &&& (r == Result::<Vec<NftCommand>, PolicyError>::Err(
                    PolicyError::UplinkNotConfigured,
                ) <==> !spec_all_configured(list@, interfaces))
                &&& (r == Result::<Vec<NftCommand>, PolicyError>::Err(
                    PolicyError::NoUplinksAvailable,
                ) <==> (spec_all_configured(list@, interfaces) && members.len() == 0))
                &&& (r is Ok ==> {
                    &&& spec_all_configured(list@, interfaces)
                    &&& members.len() > 0
                    &&& new_lb.nftables.policy_chain@ == spec_rules_for(k, members)
                    &&& new_lb.current_policy matches Some(cp) && cp@ == name
                    &&& new_lb.nftables.rules_chain == old_lb.nftables.rules_chain
                    &&& new_lb.nftables.track_chain == old_lb.nftables.track_chain
                    &&& new_lb.nftables.initialized == old_lb.nftables.initialized
                    &&& (r matches Ok(cmds) && ((match old_lb.nftables.last_intent {
                        Some(j) => spec_intent_matches_parts(j, k, members),
                        None => false,
                    })
                        ==> cmds@ == Seq::<NftCommand>::empty()) && (!(
                    match old_lb.nftables.last_intent {
                        Some(j) => spec_intent_matches_parts(j, k, members),
                        None => false,
                    }) ==> cmds@ == seq![NftCommand::FlushChain { chain: ChainId::Policy }]
                        + spec_add_rule_cmds(ChainId::Policy, spec_rules_for(k, members))))
                })
            })
        }
}

/// The policy engine: the rule compiler it drives and the currently active
/// policy name.
pub struct LoadBalancer {
    pub nftables: NftablesManager,
    pub current_policy: Option<String>,
}

impl LoadBalancer {
    /// The engine is coherent when its compiler model is.
    pub open spec fn wf(&self) -> bool {
        self.nftables.wf()
    }

    /// A fresh engine: no policy active, a fresh compiler model.
    pub fn new() -> (r: LoadBalancer)
        ensures
            r.wf(),
            r.current_policy is None,
            r.nftables.last_intent is None,
            !r.nftables.initialized,
            r.nftables.policy_chain@.len() == 0,
            r.nftables.rules_chain@.len() == 0,
            r.nftables.track_chain@.len() == 0,
    {
        LoadBalancer { nftables: NftablesManager::new(), current_policy: None }
    }

    /// Activate the named policy against the current online set: look the
    /// policy up, compute its forwarding intent, hand it to the rule
    /// compiler, and record the policy as active.  Any failure leaves the
    /// engine — rules and active policy — exactly as it was.
    pub fn apply_policy(
        &mut self,
        policy_name: &str,
        policies: &Vec<Policy>,
        interfaces: &Vec<Interface>,
        online: &Vec<String>,
    ) -> (r: Result<Vec<NftCommand>, PolicyError>)
        requires
            old(self).wf(),
            spec_weights_positive(interfaces@),
            forall|p: int|
                0 <= p < policies@.len() ==> (#[trigger] policies@[p]).interfaces@.len()
                    <= 0xFFFF_FFFF,
        ensures
            final(self).wf(),
            spec_policy_applied(
                *old(self),
                *final(self),
                r,
                policy_name@,
                policies@,
                interfaces@,
                online.deep_view(),
            ),
    {
        let p = match find_policy(policies, policy_name) {
            Some(p) => p,
            None => {
                return Err(PolicyError::PolicyNotFound);
            },
        };
        let kind = match parse_policy_kind(policies[p].policy_type.as_str()) {
            Some(k) => k,
            None => {
                proof {
                    lemma_first_policy_unique(policies@, policy_name@, p as int);
                }
                return Err(PolicyError::UnknownPolicyKind);
            },
        };
        let intent = match compute_intent(kind, &policies[p].interfaces, interfaces, online) {
            Ok(i) => i,
            Err(e) => {
                proof {
                    lemma_first_policy_unique(policies@, policy_name@, p as int);
                }
                return Err(e);
            },
        };
        proof {
            lemma_members_len(policies@[p as int].interfaces@, interfaces@, online.deep_view());
            lemma_members_weights_positive(
                policies@[p as int].interfaces@,
                interfaces@,
                online.deep_view(),
            );
        }
        let cmds = self.nftables.apply(intent);
        self.current_policy = Some(policy_name.to_owned());
        proof {
            lemma_first_policy_unique(policies@, policy_name@, p as int);
        }
        Ok(cmds)
    }

    /// React to an uplink device coming up or going down: re-run the
    /// currently active policy, if any, against the latest online set.
    /// Re-evaluation is idempotent — an unchanged selection emits nothing.
    pub fn handle_interface_change(
        &mut self,
        interface: &str,
        is_online: bool,
        policies: &Vec<Policy>,
        interfaces: &Vec<Interface>,
        online: &Vec<String>,
    ) -> (r: Result<Vec<NftCommand>, PolicyError>)
        requires
            old(self).wf(),
            spec_weights_positive(interfaces@),
            forall|p: int|
                0 <= p < policies@.len() ==> (#[trigger] policies@[p]).interfaces@.len()
                    <= 0xFFFF_FFFF,
        ensures
            final(self).wf(),
            old(self).current_policy is None ==> *final(self) == *old(self) && (r matches Ok(cmds)
                && cmds@ == Seq::<NftCommand>::empty()),
            old(self).current_policy matches Some(cp) ==> spec_policy_applied(
                *old(self),
                *final(self),
                r,
                cp@,
                policies@,
                interfaces@,
                online.deep_view(),
            ),
    {
        let name = match &self.current_policy {
            Some(cp) => cp.clone(),
            None => {
                return Ok(Vec::new());
            },
        };
        self.apply_policy(name.as_str(), policies, interfaces, online)
    }

    /// React to a health change: same re-evaluation as an uplink event.
    pub fn on_health_changed(
        &mut self,
        policies: &Vec<Policy>,
        interfaces: &Vec<Interface>,
        online: &Vec<String>,
    ) -> (r: Result<Vec<NftCommand>, PolicyError>)
        requires
            old(self).wf(),
            spec_weights_positive(interfaces@),
            forall|p: int|
                0 <= p < policies@.len() ==> (#[trigger] policies@[p]).interfaces@.len()
                    <= 0xFFFF_FFFF,
        ensures
            final(self).wf(),
            old(self).current_policy is None ==> *final(self) == *old(self) && (r matches Ok(cmds)
                && cmds@ == Seq::<NftCommand>::empty()),
            old(self).current_policy matches Some(cp) ==> spec_policy_applied(
                *old(self),
                *final(self),
                r,
                cp@,
                policies@,
                interfaces@,
                online.deep_view(),
            ),
    {
        let name = match &self.current_policy {
            Some(cp) => cp.clone(),
            None => {
                return Ok(Vec::new());
            },
        };
        self.apply_policy(name.as_str(), policies, interfaces, online)
    }
}

/// At most one index is the first match for a policy name.
proof fn lemma_first_policy_unique(ps: Seq<Policy>, name: Seq<char>, p: int)
    requires
        spec_is_first_policy(ps, name, p),
    ensures
        forall|q: int| spec_is_first_policy(ps, name, q) ==> q == p,
{
    assert forall|q: int| spec_is_first_policy(ps, name, q) implies q == p by {
        if q < p {
            assert(ps[q].policy_type@ != name);
        }
        if p < q {
            assert(ps[p].policy_type@ != name);
        }
    }
}

} // verus!
