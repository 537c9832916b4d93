//! Per-uplink health state with hysteresis.
//!
//! Each configured uplink carries an [`InterfaceHealth`] record.  A probe
//! outcome feeds the record through a two-state machine (offline/online):
//! the declared state flips only after a configured number of *consecutive*
//! confirming observations, which suppresses flapping.

use vstd::prelude::*;

use vstd::string::StrSliceExecFns;

verus! {

/// Health record for one uplink.
///
/// `latency` is the last latency observed on a successful probe, in
/// milliseconds; it is kept (stale but visible) across failures.
/// `last_check` is the timestamp of the most recent probe, supplied by the
/// caller in milliseconds.
#[derive(Clone, Copy, Debug)]
pub struct InterfaceHealth {
    pub is_online: bool,
    pub latency: Option<u64>,
    pub last_check: u64,
    pub failure_count: u32,
    pub recovery_count: u32,
}

/// The hysteresis transition: the record after one probe outcome.
///
/// A failed probe increments the consecutive-failure count and clears the
/// consecutive-success count; the uplink goes offline only once the failure
/// count reaches `fail_threshold`.  A successful probe does the symmetric
/// thing against `succ_threshold` and records the measured latency.
pub open spec fn spec_step(
    h: InterfaceHealth,
    outcome: Option<u64>,
    now: u64,
    fail_threshold: u32,
    succ_threshold: u32,
) -> InterfaceHealth {
    match outcome {
        Some(lat) => {
            let succ = if h.recovery_count == u32::MAX {
                u32::MAX
            } else {
                (h.recovery_count + 1) as u32
            };
            InterfaceHealth {
                is_online: h.is_online || succ >= succ_threshold,
                latency: Some(lat),
                last_check: now,
                failure_count: 0,
                recovery_count: succ,
            }
        },
        None => {
            let fails = if h.failure_count == u32::MAX {
                u32::MAX
            } else {
                (h.failure_count + 1) as u32
            };
            InterfaceHealth {
                is_online: h.is_online && fails < fail_threshold,
                latency: h.latency,
                last_check: now,
                failure_count: fails,
                recovery_count: 0,
            }
        },
    }
}

/// The record every uplink starts from: offline, no latency data, zero
/// counters.
pub open spec fn spec_fresh() -> InterfaceHealth {
    InterfaceHealth {
        is_online: false,
        latency: None,
        last_check: 0,
        failure_count: 0,
        recovery_count: 0,
    }
}

/// The record after a whole sequence of probe outcomes, applied in order.
pub open spec fn spec_run(
    h: InterfaceHealth,
    outcomes: Seq<Option<u64>>,
    now: u64,
    fail_threshold: u32,
    succ_threshold: u32,
) -> InterfaceHealth
    decreases outcomes.len(),
{
    if outcomes.len() == 0 {
        h
    } else {
        spec_run(
            spec_step(h, outcomes[0], now, fail_threshold, succ_threshold),
            outcomes.drop_first(),
            now,
            fail_threshold,
            succ_threshold,
        )
    }
}

impl InterfaceHealth {
    /// A fresh record: offline, no latency data, zero counters.
    pub fn new() -> (r: InterfaceHealth)
        ensures
            r == spec_fresh(),
    {
        InterfaceHealth {
            is_online: false,
            latency: None,
            last_check: 0,
            failure_count: 0,
            recovery_count: 0,
        }
    }

    /// Feed one probe outcome into the record.  `outcome` is the measured
    /// latency of a successful probe, or `None` for any kind of failure
    /// (timeout, refused connection, non-success status, vanished device).
    pub fn record_probe(
        &mut self,
        outcome: Option<u64>,
        now: u64,
        fail_threshold: u32,
        succ_threshold: u32,
    )
        ensures
            *final(self) == spec_step(*old(self), outcome, now, fail_threshold, succ_threshold),
    {
        match outcome {
            Some(lat) => {
                let succ: u32 = if self.recovery_count == u32::MAX {
                    u32::MAX
                } else {
                    self.recovery_count + 1
                };
                if succ >= succ_threshold {
                    self.is_online = true;
                }
                self.latency = Some(lat);
                self.last_check = now;
                self.failure_count = 0;
                self.recovery_count = succ;
            },
            None => {
                let fails: u32 = if self.failure_count == u32::MAX {
                    u32::MAX
                } else {
                    self.failure_count + 1
                };
                if fails >= fail_threshold {
                    self.is_online = false;
                }
                self.latency = self.latency;
                self.last_check = now;
                self.failure_count = fails;
                self.recovery_count = 0;
            },
        }
    }
}

/// Classify one probe's raw outcome.  A probe succeeded when the transport
/// succeeded and the reported status code starts with `2` (an HTTP 2xx);
/// only then is the measured latency recorded.
pub fn probe_outcome(transport_ok: bool, status_code: &str, elapsed_ms: u64) -> (r: Option<u64>)
    ensures
        r == (if transport_ok && status_code@.len() > 0 && status_code@[0] == '2' {
            Some(elapsed_ms)
        } else {
            None::<u64>
        }),
{
    if !transport_ok {
        return None;
    }
    if status_code.unicode_len() == 0 {
        return None;
    }
    if status_code.get_char(0) == '2' {
        Some(elapsed_ms)
    } else {
        None
    }
}

/// One uplink's health record, keyed by the uplink's logical name.
pub struct HealthEntry {
    pub name: String,
    pub health: InterfaceHealth,
}

/// All health records, one per probed uplink.  Records are created on the
/// first probe of an uplink and updated in place afterwards; the keying
/// names are unique.
pub struct HealthChecker {
    pub records: Vec<HealthEntry>,
}

/// Whether some record in `s` is keyed by `name`.
pub open spec fn spec_has_record(s: Seq<HealthEntry>, name: Seq<char>) -> bool {
    exists|i: int| 0 <= i < s.len() && s[i].name@ == name
}

/// The names of the online records of `s`, in record order.
pub open spec fn spec_online_names(s: Seq<HealthEntry>) -> Seq<Seq<char>>
    decreases s.len(),
{
    if s.len() == 0 {
        Seq::empty()
    } else {
        let rest = spec_online_names(s.drop_last());
        if s.last().health.is_online {
            rest.push(s.last().name@)
        } else {
            rest
        }
    }
}

/// The records of `s` whose names occur in `names`, in record order.
pub open spec fn spec_retained(s: Seq<HealthEntry>, names: Seq<Seq<char>>) -> Seq<HealthEntry>
    decreases s.len(),
{
    if s.len() == 0 {
        Seq::empty()
    } else {
        let rest = spec_retained(s.drop_last(), names);
        if names.contains(s.last().name@) {
            rest.push(s.last())
        } else {
            rest
        }
    }
}

/// Every retained record is one of the original records.
proof fn lemma_retained_element_of(s: Seq<HealthEntry>, names: Seq<Seq<char>>, i: int)
    requires
        0 <= i < spec_retained(s, names).len(),
    ensures
        exists|k: int| 0 <= k < s.len() && s[k] == spec_retained(s, names)[i],
    decreases s.len(),
{
    if s.len() > 0 {
        let prefix = s.drop_last();
        if i < spec_retained(prefix, names).len() {
            lemma_retained_element_of(prefix, names, i);
            let k = choose|k: int|
                0 <= k < prefix.len() && prefix[k] == spec_retained(prefix, names)[i];
            assert(s[k] == spec_retained(s, names)[i]);
        } else {
            assert(s[s.len() - 1] == spec_retained(s, names)[i]);
        }
    }
}

/// Retaining keeps names pairwise distinct.
proof fn lemma_retained_distinct(s: Seq<HealthEntry>, names: Seq<Seq<char>>)
    requires
        forall|i: int, j: int|
            0 <= i < s.len() && 0 <= j < s.len() && i != j ==> #[trigger] s[i].name@
                != #[trigger] s[j].name@,
    ensures
        forall|i: int, j: int|
            0 <= i < spec_retained(s, names).len() && 0 <= j < spec_retained(s, names).len() && i
                != j ==> #[trigger] spec_retained(s, names)[i].name@
                != #[trigger] spec_retained(s, names)[j].name@,
    decreases s.len(),
{
    if s.len() > 0 {
        let prefix = s.drop_last();
        let r = spec_retained(s, names);
        let rp = spec_retained(prefix, names);
        lemma_retained_distinct(prefix, names);
        assert forall|i: int, j: int|
            0 <= i < r.len() && 0 <= j < r.len() && i != j implies #[trigger] r[i].name@
            != #[trigger] r[j].name@ by {
            if i < rp.len() && j < rp.len() {
                assert(r[i] == rp[i] && r[j] == rp[j]);
            } else if i < rp.len() {
                // r[j] is s.last(); r[i] occurs in the prefix
                lemma_retained_element_of(prefix, names, i);
                let k = choose|k: int| 0 <= k < prefix.len() && prefix[k] == rp[i];
                assert(s[k].name@ != s[s.len() - 1].name@);
            } else if j < rp.len() {
                lemma_retained_element_of(prefix, names, j);
                let k = choose|k: int| 0 <= k < prefix.len() && prefix[k] == rp[j];
                assert(s[k].name@ != s[s.len() - 1].name@);
            }
        }
    }
}

impl HealthChecker {
    /// Names key the records: no two records share one.
    pub open spec fn wf(&self) -> bool {
        forall|i: int, j: int|
            0 <= i < self.records@.len() && 0 <= j < self.records@.len() && i != j
                ==> #[trigger] self.records@[i].name@ != #[trigger] self.records@[j].name@
    }

    /// An empty registry: no uplink has been probed yet.
    pub fn new() -> (r: HealthChecker)
        ensures
            r.wf(),
            r.records@.len() == 0,
    {
        HealthChecker { records: Vec::new() }
    }

    /// Index of the record keyed by `name`, if any.
    fn find_record(&self, name: &str) -> (r: Option<usize>)
        ensures
            match r {
                Some(i) => i < self.records@.len() && self.records@[i as int].name@ == name@,
                None => !spec_has_record(self.records@, name@),
            },
    {
        let key: String = name.to_owned();
        let n = self.records.len();
        let mut i: usize = 0;
        while i < n
            invariant
                i <= n,
                n == self.records@.len(),
                key@ == name@,
                forall|k: int| 0 <= k < i ==> self.records@[k].name@ != name@,
            decreases n - i,
        {
            if self.records[i].name == key {
                return Some(i);
            }
            i = i + 1;
        }
        None
    }

    /// Feed one probe outcome for the uplink called `name` into its record,
    /// creating a fresh record first if this is the uplink's first probe.
    pub fn record_probe_result(
        &mut self,
        name: &str,
        outcome: Option<u64>,
        now: u64,
        fail_threshold: u32,
        succ_threshold: u32,
    )
        requires
            old(self).wf(),
        ensures
            final(self).wf(),
            spec_has_record(final(self).records@, name@),
            // a known uplink: its record is stepped in place, nothing else moves
            spec_has_record(old(self).records@, name@) ==> {
                &&& final(self).records@.len() == old(self).records@.len()
                &&& forall|i: int|
                    0 <= i < old(self).records@.len() ==> #[trigger] final(self).records@[i].name@
                        == old(self).records@[i].name@
                &&& forall|i: int|
                    0 <= i < old(self).records@.len() && old(self).records@[i].name@ == name@
                        ==> #[trigger] final(self).records@[i].health == spec_step(
                        old(self).records@[i].health,
                        outcome,
                        now,
                        fail_threshold,
                        succ_threshold,
                    )
                &&& forall|i: int|
                    0 <= i < old(self).records@.len() && old(self).records@[i].name@ != name@
                        ==> #[trigger] final(self).records@[i] == old(self).records@[i]
            },
            // a first probe: a fresh record is stepped and appended
            !spec_has_record(old(self).records@, name@) ==> {
                &&& final(self).records@.len() == old(self).records@.len() + 1
                &&& forall|i: int|
                    0 <= i < old(self).records@.len() ==> #[trigger] final(self).records@[i]
                        == old(self).records@[i]
                &&& final(self).records@.last().name@ == name@
                &&& final(self).records@.last().health == spec_step(
                    spec_fresh(),
                    outcome,
                    now,
                    fail_threshold,
                    succ_threshold,
                )
            },
    {
        let found = self.find_record(name);
        match found {
            Some(i) => {
                let mut h = self.records[i].health;
                h.record_probe(outcome, now, fail_threshold, succ_threshold);
                let entry = HealthEntry { name: self.records[i].name.clone(), health: h };
                self.records.set(i, entry);
                assert(spec_has_record(self.records@, name@)) by {
                    assert(self.records@[i as int].name@ == name@);
                }
            },
            None => {
                let mut h = InterfaceHealth::new();
                h.record_probe(outcome, now, fail_threshold, succ_threshold);
                self.records.push(HealthEntry { name: name.to_owned(), health: h });
                assert(spec_has_record(self.records@, name@)) by {
                    assert(self.records@.last().name@ == name@);
                }
            },
        }
    }

    /// The record of the uplink called `name`, if it has ever been probed.
    pub fn get_interface_health(&self, name: &str) -> (r: Option<InterfaceHealth>)
        ensures
            match r {
                Some(h) => exists|i: int|
                    0 <= i < self.records@.len() && (#[trigger] self.records@[i]).name@ == name@
                        && self.records@[i].health == h,
                None => !spec_has_record(self.records@, name@),
            },
    {
        match self.find_record(name) {
            Some(i) => Some(self.records[i].health),
            None => None,
        }
    }

    /// The names of the uplinks currently declared online, in record order.
    pub fn get_online_interfaces(&self) -> (r: Vec<String>)
        ensures
            r.deep_view() == spec_online_names(self.records@),
    {
        let n = self.records.len();
        let mut out: Vec<String> = Vec::new();
        proof {
            assert(out.deep_view() =~= spec_online_names(self.records@.take(0)));
        }
        let mut i: usize = 0;
        while i < n
            invariant
                i <= n,
                n == self.records@.len(),
                out.deep_view() == spec_online_names(self.records@.take(i as int)),
            decreases n - i,
        {
            proof {
                assert(self.records@.take(i + 1).drop_last() =~= self.records@.take(i as int));
                assert(self.records@.take(i + 1).last() == self.records@[i as int]);
            }
            if self.records[i].health.is_online {
                out.push(self.records[i].name.clone());
                proof {
                    assert(out.deep_view() =~= spec_online_names(self.records@.take(i + 1)));
                }
            } else {
                proof {
                    assert(out.deep_view() =~= spec_online_names(self.records@.take(i + 1)));
                }
            }
            i = i + 1;
        }
        proof {
            assert(self.records@.take(n as int) =~= self.records@);
        }
        out
    }

    /// Drop the records of uplinks that are no longer configured, so that a
    /// name that disappears and later reappears starts over from a fresh
    /// record.  Records of uplinks named in `configured` are kept, in order.
    pub fn retain_configured(&mut self, configured: &Vec<String>)
        requires
            old(self).wf(),
        ensures
            final(self).wf(),
            final(self).records@ == spec_retained(old(self).records@, configured.deep_view()),
    {
        let n = self.records.len();
        let mut kept: Vec<HealthEntry> = Vec::new();
        proof {
            assert(kept@ =~= spec_retained(self.records@.take(0), configured.deep_view()));
        }
        let mut i: usize = 0;
        while i < n
            invariant
                i <= n,
                n == self.records@.len(),
                kept@ == spec_retained(self.records@.take(i as int), configured.deep_view()),
            decreases n - i,
        {
            proof {
                assert(self.records@.take(i + 1).drop_last() =~= self.records@.take(i as int));
                assert(self.records@.take(i + 1).last() == self.records@[i as int]);
            }
            if contains_name(configured, &self.records[i].name) {
                let entry = HealthEntry {
                    name: self.records[i].name.clone(),
                    health: self.records[i].health,
                };
                kept.push(entry);
                proof {
                    assert(kept@ =~= spec_retained(
                        self.records@.take(i + 1),
                        configured.deep_view(),
                    ));
                }
            } else {
                proof {
                    assert(kept@ =~= spec_retained(
                        self.records@.take(i + 1),
                        configured.deep_view(),
                    ));
                }
            }
            i = i + 1;
        }
        proof {
            assert(self.records@.take(n as int) =~= self.records@);
            lemma_retained_distinct(self.records@, configured.deep_view());
        }
        self.records = kept;
    }
}

/// Whether `list` holds a string equal to `name`.
pub fn contains_name(list: &Vec<String>, name: &String) -> (r: bool)
    ensures
        r == list.deep_view().contains(name@),
{
    let n = list.len();
    let mut i: usize = 0;
    while i < n
        invariant
            i <= n,
            n == list@.len(),
            forall|k: int| 0 <= k < i ==> list.deep_view()[k] != name@,
        decreases n - i,
    {
        if list[i] == *name {
            assert(list.deep_view()[i as int] == name@);
            return true;
        }
        i = i + 1;
    }
    assert(!list.deep_view().contains(name@)) by {
        assert(forall|k: int|
            0 <= k < list.deep_view().len() ==> #[trigger] list.deep_view()[k] != name@);
    }
    false
}


/// Every outcome in the sequence is a failure.
pub open spec fn all_fail(s: Seq<Option<u64>>) -> bool {
    forall|j: int| 0 <= j < s.len() ==> s[j] is None
}

/// Every outcome in the sequence is a success.
pub open spec fn all_succeed(s: Seq<Option<u64>>) -> bool {
    forall|j: int| 0 <= j < s.len() ==> s[j] is Some
}

/// Somewhere in `s` there are `k` consecutive failures.
pub open spec fn has_fail_run(s: Seq<Option<u64>>, k: int) -> bool {
    exists|start: int|
        0 <= start && start + k <= s.len() && all_fail(#[trigger] s.subrange(start, start + k))
}

/// Somewhere in `s` there are `k` consecutive successes.
pub open spec fn has_success_run(s: Seq<Option<u64>>, k: int) -> bool {
    exists|start: int|
        0 <= start && start + k <= s.len() && all_succeed(#[trigger] s.subrange(start, start + k))
}

/// Length of the longest all-failure prefix of `s`.
pub open spec fn leading_fails(s: Seq<Option<u64>>) -> int
    decreases s.len(),
{
    if s.len() == 0 || !(s[0] is None) {
        0
    } else {
        1 + leading_fails(s.drop_first())
    }
}

/// Length of the longest all-success prefix of `s`.
pub open spec fn leading_succs(s: Seq<Option<u64>>) -> int
    decreases s.len(),
{
    if s.len() == 0 || !(s[0] is Some) {
        0
    } else {
        1 + leading_succs(s.drop_first())
    }
}

/// Everything inside the all-failure prefix is indeed a failure.
proof fn lemma_leading_fails_prefix(s: Seq<Option<u64>>)
    ensures
        0 <= leading_fails(s) <= s.len(),
        forall|j: int| 0 <= j < leading_fails(s) ==> s[j] is None,
    decreases s.len(),
{
    if s.len() > 0 && s[0] is None {
        lemma_leading_fails_prefix(s.drop_first());
        assert forall|j: int| 0 <= j < leading_fails(s) implies s[j] is None by {
            if j > 0 {
                assert(s.drop_first()[j - 1] is None);
            }
        }
    }
}

/// Everything inside the all-success prefix is indeed a success.
proof fn lemma_leading_succs_prefix(s: Seq<Option<u64>>)
    ensures
        0 <= leading_succs(s) <= s.len(),
        forall|j: int| 0 <= j < leading_succs(s) ==> s[j] is Some,
    decreases s.len(),
{
    if s.len() > 0 && s[0] is Some {
        lemma_leading_succs_prefix(s.drop_first());
        assert forall|j: int| 0 <= j < leading_succs(s) implies s[j] is Some by {
            if j > 0 {
                assert(s.drop_first()[j - 1] is Some);
            }
        }
    }
}

/// A run of `k` consecutive failures in the tail of `s` is a run in `s`.
proof fn lemma_fail_run_shift(s: Seq<Option<u64>>, k: int)
    requires
        s.len() > 0,
        k >= 0,
        has_fail_run(s.drop_first(), k),
    ensures
        has_fail_run(s, k),
{
    let rest = s.drop_first();
    let start = choose|start: int|
        0 <= start && start + k <= rest.len() && all_fail(#[trigger] rest.subrange(start, start + k));
    assert(0 <= start && start + k <= rest.len() && all_fail(rest.subrange(start, start + k)));
    assert(s.subrange(start + 1, start + 1 + k) =~= rest.subrange(start, start + k));
    assert(0 <= start + 1 && start + 1 + k <= s.len() && all_fail(
        s.subrange(start + 1, start + 1 + k),
    ));
}

/// A run of `k` consecutive successes in the tail of `s` is a run in `s`.
proof fn lemma_success_run_shift(s: Seq<Option<u64>>, k: int)
    requires
        s.len() > 0,
        k >= 0,
        has_success_run(s.drop_first(), k),
    ensures
        has_success_run(s, k),
{
    let rest = s.drop_first();
    let start = choose|start: int|
        0 <= start && start + k <= rest.len() && all_succeed(#[trigger] rest.subrange(start, start + k));
    assert(0 <= start && start + k <= rest.len() && all_succeed(rest.subrange(start, start + k)));
    assert(s.subrange(start + 1, start + 1 + k) =~= rest.subrange(start, start + k));
    assert(0 <= start + 1 && start + 1 + k <= s.len() && all_succeed(
        s.subrange(start + 1, start + 1 + k),
    ));
}

/// If the all-failure prefix of `s` reaches `k`, the first `k` outcomes of
/// `s` form a failure run.
proof fn lemma_leading_fails_gives_run(s: Seq<Option<u64>>, k: int)
    requires
        0 <= k <= leading_fails(s),
    ensures
        has_fail_run(s, k),
{
    lemma_leading_fails_prefix(s);
    assert(all_fail(s.subrange(0, k)));
    assert(0 <= 0 && 0 + k <= s.len() && all_fail(s.subrange(0, 0 + k)));
}

/// If the all-success prefix of `s` reaches `k`, the first `k` outcomes of
/// `s` form a success run.
proof fn lemma_leading_succs_gives_run(s: Seq<Option<u64>>, k: int)
    requires
        0 <= k <= leading_succs(s),
    ensures
        has_success_run(s, k),
{
    lemma_leading_succs_prefix(s);
    assert(all_succeed(s.subrange(0, k)));
    assert(0 <= 0 && 0 + k <= s.len() && all_succeed(s.subrange(0, 0 + k)));
}

/// Hysteresis, failing side.  An online uplink is declared offline only
/// after at least `fail_threshold` consecutive failed probes: either a full
/// run of them inside `s`, or the leading failures of `s` completing a run
/// that had already begun (`h.failure_count` failures deep) before `s`.
pub proof fn lemma_online_to_offline_needs_failures(
    h: InterfaceHealth,
    s: Seq<Option<u64>>,
    now: u64,
    fail_threshold: u32,
    succ_threshold: u32,
)
    requires
        h.is_online,
    ensures
        !spec_run(h, s, now, fail_threshold, succ_threshold).is_online ==> has_fail_run(
            s,
            fail_threshold as int,
        ) || leading_fails(s) + h.failure_count >= fail_threshold,
    decreases s.len(),
{
    let ft = fail_threshold as int;
    if s.len() > 0 {
        let h1 = spec_step(h, s[0], now, fail_threshold, succ_threshold);
        let rest = s.drop_first();
        if !spec_run(h, s, now, fail_threshold, succ_threshold).is_online {
            match s[0] {
                Some(_) => {
                    lemma_online_to_offline_needs_failures(
                        h1,
                        rest,
                        now,
                        fail_threshold,
                        succ_threshold,
                    );
                    if has_fail_run(rest, ft) {
                        lemma_fail_run_shift(s, ft);
                    } else {
                        lemma_leading_fails_gives_run(rest, ft);
                        lemma_fail_run_shift(s, ft);
                    }
                },
                None => {
                    let fails: int = if h.failure_count == u32::MAX {
                        u32::MAX as int
                    } else {
                        h.failure_count + 1
                    };
                    if fails >= ft {
                        lemma_leading_fails_prefix(rest);
                        assert(leading_fails(s) >= 1);
                    } else {
                        lemma_online_to_offline_needs_failures(
                            h1,
                            rest,
                            now,
                            fail_threshold,
                            succ_threshold,
                        );
                        if has_fail_run(rest, ft) {
                            lemma_fail_run_shift(s, ft);
                        } else {
                            assert(leading_fails(s) == 1 + leading_fails(rest));
                        }
                    }
                },
            }
        }
    }
}

/// Hysteresis, recovering side.  An offline uplink is declared online only
/// after at least `succ_threshold` consecutive successful probes: either a
/// full run of them inside `s`, or the leading successes of `s` completing a
/// run that had already begun before `s`.
pub proof fn lemma_offline_to_online_needs_successes(
    h: InterfaceHealth,
    s: Seq<Option<u64>>,
    now: u64,
    fail_threshold: u32,
    succ_threshold: u32,
)
    requires
        !h.is_online,
    ensures
        spec_run(h, s, now, fail_threshold, succ_threshold).is_online ==> has_success_run(
            s,
            succ_threshold as int,
        ) || leading_succs(s) + h.recovery_count >= succ_threshold,
    decreases s.len(),
{
    let st = succ_threshold as int;
    if s.len() > 0 {
        let h1 = spec_step(h, s[0], now, fail_threshold, succ_threshold);
        let rest = s.drop_first();
        if spec_run(h, s, now, fail_threshold, succ_threshold).is_online {
            match s[0] {
                None => {
                    lemma_offline_to_online_needs_successes(
                        h1,
                        rest,
                        now,
                        fail_threshold,
                        succ_threshold,
                    );
                    if has_success_run(rest, st) {
                        lemma_success_run_shift(s, st);
                    } else {
                        lemma_leading_succs_gives_run(rest, st);
                        lemma_success_run_shift(s, st);
                    }
                },
                Some(_) => {
                    let succs: int = if h.recovery_count == u32::MAX {
                        u32::MAX as int
                    } else {
                        h.recovery_count + 1
                    };
                    if succs >= st {
                        lemma_leading_succs_prefix(rest);
                        assert(leading_succs(s) >= 1);
                    } else {
                        lemma_offline_to_online_needs_successes(
                            h1,
                            rest,
                            now,
                            fail_threshold,
                            succ_threshold,
                        );
                        if has_success_run(rest, st) {
                            lemma_success_run_shift(s, st);
                        } else {
                            assert(leading_succs(s) == 1 + leading_succs(rest));
                        }
                    }
                },
            }
        }
    }
}

/// With a threshold above one, isolated failures amid successes never take
/// an online uplink offline: the run of consecutive failures the transition
/// needs cannot exist.
pub proof fn lemma_isolated_failures_never_flip(
    h: InterfaceHealth,
    s: Seq<Option<u64>>,
    now: u64,
    fail_threshold: u32,
    succ_threshold: u32,
)
    requires
        h.is_online,
        h.failure_count == 0,
        fail_threshold >= 2,
        forall|i: int| 0 <= i < s.len() - 1 ==> !((#[trigger] s[i]) is None && s[i + 1] is None),
    ensures
        spec_run(h, s, now, fail_threshold, succ_threshold).is_online,
{
    let ft = fail_threshold as int;
    if !spec_run(h, s, now, fail_threshold, succ_threshold).is_online {
        lemma_online_to_offline_needs_failures(h, s, now, fail_threshold, succ_threshold);
        if has_fail_run(s, ft) {
            let start = choose|start: int|
                0 <= start && start + ft <= s.len() && all_fail(#[trigger] s.subrange(start, start + ft));
            assert(s.subrange(start, start + ft)[0] is None);
            assert(s.subrange(start, start + ft)[1] is None);
            assert(s[start] is None && s[start + 1] is None);
            assert(false);
        } else {
            lemma_leading_fails_prefix(s);
            assert(s[0] is None && s[1] is None);
            assert(false);
        }
    }
}

/// The mirror image: isolated successes amid failures never bring an
/// offline uplink online when the success threshold is above one.
pub proof fn lemma_isolated_successes_never_flip(
    h: InterfaceHealth,
    s: Seq<Option<u64>>,
    now: u64,
    fail_threshold: u32,
    succ_threshold: u32,
)
    requires
        !h.is_online,
        h.recovery_count == 0,
        succ_threshold >= 2,
        forall|i: int| 0 <= i < s.len() - 1 ==> !((#[trigger] s[i]) is Some && s[i + 1] is Some),
    ensures
        !spec_run(h, s, now, fail_threshold, succ_threshold).is_online,
{
    let st = succ_threshold as int;
    if spec_run(h, s, now, fail_threshold, succ_threshold).is_online {
        lemma_offline_to_online_needs_successes(h, s, now, fail_threshold, succ_threshold);
        if has_success_run(s, st) {
            let start = choose|start: int|
                0 <= start && start + st <= s.len() && all_succeed(#[trigger] s.subrange(start, start + st));
            assert(s.subrange(start, start + st)[0] is Some);
            assert(s.subrange(start, start + st)[1] is Some);
            assert(s[start] is Some && s[start + 1] is Some);
            assert(false);
        } else {
            lemma_leading_succs_prefix(s);
            assert(s[0] is Some && s[1] is Some);
            assert(false);
        }
    }
}

} // verus!
