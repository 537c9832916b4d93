//! The path-race coordinator's decision core.
//!
//! A race sends one probe over every enabled uplink at once and reports the
//! uplink whose well-formed response arrives first.  The surrounding program
//! owns the sockets, the clock and the deadline; this module owns the
//! decisions: which uplinks participate, which response wins, and the
//! bookkeeping of race ids.  Ids grow monotonically and an entry is dropped
//! as soon as its race resolves, so no race state accumulates.

use vstd::prelude::*;

use crate::config::Interface;

verus! {

/// One uplink's response in a race: the responding uplink, the payload it
/// returned, and its measured round-trip latency in milliseconds.
#[derive(Debug)]
pub struct RaceResponse {
    pub interface: String,
    pub response: Vec<u8>,
    pub latency: u64,
}

/// The outcome of a resolved race.
#[derive(Debug)]
pub struct UdpRaceResult {
    pub race_id: u64,
    pub interface: String,
    pub response: Vec<u8>,
    pub latency: u64,
}

/// Why a race failed.
#[derive(Clone, Copy, Debug, PartialEq, Eq, Structural)]
pub enum RaceError {
    /// Races are switched off in the configuration.
    RaceDisabled,
    /// No uplink is enabled; no socket is worth opening.
    NoUplinksAvailable,
    /// Every uplink failed or the deadline passed with no response.
    RaceTimedOut,
    /// No in-flight race carries the given id.
    RaceNotFound,
}

impl RaceError {
    /// A short human-readable name for the error.
    pub fn describe(&self) -> &'static str {
        match self {
            RaceError::RaceDisabled => "udp race is disabled",
            RaceError::NoUplinksAvailable => "no uplinks available",
            RaceError::RaceTimedOut => "race timed out",
            RaceError::RaceNotFound => "race not found",
        }
    }
}

/// Bookkeeping for one in-flight race.
pub struct ActiveRace {
    pub id: u64,
    pub participants: Vec<String>,
}

/// The names of the enabled uplinks, in list order: the participants of any
/// race started against this uplink list.
pub open spec fn spec_enabled_names(s: Seq<Interface>) -> Seq<Seq<char>>
    decreases s.len(),
{
    if s.len() == 0 {
        Seq::empty()
    } else {
        let rest = spec_enabled_names(s.drop_last());
        if s.last().enabled {
            rest.push(s.last().name@)
        } else {
            rest
        }
    }
}

/// There is no enabled uplink exactly when the participant list is empty.
pub proof fn lemma_no_enabled_names(s: Seq<Interface>)
    ensures
        spec_enabled_names(s).len() == 0 <==> forall|k: int|
            0 <= k < s.len() ==> !(#[trigger] s[k]).enabled,
    decreases s.len(),
{
    if s.len() > 0 {
        let prefix = s.drop_last();
        lemma_no_enabled_names(prefix);
        if spec_enabled_names(s).len() == 0 {
            assert forall|k: int| 0 <= k < s.len() implies !(#[trigger] s[k]).enabled by {
                if k < s.len() - 1 {
                    assert(!prefix[k].enabled);
                }
            }
        }
        if forall|k: int| 0 <= k < s.len() ==> !(#[trigger] s[k]).enabled {
            assert(forall|k: int| 0 <= k < prefix.len() ==> !(#[trigger] prefix[k]).enabled);
        }
    }
}

/// Whether some in-flight race carries the id.
pub open spec fn spec_has_race(s: Seq<ActiveRace>, id: u64) -> bool {
    exists|i: int| 0 <= i < s.len() && s[i].id == id
}

/// The in-flight races without the one carrying `id`.
pub open spec fn spec_remove_race(s: Seq<ActiveRace>, id: u64) -> Seq<ActiveRace>
    decreases s.len(),
{
    if s.len() == 0 {
        Seq::empty()
    } else {
        let rest = spec_remove_race(s.drop_last(), id);
        if s.last().id == id {
            rest
        } else {
            rest.push(s.last())
        }
    }
}

/// The race coordinator's bookkeeping: a monotonically increasing id
/// counter and the set of in-flight races.
pub struct UdpRaceManager {
    pub race_counter: u64,
    pub active_races: Vec<ActiveRace>,
}

impl UdpRaceManager {
    /// Every in-flight id was drawn from the counter, and no two races
    /// share an id.
    pub open spec fn wf(&self) -> bool {
        &&& forall|i: int|
            0 <= i < self.active_races@.len() ==> (#[trigger] self.active_races@[i]).id
                <= self.race_counter
        &&& forall|i: int, j: int|
            0 <= i < self.active_races@.len() && 0 <= j < self.active_races@.len() && i != j
                ==> (#[trigger] self.active_races@[i]).id != (#[trigger] self.active_races@[j]).id
    }

    /// A fresh coordinator: no race has run yet.
    pub fn new() -> (r: UdpRaceManager)
        ensures
            r.wf(),
            r.race_counter == 0,
            r.active_races@.len() == 0,
    {
        UdpRaceManager { race_counter: 0, active_races: Vec::new() }
    }

    /// Open a race against every enabled uplink.  Fails with `RaceDisabled`
    /// when races are off, and with `NoUplinksAvailable` — before any
    /// socket would be opened — when no uplink is enabled.  On success the
    /// new race gets the next id and its participants are the enabled
    /// uplinks, in configuration order.
    pub fn start_race(&mut self, udp_race_enabled: bool, interfaces: &Vec<Interface>) -> (r:
        Result<u64, RaceError>)
        requires
            old(self).wf(),
            old(self).race_counter < u64::MAX,
        ensures
            final(self).wf(),
            !udp_race_enabled ==> r == Result::<u64, RaceError>::Err(RaceError::RaceDisabled)
                && *final(self) == *old(self),
            udp_race_enabled && spec_enabled_names(interfaces@).len() == 0 ==> r == Result::<
                u64,
                RaceError,
            >::Err(RaceError::NoUplinksAvailable) && *final(self) == *old(self),
            udp_race_enabled && spec_enabled_names(interfaces@).len() > 0 ==> {
                &&& r == Result::<u64, RaceError>::Ok((old(self).race_counter + 1) as u64)
                &&& final(self).race_counter == old(self).race_counter + 1
                &&& final(self).active_races@.len() == old(self).active_races@.len() + 1
                &&& forall|i: int|
                    0 <= i < old(self).active_races@.len() ==> (#[trigger] final(self).active_races@[i])
                        == old(self).active_races@[i]
                &&& final(self).active_races@.last().id == old(self).race_counter + 1
                &&& final(self).active_races@.last().participants.deep_view()
                    == spec_enabled_names(interfaces@)
            },
    {
        if !udp_race_enabled {
            return Err(RaceError::RaceDisabled);
        }
        let n = interfaces.len();
        let mut participants: Vec<String> = Vec::new();
        proof {
            assert(participants.deep_view() =~= spec_enabled_names(interfaces@.take(0)));
        }
        let mut i: usize = 0;
        while i < n
            invariant
                i <= n,
                n == interfaces@.len(),
                participants.deep_view() == spec_enabled_names(interfaces@.take(i as int)),
            decreases n - i,
        {
            proof {
                assert(interfaces@.take(i + 1).drop_last() =~= interfaces@.take(i as int));
                assert(interfaces@.take(i + 1).last() == interfaces@[i as int]);
            }
            if interfaces[i].enabled {
                participants.push(interfaces[i].name.clone());
                proof {
                    assert(participants.deep_view() =~= spec_enabled_names(
                        interfaces@.take(i + 1),
                    ));
                }
            } else {
                proof {
                    assert(participants.deep_view() =~= spec_enabled_names(
                        interfaces@.take(i + 1),
                    ));
                }
            }
            i = i + 1;
        }
        proof {
            assert(interfaces@.take(n as int) =~= interfaces@);
        }
        if participants.len() == 0 {
            return Err(RaceError::NoUplinksAvailable);
        }
        let id = self.race_counter + 1;
        self.race_counter = id;
        self.active_races.push(ActiveRace { id, participants });
        Ok(id)
    }

    /// Index of the in-flight race carrying `race_id`, if any.
    fn find_race_index(&self, race_id: u64) -> (r: Option<usize>)
        ensures
            match r {
                Some(i) => i < self.active_races@.len() && self.active_races@[i as int].id
                    == race_id,
                None => !spec_has_race(self.active_races@, race_id),
            },
    {
        let n = self.active_races.len();
        let mut i: usize = 0;
        while i < n
            invariant
                i <= n,
                n == self.active_races@.len(),
                forall|k: int| 0 <= k < i ==> (#[trigger] self.active_races@[k]).id != race_id,
            decreases n - i,
        {
            if self.active_races[i].id == race_id {
                return Some(i);
            }
            i = i + 1;
        }
        None
    }

    /// The response with the lowest latency — the race winner under the
    /// first-response-wins rule (ties go to the earlier response).  `None`
    /// exactly when there is no response at all.
    pub fn select_winner(responses: &Vec<RaceResponse>) -> (r: Option<usize>)
        ensures
            match r {
                Some(i) => i < responses@.len() && (forall|k: int|
                    0 <= k < responses@.len() ==> responses@[i as int].latency
                        <= (#[trigger] responses@[k]).latency) && (forall|k: int|
                    0 <= k < i ==> responses@[i as int].latency < (#[trigger] responses@[
                        k
                    ]).latency),
                None => responses@.len() == 0,
            },
    {
        let n = responses.len();
        if n == 0 {
            return None;
        }
        let mut best: usize = 0;
        let mut i: usize = 1;
        while i < n
            invariant
                best < i <= n,
                n == responses@.len(),
                forall|k: int|
                    0 <= k < i ==> responses@[best as int].latency <= (#[trigger] responses@[
                        k
                    ]).latency,
                forall|k: int|
                    0 <= k < best ==> responses@[best as int].latency < (#[trigger] responses@[
                        k
                    ]).latency,
            decreases n - i,
        {
            if responses[i].latency < responses[best].latency {
                best = i;
            }
            i = i + 1;
        }
        Some(best)
    }

    /// Resolve a race from the responses gathered before its deadline.  The
    /// race's bookkeeping entry is removed whatever the outcome.  With no
    /// response at all the race fails with `RaceTimedOut` and names no
    /// winner; otherwise the winner is the response with the lowest
    /// latency, no higher than any other respondent's.
    pub fn finish_race(&mut self, race_id: u64, mut responses: Vec<RaceResponse>) -> (r: Result<
        UdpRaceResult,
        RaceError,
    >)
        requires
            old(self).wf(),
        ensures
            final(self).wf(),
            !spec_has_race(old(self).active_races@, race_id) ==> r == Result::<
                UdpRaceResult,
                RaceError,
            >::Err(RaceError::RaceNotFound) && *final(self) == *old(self),
            spec_has_race(old(self).active_races@, race_id) ==> {
                &&& final(self).race_counter == old(self).race_counter
                &&& final(self).active_races@ == spec_remove_race(
                    old(self).active_races@,
                    race_id,
                )
                &&& !spec_has_race(final(self).active_races@, race_id)
                &&& (responses@.len() == 0 ==> r == Result::<UdpRaceResult, RaceError>::Err(
                    RaceError::RaceTimedOut,
                ))
                &&& (responses@.len() > 0 ==> (r matches Ok(res) && res.race_id == race_id && (
                forall|k: int|
                    0 <= k < responses@.len() ==> res.latency <= (#[trigger] responses@[
                        k
                    ]).latency) && exists|i: int|
                    0 <= i < responses@.len() && (#[trigger] responses@[i]).interface
                        == res.interface && responses@[i].latency == res.latency && responses@[
                        i
                    ].response == res.response))
            },
    {
        let idx = match self.find_race_index(race_id) {
            Some(i) => i,
            None => {
                return Err(RaceError::RaceNotFound);
            },
        };
        proof {
            lemma_remove_race_is_remove_idx(self.active_races@, race_id, idx as int);
            lemma_remove_race_removes(self.active_races@, race_id);
            lemma_remove_race_keeps_wf(self.active_races@, race_id, self.race_counter);
        }
        self.active_races.remove(idx);
        // resolve the winner
        match Self::select_winner(&responses) {
            None => Err(RaceError::RaceTimedOut),
            Some(w) => {
                let winner = responses.remove(w);
                Ok(
                    UdpRaceResult {
                        race_id,
                        interface: winner.interface,
                        response: winner.response,
                        latency: winner.latency,
                    },
                )
            },
        }
    }

    /// The result of a race that is not in flight is gone: looking it up
    /// fails.  (Results are delivered once, by `finish_race`.)
    pub fn get_race_result(&self, race_id: u64) -> (r: Result<UdpRaceResult, RaceError>)
        ensures
            spec_has_race(self.active_races@, race_id) ==> r == Result::<
                UdpRaceResult,
                RaceError,
            >::Err(RaceError::RaceTimedOut),
            !spec_has_race(self.active_races@, race_id) ==> r == Result::<
                UdpRaceResult,
                RaceError,
            >::Err(RaceError::RaceNotFound),
    {
        let n = self.active_races.len();
        let mut i: usize = 0;
        while i < n
            invariant
                i <= n,
                n == self.active_races@.len(),
                forall|k: int| 0 <= k < i ==> (#[trigger] self.active_races@[k]).id != race_id,
            decreases n - i,
        {
            if self.active_races[i].id == race_id {
                return Err(RaceError::RaceTimedOut);
            }
            i = i + 1;
        }
        Err(RaceError::RaceNotFound)
    }
}

/// Removing an id that no race carries changes nothing.
proof fn lemma_remove_race_identity(s: Seq<ActiveRace>, id: u64)
    requires
        forall|k: int| 0 <= k < s.len() ==> (#[trigger] s[k]).id != id,
    ensures
        spec_remove_race(s, id) == s,
    decreases s.len(),
{
    if s.len() > 0 {
        let prefix = s.drop_last();
        assert(forall|k: int| 0 <= k < prefix.len() ==> (#[trigger] prefix[k]).id != id);
        lemma_remove_race_identity(prefix, id);
        assert(spec_remove_race(s, id) =~= s);
    }
}

/// With ids pairwise distinct, removing the id at index `i` is removing
/// index `i`.
proof fn lemma_remove_race_is_remove_idx(s: Seq<ActiveRace>, id: u64, i: int)
    requires
        0 <= i < s.len(),
        s[i].id == id,
        forall|k: int, l: int|
            0 <= k < s.len() && 0 <= l < s.len() && k != l ==> (#[trigger] s[k]).id
                != (#[trigger] s[l]).id,
    ensures
        spec_remove_race(s, id) == s.remove(i),
    decreases s.len(),
{
    let prefix = s.drop_last();
    if i == s.len() - 1 {
        assert forall|k: int| 0 <= k < prefix.len() implies (#[trigger] prefix[k]).id != id by {
            assert(s[k].id != s[i].id);
        }
        lemma_remove_race_identity(prefix, id);
        assert(s.remove(i) =~= prefix);
    } else {
        assert(s.last().id != id) by {
            assert(s[s.len() - 1].id != s[i].id);
        }
        assert(prefix[i].id == id);
        lemma_remove_race_is_remove_idx(prefix, id, i);
        assert(spec_remove_race(s, id) == prefix.remove(i).push(s.last()));
        assert(prefix.remove(i).push(s.last()) =~= s.remove(i));
    }
}

/// After removal no race carries the removed id.
proof fn lemma_remove_race_removes(s: Seq<ActiveRace>, id: u64)
    ensures
        !spec_has_race(spec_remove_race(s, id), id),
    decreases s.len(),
{
    if s.len() > 0 {
        lemma_remove_race_removes(s.drop_last(), id);
        let r = spec_remove_race(s, id);
        if spec_has_race(r, id) {
            let w = choose|i: int| 0 <= i < r.len() && r[i].id == id;
            let rp = spec_remove_race(s.drop_last(), id);
            if s.last().id != id && w == r.len() - 1 {
                assert(false);
            } else {
                assert(rp[w].id == id);
                assert(false);
            }
        }
    }
}

/// Removal keeps every remaining id bounded by the counter and pairwise
/// distinct.
proof fn lemma_remove_race_keeps_wf(s: Seq<ActiveRace>, id: u64, counter: u64)
    requires
        forall|i: int| 0 <= i < s.len() ==> (#[trigger] s[i]).id <= counter,
        forall|i: int, j: int|
            0 <= i < s.len() && 0 <= j < s.len() && i != j ==> (#[trigger] s[i]).id
                != (#[trigger] s[j]).id,
    ensures
        forall|i: int|
            0 <= i < spec_remove_race(s, id).len() ==> (#[trigger] spec_remove_race(s, id)[i]).id
                <= counter,
        forall|i: int, j: int|
            0 <= i < spec_remove_race(s, id).len() && 0 <= j < spec_remove_race(s, id).len() && i
                != j ==> (#[trigger] spec_remove_race(s, id)[i]).id != (#[trigger] spec_remove_race(
                s,
                id,
            )[j]).id,
    decreases s.len(),
{
    if s.len() > 0 {
        let prefix = s.drop_last();
        lemma_remove_race_keeps_wf(prefix, id, counter);
        lemma_remove_race_element_of(prefix, id);
        let r = spec_remove_race(s, id);
        let rp = spec_remove_race(prefix, id);
        assert forall|i: int, j: int|
            0 <= i < r.len() && 0 <= j < r.len() && i != j implies (#[trigger] r[i]).id
            != (#[trigger] r[j]).id by {
            if i < rp.len() && j < rp.len() {
                assert(r[i] == rp[i] && r[j] == rp[j]);
            } else if i < rp.len() {
                let k = choose|k: int| 0 <= k < prefix.len() && prefix[k] == rp[i];
                assert(s[k].id != s[s.len() - 1].id);
            } else if j < rp.len() {
                let k = choose|k: int| 0 <= k < prefix.len() && prefix[k] == rp[j];
                assert(s[k].id != s[s.len() - 1].id);
            }
        }
        assert forall|i: int| 0 <= i < r.len() implies (#[trigger] r[i]).id <= counter by {
            if i >= rp.len() {
                assert(r[i] == s[s.len() - 1]);
            }
        }
    }
}

/// Every remaining race occurs in the original list.
proof fn lemma_remove_race_element_of(s: Seq<ActiveRace>, id: u64)
    ensures
        forall|i: int|
            0 <= i < spec_remove_race(s, id).len() ==> exists|k: int|
                0 <= k < s.len() && s[k] == #[trigger] spec_remove_race(s, id)[i],
    decreases s.len(),
{
    if s.len() > 0 {
        let prefix = s.drop_last();
        lemma_remove_race_element_of(prefix, id);
        let r = spec_remove_race(s, id);
        let rp = spec_remove_race(prefix, id);
        assert forall|i: int| 0 <= i < r.len() implies exists|k: int|
            0 <= k < s.len() && s[k] == #[trigger] r[i] by {
            if i < rp.len() {
                let k = choose|k: int| 0 <= k < prefix.len() && prefix[k] == rp[i];
                assert(s[k] == r[i]);
            } else {
                assert(s[s.len() - 1] == r[i]);
            }
        }
    }
}

} // verus!
