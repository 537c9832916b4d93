//! Configuration snapshot: global settings, uplink specifications and
//! policies.
//!
//! A snapshot is plain data handed in by the surrounding program (which owns
//! file loading and parsing).  `validate` holds a snapshot to the data
//! model's structural rules: positive weights and unique firewall marks.
//! Deliberately, it does *not* check the uplink names that policies mention:
//! those are rejected at activation time, not at load time.

use vstd::prelude::*;

verus! {

/// Health-probe settings: timeout and probe interval in seconds, the probe
/// URL, and the two hysteresis thresholds.
#[derive(Clone, Debug)]
pub struct HealthCheckConfig {
    pub timeout: u64,
    pub interval: u64,
    pub url: String,
    pub fail_threshold: u32,
    pub succ_threshold: u32,
}

/// One uplink: logical name, underlying device name, relative weight for
/// weighted selection, firewall mark (unique per uplink), enabled flag, and
/// the source-address-set names bound to it.
#[derive(Clone, Debug)]
pub struct Interface {
    pub name: String,
    pub interface_name: String,
    pub weight: u32,
    pub mark: u32,
    pub enabled: bool,
    pub nftables_sets: Vec<String>,
}

/// One policy: its kind (as the configuration spells it) and the ordered
/// list of uplink names it governs.
#[derive(Clone, Debug)]
pub struct Policy {
    pub policy_type: String,
    pub interfaces: Vec<String>,
}

/// Daemon-wide settings.
#[derive(Clone, Debug)]
pub struct GlobalConfig {
    pub policy: String,
    pub udp_race: bool,
    pub mptcp: bool,
    pub tfo: bool,
    pub health_check: HealthCheckConfig,
}

/// A full configuration snapshot.
#[derive(Clone, Debug)]
pub struct Config {
    pub global: GlobalConfig,
    pub interfaces: Vec<Interface>,
    pub policies: Vec<Policy>,
}

/// Why a configuration snapshot was rejected.
#[derive(Clone, Copy, Debug, PartialEq, Eq, Structural)]
pub enum ConfigError {
    /// Some uplink has weight zero; weights must be positive.
    ZeroWeight,
    /// Two uplinks share a firewall mark.
    DuplicateMark,
}

impl ConfigError {
    /// A short human-readable name for the error.
    pub fn describe(&self) -> &'static str {
        match self {
            ConfigError::ZeroWeight => "an uplink has weight zero",
            ConfigError::DuplicateMark => "two uplinks share a firewall mark",
        }
    }
}

/// Every uplink's weight is positive.
pub open spec fn spec_weights_positive(s: Seq<Interface>) -> bool {
    forall|i: int| 0 <= i < s.len() ==> (#[trigger] s[i]).weight >= 1
}

/// No two uplinks share a firewall mark.
pub open spec fn spec_marks_unique(s: Seq<Interface>) -> bool {
    forall|i: int, j: int|
        0 <= i < s.len() && 0 <= j < s.len() && i != j ==> #[trigger] s[i].mark
            != #[trigger] s[j].mark
}

/// A structurally sound snapshot.  Note that the uplink names mentioned by
/// policies are *not* part of this: they are checked at activation.
pub open spec fn spec_config_valid(c: Config) -> bool {
    &&& spec_weights_positive(c.interfaces@)
    &&& spec_marks_unique(c.interfaces@)
}

/// Whether some uplink in `s` carries the logical name `name`.
pub open spec fn spec_has_interface(s: Seq<Interface>, name: Seq<char>) -> bool {
    exists|i: int| 0 <= i < s.len() && s[i].name@ == name
}

impl Config {
    /// Check the snapshot's structural rules, reporting the first rule
    /// broken: positive weights, then unique marks.  Succeeds exactly on
    /// valid snapshots; never looks at the policies.
    pub fn validate(&self) -> (r: Result<(), ConfigError>)
        ensures
            r is Ok <==> spec_config_valid(*self),
            r == Result::<(), ConfigError>::Err(ConfigError::ZeroWeight) <==> !spec_weights_positive(
                self.interfaces@,
            ),
            r == Result::<(), ConfigError>::Err(ConfigError::DuplicateMark) <==> (
            spec_weights_positive(self.interfaces@) && !spec_marks_unique(self.interfaces@)),
    {
        let n = self.interfaces.len();
        let mut i: usize = 0;
        while i < n
            invariant
                i <= n,
                n == self.interfaces@.len(),
                forall|k: int| 0 <= k < i ==> (#[trigger] self.interfaces@[k]).weight >= 1,
            decreases n - i,
        {
            if self.interfaces[i].weight == 0 {
                return Err(ConfigError::ZeroWeight);
            }
            i = i + 1;
        }
        let mut i: usize = 0;
        while i < n
            invariant
                i <= n,
                n == self.interfaces@.len(),
                spec_weights_positive(self.interfaces@),
                forall|k: int, l: int|
                    0 <= k < i && 0 <= l < k ==> #[trigger] self.interfaces@[k].mark
                        != #[trigger] self.interfaces@[l].mark,
            decreases n - i,
        {
            let mut j: usize = 0;
            while j < i
                invariant
                    j <= i < n,
                    n == self.interfaces@.len(),
                    spec_weights_positive(self.interfaces@),
                    forall|l: int|
                        0 <= l < j ==> #[trigger] self.interfaces@[l].mark
                            != self.interfaces@[i as int].mark,
                decreases i - j,
            {
                if self.interfaces[j].mark == self.interfaces[i].mark {
                    assert(!spec_marks_unique(self.interfaces@)) by {
                        assert(self.interfaces@[j as int].mark == self.interfaces@[i as int].mark);
                    }
                    return Err(ConfigError::DuplicateMark);
                }
                j = j + 1;
            }
            i = i + 1;
        }
        Ok(())
    }
}

/// Index of the first uplink in `interfaces` whose logical name is `name`.
pub fn find_interface(interfaces: &Vec<Interface>, name: &String) -> (r: Option<usize>)
    ensures
        match r {
            Some(i) => i < interfaces@.len() && interfaces@[i as int].name@ == name@ && forall|
                k: int,
            | 0 <= k < i ==> interfaces@[k].name@ != name@,
            None => !spec_has_interface(interfaces@, name@),
        },
{
    let n = interfaces.len();
    let mut i: usize = 0;
    while i < n
        invariant
            i <= n,
            n == interfaces@.len(),
            forall|k: int| 0 <= k < i ==> interfaces@[k].name@ != name@,
        decreases n - i,
    {
        if interfaces[i].name == *name {
            return Some(i);
        }
        i = i + 1;
    }
    None
}

/// Index of the first uplink in `interfaces` whose underlying device name is
/// `device`; used to map a link event back to the configured uplink.
pub fn find_interface_by_device(interfaces: &Vec<Interface>, device: &String) -> (r: Option<usize>)
    ensures
        match r {
            Some(i) => i < interfaces@.len() && interfaces@[i as int].interface_name@ == device@
                && forall|k: int| 0 <= k < i ==> interfaces@[k].interface_name@ != device@,
            None => forall|k: int|
                0 <= k < interfaces@.len() ==> (#[trigger] interfaces@[k]).interface_name@
                    != device@,
        },
{
    let n = interfaces.len();
    let mut i: usize = 0;
    while i < n
        invariant
            i <= n,
            n == interfaces@.len(),
            forall|k: int| 0 <= k < i ==> interfaces@[k].interface_name@ != device@,
        decreases n - i,
    {
        if interfaces[i].interface_name == *device {
            return Some(i);
        }
        i = i + 1;
    }
    None
}

} // verus!
