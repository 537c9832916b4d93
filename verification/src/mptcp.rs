//! Multipath-TCP setup decisions.
//!
//! The kernel settings themselves are applied by the surrounding program;
//! what to apply — and whether to apply anything at all — is decided here
//! from the global configuration flags.

use vstd::prelude::*;

use crate::config::GlobalConfig;

verus! {

/// One kernel-setting action.
#[derive(Clone, Debug, PartialEq, Eq)]
pub enum MptcpAction {
    /// Switch multipath TCP on.
    EnableMptcp,
    /// Switch TCP fast open on.
    EnableTfo,
    /// Select the named multipath scheduler.
    SetScheduler { scheduler: String },
    /// Register the device as a multipath endpoint.
    AddEndpoint { device: String },
    /// Remove the device's multipath endpoint.
    RemoveEndpoint { device: String },
}

/// The actions that bring the kernel in line with the global flags: nothing
/// when multipath TCP is off; otherwise enable it, enable fast open if
/// configured, and select the default scheduler.
pub fn plan_mptcp_setup(global: &GlobalConfig) -> (r: Vec<MptcpAction>)
    ensures
        !global.mptcp ==> r@.len() == 0,
        global.mptcp ==> {
            &&& r@.len() == (if global.tfo {
                3int
            } else {
                2int
            })
            &&& r@[0] == MptcpAction::EnableMptcp
            &&& (global.tfo ==> r@[1] == MptcpAction::EnableTfo)
            &&& (r@.last() matches MptcpAction::SetScheduler { scheduler } && scheduler@
                == "default"@)
        },
{
    let mut out: Vec<MptcpAction> = Vec::new();
    if !global.mptcp {
        return out;
    }
    out.push(MptcpAction::EnableMptcp);
    if global.tfo {
        out.push(MptcpAction::EnableTfo);
    }
    out.push(MptcpAction::SetScheduler { scheduler: ("default").to_owned() });
    out
}

/// The action that turns one device's multipath endpoint on or off.
pub fn plan_endpoint_change(device: &str, enable: bool) -> (r: MptcpAction)
    ensures
        enable ==> (r matches MptcpAction::AddEndpoint { device: d } && d@ == device@),
        !enable ==> (r matches MptcpAction::RemoveEndpoint { device: d } && d@ == device@),
{
    if enable {
        MptcpAction::AddEndpoint { device: device.to_owned() }
    } else {
        MptcpAction::RemoveEndpoint { device: device.to_owned() }
    }
}

} // verus!
