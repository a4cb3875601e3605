//! The local agent's start-up configuration and its validation.

use vstd::prelude::*;
use crate::convert::{AppId, Port, VmId};

verus! {

use vstd::string::StrSliceExecFns;

/// One managed container: the tenant it serves, the script that can
/// launch it, its container name, and optional fixed control-group path
/// and port.
#[derive(Clone, Debug)]
pub struct PreloadMap {
    pub id: AppId,
    pub script: String,
    pub docker_name: String,
    pub launch: Option<bool>,
    pub cgroup_map: Option<String>,
    pub port: Option<Port>,
}

/// The agent's configuration file.
#[derive(Clone, Debug)]
pub struct InitConfig {
    pub id_preload_map: Vec<PreloadMap>,
    pub id_benchmark_map: Vec<(AppId, String)>,
    pub memory_dev_name: String,
    pub memory_ip: String,
    pub global_ip: String,
    pub config_path: Option<Vec<(AppId, String)>>,
    pub init_script: Option<String>,
    pub enable_mrc: Option<bool>,
    pub vm_id: Option<VmId>,
}

/// A container binding the agent can start from: the container is
/// named, and a binding asked to launch brings a launch script.
pub open spec fn preload_entry_valid(e: PreloadMap) -> bool {
    &&& e.docker_name@.len() > 0
    &&& (e.launch == Some(true) ==> e.script@.len() > 0)
}

/// Whether a configuration can start the agent: every container
/// binding is valid.  An invalid configuration is fatal at start-up.
pub fn precheck_config(config: &InitConfig) -> (r: bool)
    ensures
        r == forall|i: int|
            0 <= i < config.id_preload_map@.len() ==> preload_entry_valid(
                #[trigger] config.id_preload_map@[i],
            ),
{
    let mut i: usize = 0;
    while i < config.id_preload_map.len()
        invariant
            i <= config.id_preload_map@.len(),
            forall|j: int|
                0 <= j < i ==> preload_entry_valid(#[trigger] config.id_preload_map@[j]),
        decreases config.id_preload_map@.len() - i,
    {
        let e = &config.id_preload_map[i];
        if e.docker_name.as_str().unicode_len() == 0 {
            return false;
        }
        let must_launch = match e.launch {
            Some(b) => b,
            None => false,
        };
        if must_launch && e.script.as_str().unicode_len() == 0 {
            return false;
        }
        i = i + 1;
    }
    true
}

} // verus!
