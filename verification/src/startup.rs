//! How the limiter is set up: where its limits come from, and what stands in the way.
use crate::config::{get_hypervisor_config, ConfigReport, PodConfig};
use crate::error::Error;
use crate::limiter::{Limiter, SharedMemory, ISOLATION_SOFT, UNLIMITED_SHARE};
use crate::pod_info::{cleaned_list, comma_parts, split_commas};
use crate::shared_state::{standalone_configs, DeviceConfig};
use crate::size_parser::{memory_limit, parse_memory_limit};
use crate::text::{chars_of, push_text, same_text, string_of, texts, trim};
use std::path::Path;
use vstd::prelude::*;

verus! {

/// Where the shared state is without a hypervisor.
pub const STANDALONE_SHM_PATH: &'static str = "/dev/shm/tensor-fusion";

/// Where the hypervisor puts the shared state.
pub const HYPERVISOR_SHM_PATH: &'static str = "/run/tensor-fusion/shm";

/// Where the shared state is: at a path from the environment, or at the default one.
pub fn shm_path(standalone: bool, path: Option<&str>) -> (r: String)
    ensures
        r@ == (match path {
            Some(p) => p@,
            None => if standalone {
                STANDALONE_SHM_PATH@
            } else {
                HYPERVISOR_SHM_PATH@
            },
        }),
        path is None && standalone ==> r@ == "/dev/shm/tensor-fusion"@,
        path is None && !standalone ==> r@ == "/run/tensor-fusion/shm"@,
        path matches Some(p) ==> r@ == p@,
{
    match path {
        Some(p) => p.to_string(),
        None => if standalone {
            STANDALONE_SHM_PATH.to_string()
        } else {
            HYPERVISOR_SHM_PATH.to_string()
        },
    }
}

/// The path without its last part, where it has one to take off.
pub uninterp spec fn parent_path(s: Seq<char>) -> Option<Seq<char>>;

/// A text as plain values.
pub open spec fn optional_text(t: Option<String>) -> Option<Seq<char>> {
    match t {
        Some(t) => Some(t@),
        None => None,
    }
}

/// A character of a plain file name.
pub open spec fn plain(c: char) -> bool {
    ('a' <= c && c <= 'z') || ('A' <= c && c <= 'Z') || ('0' <= c && c <= '9') || c == '_' || c
        == '-'
}

/// The path is a directory and a plain name in it: a slash between them, and a plain
/// character in front of the slash.
pub open spec fn is_named_in(path: Seq<char>, directory: Seq<char>, name: Seq<char>) -> bool {
    &&& path == directory + seq!['/'] + name
    &&& directory.len() > 0
    &&& plain(directory.last())
    &&& name.len() > 0
    &&& forall|i: int| 0 <= i < name.len() ==> plain(#[trigger] name[i])
}

/// Whatever directory and plain name a path is made of, this is the directory.
pub open spec fn is_directory_of(r: Option<Seq<char>>, path: Seq<char>) -> bool {
    forall|directory: Seq<char>, name: Seq<char>| #[trigger]
        is_named_in(path, directory, name) ==> r == Some(directory)
}

/// Trusted: `std::path::Path::parent` returns the path without its last part, or `None`
/// where there is none to take off; this depends on the path alone. Of a directory and a
/// plain name in it, it returns the directory.
#[verifier::external_body]
pub(crate) fn parent_of(path: &str) -> (r: Option<String>)
    ensures
        optional_text(r) == parent_path(path@),
        is_directory_of(optional_text(r), path@),
{
    Path::new(path).parent().map(|p| p.to_string_lossy().into_owned())
}

/// The directory of a path, given the path without its last part.
pub fn directory_of(path: &str, parent: Option<String>) -> (r: String)
    ensures
        r@ == (match parent {
            Some(p) => p@,
            None => path@,
        }),
{
    match parent {
        Some(p) => p,
        None => path.to_string(),
    }
}

/// Where the shared state of a local file is: in the directory of that file.
pub fn mock_shm_path(shm_file: Option<&str>) -> (r: Option<String>)
    ensures
        match shm_file {
            None => r is None,
            Some(file) => r is Some && r->0@ == (match parent_path(file@) {
                Some(p) => p,
                None => file@,
            }) && is_directory_of(parent_path(file@), file@),
        },
{
    match shm_file {
        None => None,
        Some(file) => {
            let parent = parent_of(file);
            Some(directory_of(file, parent))
        },
    }
}

/// The GPUs that a list from the environment names: the parts between its commas, without
/// white space, as far as anything is left of them.
pub fn visible_devices(value: &str) -> (uuids: Vec<String>)
    ensures
        texts(uuids@) == cleaned_list(comma_parts(value@), comma_parts(value@).len()),
{
    let parts = split_commas(value);
    assert(texts(parts@).len() == parts@.len());
    let mut uuids: Vec<String> = Vec::new();
    let mut i: usize = 0;
    assert(texts(uuids@) =~= Seq::empty());
    while i < parts.len()
        invariant
            i <= parts@.len(),
            texts(uuids@) == cleaned_list(texts(parts@), i as nat),
        decreases parts@.len() - i,
    {
        let v = chars_of(parts[i].as_str());
        let t = trim(v.as_slice());
        let ghost before = texts(uuids@);
        assert(texts(parts@)[i as int] == parts@[i as int]@);
        if t.len() > 0 {
            uuids.push(string_of(t.as_slice()));
            assert(texts(uuids@) =~= before.push(t@));
        }
        i = i + 1;
    }
    uuids
}

/// What the environment says about limits.
pub struct Environment {
    /// A limit for every GPU.
    pub memory_limit: Option<String>,
    /// A local file that stands in for a hypervisor's.
    pub shm_file: Option<String>,
    /// The GPUs to go with it.
    pub visible_devices: Option<String>,
    /// The address of the hypervisor.
    pub hypervisor_ip: Option<String>,
    /// The port of the hypervisor.
    pub hypervisor_port: Option<String>,
}

/// What is to be done next to set the limiter up.
pub enum InitStep {
    /// Find all GPUs, and limit each to so many bytes.
    Enumerate(u64),
    /// Set up for the given configuration.
    Build(PodConfig),
    /// Ask the hypervisor at an address and a port.
    Ask(String, String),
    /// Give up, for the given reason: no call will be limited.
    GiveUp(String),
}

/// A message made of two texts.
fn message(what: &str, detail: &str) -> (m: String)
    ensures
        m@ == what@ + detail@,
{
    let mut m = String::new();
    push_text(&mut m, what);
    push_text(&mut m, detail);
    assert(m@ =~= what@ + detail@);
    m
}

/// Decides what comes after the runtime library was loaded, or could not be. A limit in
/// the environment goes before a local file, and that before the hypervisor.
pub fn init_limiter(loaded: Result<(), String>, env: Environment) -> (step: InitStep)
    ensures
        match loaded {
            Err(reason) => step is GiveUp && step->GiveUp_0@
                == "failed to initialize HIP library: "@ + reason@,
            Ok(_) => match env.memory_limit {
                Some(limit) => match memory_limit(limit@) {
                    Some(bytes) => step == InitStep::Enumerate(bytes),
                    None => step is GiveUp && step->GiveUp_0@ == "invalid TF_MEMORY_LIMIT: "@
                        + limit@,
                },
                None => if env.shm_file is Some {
                    match env.visible_devices {
                        Some(list) => {
                            &&& step is Build
                            &&& texts(step->Build_0.gpu_uuids@) == cleaned_list(
                                comma_parts(list@),
                                comma_parts(list@).len(),
                            )
                            &&& step->Build_0.isolation is None
                        },
                        None => step is GiveUp && step->GiveUp_0@
                            == "TF_VISIBLE_DEVICES not set in mock/test mode; skipping limiter init"@,
                    }
                } else {
                    match (env.hypervisor_ip, env.hypervisor_port) {
                        (Some(ip), Some(port)) => step == InitStep::Ask(ip, port),
                        _ => step is GiveUp && step->GiveUp_0@
                            == "HYPERVISOR_IP or HYPERVISOR_PORT not set; skipping limiter init"@,
                    }
                },
            },
        },
{
    match loaded {
        Err(reason) => {
            return InitStep::GiveUp(
                message("failed to initialize HIP library: ", reason.as_str()),
            );
        },
        Ok(_) => {},
    }
    if let Some(limit) = &env.memory_limit {
        return match parse_memory_limit(limit.as_str()) {
            Some(bytes) => InitStep::Enumerate(bytes),
            None => InitStep::GiveUp(message("invalid TF_MEMORY_LIMIT: ", limit.as_str())),
        };
    }
    if env.shm_file.is_some() {
        return match &env.visible_devices {
            Some(list) => InitStep::Build(
                PodConfig { gpu_uuids: visible_devices(list.as_str()), isolation: None },
            ),
            None => InitStep::GiveUp(
                "TF_VISIBLE_DEVICES not set in mock/test mode; skipping limiter init".to_string(),
            ),
        };
    }
    match get_hypervisor_config(env.hypervisor_ip, env.hypervisor_port) {
        Some((ip, port)) => InitStep::Ask(ip, port),
        None => InitStep::GiveUp(
            "HYPERVISOR_IP or HYPERVISOR_PORT not set; skipping limiter init".to_string(),
        ),
    }
}

/// Decides what comes after the hypervisor was asked.
pub fn after_hypervisor(answer: Result<PodConfig, ConfigReport>) -> (step: InitStep)
    ensures
        match answer {
            Ok(config) => step == InitStep::Build(config),
            Err(report) => step is GiveUp && step->GiveUp_0@ == "failed to get device configs: "@
                + report.error.words(),
        },
{
    match answer {
        Ok(config) => InitStep::Build(config),
        Err(report) => {
            let words = report.error.message();
            InitStep::GiveUp(message("failed to get device configs: ", words.as_str()))
        },
    }
}

/// The set-up without a hypervisor.
pub struct StandalonePlan {
    /// The configurations to set the shared state up with.
    pub configs: Vec<DeviceConfig>,
    /// The configuration of the limiter: all GPUs, under soft isolation.
    pub pod: PodConfig,
}

/// Plans the set-up without a hypervisor for all GPUs that were found, by ordinal and PCI
/// address. Without any there is nothing to limit.
pub fn plan_standalone(
    devices: &[(i32, String)],
    mem_limit: u64,
) -> (r: Result<StandalonePlan, String>)
    requires
        forall|i: int| 0 <= i < devices@.len() ==> (#[trigger] devices@[i]).0 >= 0,
    ensures
        devices@.len() == 0 ==> r is Err && r->Err_0@
            == "TF_MEMORY_LIMIT set but no GPUs visible"@,
        devices@.len() > 0 ==> {
            &&& r is Ok
            &&& r->Ok_0.configs@.len() == devices@.len()
            &&& forall|i: int|
                0 <= i < devices@.len() ==> {
                    let config = #[trigger] r->Ok_0.configs@[i];
                    &&& config.device_idx == devices@[i].0
                    &&& config.device_uuid@ == devices@[i].1@
                    &&& config.mem_limit == mem_limit
                    &&& config.up_limit == UNLIMITED_SHARE
                    &&& config.up_limit == 100
                    &&& config.sm_count == 0
                    &&& config.max_thread_per_sm == 0
                    &&& config.total_cuda_cores == 0
                }
            &&& r->Ok_0.pod.gpu_uuids@.len() == devices@.len()
            &&& forall|i: int|
                0 <= i < devices@.len() ==> (#[trigger] r->Ok_0.pod.gpu_uuids@[i])@
                    == devices@[i].1@
            &&& r->Ok_0.pod.isolation is Some
            &&& r->Ok_0.pod.isolation->0@ == ISOLATION_SOFT@
            &&& r->Ok_0.pod.isolation->0@ == "soft"@
        },
{
    if devices.len() == 0 {
        return Err("TF_MEMORY_LIMIT set but no GPUs visible".to_string());
    }
    let configs = standalone_configs(devices, mem_limit);
    let mut gpu_uuids: Vec<String> = Vec::new();
    let mut i: usize = 0;
    while i < devices.len()
        invariant
            i <= devices@.len(),
            gpu_uuids@.len() == i,
            forall|j: int| 0 <= j < i ==> (#[trigger] gpu_uuids@[j])@ == devices@[j].1@,
        decreases devices@.len() - i,
    {
        gpu_uuids.push(devices[i].1.clone());
        i = i + 1;
    }
    Ok(
        StandalonePlan {
            configs,
            pod: PodConfig { gpu_uuids, isolation: Some(ISOLATION_SOFT.to_string()) },
        },
    )
}

/// Takes note of how setting up the limiter went. Where it failed, says so in words.
pub fn after_limiter(built: Result<Limiter, Error>) -> (r: Result<Limiter, String>)
    ensures
        match built {
            Ok(limiter) => r is Ok && r->Ok_0 == limiter,
            Err(e) => r is Err && r->Err_0@ == "failed to initialize limiter: "@ + e@.message(),
        },
{
    match built {
        Ok(limiter) => Ok(limiter),
        Err(e) => {
            let words = e.message();
            Err(message("failed to initialize limiter: ", words.as_str()))
        },
    }
}

/// The reason why there is no limiter, and whether it was reported.
pub struct LimiterErrors {
    first: Option<String>,
    reported: bool,
}

/// The reason and the report as plain values.
#[verifier::ext_equal]
pub struct ErrorsState {
    /// The first reason.
    pub first: Option<Seq<char>>,
    /// Whether it was reported.
    pub reported: bool,
}

impl View for LimiterErrors {
    type V = ErrorsState;

    closed spec fn view(&self) -> ErrorsState {
        ErrorsState { first: optional_text(self.first), reported: self.reported }
    }
}

impl LimiterErrors {
    /// Nothing went wrong yet.
    pub fn new() -> (errors: Self)
        ensures
            errors@ == (ErrorsState { first: None, reported: false }),
    {
        LimiterErrors { first: None, reported: false }
    }

    /// Records a reason, unless there is one already. Returns whether it was recorded.
    pub fn record_limiter_error(&mut self, message: String) -> (recorded: bool)
        ensures
            recorded == (old(self)@.first is None),
            final(self)@ == (ErrorsState {
                first: if recorded {
                    Some(message@)
                } else {
                    old(self)@.first
                },
                ..old(self)@
            }),
    {
        if self.first.is_none() {
            self.first = Some(message);
            true
        } else {
            false
        }
    }

    /// What is to be said when a call cannot be limited: the reason, the first time, and
    /// nothing from then on.
    pub fn report_limiter_not_initialized(&mut self) -> (r: Option<String>)
        ensures
            final(self)@ == (ErrorsState { reported: true, ..old(self)@ }),
            optional_text(r) == (if old(self)@.reported {
                None
            } else {
                match old(self)@.first {
                    Some(reason) => Some("Limiter not initialized; last error: "@ + reason),
                    None => Some("Limiter not initialized; init has not run"@),
                }
            }),
    {
        if self.reported {
            return None;
        }
        self.reported = true;
        match &self.first {
            Some(reason) => Some(
                message("Limiter not initialized; last error: ", reason.as_str()),
            ),
            None => Some("Limiter not initialized; init has not run".to_string()),
        }
    }
}

/// What is done about hooks once the limiter was set up, or could not be.
#[derive(Clone, Copy, PartialEq, Eq, Structural, Debug)]
pub enum HookPlan {
    /// There is no limiter: every call passes through.
    NoLimiter,
    /// The isolation asks for no limits.
    OtherIsolation,
    /// No device is limited.
    NoLimits,
    /// The hooks are put in place, those on the runtime at once where it is loaded.
    Install(bool),
}

/// Hooks are wanted under an isolation: soft, or none in particular.
pub open spec fn isolation_wants_hooks(isolation: Option<Seq<char>>) -> bool {
    match isolation {
        Some(text) => text == ISOLATION_SOFT@,
        None => true,
    }
}

/// Decides about hooks.
pub fn init_hooks(
    limiter: Option<&Limiter>,
    shm: &SharedMemory,
    skip_on_no_limit: bool,
    module_loaded: bool,
) -> (plan: HookPlan)
    ensures
        limiter matches Some(l) ==> (plan == HookPlan::OtherIsolation <==> l@.isolation is Some
            && l@.isolation->0 != "soft"@),
        limiter matches Some(l) ==> (plan == HookPlan::NoLimits ==> skip_on_no_limit && shm is Attached
            && forall|i: int|
            0 <= i < l@.devices.len() ==> shm.state().devices[(
            #[trigger] l@.devices[i]).0 as int].info.up_limit >= 100),
        limiter is Some && !skip_on_no_limit ==> plan == HookPlan::OtherIsolation || plan
            == HookPlan::Install(module_loaded),
        match limiter {
            None => plan == HookPlan::NoLimiter,
            Some(limiter) => {
                let unlimited = shm is Attached && forall|i: int|
                    0 <= i < limiter@.devices.len() ==> {
                        let index = (#[trigger] limiter@.devices[i]).0;
                        shm.state().has(index) && shm.state().info(index).up_limit
                            >= UNLIMITED_SHARE
                    };
                plan == if !isolation_wants_hooks(limiter@.isolation) {
                    HookPlan::OtherIsolation
                } else if skip_on_no_limit && unlimited {
                    HookPlan::NoLimits
                } else {
                    HookPlan::Install(module_loaded)
                }
            },
        },
{
    match limiter {
        None => HookPlan::NoLimiter,
        Some(limiter) => {
            let wanted = match limiter.isolation() {
                Some(text) => same_text(text, ISOLATION_SOFT),
                None => true,
            };
            if !wanted {
                return HookPlan::OtherIsolation;
            }
            let unlimited = limiter.all_devices_unlimited(shm);
            if skip_on_no_limit && unlimited {
                return HookPlan::NoLimits;
            }
            HookPlan::Install(module_loaded)
        },
    }
}

/// Hooks are wanted under soft isolation and where none was asked for, and under no other.
pub proof fn law_only_soft_isolation_is_enforced(text: Seq<char>)
    ensures
        isolation_wants_hooks(Some(text)) <==> text == "soft"@,
        isolation_wants_hooks(None),
{
}

} // verus!
