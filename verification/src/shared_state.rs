//! The state that all processes of a pod share: one entry per device, with its
//! limit and its usage.
use crate::counter::{
    counter_add, counter_back, counter_sub, fetch_add, fetch_sub, saturating_fetch_sub,
};
use crate::proc_slots::MAX_DEVICES;
use vstd::prelude::*;

verus! {

/// The largest age of a heartbeat that still counts as fresh, in seconds.
pub const HEARTBEAT_SECS: u64 = 2;

/// Whether the hypervisor was last seen too long ago. Without a hypervisor its silence is
/// no cause for concern.
pub fn heartbeat_is_stale(standalone: bool, now: u64, last: u64) -> (b: bool)
    ensures
        b == (!standalone && counter_sub(now, last) > HEARTBEAT_SECS),
        b <==> !standalone && now > last + 2,
{
    !standalone && now.saturating_sub(last) > HEARTBEAT_SECS
}

/// How one device is to be set up.
pub struct DeviceConfig {
    /// The place of the device in the shared state.
    pub device_idx: u32,
    /// The identifier of the GPU.
    pub device_uuid: String,
    /// The share of compute that may be used, in percent.
    pub up_limit: u32,
    /// The memory that may be used, in bytes.
    pub mem_limit: u64,
    /// The number of multiprocessors.
    pub sm_count: u32,
    /// The number of threads per multiprocessor.
    pub max_thread_per_sm: u32,
    /// The number of cores.
    pub total_cuda_cores: u32,
}

/// The limits and the usage of one device.
#[derive(Clone, Copy)]
pub struct SharedDeviceInfo {
    /// The number of cores.
    pub total_cores: u32,
    /// The share of compute that may be used, in percent.
    pub up_limit: u32,
    /// The memory that may be used, in bytes.
    pub mem_limit: u64,
    /// The memory in use by all processes, in bytes.
    pub pod_memory_used: u64,
    /// A tighter memory limit; zero where none has been computed.
    pub effective_mem_limit: u64,
}

impl SharedDeviceInfo {
    /// The memory limit in force.
    pub open spec fn limit(self) -> u64 {
        if self.effective_mem_limit > 0 {
            self.effective_mem_limit
        } else {
            self.mem_limit
        }
    }

    /// A device that nobody uses yet.
    pub fn new(total_cores: u32, up_limit: u32, mem_limit: u64) -> (info: Self)
        ensures
            info == (SharedDeviceInfo {
                total_cores,
                up_limit,
                mem_limit,
                pod_memory_used: 0,
                effective_mem_limit: 0,
            }),
    {
        SharedDeviceInfo {
            total_cores,
            up_limit,
            mem_limit,
            pod_memory_used: 0,
            effective_mem_limit: 0,
        }
    }

    /// The configured memory limit.
    pub fn get_mem_limit(&self) -> (limit: u64)
        ensures
            limit == self.mem_limit,
    {
        self.mem_limit
    }

    /// The memory in use.
    pub fn get_pod_memory_used(&self) -> (used: u64)
        ensures
            used == self.pod_memory_used,
    {
        self.pod_memory_used
    }

    /// Sets the memory in use.
    pub fn set_pod_memory_used(&mut self, used: u64)
        ensures
            *final(self) == (SharedDeviceInfo { pod_memory_used: used, ..*old(self) }),
    {
        self.pod_memory_used = used;
    }

    /// The tighter memory limit, or zero.
    pub fn get_effective_mem_limit(&self) -> (limit: u64)
        ensures
            limit == self.effective_mem_limit,
    {
        self.effective_mem_limit
    }

    /// Sets the tighter memory limit; zero puts the configured one in force again.
    pub fn set_effective_mem_limit(&mut self, limit: u64)
        ensures
            *final(self) == (SharedDeviceInfo { effective_mem_limit: limit, ..*old(self) }),
    {
        self.effective_mem_limit = limit;
    }

    /// The memory limit in force.
    pub fn active_limit(&self) -> (limit: u64)
        ensures
            limit == self.limit(),
    {
        if self.effective_mem_limit > 0 {
            self.effective_mem_limit
        } else {
            self.mem_limit
        }
    }
}

/// One device of the shared state.
#[derive(Clone)]
pub struct DeviceEntry {
    /// The identifier of the GPU.
    pub uuid: String,
    /// Whether the entry is in use.
    pub is_active: bool,
    /// The limits and the usage.
    pub device_info: SharedDeviceInfo,
}

/// An entry as plain values.
#[verifier::ext_equal]
pub struct EntryState {
    /// The identifier of the GPU.
    pub uuid: Seq<char>,
    /// Whether the entry is in use.
    pub is_active: bool,
    /// The limits and the usage.
    pub info: SharedDeviceInfo,
}

impl View for DeviceEntry {
    type V = EntryState;

    open spec fn view(&self) -> EntryState {
        EntryState { uuid: self.uuid@, is_active: self.is_active, info: self.device_info }
    }
}

/// The shared state as plain values.
#[verifier::ext_equal]
pub struct DevicesState {
    /// The entries.
    pub devices: Seq<EntryState>,
    /// When the hypervisor was last seen, in seconds.
    pub last_heartbeat: u64,
}

/// An entry that is not in use.
pub open spec fn unused_entry() -> EntryState {
    EntryState {
        uuid: Seq::empty(),
        is_active: false,
        info: SharedDeviceInfo {
            total_cores: 0,
            up_limit: 0,
            mem_limit: 0,
            pod_memory_used: 0,
            effective_mem_limit: 0,
        },
    }
}

/// The entry that a configuration asks for.
pub open spec fn configured_entry(config: DeviceConfig) -> EntryState {
    EntryState {
        uuid: config.device_uuid@,
        is_active: true,
        info: SharedDeviceInfo {
            total_cores: config.total_cuda_cores,
            up_limit: config.up_limit,
            mem_limit: config.mem_limit,
            pod_memory_used: 0,
            effective_mem_limit: 0,
        },
    }
}

/// The entries after the first `n` configurations were put in place. One whose place
/// is out of range is left out, and a later one takes the place of an earlier.
pub open spec fn configured_entries(configs: Seq<DeviceConfig>, n: nat) -> Seq<EntryState>
    decreases n,
{
    if n == 0 {
        Seq::new(MAX_DEVICES as nat, |i: int| unused_entry())
    } else {
        let rest = configured_entries(configs, (n - 1) as nat);
        let config = configs[n - 1];
        if config.device_idx < MAX_DEVICES {
            rest.update(config.device_idx as int, configured_entry(config))
        } else {
            rest
        }
    }
}

/// The number of entries in use among the first `n`.
pub open spec fn active_count(devices: Seq<EntryState>, n: nat) -> nat
    decreases n,
{
    if n == 0 {
        0
    } else {
        active_count(devices, (n - 1) as nat) + (if devices[n - 1].is_active {
            1nat
        } else {
            0
        })
    }
}

impl DevicesState {
    /// A device can be used.
    pub open spec fn has(self, device_idx: usize) -> bool {
        device_idx < self.devices.len() && self.devices[device_idx as int].is_active
    }

    /// The limits and the usage of a device.
    pub open spec fn info(self, device_idx: usize) -> SharedDeviceInfo {
        self.devices[device_idx as int].info
    }

    /// The state with other limits and usage of one device.
    pub open spec fn with_info(self, device_idx: usize, info: SharedDeviceInfo) -> DevicesState {
        DevicesState {
            devices: self.devices.update(
                device_idx as int,
                (EntryState { info, ..self.devices[device_idx as int] }),
            ),
            ..self
        }
    }

    /// The state with another usage of one device; a device that cannot be used is
    /// left alone.
    pub open spec fn with_used(self, device_idx: usize, used: u64) -> DevicesState {
        if self.has(device_idx) {
            self.with_info(
                device_idx,
                (SharedDeviceInfo { pod_memory_used: used, ..self.info(device_idx) }),
            )
        } else {
            self
        }
    }

    /// The state after bytes were released on a device.
    pub open spec fn released(self, device_idx: usize, size: u64) -> DevicesState {
        self.with_used(device_idx, counter_sub(self.info(device_idx).pod_memory_used, size))
    }
}

/// The state that all processes of a pod share.
#[derive(Clone)]
pub struct SharedDeviceState {
    devices: Vec<DeviceEntry>,
    last_heartbeat: u64,
}

impl View for SharedDeviceState {
    type V = DevicesState;

    closed spec fn view(&self) -> DevicesState {
        DevicesState {
            devices: Seq::new(self.devices@.len(), |i: int| self.devices@[i]@),
            last_heartbeat: self.last_heartbeat,
        }
    }
}

impl SharedDeviceState {
    /// Fresh state for the given configurations, with nothing in use.
    pub fn new(configs: &[DeviceConfig]) -> (state: Self)
        ensures
            state@ == (DevicesState {
                devices: configured_entries(configs@, configs@.len()),
                last_heartbeat: 0,
            }),
    {
        let mut devices: Vec<DeviceEntry> = Vec::new();
        let mut i: usize = 0;
        while i < MAX_DEVICES
            invariant
                i <= MAX_DEVICES,
                devices@.len() == i,
                forall|j: int| 0 <= j < i ==> (#[trigger] devices@[j])@ == unused_entry(),
            decreases MAX_DEVICES - i,
        {
            let uuid = String::new();
            assert(uuid@ =~= Seq::empty());
            devices.push(
                DeviceEntry { uuid, is_active: false, device_info: SharedDeviceInfo::new(0, 0, 0) },
            );
            i = i + 1;
        }
        let mut k: usize = 0;
        let ghost placed = |devices: Seq<DeviceEntry>| Seq::new(devices.len(), |j: int| devices[j]@);
        assert(placed(devices@) =~= configured_entries(configs@, 0));
        while k < configs.len()
            invariant
                k <= configs@.len(),
                devices@.len() == MAX_DEVICES,
                placed == (|devices: Seq<DeviceEntry>|
                    Seq::new(devices.len(), |j: int| devices[j]@)),
                placed(devices@) == configured_entries(configs@, k as nat),
            decreases configs@.len() - k,
        {
            let place: usize = configs[k].device_idx as usize;
            let ghost before = devices@;
            if place < MAX_DEVICES {
                devices[place] = DeviceEntry {
                    uuid: configs[k].device_uuid.clone(),
                    is_active: true,
                    device_info: SharedDeviceInfo::new(
                        configs[k].total_cuda_cores,
                        configs[k].up_limit,
                        configs[k].mem_limit,
                    ),
                };
                assert(placed(devices@) =~= placed(before).update(
                    place as int,
                    configured_entry(configs@[k as int]),
                ));
            }
            k = k + 1;
        }
        SharedDeviceState { devices, last_heartbeat: 0 }
    }

    /// The number of devices that there is room for.
    pub fn places(&self) -> (n: usize)
        ensures
            n == self@.devices.len(),
    {
        self.devices.len()
    }

    /// The number of devices in use.
    pub fn device_count(&self) -> (n: usize)
        ensures
            n == active_count(self@.devices, self@.devices.len()),
    {
        let mut n: usize = 0;
        let mut i: usize = 0;
        while i < self.devices.len()
            invariant
                i <= self.devices@.len(),
                n <= i,
                n == active_count(self@.devices, i as nat),
            decreases self.devices@.len() - i,
        {
            if self.devices[i].is_active {
                n = n + 1;
            }
            i = i + 1;
        }
        n
    }

    /// The version of the layout.
    pub fn get_version(&self) -> (version: u32)
        ensures
            version == 2,
    {
        2
    }

    /// Identifier, cores, memory limit, memory in use, compute share and activity of
    /// a device in use.
    pub fn get_device_info(
        &self,
        device_idx: usize,
    ) -> (r: Option<(String, u32, u64, u64, u32, bool)>)
        ensures
            r is Some <==> self@.has(device_idx),
            r matches Some(t) ==> {
                let entry = self@.devices[device_idx as int];
                &&& t.0@ == entry.uuid
                &&& t.1 == entry.info.total_cores
                &&& t.2 == entry.info.mem_limit
                &&& t.3 == entry.info.pod_memory_used
                &&& t.4 == entry.info.up_limit
                &&& t.5 == entry.is_active
            },
    {
        if device_idx < self.devices.len() && self.devices[device_idx].is_active {
            let entry = &self.devices[device_idx];
            Some(
                (
                    entry.uuid.clone(),
                    entry.device_info.total_cores,
                    entry.device_info.mem_limit,
                    entry.device_info.pod_memory_used,
                    entry.device_info.up_limit,
                    entry.is_active,
                ),
            )
        } else {
            None
        }
    }

    /// The limits and the usage of a device in use.
    pub fn device(&self, device_idx: usize) -> (r: Option<SharedDeviceInfo>)
        ensures
            r == (if self@.has(device_idx) {
                Some(self@.info(device_idx))
            } else {
                None
            }),
    {
        if device_idx < self.devices.len() && self.devices[device_idx].is_active {
            Some(self.devices[device_idx].device_info)
        } else {
            None
        }
    }

    /// Sets the memory in use on a device. Returns whether the device is in use.
    pub fn set_pod_memory_used(&mut self, device_idx: usize, used: u64) -> (found: bool)
        ensures
            found == old(self)@.has(device_idx),
            final(self)@ == old(self)@.with_used(device_idx, used),
    {
        if device_idx < self.devices.len() && self.devices[device_idx].is_active {
            self.devices[device_idx].device_info.set_pod_memory_used(used);
            assert(self@ =~= old(self)@.with_used(device_idx, used));
            true
        } else {
            false
        }
    }

    /// Sets the tighter memory limit of a device. Returns whether the device is in
    /// use.
    pub fn set_effective_mem_limit(&mut self, device_idx: usize, limit: u64) -> (found: bool)
        ensures
            found == old(self)@.has(device_idx),
            final(self)@ == (if old(self)@.has(device_idx) {
                old(self)@.with_info(
                    device_idx,
                    (SharedDeviceInfo {
                        effective_mem_limit: limit,
                        ..old(self)@.info(device_idx)
                    }),
                )
            } else {
                old(self)@
            }),
    {
        if device_idx < self.devices.len() && self.devices[device_idx].is_active {
            self.devices[device_idx].device_info.set_effective_mem_limit(limit);
            assert(self@ =~= old(self)@.with_info(
                device_idx,
                (SharedDeviceInfo { effective_mem_limit: limit, ..old(self)@.info(device_idx) }),
            ));
            true
        } else {
            false
        }
    }

    /// Adds bytes to the usage of a device, and returns the usage before and the
    /// limit in force.
    pub fn reserve(&mut self, device_idx: usize, size: u64) -> (r: Option<(u64, u64)>)
        ensures
            r == (if old(self)@.has(device_idx) {
                Some((old(self)@.info(device_idx).pod_memory_used, old(self)@.info(device_idx).limit()))
            } else {
                None
            }),
            final(self)@ == old(self)@.with_used(
                device_idx,
                counter_add(old(self)@.info(device_idx).pod_memory_used, size),
            ),
    {
        if device_idx < self.devices.len() && self.devices[device_idx].is_active {
            let limit: u64 = self.devices[device_idx].device_info.active_limit();
            let previous: u64 = fetch_add(
                &mut self.devices[device_idx].device_info.pod_memory_used,
                size,
            );
            assert(self@ =~= old(self)@.with_used(
                device_idx,
                counter_add(old(self)@.info(device_idx).pod_memory_used, size),
            ));
            Some((previous, limit))
        } else {
            None
        }
    }

    /// Takes a reservation back from the usage of a device, which restores it.
    pub fn unreserve(&mut self, device_idx: usize, size: u64)
        ensures
            final(self)@ == old(self)@.with_used(
                device_idx,
                counter_back(old(self)@.info(device_idx).pod_memory_used, size),
            ),
    {
        if device_idx < self.devices.len() && self.devices[device_idx].is_active {
            fetch_sub(&mut self.devices[device_idx].device_info.pod_memory_used, size);
            assert(self@ =~= old(self)@.with_used(
                device_idx,
                counter_back(old(self)@.info(device_idx).pod_memory_used, size),
            ));
        }
    }

    /// Takes bytes from the usage of a device, down to zero at most.
    pub fn release(&mut self, device_idx: usize, size: u64)
        ensures
            final(self)@ == old(self)@.released(device_idx, size),
    {
        if device_idx < self.devices.len() && self.devices[device_idx].is_active {
            saturating_fetch_sub(
                &mut self.devices[device_idx].device_info.pod_memory_used,
                size,
            );
            assert(self@ =~= old(self)@.released(device_idx, size));
        }
    }

    /// Records when the hypervisor was last seen.
    pub fn update_heartbeat(&mut self, timestamp: u64)
        ensures
            final(self)@ == (DevicesState { last_heartbeat: timestamp, ..old(self)@ }),
    {
        self.last_heartbeat = timestamp;
        assert(self@.devices =~= old(self)@.devices);
    }

    /// When the hypervisor was last seen.
    pub fn get_last_heartbeat(&self) -> (timestamp: u64)
        ensures
            timestamp == self@.last_heartbeat,
    {
        self.last_heartbeat
    }
}

/// The configurations that stand in for those of a hypervisor: each device may use
/// eighty percent of its compute and eight gibibytes of memory.
pub open spec fn is_mock_config(pair: (usize, Seq<char>), config: DeviceConfig) -> bool {
    &&& config.device_idx == (pair.0 as int) % 0x1_0000_0000
    &&& config.device_uuid@ == pair.1
    &&& config.up_limit == 80
    &&& config.mem_limit == 8 * 1024 * 1024 * 1024
    &&& config.sm_count == 82
    &&& config.max_thread_per_sm == 1536
    &&& config.total_cuda_cores == 2048
}

/// The configurations that stand in for those of a hypervisor.
pub fn mock_configs(gpu_idx_uuids: &[(usize, String)]) -> (configs: Vec<DeviceConfig>)
    ensures
        configs@.len() == gpu_idx_uuids@.len(),
        forall|i: int|
            0 <= i < configs@.len() ==> is_mock_config(
                (gpu_idx_uuids@[i].0, gpu_idx_uuids@[i].1@),
                #[trigger] configs@[i],
            ),
        forall|i: int|
            0 <= i < configs@.len() ==> {
                let config = #[trigger] configs@[i];
                &&& config.device_uuid@ == gpu_idx_uuids@[i].1@
                &&& gpu_idx_uuids@[i].0 <= u32::MAX ==> config.device_idx == gpu_idx_uuids@[i].0
                &&& config.up_limit == 80
                &&& config.mem_limit == 0x2_0000_0000
                &&& config.sm_count == 82
                &&& config.max_thread_per_sm == 1536
                &&& config.total_cuda_cores == 2048
            },
{
    let mut configs: Vec<DeviceConfig> = Vec::new();
    let mut i: usize = 0;
    while i < gpu_idx_uuids.len()
        invariant
            i <= gpu_idx_uuids@.len(),
            configs@.len() == i,
            forall|j: int|
                0 <= j < i ==> is_mock_config(
                    (gpu_idx_uuids@[j].0, gpu_idx_uuids@[j].1@),
                    #[trigger] configs@[j],
                ),
        decreases gpu_idx_uuids@.len() - i,
    {
        let device_idx: u32 = (gpu_idx_uuids[i].0 as u64 % 0x1_0000_0000) as u32;
        configs.push(
            DeviceConfig {
                device_idx,
                device_uuid: gpu_idx_uuids[i].1.clone(),
                up_limit: 80,
                mem_limit: 8 * 1024 * 1024 * 1024,
                sm_count: 82,
                max_thread_per_sm: 1536,
                total_cuda_cores: 2048,
            },
        );
        i = i + 1;
    }
    configs
}

/// The configurations for a limit given in the environment: every GPU may use so
/// much memory and all of its compute.
pub fn standalone_configs(
    gpu_idx_uuids: &[(i32, String)],
    mem_limit: u64,
) -> (configs: Vec<DeviceConfig>)
    requires
        forall|i: int| 0 <= i < gpu_idx_uuids@.len() ==> (#[trigger] gpu_idx_uuids@[i]).0 >= 0,
    ensures
        configs@.len() == gpu_idx_uuids@.len(),
        forall|i: int|
            0 <= i < configs@.len() ==> {
                let config = #[trigger] configs@[i];
                &&& config.device_idx == gpu_idx_uuids@[i].0
                &&& config.device_uuid@ == gpu_idx_uuids@[i].1@
                &&& config.up_limit == 100
                &&& config.mem_limit == mem_limit
                &&& config.sm_count == 0
                &&& config.max_thread_per_sm == 0
                &&& config.total_cuda_cores == 0
            },
{
    let mut configs: Vec<DeviceConfig> = Vec::new();
    let mut i: usize = 0;
    while i < gpu_idx_uuids.len()
        invariant
            i <= gpu_idx_uuids@.len(),
            configs@.len() == i,
            forall|j: int| 0 <= j < gpu_idx_uuids@.len() ==> (#[trigger] gpu_idx_uuids@[j]).0 >= 0,
            forall|j: int|
                0 <= j < i ==> {
                    let config = #[trigger] configs@[j];
                    &&& config.device_idx == gpu_idx_uuids@[j].0
                    &&& config.device_uuid@ == gpu_idx_uuids@[j].1@
                    &&& config.up_limit == 100
                    &&& config.mem_limit == mem_limit
                    &&& config.sm_count == 0
                    &&& config.max_thread_per_sm == 0
                    &&& config.total_cuda_cores == 0
                },
        decreases gpu_idx_uuids@.len() - i,
    {
        assert(gpu_idx_uuids@[i as int].0 >= 0);
        configs.push(
            DeviceConfig {
                device_idx: gpu_idx_uuids[i].0 as u32,
                device_uuid: gpu_idx_uuids[i].1.clone(),
                up_limit: 100,
                mem_limit,
                sm_count: 0,
                max_thread_per_sm: 0,
                total_cuda_cores: 0,
            },
        );
        i = i + 1;
    }
    configs
}

/// The limit in force is the tighter one where there is one, and the configured one
/// otherwise.
pub proof fn law_limit_in_force(info: SharedDeviceInfo)
    ensures
        info.effective_mem_limit == 0 ==> info.limit() == info.mem_limit,
        info.effective_mem_limit != 0 ==> info.limit() == info.effective_mem_limit,
{
}

/// Setting the usage of a device, and releasing bytes on it, change that number and nothing
/// else; of a device that is not in use they change nothing at all.
pub proof fn law_usage_of_one_device(s: DevicesState, device_idx: usize, used: u64, size: u64)
    ensures
        s.has(device_idx) <==> device_idx < s.devices.len()
            && s.devices[device_idx as int].is_active,
        !s.has(device_idx) ==> s.with_used(device_idx, used) == s && s.released(device_idx, size)
            == s,
        s.with_used(device_idx, used).devices.len() == s.devices.len(),
        s.with_used(device_idx, used).last_heartbeat == s.last_heartbeat,
        s.has(device_idx) ==> {
            let before = s.devices[device_idx as int];
            let set = s.with_used(device_idx, used).devices[device_idx as int];
            let less = s.released(device_idx, size).devices[device_idx as int];
            &&& set.info.pod_memory_used == used
            &&& set.uuid == before.uuid
            &&& set.is_active
            &&& set.info.mem_limit == before.info.mem_limit
            &&& set.info.effective_mem_limit == before.info.effective_mem_limit
            &&& set.info.up_limit == before.info.up_limit
            &&& set.info.total_cores == before.info.total_cores
            &&& less.info.pod_memory_used == (if before.info.pod_memory_used >= size {
                before.info.pod_memory_used - size
            } else {
                0
            })
            &&& s.released(device_idx, size) == s.with_used(device_idx, less.info.pod_memory_used)
        },
        forall|other: int|
            0 <= other < s.devices.len() && other != device_idx ==> #[trigger] s.with_used(
                device_idx,
                used,
            ).devices[other] == s.devices[other],
{
}

/// There is room for sixteen devices. The last configuration of a place decides about it:
/// the device there has its identifier and its limits, and nothing in use. A place without
/// a configuration is not in use.
pub proof fn law_configured_places(configs: Seq<DeviceConfig>, n: nat, place: int)
    requires
        n <= configs.len(),
        0 <= place < 16,
    ensures
        configured_entries(configs, n).len() == 16,
        forall|k: int|
            0 <= k < n && (#[trigger] configs[k]).device_idx == place && (forall|l: int|
                k < l < n ==> (#[trigger] configs[l]).device_idx != place) ==> {
                let entry = configured_entries(configs, n)[place];
                &&& entry.is_active
                &&& entry.uuid == configs[k].device_uuid@
                &&& entry.info.mem_limit == configs[k].mem_limit
                &&& entry.info.up_limit == configs[k].up_limit
                &&& entry.info.total_cores == configs[k].total_cuda_cores
                &&& entry.info.pod_memory_used == 0
                &&& entry.info.effective_mem_limit == 0
            },
        (forall|k: int| 0 <= k < n ==> (#[trigger] configs[k]).device_idx != place)
            ==> !configured_entries(configs, n)[place].is_active,
    decreases n,
{
    if n > 0 {
        let m = (n - 1) as nat;
        law_configured_places(configs, m, place);
        let last = configs[n - 1];
        if last.device_idx != place {
            assert forall|k: int|
                0 <= k < n && (#[trigger] configs[k]).device_idx == place && (forall|l: int|
                    k < l < n ==> (#[trigger] configs[l]).device_idx != place) implies k < m && (
            forall|l: int| k < l < m ==> (#[trigger] configs[l]).device_idx != place) by {}
        } else {
            assert forall|k: int|
                0 <= k < n && (#[trigger] configs[k]).device_idx == place && (forall|l: int|
                    k < l < n ==> (#[trigger] configs[l]).device_idx != place) implies k == n
                - 1 by {
                if k < n - 1 {
                    assert(configs[n - 1].device_idx != place);
                }
            }
        }
    }
}

/// The number of devices in use grows by one with each that is put to use.
pub proof fn law_devices_are_counted(devices: Seq<EntryState>, n: nat, i: int, entry: EntryState)
    requires
        n <= devices.len(),
        0 <= i < n,
        entry.is_active,
        !devices[i].is_active,
    ensures
        active_count(devices, n) <= n,
        active_count(devices.update(i, entry), n) == active_count(devices, n) + 1,
    decreases n,
{
    if i == n - 1 {
        lemma_count_of_others(devices, (n - 1) as nat, i, entry);
        lemma_count_bound(devices, n);
    } else {
        law_devices_are_counted(devices, (n - 1) as nat, i, entry);
        lemma_count_bound(devices, n);
    }
}

proof fn lemma_count_bound(devices: Seq<EntryState>, n: nat)
    ensures
        active_count(devices, n) <= n,
    decreases n,
{
    if n > 0 {
        lemma_count_bound(devices, (n - 1) as nat);
    }
}

proof fn lemma_count_of_others(devices: Seq<EntryState>, n: nat, i: int, entry: EntryState)
    requires
        n <= i < devices.len(),
    ensures
        active_count(devices.update(i, entry), n) == active_count(devices, n),
    decreases n,
{
    if n > 0 {
        lemma_count_of_others(devices, (n - 1) as nat, i, entry);
    }
}

} // verus!
