//! The accounting of one process against the limits of its pod.
use crate::caches::{devices_get, devices_insert, devices_new, known_devices};
use crate::counter::{
    counter_add, counter_sub, fetch_add, fits, within_limit, MAX_ALLOC_SIZE,
};
use crate::devices::{
    configured_at, enumeration, find_configured, indexed, resolve_device_indices, resolves,
};
use crate::error::{Error, ErrorState};
use crate::hip::HIP_SUCCESS;
use crate::shared_state::{DevicesState, EntryState, SharedDeviceInfo, SharedDeviceState};
use crate::text::{
    is_sorted_set, lowercased, push_decimal, push_signed, push_text, signed, sorted_set, texts,
    to_lowercase, written,
};
use crate::tracker::{
    device_bytes, lemma_no_device_bytes, lemma_weighed_items, lemma_weighed_le, lists, live,
    live_clear, live_insert, live_items, live_len, live_new, live_remove, on_device,
    sum_device_items, sum_fits, sum_items, total_bytes,
};
use dashmap::DashMap;
use vstd::prelude::*;

verus! {

/// The isolation under which memory limits are enforced.
pub const ISOLATION_SOFT: &'static str = "soft";

/// How many allocations lie between two checks of the books.
pub const CHECK_INTERVAL: u64 = 100;

/// The difference, in mebibytes, from which on the books count as drifting.
pub const DRIFT_MIB: i64 = 100;

/// A compute share from which on a device counts as unlimited, in percent.
pub const UNLIMITED_SHARE: u32 = 100;

/// The bytes of a mebibyte.
pub const MIB: u64 = 0x10_0000;

/// The shared state as a process sees it.
pub enum SharedMemory {
    /// It can be used.
    Attached(SharedDeviceState),
    /// It cannot be used, for a reason.
    Unavailable(String),
}

impl SharedMemory {
    /// The shared state; meaningful where it can be used.
    pub open spec fn state(self) -> DevicesState {
        self->Attached_0@
    }

    /// The two views differ in the shared state at most, which is now `state`.
    pub open spec fn becomes(self, end: SharedMemory, state: DevicesState) -> bool {
        &&& self is Attached ==> end is Attached && end.state() == state
        &&& self is Unavailable ==> end == self
    }

    /// Nothing was opened yet.
    pub fn new() -> (shm: Self)
        ensures
            shm matches SharedMemory::Unavailable(reason) && reason@
                == "shared memory has not been opened"@,
    {
        let mut reason = String::new();
        push_text(&mut reason, "shared memory has not been opened");
        assert(reason@ =~= "shared memory has not been opened"@);
        SharedMemory::Unavailable(reason)
    }

    /// Puts shared state in place that this process has set up itself. Fails where
    /// there is some already.
    pub fn set_shared_memory_handle(&mut self, state: SharedDeviceState) -> (r: Result<(), Error>)
        ensures
            *old(self) is Attached ==> r is Err && r->Err_0@ == ErrorState::SharedMemory(
                "SHM handle already set"@,
            ) && *final(self) == *old(self),
            *old(self) is Unavailable ==> r is Ok && *final(self) == SharedMemory::Attached(state),
    {
        match self {
            SharedMemory::Attached(_) => {
                let mut reason = String::new();
                push_text(&mut reason, "SHM handle already set");
                assert(reason@ =~= "SHM handle already set"@);
                Err(Error::SharedMemory(reason))
            },
            SharedMemory::Unavailable(_) => {
                *self = SharedMemory::Attached(state);
                Ok(())
            },
        }
    }

    /// Makes use of an attempt to open the shared state, unless it can be used
    /// already. A failed attempt is reported and may be repeated.
    pub fn get_or_init(
        &mut self,
        opened: Result<SharedDeviceState, String>,
    ) -> (r: Result<(), Error>)
        ensures
            *old(self) is Attached ==> r is Ok && *final(self) == *old(self),
            *old(self) is Unavailable ==> match opened {
                Ok(state) => r is Ok && *final(self) == SharedMemory::Attached(state),
                Err(reason) => {
                    &&& r is Err
                    &&& r->Err_0@ == ErrorState::SharedMemory(reason@)
                    &&& *final(self) == SharedMemory::Unavailable(reason)
                },
            },
    {
        match self {
            SharedMemory::Attached(_) => Ok(()),
            SharedMemory::Unavailable(_) => match opened {
                Ok(state) => {
                    *self = SharedMemory::Attached(state);
                    Ok(())
                },
                Err(reason) => {
                    *self = SharedMemory::Unavailable(reason.clone());
                    Err(Error::SharedMemory(reason))
                },
            },
        }
    }
}

/// How a device of the shared state is named in a failure.
pub open spec fn shm_device_name(device_idx: usize) -> Seq<char> {
    "SHM device "@ + written(device_idx as nat, 10)
}

/// The failure of a device that the shared state does not have.
pub fn shm_device_missing(device_idx: usize) -> (e: Error)
    ensures
        e@ == ErrorState::DeviceNotConfigured(shm_device_name(device_idx)),
{
    let mut name = String::new();
    push_text(&mut name, "SHM device ");
    push_decimal(&mut name, device_idx as u64);
    assert(name@ =~= shm_device_name(device_idx));
    Error::DeviceNotConfigured(name)
}

/// What becomes of a request before any counter is touched.
pub enum RequestCheck {
    /// Nothing needs to be reserved.
    Nothing,
    /// The bytes are to be reserved.
    Reserve,
    /// The request is turned away.
    TooLarge(Error),
}

/// Looks at the size of a request alone.
pub fn check_request(device_idx: usize, size: u64) -> (check: RequestCheck)
    ensures
        check is Nothing <==> size == 0,
        check is Reserve <==> 0 < size <= MAX_ALLOC_SIZE,
        check matches RequestCheck::TooLarge(e) ==> e@ == (ErrorState::OverLimit {
            used: 0,
            request: size,
            limit: 0,
            device_idx,
        }),
{
    if size == 0 {
        RequestCheck::Nothing
    } else if size > MAX_ALLOC_SIZE {
        RequestCheck::TooLarge(Error::OverLimit { used: 0, request: size, limit: 0, device_idx })
    } else {
        RequestCheck::Reserve
    }
}

/// Judges a reservation by what the counter showed when it was made. Where it is
/// turned away, it has to be taken back.
pub fn judge_reservation(
    device_idx: usize,
    size: u64,
    previous_used: u64,
    mem_limit: u64,
) -> (r: Result<u64, Error>)
    ensures
        r is Ok <==> fits(previous_used, size, mem_limit),
        r matches Ok(used) ==> used == previous_used,
        r matches Err(e) ==> e@ == (ErrorState::OverLimit {
            used: previous_used,
            request: size,
            limit: mem_limit,
            device_idx,
        }),
{
    if within_limit(previous_used, size, mem_limit) {
        Ok(previous_used)
    } else {
        Err(Error::OverLimit { used: previous_used, request: size, limit: mem_limit, device_idx })
    }
}

/// The accounting of a process as plain values.
#[verifier::ext_equal]
pub struct ProcessBooks {
    /// The configured devices: index and identifier.
    pub devices: Seq<(usize, Seq<char>)>,
    /// HIP devices whose index is known.
    pub known: Map<i32, usize>,
    /// The isolation that was asked for.
    pub isolation: Option<Seq<char>>,
    /// The live allocations.
    pub live: Map<usize, (usize, u64)>,
    /// Whether there is no hypervisor.
    pub standalone: bool,
    /// How many allocations were recorded.
    pub alloc_count: u64,
}

/// The accounting of a process: which devices it may use, and what it has
/// allocated there.
pub struct Limiter {
    hip_device_mapping: DashMap<i32, usize>,
    gpu_idx_uuids: Vec<(usize, String)>,
    isolation: Option<String>,
    allocation_tracker: DashMap<usize, (usize, u64)>,
    standalone: bool,
    alloc_count: u64,
}

impl View for Limiter {
    type V = ProcessBooks;

    closed spec fn view(&self) -> ProcessBooks {
        ProcessBooks {
            devices: indexed(self.gpu_idx_uuids@),
            known: known_devices(self.hip_device_mapping),
            isolation: match self.isolation {
                Some(text) => Some(text@),
                None => None,
            },
            live: live(self.allocation_tracker),
            standalone: self.standalone,
            alloc_count: self.alloc_count,
        }
    }
}

impl ProcessBooks {
    /// The books after an allocation was recorded; one of zero bytes is not.
    pub open spec fn recorded(self, device_idx: usize, ptr: usize, size: u64) -> ProcessBooks {
        if size == 0 {
            self
        } else {
            ProcessBooks {
                live: self.live.insert(ptr, (device_idx, size)),
                alloc_count: counter_add(self.alloc_count, 1),
                ..self
            }
        }
    }

    /// The books without an allocation.
    pub open spec fn forgotten(self, ptr: usize) -> ProcessBooks {
        ProcessBooks { live: self.live.remove(ptr), ..self }
    }

    /// The index of a HIP device, where it is known or can be found by the given PCI
    /// address.
    pub open spec fn index_of(self, hip_device: i32, pci_bus_id: Seq<char>) -> Option<usize> {
        if self.known.dom().contains(hip_device) {
            Some(self.known[hip_device])
        } else {
            configured_at(self.devices, lowercased(pci_bus_id))
        }
    }
}

impl DevicesState {
    /// The state after a request was reserved and judged on a device in use. One that is
    /// turned away changes nothing.
    pub open spec fn after_reserve(self, device_idx: usize, size: u64) -> DevicesState {
        let used = self.info(device_idx).pod_memory_used;
        if fits(used, size, self.info(device_idx).limit()) {
            self.with_used(device_idx, counter_add(used, size))
        } else {
            self
        }
    }

    /// The state after everything a process holds was released.
    pub open spec fn after_drain(self, live: Map<usize, (usize, u64)>) -> DevicesState {
        DevicesState {
            devices: Seq::new(
                self.devices.len(),
                |d: int|
                    if self.devices[d].is_active {
                        EntryState {
                            info: SharedDeviceInfo {
                                pod_memory_used: counter_sub(
                                    self.devices[d].info.pod_memory_used,
                                    device_bytes(live, d as usize) as u64,
                                ),
                                ..self.devices[d].info
                            },
                            ..self.devices[d]
                        }
                    } else {
                        self.devices[d]
                    },
            ),
            ..self
        }
    }
}

/// The outcome of a reservation on the shared state.
pub open spec fn reserve_outcome(
    shm: SharedMemory,
    device_idx: usize,
    size: u64,
) -> Result<u64, ErrorState> {
    if size == 0 {
        Ok(0)
    } else if size > MAX_ALLOC_SIZE {
        Err(ErrorState::OverLimit { used: 0, request: size, limit: 0, device_idx })
    } else if shm is Unavailable {
        Err(ErrorState::SharedMemory(shm->Unavailable_0@))
    } else if !shm.state().has(device_idx) {
        Err(ErrorState::DeviceNotConfigured(shm_device_name(device_idx)))
    } else {
        let info = shm.state().info(device_idx);
        if fits(info.pod_memory_used, size, info.limit()) {
            Ok(info.pod_memory_used)
        } else {
            Err(
                ErrorState::OverLimit {
                    used: info.pod_memory_used,
                    request: size,
                    limit: info.limit(),
                    device_idx,
                },
            )
        }
    }
}

/// The shared state after a reservation.
pub open spec fn reserved_state(shm: SharedMemory, device_idx: usize, size: u64) -> DevicesState {
    if 0 < size <= MAX_ALLOC_SIZE && shm.state().has(device_idx) {
        shm.state().after_reserve(device_idx, size)
    } else {
        shm.state()
    }
}

impl Limiter {
    /// Sets the accounting up for the GPUs that were asked for, among those that the
    /// HIP runtime enumerates. Fails with the runtime's code where that failed.
    pub fn new(
        gpu_uuids: Vec<String>,
        enumerated: Result<Vec<(i32, String)>, i32>,
        isolation: Option<String>,
        standalone: bool,
    ) -> (r: Result<Self, Error>)
        ensures
            match enumerated {
                Err(code) => r is Err && r->Err_0@ == ErrorState::Hip(code),
                Ok(devices) => {
                    &&& r is Ok
                    &&& exists|uuids: Seq<Seq<char>>|
                        {
                            &&& #[trigger] is_sorted_set(texts(gpu_uuids@), uuids)
                            &&& resolves(uuids, enumeration(devices@), r->Ok_0@.devices)
                        }
                    &&& r->Ok_0@.known.dom() == Set::<i32>::empty()
                    &&& r->Ok_0@.isolation == match isolation {
                        Some(text) => Some(text@),
                        None => None,
                    }
                    &&& r->Ok_0@.live.dom() == Set::<usize>::empty()
                    &&& r->Ok_0@.standalone == standalone
                    &&& r->Ok_0@.alloc_count == 0
                },
            },
    {
        let uuids = sorted_set(gpu_uuids.as_slice());
        match enumerated {
            Err(code) => Err(Error::Hip(code)),
            Ok(devices) => {
                let gpu_idx_uuids = resolve_device_indices(uuids.as_slice(), devices.as_slice());
                Ok(
                    Limiter {
                        hip_device_mapping: devices_new(),
                        gpu_idx_uuids,
                        isolation,
                        allocation_tracker: live_new(),
                        standalone,
                        alloc_count: 0,
                    },
                )
            },
        }
    }

    /// The configured devices: index and identifier.
    pub fn configured_devices(&self) -> (pairs: &Vec<(usize, String)>)
        ensures
            indexed(pairs@) == self@.devices,
    {
        &self.gpu_idx_uuids
    }

    /// Whether there is no hypervisor, so that its silence is no cause for concern.
    pub fn is_standalone(&self) -> (b: bool)
        ensures
            b == self@.standalone,
    {
        self.standalone
    }

    /// The index of a HIP device, where it was found before.
    pub fn cached_device_index(&self, hip_device: i32) -> (r: Option<usize>)
        ensures
            r == (if self@.known.dom().contains(hip_device) {
                Some(self@.known[hip_device])
            } else {
                None
            }),
    {
        devices_get(&self.hip_device_mapping, hip_device)
    }

    /// The index of a HIP device. It is looked up by PCI address once and remembered.
    pub fn device_index_by_hip_device(
        &mut self,
        hip_device: i32,
        pci_bus_id: Result<String, i32>,
    ) -> (r: Result<usize, Error>)
        ensures
            old(self)@.known.dom().contains(hip_device) ==> r is Ok && r->Ok_0
                == old(self)@.known[hip_device] && final(self)@ == old(self)@,
            !old(self)@.known.dom().contains(hip_device) ==> match pci_bus_id {
                Err(code) => r is Err && r->Err_0@ == ErrorState::Hip(code) && final(self)@ == old(
                    self,
                )@,
                Ok(bus_id) => match configured_at(old(self)@.devices, lowercased(bus_id@)) {
                    Some(index) => r is Ok && r->Ok_0 == index && final(self)@ == (ProcessBooks {
                        known: old(self)@.known.insert(hip_device, index),
                        ..old(self)@
                    }),
                    None => r is Err && r->Err_0@ == ErrorState::DeviceNotConfigured(
                        "HIP device "@ + signed(hip_device as int),
                    ) && final(self)@ == old(self)@,
                },
            },
    {
        if let Some(index) = self.cached_device_index(hip_device) {
            return Ok(index);
        }
        match pci_bus_id {
            Err(code) => Err(Error::Hip(code)),
            Ok(bus_id) => {
                let lowered = to_lowercase(bus_id.as_str());
                match find_configured(self.gpu_idx_uuids.as_slice(), lowered.as_str()) {
                    Some(index) => {
                        devices_insert(&mut self.hip_device_mapping, hip_device, index);
                        Ok(index)
                    },
                    None => {
                        let mut name = String::new();
                        push_text(&mut name, "HIP device ");
                        push_signed(&mut name, hip_device as i64);
                        assert(name@ =~= "HIP device "@ + signed(hip_device as int));
                        Err(Error::DeviceNotConfigured(name))
                    },
                }
            },
        }
    }

    /// The index of the configured device at a PCI address.
    pub fn device_index_by_pci_bdf(&self, bdf: &str) -> (r: Result<usize, Error>)
        ensures
            match configured_at(self@.devices, lowercased(bdf@)) {
                Some(index) => r is Ok && r->Ok_0 == index,
                None => r is Err && r->Err_0@ == ErrorState::DeviceNotConfigured("BDF "@ + bdf@),
            },
    {
        let lowered = to_lowercase(bdf);
        match find_configured(self.gpu_idx_uuids.as_slice(), lowered.as_str()) {
            Some(index) => Ok(index),
            None => {
                let mut name = String::new();
                push_text(&mut name, "BDF ");
                push_text(&mut name, bdf);
                assert(name@ =~= "BDF "@ + bdf@);
                Err(Error::DeviceNotConfigured(name))
            },
        }
    }

    /// The usage and the configured limit of a device.
    pub fn get_pod_memory_usage(
        &self,
        shm: &SharedMemory,
        raw_device_index: usize,
    ) -> (r: Result<(u64, u64), Error>)
        ensures
            match *shm {
                SharedMemory::Unavailable(reason) => r is Err && r->Err_0@
                    == ErrorState::SharedMemory(reason@),
                SharedMemory::Attached(state) => if state@.has(raw_device_index) {
                    r is Ok && r->Ok_0 == (
                        state@.info(raw_device_index).pod_memory_used,
                        state@.info(raw_device_index).mem_limit,
                    )
                } else {
                    r is Err && r->Err_0@ == ErrorState::DeviceNotConfigured(
                        shm_device_name(raw_device_index),
                    )
                },
            },
    {
        match shm {
            SharedMemory::Unavailable(reason) => Err(Error::SharedMemory(reason.clone())),
            SharedMemory::Attached(state) => match state.device(raw_device_index) {
                Some(info) => Ok((info.pod_memory_used, info.mem_limit)),
                None => Err(shm_device_missing(raw_device_index)),
            },
        }
    }

    /// Reserves memory on a device before it is allocated: adds the request to the
    /// shared usage, and takes it back where the limit is exceeded. Returns the usage
    /// before.
    pub fn try_reserve(
        &self,
        shm: &mut SharedMemory,
        device_idx: usize,
        size: u64,
    ) -> (r: Result<u64, Error>)
        ensures
            match reserve_outcome(*old(shm), device_idx, size) {
                Ok(used) => r is Ok && r->Ok_0 == used,
                Err(e) => r is Err && r->Err_0@ == e,
            },
            old(shm).becomes(*final(shm), reserved_state(*old(shm), device_idx, size)),
            *old(shm) is Attached && device_idx < old(shm).state().devices.len()
                && old(shm).state().devices[device_idx as int].is_active && 0 < size <= u64::MAX / 2
                ==> {
                let before = old(shm).state().devices[device_idx as int].info;
                let after = final(shm).state().devices[device_idx as int].info;
                let limit = if before.effective_mem_limit > 0 {
                    before.effective_mem_limit
                } else {
                    before.mem_limit
                };
                &&& r is Ok <==> before.pod_memory_used + size <= limit
                &&& after.pod_memory_used == before.pod_memory_used + (if r is Ok {
                    size as int
                } else {
                    0
                })
                &&& before.pod_memory_used <= limit ==> after.pod_memory_used <= limit
            },
    {
        match check_request(device_idx, size) {
            RequestCheck::Nothing => {
                return Ok(0);
            },
            RequestCheck::TooLarge(e) => {
                return Err(e);
            },
            RequestCheck::Reserve => {},
        }
        match shm {
            SharedMemory::Unavailable(reason) => Err(Error::SharedMemory(reason.clone())),
            SharedMemory::Attached(state) => match state.reserve(device_idx, size) {
                None => Err(shm_device_missing(device_idx)),
                Some((previous_used, mem_limit)) => {
                    let judgement = judge_reservation(device_idx, size, previous_used, mem_limit);
                    if judgement.is_err() {
                        state.unreserve(device_idx, size);
                        assert(state@ =~= old(shm).state());
                    }
                    judgement
                },
            },
        }
    }

    /// Takes a reservation back whose native allocation failed. Without shared state
    /// nothing can be taken back.
    pub fn rollback_reservation(&self, shm: &mut SharedMemory, device_idx: usize, size: u64)
        ensures
            old(shm).becomes(*final(shm), old(shm).state().released(device_idx, size)),
    {
        if size == 0 {
            proof {
                assert(old(shm).state().released(device_idx, 0) =~= old(shm).state());
            }
            return;
        }
        match shm {
            SharedMemory::Unavailable(_) => {},
            SharedMemory::Attached(state) => {
                state.release(device_idx, size);
            },
        }
    }

    /// Records an allocation that was reserved and made. Returns the number of
    /// allocations before this one where a check of the books is due: at the first
    /// and at every hundredth.
    pub fn record_allocation(
        &mut self,
        device_idx: usize,
        ptr: usize,
        size: u64,
    ) -> (due: Option<u64>)
        ensures
            final(self)@ == old(self)@.recorded(device_idx, ptr, size),
            due == (if size > 0 && old(self)@.alloc_count % CHECK_INTERVAL == 0 {
                Some(old(self)@.alloc_count)
            } else {
                None
            }),
            due is Some <==> size > 0 && old(self)@.alloc_count % 100 == 0,
    {
        if size == 0 {
            return None;
        }
        live_insert(&mut self.allocation_tracker, ptr, (device_idx, size));
        let count: u64 = fetch_add(&mut self.alloc_count, 1);
        if count % CHECK_INTERVAL == 0 {
            Some(count)
        } else {
            None
        }
    }

    /// Forgets an allocation, and returns its device and its size where it was
    /// recorded.
    pub fn take_allocation(&mut self, ptr: usize) -> (r: Option<(usize, u64)>)
        ensures
            r == (if old(self)@.live.dom().contains(ptr) {
                Some(old(self)@.live[ptr])
            } else {
                None
            }),
            final(self)@ == old(self)@.forgotten(ptr),
    {
        live_remove(&mut self.allocation_tracker, ptr)
    }

    /// Records a free: forgets the allocation and takes it from the shared usage.
    /// Returns whether it was recorded. Without shared state the allocation is
    /// forgotten all the same, and its bytes stay counted.
    pub fn record_free(&mut self, shm: &mut SharedMemory, ptr: usize) -> (known: bool)
        ensures
            known == old(self)@.live.dom().contains(ptr),
            final(self)@ == old(self)@.forgotten(ptr),
            old(shm).becomes(
                *final(shm),
                if known {
                    old(shm).state().released(old(self)@.live[ptr].0, old(self)@.live[ptr].1)
                } else {
                    old(shm).state()
                },
            ),
    {
        match self.take_allocation(ptr) {
            None => false,
            Some((device_idx, size)) => {
                match shm {
                    SharedMemory::Unavailable(_) => {},
                    SharedMemory::Attached(state) => {
                        state.release(device_idx, size);
                    },
                }
                true
            },
        }
    }

    /// The isolation that was asked for.
    pub fn isolation(&self) -> (r: Option<&str>)
        ensures
            match self@.isolation {
                Some(text) => r is Some && r->0@ == text,
                None => r is None,
            },
    {
        match &self.isolation {
            Some(text) => Some(text.as_str()),
            None => None,
        }
    }

    /// Whether every configured device may use all of its compute. A device that the
    /// shared state does not have may not.
    pub fn all_devices_unlimited(&self, shm: &SharedMemory) -> (b: bool)
        ensures
            b == (shm is Attached && forall|i: int|
                0 <= i < self@.devices.len() ==> {
                    let index = (#[trigger] self@.devices[i]).0;
                    shm.state().has(index) && shm.state().info(index).up_limit >= UNLIMITED_SHARE
                }),
            b ==> forall|i: int|
                0 <= i < self@.devices.len() ==> shm.state().devices[(
                #[trigger] self@.devices[i]).0 as int].info.up_limit >= 100,
            !b && shm is Attached ==> exists|i: int|
                0 <= i < self@.devices.len() && {
                    let index = (#[trigger] self@.devices[i]).0;
                    index >= shm.state().devices.len()
                        || !shm.state().devices[index as int].is_active
                        || shm.state().devices[index as int].info.up_limit < 100
                },
    {
        match shm {
            SharedMemory::Unavailable(_) => false,
            SharedMemory::Attached(state) => {
                let mut i: usize = 0;
                while i < self.gpu_idx_uuids.len()
                    invariant
                        i <= self.gpu_idx_uuids@.len(),
                        shm is Attached,
                        shm.state() == state@,
                        forall|j: int|
                            0 <= j < i ==> {
                                let index = (#[trigger] self@.devices[j]).0;
                                state@.has(index) && state@.info(index).up_limit >= UNLIMITED_SHARE
                            },
                    decreases self.gpu_idx_uuids@.len() - i,
                {
                    let up_limit: u32 = match state.device(self.gpu_idx_uuids[i].0) {
                        Some(info) => info.up_limit,
                        None => 0,
                    };
                    assert(self@.devices[i as int].0 == self.gpu_idx_uuids@[i as int].0);
                    if up_limit < UNLIMITED_SHARE {
                        return false;
                    }
                    i = i + 1;
                }
                true
            },
        }
    }

    /// Compares what the shared state counts on a device with what the device itself
    /// reports and with what this process has recorded. `native` is what the device
    /// reports as free and as its total; without it there is nothing to compare.
    pub fn log_reconciliation(
        &self,
        shm: &SharedMemory,
        device_idx: usize,
        alloc_count: u64,
        native: Option<(usize, usize)>,
    ) -> (r: Option<Reconciliation>)
        requires
            device_bytes(self@.live, device_idx) <= u64::MAX,
        ensures
            r is Some <==> native is Some,
            r matches Some(report) ==> {
                let (counted, limit) = if shm is Attached && shm.state().has(device_idx) {
                    (
                        shm.state().info(device_idx).pod_memory_used,
                        shm.state().info(device_idx).mem_limit,
                    )
                } else {
                    (0, 0)
                };
                let (real_free, real_total) = native->0;
                &&& report.our_used == counted
                &&& report.mem_limit == limit
                &&& report.real_used == (if real_total < real_free {
                    0int
                } else {
                    real_total - real_free
                })
                &&& report.tracked_count == self@.live.dom().len()
                &&& report.tracked_bytes == device_bytes(self@.live, device_idx)
                &&& report.shm_vs_real_mib == mib_between(counted, report.real_used)
                &&& report.tracker_vs_shm_mib == mib_between(report.tracked_bytes, counted)
                &&& report.finding == (if alloc_count == 0 {
                    let stale_mib = counter_sub(counted, report.tracked_bytes) / MIB;
                    if stale_mib > 0 {
                        Finding::Stale(stale_mib)
                    } else {
                        Finding::Initial
                    }
                } else if large(report.shm_vs_real_mib) || large(report.tracker_vs_shm_mib) {
                    Finding::Drift
                } else {
                    Finding::InSync
                })
            },
    {
        match native {
            None => None,
            Some((real_free, real_total)) => {
                let (our_used, mem_limit): (u64, u64) = match self.get_pod_memory_usage(
                    shm,
                    device_idx,
                ) {
                    Ok(usage) => usage,
                    Err(_) => (0, 0),
                };
                let real_used: u64 = real_total.saturating_sub(real_free) as u64;
                let tracked_count: usize = live_len(&self.allocation_tracker);
                let items = live_items(&self.allocation_tracker);
                proof {
                    lemma_weighed_items(items@, self@.live, on_device(device_idx));
                }
                let tracked_bytes: u64 = sum_device_items(&items, device_idx);
                let shm_vs_real_mib: i64 = mib_difference(our_used, real_used);
                let tracker_vs_shm_mib: i64 = mib_difference(tracked_bytes, our_used);
                let finding = if alloc_count == 0 {
                    let stale_mib: u64 = our_used.saturating_sub(tracked_bytes) / MIB;
                    if stale_mib > 0 {
                        Finding::Stale(stale_mib)
                    } else {
                        Finding::Initial
                    }
                } else if is_large(shm_vs_real_mib) || is_large(tracker_vs_shm_mib) {
                    Finding::Drift
                } else {
                    Finding::InSync
                };
                Some(
                    Reconciliation {
                        our_used,
                        mem_limit,
                        real_used,
                        tracked_count,
                        tracked_bytes,
                        shm_vs_real_mib,
                        tracker_vs_shm_mib,
                        finding,
                    },
                )
            },
        }
    }
}

/// The index of the current device: by the runtime's answer to the question for it, and by
/// its PCI address.
pub fn with_device(
    limiter: Option<&mut Limiter>,
    hip_result: i32,
    hip_device: i32,
    pci_bus_id: Result<String, i32>,
) -> (r: Result<usize, Error>)
    ensures
        hip_result != HIP_SUCCESS ==> r is Err && r->Err_0@ == ErrorState::Hip(hip_result),
        hip_result == HIP_SUCCESS && limiter is None ==> r is Err && r->Err_0@
            == ErrorState::LimiterNotInitialized,
        hip_result == HIP_SUCCESS && limiter is Some ==> {
            let books = (*limiter->0)@;
            match pci_bus_id {
                Ok(bus_id) => match books.index_of(hip_device, bus_id@) {
                    Some(index) => r is Ok && r->Ok_0 == index,
                    None => r is Err && r->Err_0@ == ErrorState::DeviceNotConfigured(
                        "HIP device "@ + signed(hip_device as int),
                    ),
                },
                Err(code) => if books.known.dom().contains(hip_device) {
                    r is Ok && r->Ok_0 == books.known[hip_device]
                } else {
                    r is Err && r->Err_0@ == ErrorState::Hip(code)
                },
            }
        },
        limiter matches Some(l) ==> final(l)@ == (if hip_result == HIP_SUCCESS && r is Ok {
            ProcessBooks { known: l@.known.insert(hip_device, r->Ok_0), ..l@ }
        } else {
            l@
        }),
{
    if hip_result != HIP_SUCCESS {
        return Err(Error::Hip(hip_result));
    }
    match limiter {
        None => Err(Error::LimiterNotInitialized),
        Some(limiter) => {
            let ghost before = limiter@;
            let r = limiter.device_index_by_hip_device(hip_device, pci_bus_id);
            proof {
                if before.known.dom().contains(hip_device) {
                    assert(before.known.insert(hip_device, before.known[hip_device])
                        =~= before.known);
                }
            }
            r
        },
    }
}

/// What was given back on one device.
pub struct DrainedDevice {
    /// The device.
    pub device_idx: usize,
    /// The bytes given back.
    pub total: u64,
    /// The shared usage before.
    pub before: u64,
    /// The shared usage after.
    pub after: u64,
}

/// What was given back at the end of a process.
pub struct DrainReport {
    /// The bytes given back on all devices.
    pub total_bytes: u64,
    /// The allocations that the process had recorded in all.
    pub alloc_count: u64,
    /// The devices, each once, in any order.
    pub devices: Vec<DrainedDevice>,
}

/// The usage that a state shows for a device; zero for one that is not in use.
pub open spec fn shown_usage(state: DevicesState, device_idx: usize) -> u64 {
    if state.has(device_idx) {
        state.info(device_idx).pod_memory_used
    } else {
        0
    }
}

/// `totals` names every device of the live allocations once, with its bytes.
pub open spec fn lists_totals(live: Map<usize, (usize, u64)>, totals: Seq<(usize, u64)>) -> bool {
    &&& forall|k: int|
        0 <= k < totals.len() ==> (#[trigger] totals[k]).1 == device_bytes(live, totals[k].0)
            && exists|p: usize| #[trigger] live.dom().contains(p) && live[p].0 == totals[k].0
    &&& forall|k: int, l: int|
        0 <= k < l < totals.len() ==> (#[trigger] totals[k]).0 != (#[trigger] totals[l]).0
    &&& forall|p: usize| #[trigger]
        live.dom().contains(p) ==> exists|k: int|
            0 <= k < totals.len() && (#[trigger] totals[k]).0 == live[p].0
}

/// Whether a device is among those summed up already.
fn has_total(totals: &Vec<(usize, u64)>, device_idx: usize) -> (b: bool)
    ensures
        b == exists|k: int| 0 <= k < totals@.len() && (#[trigger] totals@[k]).0 == device_idx,
{
    let mut k: usize = 0;
    while k < totals.len()
        invariant
            k <= totals@.len(),
            forall|l: int| 0 <= l < k ==> (#[trigger] totals@[l]).0 != device_idx,
        decreases totals@.len() - k,
    {
        if totals[k].0 == device_idx {
            assert(totals@[k as int].0 == device_idx);
            return true;
        }
        k = k + 1;
    }
    false
}

/// Takes the totals of a process from the shared usage.
fn release_totals(
    state: &mut SharedDeviceState,
    totals: &Vec<(usize, u64)>,
    held: Ghost<Map<usize, (usize, u64)>>,
) -> (devices: Vec<DrainedDevice>)
    requires
        lists_totals(held@, totals@),
    ensures
        final(state)@ == old(state)@.after_drain(held@),
        devices@.len() == totals@.len(),
        forall|k: int|
            0 <= k < devices@.len() ==> {
                let device = #[trigger] devices@[k];
                &&& device.device_idx == totals@[k].0
                &&& device.total == totals@[k].1
                &&& device.before == shown_usage(old(state)@, device.device_idx)
                &&& device.after == shown_usage(
                    old(state)@.after_drain(held@),
                    device.device_idx,
                )
            },
{
    let mut devices: Vec<DrainedDevice> = Vec::new();
    let places: usize = state.places();
    let ghost start = state@;
    let ghost end = start.after_drain(held@);
    let mut k: usize = 0;
    while k < totals.len()
        invariant
            k <= totals@.len(),
            lists_totals(held@, totals@),
            end == start.after_drain(held@),
            places == start.devices.len(),
            devices@.len() == k,
            state@.devices.len() == start.devices.len(),
            state@.last_heartbeat == start.last_heartbeat,
            forall|l: int|
                0 <= l < k ==> {
                    let device = #[trigger] devices@[l];
                    &&& device.device_idx == totals@[l].0
                    &&& device.total == totals@[l].1
                    &&& device.before == shown_usage(start, device.device_idx)
                    &&& device.after == shown_usage(end, device.device_idx)
                },
            forall|l: int|
                0 <= l < k && (#[trigger] totals@[l]).0 < start.devices.len()
                    ==> state@.devices[totals@[l].0 as int] == end.devices[totals@[l].0 as int],
            forall|d: int|
                0 <= d < start.devices.len() && (forall|l: int|
                    0 <= l < k ==> (#[trigger] totals@[l]).0 != d) ==> #[trigger] state@.devices[d]
                    == start.devices[d],
        decreases totals@.len() - k,
    {
        let (device_idx, total) = totals[k];
        assert(totals@[k as int] == (device_idx, total));
        let ghost o = state@;
        assert(device_idx < start.devices.len() ==> o.devices[device_idx as int]
            == start.devices[device_idx as int]);
        let before: u64 = match state.device(device_idx) {
            Some(info) => info.pod_memory_used,
            None => 0,
        };
        state.release(device_idx, total);
        let after: u64 = match state.device(device_idx) {
            Some(info) => info.pod_memory_used,
            None => 0,
        };
        proof {
            assert(device_idx < start.devices.len() ==> state@.devices[device_idx as int]
                == end.devices[device_idx as int]);
            assert forall|l: int|
                0 <= l < k + 1 && (
                #[trigger] totals@[l]).0 < start.devices.len() implies state@.devices[totals@[l].0 as int]
                == end.devices[totals@[l].0 as int] by {
                if l < k {
                    assert(totals@[l].0 != totals@[k as int].0);
                }
            }
            assert forall|d: int|
                0 <= d < start.devices.len() && (forall|l: int|
                    0 <= l < k + 1 ==> (
                    #[trigger] totals@[l]).0 != d) implies #[trigger] state@.devices[d]
                == start.devices[d] by {
                assert(totals@[k as int].0 != d);
                assert(o.devices[d] == start.devices[d]);
            }
        }
        devices.push(DrainedDevice { device_idx, total, before, after });
        k = k + 1;
    }
    proof {
        assert forall|d: int| 0 <= d < start.devices.len() implies #[trigger] state@.devices[d]
            == end.devices[d] by {
            if exists|l: int| 0 <= l < totals@.len() && (#[trigger] totals@[l]).0 == d {
                let l = choose|l: int| 0 <= l < totals@.len() && (#[trigger] totals@[l]).0 == d;
                assert(totals@[l].0 == d);
            } else {
                assert forall|p: usize| #[trigger] held@.dom().contains(p) implies held@[p].0 != d
                    as usize by {
                    let l = choose|l: int|
                        0 <= l < totals@.len() && (#[trigger] totals@[l]).0 == held@[p].0;
                    assert(totals@[l].0 != d);
                }
                lemma_no_device_bytes(held@, d as usize);
            }
        }
        assert(state@ =~= end);
    }
    devices
}

impl Limiter {
    /// Whether the bytes of all allocations can be counted, which takes far more memory
    /// than there is to fail.
    pub fn totals_fit(&self) -> (b: bool)
        ensures
            b == (total_bytes(self@.live) <= u64::MAX),
            b ==> forall|d: usize| #[trigger] device_bytes(self@.live, d) <= u64::MAX,
    {
        let items = live_items(&self.allocation_tracker);
        proof {
            let w = |e: (usize, u64)| e.1 as nat;
            lemma_weighed_items(items@, self@.live, w);
            assert forall|d: usize| #[trigger] device_bytes(self@.live, d) <= total_bytes(
                self@.live,
            ) by {
                lemma_weighed_le(self@.live, on_device(d), w);
            }
        }
        sum_fits(&items)
    }

    /// Forgets all allocations, and returns the bytes of each device they were on.
    pub fn take_totals(&mut self) -> (totals: Vec<(usize, u64)>)
        requires
            total_bytes(old(self)@.live) <= u64::MAX,
        ensures
            lists_totals(old(self)@.live, totals@),
            final(self)@.live.dom() == Set::<usize>::empty(),
            final(self)@ == (ProcessBooks { live: final(self)@.live, ..old(self)@ }),
    {
        let items = live_items(&self.allocation_tracker);
        live_clear(&mut self.allocation_tracker);
        let ghost before = old(self)@.live;
        let mut totals: Vec<(usize, u64)> = Vec::new();
        let mut i: usize = 0;
        while i < items.len()
            invariant
                i <= items@.len(),
                before == old(self)@.live,
                total_bytes(before) <= u64::MAX,
                lists(items@, before),
                forall|k: int|
                    0 <= k < totals@.len() ==> (#[trigger] totals@[k]).1 == device_bytes(
                        before,
                        totals@[k].0,
                    ) && exists|p: usize| #[trigger]
                        before.dom().contains(p) && before[p].0 == totals@[k].0,
                forall|k: int, l: int|
                    0 <= k < l < totals@.len() ==> (#[trigger] totals@[k]).0 != (
                    #[trigger] totals@[l]).0,
                forall|j: int|
                    0 <= j < i ==> exists|k: int|
                        0 <= k < totals@.len() && (#[trigger] totals@[k]).0 == (
                        #[trigger] items@[j]).1.0,
            decreases items@.len() - i,
        {
            let device_idx: usize = items[i].1.0;
            let ghost o = totals@;
            if !has_total(&totals, device_idx) {
                proof {
                    lemma_weighed_items(items@, before, on_device(device_idx));
                    lemma_weighed_le(
                        before,
                        on_device(device_idx),
                        |e: (usize, u64)| e.1 as nat,
                    );
                }
                let total: u64 = sum_device_items(&items, device_idx);
                totals.push((device_idx, total));
                assert(totals@[o.len() as int].0 == device_idx);
                assert(before.dom().contains(items@[i as int].0));
                assert forall|j: int| 0 <= j < i + 1 implies exists|k: int|
                    0 <= k < totals@.len() && (#[trigger] totals@[k]).0 == (
                    #[trigger] items@[j]).1.0 by {
                    if j < i {
                        let k = choose|k: int|
                            0 <= k < o.len() && (#[trigger] o[k]).0 == items@[j].1.0;
                        assert(totals@[k].0 == items@[j].1.0);
                    }
                }
            }
            i = i + 1;
        }
        assert forall|p: usize| #[trigger] before.dom().contains(p) implies exists|k: int|
            0 <= k < totals@.len() && (#[trigger] totals@[k]).0 == before[p].0 by {
            let j = choose|j: int| 0 <= j < items@.len() && (#[trigger] items@[j]).0 == p;
            assert(items@[j].1 == before[p]);
        }
        totals
    }

    /// Gives everything back that this process holds, at its end: forgets all
    /// allocations and takes them from the shared usage, device by device. Where the
    /// shared state was never used, or nothing is held, there is nothing to report.
    pub fn drain_allocations(&mut self, shm: &mut SharedMemory) -> (r: Option<DrainReport>)
        requires
            total_bytes(old(self)@.live) <= u64::MAX,
        ensures
            *old(shm) is Unavailable ==> r is None && final(self)@ == old(self)@,
            *old(shm) is Attached ==> {
                &&& final(self)@.live.dom() == Set::<usize>::empty()
                &&& final(self)@ == (ProcessBooks { live: final(self)@.live, ..old(self)@ })
            },
            old(shm).becomes(*final(shm), old(shm).state().after_drain(old(self)@.live)),
            r is Some <==> *old(shm) is Attached && old(self)@.live.dom().len() > 0,
            r matches Some(report) ==> {
                &&& report.total_bytes == total_bytes(old(self)@.live)
                &&& report.alloc_count == old(self)@.alloc_count
                &&& lists_totals(
                    old(self)@.live,
                    Seq::new(
                        report.devices@.len(),
                        |k: int| (report.devices@[k].device_idx, report.devices@[k].total),
                    ),
                )
                &&& forall|k: int|
                    0 <= k < report.devices@.len() ==> {
                        let device = #[trigger] report.devices@[k];
                        &&& device.before == shown_usage(old(shm).state(), device.device_idx)
                        &&& device.after == shown_usage(
                            old(shm).state().after_drain(old(self)@.live),
                            device.device_idx,
                        )
                    }
            },
    {
        match shm {
            SharedMemory::Unavailable(_) => None,
            SharedMemory::Attached(state) => {
                let items = live_items(&self.allocation_tracker);
                proof {
                    lemma_weighed_items(items@, self@.live, |e: (usize, u64)| e.1 as nat);
                }
                let total_bytes: u64 = sum_items(&items);
                let totals = self.take_totals();
                let devices = release_totals(state, &totals, Ghost(old(self)@.live));
                if totals.len() == 0 {
                    proof {
                        if old(self)@.live.dom().len() > 0 {
                            let p = old(self)@.live.dom().choose();
                            assert(old(self)@.live.dom().contains(p));
                        }
                    }
                    return None;
                }
                proof {
                    assert(totals@[0].1 == device_bytes(old(self)@.live, totals@[0].0));
                    let p = choose|p: usize| #[trigger]
                        old(self)@.live.dom().contains(p) && old(self)@.live[p].0 == totals@[0].0;
                    assert(old(self)@.live.dom().contains(p));
                    assert(Seq::new(
                        devices@.len(),
                        |k: int| (devices@[k].device_idx, devices@[k].total),
                    ) =~= totals@);
                }
                Some(DrainReport { total_bytes, alloc_count: self.alloc_count, devices })
            },
        }
    }
}

/// What a check of the books has found.
pub enum Finding {
    /// At the first allocation the shared state counts so many mebibytes more than
    /// this process has recorded: others have ended without giving theirs back.
    Stale(u64),
    /// At the first allocation nothing stands out.
    Initial,
    /// The books differ by more than a hundred mebibytes.
    Drift,
    /// The books agree.
    InSync,
}

/// The outcome of a check of the books.
pub struct Reconciliation {
    /// What the shared state counts.
    pub our_used: u64,
    /// The configured limit.
    pub mem_limit: u64,
    /// What the device reports as used.
    pub real_used: u64,
    /// How many allocations this process has recorded.
    pub tracked_count: usize,
    /// The bytes of those on the device.
    pub tracked_bytes: u64,
    /// How much more the shared state counts than the device, in mebibytes.
    pub shm_vs_real_mib: i64,
    /// How much more this process has recorded than the shared state counts, in
    /// mebibytes.
    pub tracker_vs_shm_mib: i64,
    /// What follows.
    pub finding: Finding,
}

/// The difference of two amounts in whole mebibytes, rounded towards zero.
pub open spec fn mib_between(a: u64, b: u64) -> int {
    if a >= b {
        (a - b) / MIB as int
    } else {
        -((b - a) / MIB as int)
    }
}

/// A difference that counts as drift.
pub open spec fn large(mib: i64) -> bool {
    mib > DRIFT_MIB || mib < -DRIFT_MIB
}

/// The difference of two amounts in whole mebibytes, rounded towards zero.
fn mib_difference(a: u64, b: u64) -> (mib: i64)
    ensures
        mib == mib_between(a, b),
{
    if a >= b {
        ((a - b) / MIB) as i64
    } else {
        -(((b - a) / MIB) as i64)
    }
}

/// Whether a difference counts as drift.
fn is_large(mib: i64) -> (b: bool)
    ensures
        b == large(mib),
{
    mib > DRIFT_MIB || mib < -DRIFT_MIB
}

/// A request is granted by the limit in force: on a device in use, exactly where what is in
/// use and the request together are no more than that. A granted request is counted in
/// full, a denied one not at all, and no other device is touched. So usage that is within
/// the limit stays within it.
pub proof fn law_reservation_by_the_limit(shm: SharedMemory, device_idx: usize, size: u64)
    requires
        shm is Attached,
        device_idx < shm.state().devices.len(),
        shm.state().devices[device_idx as int].is_active,
        0 < size <= u64::MAX / 2,
    ensures
        ({
            let info = shm.state().devices[device_idx as int].info;
            let limit = if info.effective_mem_limit > 0 {
                info.effective_mem_limit
            } else {
                info.mem_limit
            };
            let end = reserved_state(shm, device_idx, size);
            let after = end.devices[device_idx as int].info;
            &&& reserve_outcome(shm, device_idx, size) is Ok <==> info.pod_memory_used + size
                <= limit
            &&& reserve_outcome(shm, device_idx, size) is Ok ==> {
                &&& reserve_outcome(shm, device_idx, size)->Ok_0 == info.pod_memory_used
                &&& after.pod_memory_used == info.pod_memory_used + size
            }
            &&& reserve_outcome(shm, device_idx, size) is Err ==> {
                &&& reserve_outcome(shm, device_idx, size)->Err_0 == (ErrorState::OverLimit {
                    used: info.pod_memory_used,
                    request: size,
                    limit,
                    device_idx,
                })
                &&& end == shm.state()
            }
            &&& info.pod_memory_used <= limit ==> after.pod_memory_used <= limit
            &&& after.mem_limit == info.mem_limit
            &&& after.effective_mem_limit == info.effective_mem_limit
            &&& after.up_limit == info.up_limit
            &&& end.devices.len() == shm.state().devices.len()
            &&& forall|d: int|
                0 <= d < end.devices.len() && d != device_idx ==> #[trigger] end.devices[d]
                    == shm.state().devices[d]
        }),
{
}

/// What becomes of a request where the limit does not decide: nothing is asked for, more is
/// asked for than any device has, there is no shared state, or the device is not in it. In
/// none of these is anything counted.
pub proof fn law_reservation_without_a_limit(shm: SharedMemory, device_idx: usize, size: u64)
    ensures
        size == 0 ==> reserve_outcome(shm, device_idx, size) == Ok::<u64, ErrorState>(0u64),
        size > u64::MAX / 2 ==> reserve_outcome(shm, device_idx, size) == Err::<u64, ErrorState>(
            ErrorState::OverLimit { used: 0, request: size, limit: 0, device_idx },
        ),
        0 < size <= u64::MAX / 2 && shm is Unavailable ==> reserve_outcome(shm, device_idx, size)
            == Err::<u64, ErrorState>(ErrorState::SharedMemory(shm->Unavailable_0@)),
        0 < size <= u64::MAX / 2 && shm is Attached && (device_idx >= shm.state().devices.len()
            || !shm.state().devices[device_idx as int].is_active) ==> reserve_outcome(
            shm,
            device_idx,
            size,
        ) == Err::<u64, ErrorState>(
            ErrorState::DeviceNotConfigured("SHM device "@ + written(device_idx as nat, 10)),
        ),
        size == 0 || size > u64::MAX / 2 || device_idx >= shm.state().devices.len()
            || !shm.state().devices[device_idx as int].is_active ==> reserved_state(
            shm,
            device_idx,
            size,
        ) == shm.state(),
{
}

/// Two requests one after the other are both granted exactly where both together fit.
pub proof fn law_reservations_add_up(s: DevicesState, device_idx: usize, a: u64, b: u64)
    requires
        s.has(device_idx),
        fits(s.info(device_idx).pod_memory_used, a, s.info(device_idx).limit()),
    ensures
        ({
            let once = s.after_reserve(device_idx, a);
            let used = s.devices[device_idx as int].info.pod_memory_used;
            &&& once.devices[device_idx as int].info.pod_memory_used == used + a
            &&& fits(once.info(device_idx).pod_memory_used, b, once.info(device_idx).limit())
                <==> used + a + b <= s.info(device_idx).limit()
        }),
{
}

/// Recording an allocation and forgetting it: the record is there with its device and its
/// size, no other record changes, and each recorded allocation is counted once.
pub proof fn law_records_are_kept(
    books: ProcessBooks,
    device_idx: usize,
    ptr: usize,
    size: u64,
    other: usize,
)
    ensures
        size > 0 ==> books.recorded(device_idx, ptr, size).live.dom().contains(ptr),
        size > 0 ==> books.recorded(device_idx, ptr, size).live[ptr] == (device_idx, size),
        size > 0 ==> books.recorded(device_idx, ptr, size).alloc_count == (books.alloc_count + 1)
            % 0x1_0000_0000_0000_0000,
        size == 0 ==> books.recorded(device_idx, ptr, size) == books,
        !books.forgotten(ptr).live.dom().contains(ptr),
        books.forgotten(ptr).alloc_count == books.alloc_count,
        other != ptr ==> {
            let recorded = books.recorded(device_idx, ptr, size);
            &&& recorded.live.dom().contains(other) <==> books.live.dom().contains(other)
            &&& books.live.dom().contains(other) ==> recorded.live[other] == books.live[other]
            &&& books.forgotten(ptr).live.dom().contains(other) <==> books.live.dom().contains(
                other,
            )
            &&& books.live.dom().contains(other) ==> books.forgotten(ptr).live[other]
                == books.live[other]
        },
        books.recorded(device_idx, ptr, size).devices == books.devices,
        books.recorded(device_idx, ptr, size).known == books.known,
        books.forgotten(ptr).devices == books.devices,
        books.forgotten(ptr).known == books.known,
{
}

/// A drain takes from each device in use exactly what the process holds there, down to zero
/// at most, and changes nothing else.
pub proof fn law_drain_by_device(s: DevicesState, live: Map<usize, (usize, u64)>, d: int)
    requires
        0 <= d < s.devices.len() <= usize::MAX,
        device_bytes(live, d as usize) <= u64::MAX,
    ensures
        s.after_drain(live).devices.len() == s.devices.len(),
        s.after_drain(live).last_heartbeat == s.last_heartbeat,
        !s.devices[d].is_active ==> s.after_drain(live).devices[d] == s.devices[d],
        s.devices[d].is_active ==> {
            let end = s.after_drain(live).devices[d];
            &&& end.info.pod_memory_used == (if s.devices[d].info.pod_memory_used >= device_bytes(
                live,
                d as usize,
            ) {
                s.devices[d].info.pod_memory_used - device_bytes(live, d as usize)
            } else {
                0
            })
            &&& end.is_active
            &&& end.uuid == s.devices[d].uuid
            &&& end.info.mem_limit == s.devices[d].info.mem_limit
            &&& end.info.effective_mem_limit == s.devices[d].info.effective_mem_limit
            &&& end.info.up_limit == s.devices[d].info.up_limit
        },
{
}

/// A difference in mebibytes is that of the bytes, rounded towards zero: it turns its sign
/// with the order, and counts as drift beyond a hundred either way.
pub proof fn law_differences_in_mebibytes(a: u64, b: u64, mib: i64)
    ensures
        mib_between(a, b) == -mib_between(b, a),
        a >= b ==> mib_between(a, b) * 1_048_576 <= a - b < (mib_between(a, b) + 1) * 1_048_576,
        large(mib) <==> mib > 100 || mib < -100,
{
}

/// What a step does to the shared state it does to the shared state alone: where there is
/// none, there is none afterwards, for the same reason.
pub proof fn law_steps_change_the_state_alone(
    shm: SharedMemory,
    end: SharedMemory,
    state: DevicesState,
)
    requires
        shm.becomes(end, state),
    ensures
        end is Attached <==> shm is Attached,
        shm is Attached ==> end->Attached_0@ == state,
        shm is Unavailable ==> end == shm,
        shm is Attached ==> shm.state() == shm->Attached_0@,
{
}

/// The index of a HIP device that was found before is the one found then; of any other, that
/// of the configured device at its PCI address in small letters.
pub proof fn law_devices_are_found_once(books: ProcessBooks, hip_device: i32, pci_bus_id: Seq<char>)
    ensures
        books.known.dom().contains(hip_device) ==> books.index_of(hip_device, pci_bus_id) == Some(
            books.known[hip_device],
        ),
        !books.known.dom().contains(hip_device) ==> books.index_of(hip_device, pci_bus_id)
            == configured_at(books.devices, lowercased(pci_bus_id)),
{
}

/// The totals of a process name each device that it holds anything on, once and with all the
/// bytes it holds there.
pub proof fn law_totals_by_device(
    live: Map<usize, (usize, u64)>,
    totals: Seq<(usize, u64)>,
    k: int,
    l: int,
    ptr: usize,
)
    requires
        lists_totals(live, totals),
        0 <= k < totals.len(),
    ensures
        totals[k].1 == device_bytes(live, totals[k].0),
        0 <= l < totals.len() && l != k ==> totals[l].0 != totals[k].0,
        live.dom().contains(ptr) ==> exists|m: int|
            0 <= m < totals.len() && (#[trigger] totals[m]).0 == live[ptr].0,
        exists|p: usize| #[trigger] live.dom().contains(p) && live[p].0 == totals[k].0,
{
    if 0 <= l < k {
        assert(totals[l].0 != totals[k].0);
    }
    assert(totals[k].1 == device_bytes(live, totals[k].0));
    let p = choose|p: usize| #[trigger] live.dom().contains(p) && live[p].0 == totals[k].0;
    assert(live.dom().contains(p) && live[p].0 == totals[k].0);
}

/// The usage that is shown of a device in use is its own, and of any other zero.
pub proof fn law_shown_usage(state: DevicesState, device_idx: usize)
    ensures
        shown_usage(state, device_idx) == (if device_idx < state.devices.len()
            && state.devices[device_idx as int].is_active {
            state.devices[device_idx as int].info.pod_memory_used
        } else {
            0
        }),
{
}

} // verus!
