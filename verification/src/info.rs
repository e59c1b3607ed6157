//! What applications are told about the memory of a device: the limit of their pod in
//! place of what the device has.
use crate::caches::{handles_get, handles_insert, handles_new, known_handles};
use crate::devices::configured_at;
use crate::error::Error;
use crate::hip::{HIP_ERROR_INVALID_VALUE, HIP_ERROR_UNKNOWN, HIP_SUCCESS};
use crate::kfd::{bdf_text, write_bdf};
use crate::limiter::{Limiter, SharedMemory, MIB};
use crate::counter::counter_sub;
use crate::text::lowercased;
use dashmap::DashMap;
use vstd::prelude::*;

verus! {

/// The management call succeeded.
pub const SMI_STATUS_SUCCESS: u32 = 0;

/// The memory that is on the device itself.
pub const SMI_MEM_TYPE_VRAM: u32 = 0;

/// The usage and the limit of a device, where the shared state shows them.
pub open spec fn shown(shm: SharedMemory, device_idx: usize) -> Option<(u64, u64)> {
    if shm is Attached && shm.state().has(device_idx) {
        Some(
            (
                shm.state().info(device_idx).pod_memory_used,
                shm.state().info(device_idx).mem_limit,
            ),
        )
    } else {
        None
    }
}

/// How a question about memory is answered.
pub enum InfoAnswer {
    /// By the native call.
    Native,
    /// With a code.
    Fail(i32),
    /// With free memory and total memory.
    Report(u64, u64),
}

/// Answers a question for the free and the total memory of the current device: the
/// total is the limit, and free is what is left of it.
pub fn mem_info(
    limiter: &Limiter,
    shm: &SharedMemory,
    device: Result<usize, Error>,
) -> (a: InfoAnswer)
    ensures
        a == (match device {
            Err(_) => InfoAnswer::Native,
            Ok(device_idx) => match shown(*shm, device_idx) {
                Some((used, limit)) => InfoAnswer::Report(counter_sub(limit, used), limit),
                None => InfoAnswer::Fail(HIP_ERROR_UNKNOWN),
            },
        }),
        a matches InfoAnswer::Report(free, total) ==> {
            let info = shm.state().devices[device->Ok_0 as int].info;
            &&& total == info.mem_limit
            &&& info.pod_memory_used <= info.mem_limit ==> free + info.pod_memory_used == total
            &&& info.pod_memory_used >= info.mem_limit ==> free == 0
        },
        a matches InfoAnswer::Fail(code) ==> code == 999 && device is Ok,
        a is Native <==> device is Err,
        a is Report <==> device is Ok && shm is Attached && device->Ok_0
            < shm.state().devices.len() && shm.state().devices[device->Ok_0 as int].is_active,
{
    match device {
        Err(_) => InfoAnswer::Native,
        Ok(device_idx) => match limiter.get_pod_memory_usage(shm, device_idx) {
            Ok((used, limit)) => InfoAnswer::Report(limit.saturating_sub(used), limit),
            Err(_) => InfoAnswer::Fail(HIP_ERROR_UNKNOWN),
        },
    }
}

/// Free and used memory that are reported make up the total, as long as the usage is
/// within the limit; and no more than the total is ever reported as free.
pub proof fn law_reported_memory_adds_up(used: u64, limit: u64)
    ensures
        counter_sub(limit, used) <= limit,
        used <= limit ==> counter_sub(limit, used) + used == limit,
        used >= limit ==> counter_sub(limit, used) == 0,
{
}

/// What the properties of a device are patched with after the native call: the limit,
/// where the call succeeded and the limit is known.
pub fn patched_total(
    limiter: &Limiter,
    shm: &SharedMemory,
    result: i32,
    device: Result<usize, Error>,
) -> (r: Option<u64>)
    ensures
        r == (if result == HIP_SUCCESS && device is Ok && shown(*shm, device->Ok_0) is Some {
            Some((shown(*shm, device->Ok_0)->0).1)
        } else {
            None
        }),
        r matches Some(total) ==> result == 0 && total
            == shm.state().devices[device->Ok_0 as int].info.mem_limit,
        r is Some <==> result == 0 && device is Ok && shm is Attached && device->Ok_0
            < shm.state().devices.len() && shm.state().devices[device->Ok_0 as int].is_active,
{
    if result != HIP_SUCCESS {
        return None;
    }
    match device {
        Err(_) => None,
        Ok(device_idx) => match limiter.get_pod_memory_usage(shm, device_idx) {
            Ok((_used, limit)) => Some(limit),
            Err(_) => None,
        },
    }
}

/// A question for the properties of a device is not valid without a place for them.
pub fn properties_precheck(prop_is_null: bool) -> (r: Option<i32>)
    ensures
        r == (if prop_is_null {
            Some(HIP_ERROR_INVALID_VALUE)
        } else {
            None
        }),
        r matches Some(code) ==> code == 1,
{
    if prop_is_null {
        Some(HIP_ERROR_INVALID_VALUE)
    } else {
        None
    }
}

/// The total that a management question for a kind of memory is answered with, or
/// `None` where the native call answers: for other kinds, for devices that are not
/// known, and without a limit.
pub fn smi_memory_total(
    limiter: &Limiter,
    shm: &SharedMemory,
    mem_type: u32,
    device: Option<usize>,
) -> (r: Option<u64>)
    ensures
        r == (if mem_type == SMI_MEM_TYPE_VRAM && device is Some && shown(*shm, device->0) is Some {
            Some((shown(*shm, device->0)->0).1)
        } else {
            None
        }),
        r matches Some(total) ==> mem_type == 0 && total
            == shm.state().devices[device->0 as int].info.mem_limit,
        mem_type == 0 && device is Some && shm is Attached && device->0 < shm.state().devices.len()
            && shm.state().devices[device->0 as int].is_active ==> r is Some,
{
    if mem_type != SMI_MEM_TYPE_VRAM {
        return None;
    }
    match device {
        None => None,
        Some(device_idx) => match limiter.get_pod_memory_usage(shm, device_idx) {
            Ok((_used, limit)) => Some(limit),
            Err(_) => None,
        },
    }
}

/// The size, in mebibytes, that the native answer about a device's memory is patched
/// with, or `None` where that answer stands.
pub fn smi_vram_size(
    limiter: &Limiter,
    shm: &SharedMemory,
    status: u32,
    device: Option<usize>,
) -> (r: Option<u64>)
    ensures
        r == (if status == SMI_STATUS_SUCCESS && device is Some && shown(*shm, device->0) is Some {
            Some(((shown(*shm, device->0)->0).1 / MIB) as u64)
        } else {
            None
        }),
        r matches Some(mib) ==> status == 0 && mib
            == shm.state().devices[device->0 as int].info.mem_limit / 1_048_576,
        status == 0 && device is Some && shm is Attached && device->0 < shm.state().devices.len()
            && shm.state().devices[device->0 as int].is_active ==> r is Some,
{
    if status != SMI_STATUS_SUCCESS {
        return None;
    }
    match device {
        None => None,
        Some(device_idx) => match limiter.get_pod_memory_usage(shm, device_idx) {
            Ok((_used, limit)) => Some(limit / MIB),
            Err(_) => None,
        },
    }
}

/// The HIP ordinal of a management index; both count the devices in the same order.
pub fn rsmi_ordinal(dv_ind: u32) -> (ordinal: i32)
    ensures
        ordinal == (if dv_ind < 0x8000_0000 {
            dv_ind as int
        } else {
            dv_ind - 0x1_0000_0000
        }),
{
    if dv_ind < 0x8000_0000 {
        dv_ind as i32
    } else {
        (dv_ind as i64 - 0x1_0000_0000) as i32
    }
}

/// The PCI address in a packed number: the function in the lowest three bits, above
/// them the device in five, the bus in eight, and the domain in the rest.
pub fn format_amdsmi_bdf(raw: u64) -> (bdf: String)
    ensures
        bdf@ == bdf_text(
            raw as nat / 0x1_0000,
            (raw as nat / 256) % 256,
            (raw as nat / 8) % 32,
            raw as nat % 8,
        ),
{
    let function: u64 = raw & 0x7;
    let device: u64 = (raw >> 3) & 0x1F;
    let bus: u64 = (raw >> 8) & 0xFF;
    let domain: u64 = (raw >> 16) & 0xFFFF_FFFF_FFFF;
    assert(raw & 0x7 == raw % 8) by (bit_vector);
    assert((raw >> 3) & 0x1F == (raw / 8) % 32) by (bit_vector);
    assert((raw >> 8) & 0xFF == (raw / 256) % 256) by (bit_vector);
    assert((raw >> 16) & 0xFFFF_FFFF_FFFF == raw / 0x1_0000) by (bit_vector);
    write_bdf(domain, bus, device, function)
}

/// The processor handles that were resolved before. A handle keeps its device, so each
/// is resolved once.
pub struct HandleCache {
    handles: DashMap<usize, Option<usize>>,
}

impl View for HandleCache {
    type V = Map<usize, Option<usize>>;

    closed spec fn view(&self) -> Map<usize, Option<usize>> {
        known_handles(self.handles)
    }
}

/// The configured device at the PCI address in a packed number.
pub open spec fn device_at_raw(devices: Seq<(usize, Seq<char>)>, raw: u64) -> Option<usize> {
    configured_at(
        devices,
        lowercased(
            bdf_text(
                raw as nat / 0x1_0000,
                (raw as nat / 256) % 256,
                (raw as nat / 8) % 32,
                raw as nat % 8,
            ),
        ),
    )
}

impl HandleCache {
    /// No handle was resolved yet.
    pub fn new() -> (cache: Self)
        ensures
            cache@.dom() == Set::<usize>::empty(),
    {
        HandleCache { handles: handles_new() }
    }

    /// What a handle was resolved to before, if it was.
    pub fn lookup(&self, handle: usize) -> (r: Option<Option<usize>>)
        ensures
            r == (if self@.dom().contains(handle) {
                Some(self@[handle])
            } else {
                None
            }),
    {
        handles_get(&self.handles, handle)
    }

    /// Resolves a handle. `answer` is the status and the packed PCI address that the
    /// management library gives for it, where it can be asked. A failed answer is
    /// remembered; that it could not be asked, or that there is no limiter, is not.
    pub fn resolve_amdsmi_device(
        &mut self,
        limiter: Option<&Limiter>,
        handle: usize,
        answer: Option<(u32, u64)>,
    ) -> (r: Option<usize>)
        ensures
            old(self)@.dom().contains(handle) ==> r == old(self)@[handle] && final(self)@ == old(
                self,
            )@,
            !old(self)@.dom().contains(handle) ==> match answer {
                None => r is None && final(self)@ == old(self)@,
                Some((status, raw)) => if status != SMI_STATUS_SUCCESS {
                    r is None && final(self)@ == old(self)@.insert(handle, None)
                } else {
                    match limiter {
                        None => r is None && final(self)@ == old(self)@,
                        Some(limiter) => r == device_at_raw(limiter@.devices, raw) && final(self)@
                            == old(self)@.insert(handle, r),
                    }
                },
            },
    {
        if let Some(known) = self.lookup(handle) {
            return known;
        }
        match answer {
            None => None,
            Some((status, raw)) => {
                if status != SMI_STATUS_SUCCESS {
                    handles_insert(&mut self.handles, handle, None);
                    return None;
                }
                match limiter {
                    None => None,
                    Some(limiter) => {
                        let bdf = format_amdsmi_bdf(raw);
                        let found = match limiter.device_index_by_pci_bdf(bdf.as_str()) {
                            Ok(device_idx) => Some(device_idx),
                            Err(_) => None,
                        };
                        handles_insert(&mut self.handles, handle, found);
                        found
                    },
                }
            },
        }
    }
}

/// What is shown of a device in use are its usage and its configured limit, and of no other
/// anything.
pub proof fn law_shown_are_usage_and_limit(shm: SharedMemory, device_idx: usize)
    ensures
        shown(shm, device_idx) is Some <==> shm is Attached && device_idx
            < shm.state().devices.len() && shm.state().devices[device_idx as int].is_active,
        shown(shm, device_idx) matches Some(pair) ==> pair.0
            == shm.state().devices[device_idx as int].info.pod_memory_used && pair.1
            == shm.state().devices[device_idx as int].info.mem_limit,
{
}

/// A packed PCI address names the device at the address that it is made of.
pub proof fn law_packed_addresses(
    devices: Seq<(usize, Seq<char>)>,
    domain: u64,
    bus: u64,
    device: u64,
    function: u64,
)
    requires
        domain < 0x1_0000_0000_0000,
        bus < 256,
        device < 32,
        function < 8,
    ensures
        device_at_raw(
            devices,
            (domain * 0x1_0000 + bus * 256 + device * 8 + function) as u64,
        ) == configured_at(
            devices,
            lowercased(bdf_text(domain as nat, bus as nat, device as nat, function as nat)),
        ),
{
    lemma_packed_parts(domain as int, bus as int, device as int, function as int);
}

/// A number is taken apart into the parts that it was made of.
proof fn lemma_packed_parts(domain: int, bus: int, device: int, function: int)
    requires
        0 <= domain,
        0 <= bus < 256,
        0 <= device < 32,
        0 <= function < 8,
    ensures
        ({
            let raw = domain * 0x1_0000 + bus * 256 + device * 8 + function;
            &&& raw / 0x1_0000 == domain
            &&& (raw / 256) % 256 == bus
            &&& (raw / 8) % 32 == device
            &&& raw % 8 == function
        }),
{
    let low = bus * 256 + device * 8 + function;
    let raw = domain * 0x1_0000 + low;
    assert(0 <= low < 0x1_0000);
    assert(raw / 256 == domain * 256 + bus);
    assert(raw / 8 == (domain * 256 + bus) * 32 + device);
}

} // verus!
