use hip_limiter::alloc_flow::{
    array_3d_create_request, array_create_request, begin_alloc, channel_array_request,
    finish_alloc, finish_free, finish_pitched, handle_reserve_error, mipmapped_array_create_request,
    mipmapped_array_request, pitched_actual, pitched_actual_3d, pitched_request, settle_alloc,
    settle_pitched, AllocStart, PitchedRequest, PitchedSettlement, Settlement,
};
use hip_limiter::error::Error;
use hip_limiter::hip::{
    device_count, library_candidates, pci_bus_id, HIP_ERROR_INVALID_VALUE, HIP_ERROR_OUT_OF_MEMORY,
    HIP_ERROR_UNKNOWN, HIP_SUCCESS,
};
use hip_limiter::info::{
    mem_info, patched_total, properties_precheck, rsmi_ordinal, smi_memory_total, smi_vram_size,
    HandleCache, InfoAnswer,
};
use hip_limiter::limiter::{with_device, Finding, Limiter, SharedMemory};
use hip_limiter::shared_state::{DeviceConfig, SharedDeviceState};
use hip_limiter::sizes::{
    checked_pitched_size, HipArray3DDescriptor, HipArrayDescriptor, HipChannelFormatDesc, HipExtent,
};

const MIB: u64 = 1024 * 1024;

fn config(device_idx: u32, up_limit: u32, mem_limit: u64) -> DeviceConfig {
    DeviceConfig {
        device_idx,
        device_uuid: format!("gpu-{device_idx}"),
        up_limit,
        mem_limit,
        sm_count: 0,
        max_thread_per_sm: 0,
        total_cuda_cores: 0,
    }
}

fn shared(limits: &[u64]) -> SharedMemory {
    let configs: Vec<DeviceConfig> =
        limits.iter().enumerate().map(|(i, l)| config(i as u32, 80, *l)).collect();
    SharedMemory::Attached(SharedDeviceState::new(&configs))
}

fn used(shm: &SharedMemory, device: usize) -> u64 {
    match shm {
        SharedMemory::Attached(state) => state.device(device).unwrap().pod_memory_used,
        SharedMemory::Unavailable(reason) => panic!("{reason}"),
    }
}

fn texts(v: &[&str]) -> Vec<String> {
    v.iter().map(|s| s.to_string()).collect()
}

fn limiter(uuids: &[&str]) -> Limiter {
    let devices = vec![(0, "0000:75:00.0".to_string()), (1, "0000:05:00.0".to_string())];
    match Limiter::new(texts(uuids), Ok(devices), Some("soft".to_string()), false) {
        Ok(limiter) => limiter,
        Err(e) => panic!("{}", e.message()),
    }
}

fn both() -> Limiter {
    limiter(&["amd-gpu-0000:05:00.0", "AMD-GPU-0000:75:00.0", "amd-gpu-0000:75:00.0"])
}

#[test]
fn devices_are_configured_once_in_order() {
    let l = both();
    assert_eq!(
        l.configured_devices(),
        &vec![(0, "AMD-GPU-0000:75:00.0".to_string()), (1, "amd-gpu-0000:05:00.0".to_string())]
    );
    assert_eq!(l.isolation(), Some("soft"));
    assert!(!l.is_standalone());
    match Limiter::new(Vec::new(), Err(100), None, true) {
        Ok(_) => panic!("the runtime failed"),
        Err(e) => assert_eq!(e.message(), "HIP error: 100"),
    }
}

#[test]
fn hip_devices_are_looked_up_once() {
    let mut l = both();
    assert_eq!(l.cached_device_index(7), None);
    let found = l.device_index_by_hip_device(7, Ok("0000:05:00.0".to_string()));
    assert!(matches!(found, Ok(1)));
    assert_eq!(l.cached_device_index(7), Some(1));
    assert!(matches!(l.device_index_by_hip_device(7, Err(3)), Ok(1)));
    match l.device_index_by_hip_device(-8, Ok("0000:AA:00.0".to_string())) {
        Ok(_) => panic!("not configured"),
        Err(e) => assert_eq!(e.message(), "Device not configured: HIP device -8"),
    }
    assert!(matches!(l.device_index_by_hip_device(9, Err(3)), Err(Error::Hip(3))));
    assert!(matches!(l.device_index_by_pci_bdf("0000:75:00.0"), Ok(0)));
    match l.device_index_by_pci_bdf("0000:F5:00.0") {
        Ok(_) => panic!("not configured"),
        Err(e) => assert_eq!(e.message(), "Device not configured: BDF 0000:F5:00.0"),
    }
}

#[test]
fn the_current_device_needs_runtime_and_limiter() {
    let mut l = both();
    let id = || Ok("0000:75:00.0".to_string());
    assert!(matches!(with_device(Some(&mut l), 5, 0, id()), Err(Error::Hip(5))));
    assert!(matches!(with_device(None, 0, 0, id()), Err(Error::LimiterNotInitialized)));
    assert!(matches!(with_device(Some(&mut l), 0, 0, id()), Ok(0)));
    assert_eq!(l.cached_device_index(0), Some(0));
    assert_eq!(Error::LimiterNotInitialized.message(), "Limiter not initialized");
}

#[test]
fn reservations_are_judged() {
    let l = both();
    let mut shm = shared(&[1000]);
    assert!(matches!(l.try_reserve(&mut shm, 0, 0), Ok(0)));
    assert!(matches!(l.try_reserve(&mut shm, 0, 600), Ok(0)));
    assert!(matches!(l.try_reserve(&mut shm, 0, 400), Ok(600)));
    match l.try_reserve(&mut shm, 0, 1) {
        Ok(_) => panic!("over the limit"),
        Err(e) => {
            assert_eq!(
                e.message(),
                "Allocation exceeds limit on device 0: used (1000) + request (1) > limit (1000)"
            );
            assert_eq!(handle_reserve_error(&e), HIP_ERROR_OUT_OF_MEMORY);
        }
    }
    assert_eq!(used(&shm, 0), 1000);
    match l.try_reserve(&mut shm, 0, u64::MAX / 2 + 1) {
        Err(Error::OverLimit { used, request, limit, device_idx }) => {
            assert_eq!((used, request, limit, device_idx), (0, u64::MAX / 2 + 1, 0, 0))
        }
        _ => panic!("too large"),
    }
    match l.try_reserve(&mut shm, 4, 1) {
        Ok(_) => panic!("no such device"),
        Err(e) => {
            assert_eq!(e.message(), "Device not configured: SHM device 4");
            assert_eq!(handle_reserve_error(&e), HIP_ERROR_UNKNOWN);
        }
    }
    l.rollback_reservation(&mut shm, 0, 300);
    assert_eq!(used(&shm, 0), 700);
    l.rollback_reservation(&mut shm, 0, 9000);
    assert_eq!(used(&shm, 0), 0);
    l.rollback_reservation(&mut shm, 9, 1);
}

#[test]
fn the_tighter_limit_is_enforced() {
    let l = both();
    let mut shm = shared(&[1000]);
    if let SharedMemory::Attached(state) = &mut shm {
        state.set_effective_mem_limit(0, 500);
    }
    assert!(l.try_reserve(&mut shm, 0, 501).is_err());
    assert!(l.try_reserve(&mut shm, 0, 500).is_ok());
    assert!(matches!(l.get_pod_memory_usage(&shm, 0), Ok((500, 1000))));
}

#[test]
fn shared_memory_is_opened_when_it_can_be() {
    let l = both();
    let mut shm = SharedMemory::new();
    match l.try_reserve(&mut shm, 0, 1) {
        Ok(_) => panic!("not opened"),
        Err(e) => assert_eq!(
            e.message(),
            "Shared memory access failed: shared memory has not been opened"
        ),
    }
    assert!(shm.get_or_init(Err("gone".to_string())).is_err());
    match l.get_pod_memory_usage(&shm, 0) {
        Ok(_) => panic!("not opened"),
        Err(e) => assert_eq!(e.message(), "Shared memory access failed: gone"),
    }
    assert!(!l.all_devices_unlimited(&shm));
    assert!(shm.get_or_init(Ok(SharedDeviceState::new(&[config(0, 80, 5)]))).is_ok());
    assert!(shm.get_or_init(Err("late".to_string())).is_ok());
    assert!(matches!(l.get_pod_memory_usage(&shm, 0), Ok((0, 5))));
    match shm.set_shared_memory_handle(SharedDeviceState::new(&[])) {
        Ok(_) => panic!("there is one already"),
        Err(e) => assert_eq!(e.message(), "Shared memory access failed: SHM handle already set"),
    }
    let mut fresh = SharedMemory::new();
    assert!(fresh.set_shared_memory_handle(SharedDeviceState::new(&[])).is_ok());
}

#[test]
fn allocations_are_recorded_and_forgotten() {
    let mut l = both();
    let mut shm = shared(&[1000, 1000]);
    l.try_reserve(&mut shm, 1, 300).unwrap();
    assert_eq!(l.record_allocation(1, 0xabc, 300), Some(0));
    assert_eq!(l.record_allocation(1, 0xdef, 0), None);
    for i in 1..100 {
        assert_eq!(l.record_allocation(0, i, 1), None);
    }
    assert_eq!(l.record_allocation(0, 100, 1), Some(100));
    assert!(l.record_free(&mut shm, 0xabc));
    assert_eq!(used(&shm, 1), 0);
    assert!(!l.record_free(&mut shm, 0xabc));
    assert_eq!(l.take_allocation(100), Some((0, 1)));
    assert_eq!(l.take_allocation(100), None);
    let mut gone = SharedMemory::new();
    assert!(l.record_free(&mut gone, 5));
    assert!(!l.record_free(&mut gone, 5));
}

#[test]
fn everything_is_given_back_at_the_end() {
    let mut l = both();
    let mut shm = shared(&[1000, 1000]);
    l.try_reserve(&mut shm, 0, 100).unwrap();
    l.try_reserve(&mut shm, 1, 700).unwrap();
    l.record_allocation(0, 1, 60);
    l.record_allocation(0, 2, 40);
    l.record_allocation(1, 3, 200);
    l.record_allocation(9, 4, 1);

    assert!(l.totals_fit());
    let mut gone = SharedMemory::new();
    assert!(l.drain_allocations(&mut gone).is_none());

    let report = l.drain_allocations(&mut shm).unwrap();
    assert_eq!(report.total_bytes, 301);
    assert_eq!(report.alloc_count, 4);
    let mut devices: Vec<_> =
        report.devices.iter().map(|d| (d.device_idx, d.total, d.before, d.after)).collect();
    devices.sort();
    assert_eq!(devices, vec![(0, 100, 100, 0), (1, 200, 700, 500), (9, 1, 0, 0)]);
    assert_eq!(used(&shm, 0), 0);
    assert_eq!(used(&shm, 1), 500);
    assert!(l.drain_allocations(&mut shm).is_none());
    assert!(!l.record_free(&mut shm, 1));
}

#[test]
fn totals_beyond_counting_are_noticed() {
    let mut l = both();
    l.record_allocation(0, 1, u64::MAX);
    assert!(l.totals_fit());
    l.record_allocation(1, 2, 1);
    assert!(!l.totals_fit());
}

#[test]
fn books_are_compared_with_the_device() {
    let mut l = both();
    let mut shm = shared(&[10_000 * MIB]);
    l.try_reserve(&mut shm, 0, 300 * MIB).unwrap();
    l.record_allocation(0, 1, 100 * MIB);
    l.record_allocation(1, 2, 7 * MIB);
    assert!(l.log_reconciliation(&shm, 0, 0, None).is_none());

    let native = |used: u64| Some((((1000 * MIB) - used) as usize, (1000 * MIB) as usize));
    let r = l.log_reconciliation(&shm, 0, 0, native(250 * MIB)).unwrap();
    assert!(matches!(r.finding, Finding::Stale(200)));
    assert_eq!(r.our_used, 300 * MIB);
    assert_eq!(r.real_used, 250 * MIB);
    assert_eq!(r.mem_limit, 10_000 * MIB);
    assert_eq!(r.tracked_bytes, 100 * MIB);
    assert_eq!(r.tracked_count, 2);
    assert_eq!(r.shm_vs_real_mib, 50);
    assert_eq!(r.tracker_vs_shm_mib, -200);

    let r = l.log_reconciliation(&shm, 0, 100, native(300 * MIB + 1)).unwrap();
    assert!(matches!(r.finding, Finding::Drift));
    assert_eq!(r.shm_vs_real_mib, 0);

    l.record_allocation(0, 3, 200 * MIB);
    let r = l.log_reconciliation(&shm, 0, 0, native(0)).unwrap();
    assert!(matches!(r.finding, Finding::Initial));
    let r = l.log_reconciliation(&shm, 0, 100, native(200 * MIB)).unwrap();
    assert!(matches!(r.finding, Finding::InSync));
    let r = l.log_reconciliation(&shm, 0, 100, native(199 * MIB)).unwrap();
    assert!(matches!(r.finding, Finding::Drift));
    let r = l.log_reconciliation(&SharedMemory::new(), 0, 1, Some((5, 3))).unwrap();
    assert_eq!((r.our_used, r.real_used, r.tracker_vs_shm_mib), (0, 0, 300));
}

#[test]
fn devices_with_all_their_compute_are_unlimited() {
    let l = both();
    let shm = |a, b| {
        SharedMemory::Attached(SharedDeviceState::new(&[config(0, a, 1), config(1, b, 1)]))
    };
    assert!(l.all_devices_unlimited(&shm(100, 120)));
    assert!(!l.all_devices_unlimited(&shm(100, 99)));
    assert!(!l.all_devices_unlimited(&shared(&[1])));
}

#[test]
fn a_native_allocation_is_reserved_and_recorded() {
    let mut l = both();
    let mut shm = shared(&[1000]);
    let start = begin_alloc(&l, &mut shm, Ok(0), 600);
    assert!(matches!(start, AllocStart::Native(Some(0))));
    assert_eq!(finish_alloc(&mut l, &mut shm, Some(0), 600, HIP_SUCCESS, 0x10), Some(0));
    assert_eq!(used(&shm, 0), 600);

    assert!(matches!(begin_alloc(&l, &mut shm, Ok(0), 401), AllocStart::Deny(2)));
    assert!(matches!(begin_alloc(&l, &mut shm, Ok(8), 1), AllocStart::Deny(999)));
    assert!(matches!(begin_alloc(&l, &mut shm, Err(Error::Hip(1)), 401), AllocStart::Native(None)));
    assert_eq!(finish_alloc(&mut l, &mut shm, None, 401, HIP_SUCCESS, 0x20), None);
    assert_eq!(used(&shm, 0), 600);

    // A failed call, and one without a pointer, are taken back.
    begin_alloc(&l, &mut shm, Ok(0), 100);
    finish_alloc(&mut l, &mut shm, Some(0), 100, 2, 0x30);
    assert_eq!(used(&shm, 0), 600);
    begin_alloc(&l, &mut shm, Ok(0), 100);
    finish_alloc(&mut l, &mut shm, Some(0), 100, HIP_SUCCESS, 0);
    assert_eq!(used(&shm, 0), 600);

    // A failed free leaves the books alone.
    assert!(!finish_free(&mut l, &mut shm, 1, 0x10));
    assert!(!finish_free(&mut l, &mut shm, HIP_SUCCESS, 0));
    assert!(!finish_free(&mut l, &mut shm, HIP_SUCCESS, 0x99));
    assert_eq!(used(&shm, 0), 600);
    assert!(finish_free(&mut l, &mut shm, HIP_SUCCESS, 0x10));
    assert_eq!(used(&shm, 0), 0);
}

/// Without shared memory the native call is made, and nothing is accounted for.
#[test]
fn allocations_pass_without_shared_memory() {
    let mut l = both();
    let mut shm = SharedMemory::new();
    let start = begin_alloc(&l, &mut shm, Ok(0), 600);
    assert!(matches!(start, AllocStart::Native(None)));
    assert_eq!(finish_alloc(&mut l, &mut shm, None, 600, HIP_SUCCESS, 0x10), None);
    assert!(!finish_free(&mut l, &mut shm, HIP_SUCCESS, 0x10));
    assert!(matches!(begin_alloc(&l, &mut shm, Ok(0), 0), AllocStart::Native(None)));
    let start = begin_alloc(&l, &mut shm, Ok(0), u64::MAX);
    assert!(matches!(start, AllocStart::Deny(HIP_ERROR_OUT_OF_MEMORY)));
    assert!(matches!(shm, SharedMemory::Unavailable(_)));

    // As soon as it can be opened, requests are accounted for.
    let SharedMemory::Attached(state) = shared(&[1000]) else { panic!("it is attached") };
    assert!(shm.get_or_init(Ok(state)).is_ok());
    let start = begin_alloc(&l, &mut shm, Ok(0), 600);
    assert!(matches!(start, AllocStart::Native(Some(0))));
    assert_eq!(used(&shm, 0), 600);
}

#[test]
fn a_denied_reservation_restores_a_counter_near_its_end() {
    let l = both();
    let SharedMemory::Attached(mut state) = shared(&[u64::MAX]) else { panic!("it is attached") };
    state.set_pod_memory_used(0, u64::MAX - 1);
    let mut shm = SharedMemory::Attached(state);
    assert!(l.try_reserve(&mut shm, 0, 10).is_err());
    assert_eq!(used(&shm, 0), u64::MAX - 1);
    assert!(l.try_reserve(&mut shm, 0, 1).is_ok());
    assert_eq!(used(&shm, 0), u64::MAX);
}

#[test]
fn a_pitched_allocation_is_reserved_in_two_phases() {
    let mut l = both();
    let mut shm = shared(&[10_000]);
    begin_alloc(&l, &mut shm, Ok(0), 5_000);
    let end = finish_pitched(&mut l, &mut shm, Some(0), 5_000, 0, 0x10, Some(6_400));
    assert_eq!((end.code, end.free_native, end.due), (0, false, Some(0)));
    assert_eq!(used(&shm, 0), 6_400);

    begin_alloc(&l, &mut shm, Ok(0), 3_000);
    let end = finish_pitched(&mut l, &mut shm, Some(0), 3_000, 0, 0x20, Some(3_601));
    assert_eq!((end.code, end.free_native), (HIP_ERROR_OUT_OF_MEMORY, true));
    assert_eq!(used(&shm, 0), 6_400);

    for (code, pointer, actual, answer, free) in [
        (7, 0x30, Some(3_000), 7, false),
        (0, 0, Some(3_000), 0, false),
        (0, 0x30, None, 2, true),
    ] {
        begin_alloc(&l, &mut shm, Ok(0), 3_000);
        let end = finish_pitched(&mut l, &mut shm, Some(0), 3_000, code, pointer, actual);
        assert_eq!((end.code, end.free_native), (answer, free));
        assert_eq!(used(&shm, 0), 6_400);
    }
    let end = finish_pitched(&mut l, &mut shm, None, 3_000, 7, 0x30, None);
    assert_eq!((end.code, end.free_native), (7, false));
    assert!(finish_free(&mut l, &mut shm, 0, 0x10));
    assert_eq!(used(&shm, 0), 0);
}

#[test]
fn settlements() {
    assert_eq!(settle_alloc(0, HIP_SUCCESS, 5), Settlement::Nothing);
    assert_eq!(settle_alloc(7, HIP_SUCCESS, 5), Settlement::Record);
    assert_eq!(settle_alloc(7, HIP_SUCCESS, 0), Settlement::TakeBack);
    assert_eq!(settle_alloc(7, 2, 5), Settlement::TakeBack);
    assert_eq!(settle_pitched(10, 0, 5, Some(13)), PitchedSettlement::Extend(3, 13));
    assert_eq!(settle_pitched(10, 0, 5, Some(9)), PitchedSettlement::Extend(0, 9));
    assert_eq!(settle_pitched(10, 0, 5, None), PitchedSettlement::Undo);
    assert_eq!(settle_pitched(10, 0, 0, None), PitchedSettlement::TakeBack);
    assert_eq!(settle_pitched(10, 1, 5, Some(13)), PitchedSettlement::TakeBack);
}

#[test]
fn requests_come_from_dimensions() {
    assert_eq!(checked_pitched_size(&[100, 50]), Some(5_000));
    assert_eq!(checked_pitched_size(&[usize::MAX, 2]), None);
    assert_eq!(checked_pitched_size(&[usize::MAX, 2, 0]), None);
    assert_eq!(checked_pitched_size(&[usize::MAX, 0, 2]), Some(0));
    assert_eq!(checked_pitched_size(&[usize::MAX / 2 + 1]), None);
    assert!(matches!(pitched_request(&[3, 4, 5]), PitchedRequest::Reserve(60)));
    assert!(matches!(pitched_request(&[3, 0]), PitchedRequest::Passthrough));
    assert!(matches!(pitched_request(&[usize::MAX, 3]), PitchedRequest::Deny(2)));
    assert_eq!(pitched_actual(128, 50), Some(6_400));
    assert_eq!(pitched_actual(usize::MAX, 2), None);
    assert_eq!(pitched_actual_3d(128, 50, 10), Some(64_000));
    assert_eq!(pitched_actual_3d(usize::MAX, 1, 2), None);

    let desc = HipChannelFormatDesc { x: 32, y: 32, z: 0, w: 0, f: 2 };
    let extent = HipExtent { width: 4, height: 4, depth: 0 };
    assert_eq!(channel_array_request(&desc, extent), Ok(128));
    assert_eq!(mipmapped_array_request(&desc, extent, 3), Ok(128 + 32 + 8));
    assert_eq!(mipmapped_array_request(&desc, extent, 33), Err(HIP_ERROR_INVALID_VALUE));
    let odd = HipChannelFormatDesc { x: 3, ..desc };
    assert_eq!(channel_array_request(&odd, extent), Err(HIP_ERROR_INVALID_VALUE));
    assert_eq!(mipmapped_array_request(&odd, extent, 1), Err(HIP_ERROR_INVALID_VALUE));

    let flat = HipArrayDescriptor { width: 10, height: 3, format: 0x10, num_channels: 2 };
    assert_eq!(array_create_request(&flat), Ok(120));
    assert_eq!(
        array_create_request(&HipArrayDescriptor { format: 0x40, ..flat }),
        Err(HIP_ERROR_INVALID_VALUE)
    );
    let deep = HipArray3DDescriptor {
        width: 4,
        height: 4,
        depth: 4,
        format: 0x20,
        num_channels: 1,
        flags: 0,
    };
    assert_eq!(array_3d_create_request(&deep), Ok(256));
    assert_eq!(mipmapped_array_create_request(&deep, 2), Ok(256 + 32));
    assert_eq!(
        mipmapped_array_create_request(&HipArray3DDescriptor { format: 0, ..deep }, 2),
        Err(HIP_ERROR_INVALID_VALUE)
    );
    assert_eq!(
        array_3d_create_request(&HipArray3DDescriptor { width: usize::MAX, ..deep }),
        Err(HIP_ERROR_INVALID_VALUE)
    );
}

#[test]
fn applications_are_told_the_limit() {
    let l = both();
    let mut shm = shared(&[100 * MIB]);
    l.try_reserve(&mut shm, 0, 30 * MIB).unwrap();
    match mem_info(&l, &shm, Ok(0)) {
        InfoAnswer::Report(free, total) => assert_eq!((free, total), (70 * MIB, 100 * MIB)),
        _ => panic!("the limit is known"),
    }
    assert!(matches!(mem_info(&l, &shm, Ok(3)), InfoAnswer::Fail(999)));
    assert!(matches!(mem_info(&l, &shm, Err(Error::Hip(1))), InfoAnswer::Native));

    assert_eq!(patched_total(&l, &shm, 0, Ok(0)), Some(100 * MIB));
    assert_eq!(patched_total(&l, &shm, 1, Ok(0)), None);
    assert_eq!(patched_total(&l, &shm, 0, Ok(5)), None);
    assert_eq!(patched_total(&l, &shm, 0, Err(Error::LimiterNotInitialized)), None);
    assert_eq!(properties_precheck(true), Some(HIP_ERROR_INVALID_VALUE));
    assert_eq!(properties_precheck(false), None);

    assert_eq!(smi_memory_total(&l, &shm, 0, Some(0)), Some(100 * MIB));
    assert_eq!(smi_memory_total(&l, &shm, 1, Some(0)), None);
    assert_eq!(smi_memory_total(&l, &shm, 0, None), None);
    assert_eq!(smi_memory_total(&l, &shm, 0, Some(4)), None);
    assert_eq!(smi_vram_size(&l, &shm, 0, Some(0)), Some(100));
    assert_eq!(smi_vram_size(&l, &shm, 7, Some(0)), None);
    assert_eq!(rsmi_ordinal(3), 3);
    assert_eq!(rsmi_ordinal(u32::MAX), -1);
}

#[test]
fn handles_are_resolved_once() {
    let l = both();
    let mut cache = HandleCache::new();
    assert_eq!(cache.resolve_amdsmi_device(Some(&l), 0x10, None), None);
    assert_eq!(cache.lookup(0x10), None);
    assert_eq!(cache.resolve_amdsmi_device(None, 0x10, Some((0, 0x7500))), None);
    assert_eq!(cache.lookup(0x10), None);
    assert_eq!(cache.resolve_amdsmi_device(Some(&l), 0x10, Some((0, 0x0500))), Some(1));
    assert_eq!(cache.resolve_amdsmi_device(Some(&l), 0x10, Some((0, 0x7500))), Some(1));
    assert_eq!(cache.resolve_amdsmi_device(Some(&l), 0x20, Some((5, 0x7500))), None);
    assert_eq!(cache.lookup(0x20), Some(None));
    assert_eq!(cache.resolve_amdsmi_device(Some(&l), 0x20, Some((0, 0x7500))), None);
    assert_eq!(cache.resolve_amdsmi_device(Some(&l), 0x30, Some((0, 0xaa00))), None);
    assert_eq!(cache.lookup(0x30), Some(None));
}

#[test]
fn answers_of_the_runtime_are_taken_apart() {
    assert_eq!(device_count(0, 8), Ok(8));
    assert_eq!(device_count(3, 8), Err(3));
    assert_eq!(pci_bus_id(0, b"0000:75:00.0\0rest"), Ok("0000:75:00.0".to_string()));
    assert_eq!(pci_bus_id(0, b"abc"), Ok("abc".to_string()));
    assert_eq!(pci_bus_id(0, b"\0"), Ok(String::new()));
    assert_eq!(pci_bus_id(0, &[0xff, 0xfe]), Err(HIP_ERROR_UNKNOWN));
    assert_eq!(pci_bus_id(0, "é".as_bytes()), Ok("é".to_string()));
    assert_eq!(pci_bus_id(5, b"abc"), Err(5));
    assert_eq!(library_candidates(None), vec!["libamdhip64.so", "libamdhip64.so.6"]);
    assert_eq!(
        library_candidates(Some("/opt/x.so".to_string())),
        vec!["/opt/x.so", "libamdhip64.so", "libamdhip64.so.6"]
    );
}
