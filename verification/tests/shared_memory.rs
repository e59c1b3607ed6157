use hip_limiter::counter::within_limit;
use hip_limiter::shared_state::{
    heartbeat_is_stale, mock_configs, DeviceConfig, SharedDeviceInfo, SharedDeviceState,
};
use hip_limiter::shm_handle::{create_action, CreateAction, CreateOutcome, SharedMemoryHandle};

fn config(device_idx: u32, uuid: &str, up_limit: u32, mem_limit: u64, cores: u32) -> DeviceConfig {
    DeviceConfig {
        device_idx,
        device_uuid: uuid.to_string(),
        up_limit,
        mem_limit,
        sm_count: 82,
        max_thread_per_sm: 1536,
        total_cuda_cores: cores,
    }
}

fn created(configs: &[DeviceConfig]) -> SharedMemoryHandle {
    match SharedMemoryHandle::create(CreateOutcome::Created, Err(String::new()), configs) {
        Ok(handle) => handle,
        Err(e) => panic!("{e}"),
    }
}

fn opened(state: SharedDeviceState) -> SharedMemoryHandle {
    match SharedMemoryHandle::open(Ok(state), "somewhere") {
        Ok(handle) => handle,
        Err(e) => panic!("{e}"),
    }
}

#[test]
fn mock_shm_roundtrip() {
    let configs = vec![
        config(0, "AMD-GPU-0000:03:00.0", 80, 8 * 1024 * 1024 * 1024, 2048),
        config(1, "AMD-GPU-0000:04:00.0", 90, 16 * 1024 * 1024 * 1024, 4096),
    ];
    let handle = created(&configs);
    let state = handle.get_state();

    assert_eq!(state.device_count(), 2);
    assert_eq!(state.get_version(), 2);

    let (uuid, total_cores, mem_limit, pod_memory_used, up_limit, is_active) =
        state.get_device_info(0).expect("device 0 should exist");
    assert_eq!(uuid, "AMD-GPU-0000:03:00.0");
    assert_eq!(up_limit, 80);
    assert_eq!(mem_limit, 8 * 1024 * 1024 * 1024);
    assert_eq!(total_cores, 2048);
    assert_eq!(pod_memory_used, 0);
    assert!(is_active);

    let (uuid, total_cores, mem_limit, _, up_limit, is_active) =
        state.get_device_info(1).expect("device 1 should exist");
    assert_eq!(uuid, "AMD-GPU-0000:04:00.0");
    assert_eq!(up_limit, 90);
    assert_eq!(mem_limit, 16 * 1024 * 1024 * 1024);
    assert_eq!(total_cores, 4096);
    assert!(is_active);
    assert!(state.get_device_info(2).is_none());
    assert!(state.get_device_info(99).is_none());
}

#[test]
fn create_then_open_consistent() {
    let configs = vec![config(0, "GPU-test-uuid-1234", 75, 4 * 1024 * 1024 * 1024, 1024)];
    let mut state = SharedDeviceState::new(&configs);
    state.set_pod_memory_used(0, 512 * 1024 * 1024);

    let read_handle = opened(state);
    let state = read_handle.get_state();
    assert_eq!(state.device_count(), 1);
    let (_, _, mem_limit, pod_memory_used, _, _) =
        state.get_device_info(0).expect("device 0 should exist");
    assert_eq!(mem_limit, 4 * 1024 * 1024 * 1024);
    assert_eq!(pod_memory_used, 512 * 1024 * 1024);
}

#[test]
fn heartbeat_roundtrip() {
    let mut handle = created(&[]);
    let state = handle.get_state_mut();
    let timestamp = 1709827200u64;
    state.update_heartbeat(timestamp);
    assert_eq!(state.get_last_heartbeat(), timestamp);
}

#[test]
fn atomic_pod_memory_used_across_handles() {
    let configs = vec![config(0, "GPU-atomic-test", 80, 8 * 1024 * 1024 * 1024, 2048)];
    let mut handle = created(&configs);
    let used = |h: &SharedMemoryHandle| h.get_state().device(0).unwrap().get_pod_memory_used();

    assert_eq!(handle.get_state_mut().reserve(0, 1000), Some((0, 8 * 1024 * 1024 * 1024)));
    assert_eq!(used(&handle), 1000);
    assert_eq!(handle.get_state_mut().reserve(0, 500), Some((1000, 8 * 1024 * 1024 * 1024)));
    assert_eq!(used(&handle), 1500);
    handle.get_state_mut().release(0, 1000);
    assert_eq!(used(&handle), 500);
    handle.get_state_mut().release(0, 1000);
    assert_eq!(used(&handle), 0);
    assert_eq!(handle.get_state_mut().reserve(3, 500), None);
}

#[test]
fn effective_mem_limit_gates_allocation() {
    let mem_limit = 8 * 1024 * 1024 * 1024u64;
    let mut handle = created(&[config(0, "GPU-effective-test", 80, mem_limit, 2048)]);
    let state = handle.get_state_mut();

    assert_eq!(state.device(0).unwrap().get_effective_mem_limit(), 0);

    let effective_limit = 4 * 1024 * 1024 * 1024u64;
    assert!(state.set_effective_mem_limit(0, effective_limit));
    assert_eq!(state.device(0).unwrap().get_effective_mem_limit(), effective_limit);

    let size = 5 * 1024 * 1024 * 1024u64;
    let (previous, limit) = state.reserve(0, size).unwrap();
    assert_eq!(limit, effective_limit);
    assert!(previous.saturating_add(size) > limit, "5 GiB should exceed 4 GiB effective limit");
    assert!(!within_limit(previous, size, limit));
    state.release(0, size);

    let size = 3 * 1024 * 1024 * 1024u64;
    let (previous, limit) = state.reserve(0, size).unwrap();
    assert!(within_limit(previous, size, limit), "3 GiB should fit within 4 GiB effective limit");
    state.release(0, size);

    assert!(state.set_effective_mem_limit(0, 0));
    let size = 5 * 1024 * 1024 * 1024u64;
    let (previous, limit) = state.reserve(0, size).unwrap();
    assert_eq!(limit, mem_limit);
    assert!(within_limit(previous, size, limit), "5 GiB should fit when effective is 0");
}

#[test]
fn test_open_fails_when_not_exists() {
    let result = SharedMemoryHandle::open(Err("no such file".to_string()), "/x/test_open_create");
    match result {
        Ok(_) => panic!("there is nothing to open"),
        Err(e) => assert_eq!(e, "Failed to open shared memory: /x/test_open_create"),
    }
}

#[test]
fn test_open_existing_shared_memory() {
    let configs = vec![config(0, "GPU-test-uuid", 75, 4 * 1024 * 1024 * 1024, 1024)];
    let handle1 = created(&configs);
    assert_eq!(handle1.get_state().device_count(), 1);

    let handle2 = opened(handle1.get_state().clone());
    assert_eq!(handle2.get_state().device_count(), 1);
    let device_info = handle2.get_state().get_device_info(0).expect("Device should exist");
    assert_eq!(device_info.0, "GPU-test-uuid");
}

#[test]
fn heartbeats_grow_stale_after_two_seconds() {
    assert!(!heartbeat_is_stale(false, 102, 100));
    assert!(heartbeat_is_stale(false, 103, 100));
    assert!(!heartbeat_is_stale(false, 90, 100), "a clock may run behind");
    assert!(!heartbeat_is_stale(true, 1000, 0));
}

#[test]
fn test_open_multiple_times() {
    let segment = created(&[]);

    let handle1 = opened(segment.get_state().clone());
    assert_eq!(handle1.get_state().device_count(), 0);

    let handle2 = opened(segment.get_state().clone());
    assert_eq!(handle2.get_state().device_count(), 0);

    drop(handle1);

    let handle3 = opened(segment.get_state().clone());
    assert_eq!(handle3.get_state().device_count(), 0);
}

#[test]
fn test_create_twice_joins_existing_and_preserves_state() {
    let configs = vec![DeviceConfig {
        device_idx: 0,
        device_uuid: "GPU-test-uuid".to_string(),
        up_limit: 100,
        mem_limit: 1024 * 1024 * 1024,
        sm_count: 0,
        max_thread_per_sm: 0,
        total_cuda_cores: 0,
    }];
    let simulated_usage: u64 = 500 * 1024 * 1024;
    for outcome in [CreateOutcome::LinkExists, CreateOutcome::MappingIdExists] {
        let mut first = SharedDeviceState::new(&configs);
        assert_eq!(first.device_count(), 1);
        assert!(first.set_pod_memory_used(0, simulated_usage));

        let second = match SharedMemoryHandle::create(outcome, Ok(first), &configs) {
            Ok(handle) => handle,
            Err(e) => panic!("{e}"),
        };
        assert_eq!(second.get_state().device_count(), 1);
        let (_, _, _, used, _, _) = second.get_state().get_device_info(0).expect("device 0");
        assert_eq!(used, simulated_usage, "joining must not lose what others have counted");
    }
}

#[test]
fn test_open_with_nested_path() {
    let handle = created(&[]);
    assert_eq!(handle.get_state().device_count(), 0);
    let handle = opened(handle.get_state().clone());
    assert_eq!(handle.get_state().device_count(), 0);
}

#[test]
fn creating_fails_with_the_reason() {
    let failure = |outcome, found| match SharedMemoryHandle::create(outcome, found, &[]) {
        Ok(_) => panic!("should fail"),
        Err(e) => e,
    };
    assert_eq!(
        failure(CreateOutcome::Failed("no space".to_string()), Ok(SharedDeviceState::new(&[]))),
        "Failed to create shared memory: no space"
    );
    assert_eq!(
        failure(CreateOutcome::LinkExists, Err("gone".to_string())),
        "Failed to open existing shared memory"
    );
    assert!(matches!(create_action(&CreateOutcome::Created), CreateAction::Initialise));
    assert!(matches!(create_action(&CreateOutcome::LinkExists), CreateAction::Join));
}

#[test]
fn stand_in_limits() {
    let pairs = vec![(0usize, "a".to_string()), (5usize, "b".to_string())];
    let configs = mock_configs(&pairs);
    assert_eq!(configs.len(), 2);
    assert_eq!(configs[1].device_idx, 5);
    assert_eq!(configs[1].device_uuid, "b");
    assert_eq!(configs[1].up_limit, 80);
    assert_eq!(configs[1].mem_limit, 8 * 1024 * 1024 * 1024);
    assert_eq!(configs[1].sm_count, 82);
    assert_eq!(configs[1].max_thread_per_sm, 1536);
    assert_eq!(configs[1].total_cuda_cores, 2048);

    let handle = SharedMemoryHandle::mock(None, &pairs);
    assert_eq!(handle.get_state().device_count(), 2);
    assert_eq!(handle.get_state().device(5).unwrap().mem_limit, 8 * 1024 * 1024 * 1024);

    let mut existing = SharedDeviceState::new(&[config(0, "x", 1, 2, 3)]);
    existing.set_pod_memory_used(0, 9);
    let handle = SharedMemoryHandle::mock(Some(existing), &pairs);
    assert_eq!(handle.get_state().device_count(), 1);
    assert_eq!(handle.get_state().device(0).unwrap().pod_memory_used, 9);
}

#[test]
fn devices_out_of_range_are_left_out() {
    let state = SharedDeviceState::new(&[
        config(16, "far", 80, 1, 1),
        config(3, "first", 80, 1, 1),
        config(3, "second", 80, 2, 1),
    ]);
    assert_eq!(state.places(), 16);
    assert_eq!(state.device_count(), 1);
    assert_eq!(state.get_device_info(3).unwrap().0, "second");
}

#[test]
fn test_memory_info_reporting() {
    let mut state = SharedDeviceInfo::new(1000, 80, 1024 * 1024 * 1024);
    state.set_pod_memory_used(512 * 1024 * 1024);

    let total = state.get_mem_limit();
    let used = state.get_pod_memory_used();
    let free = total.saturating_sub(used);

    assert_eq!(total, 1024 * 1024 * 1024);
    assert_eq!(used, 512 * 1024 * 1024);
    assert_eq!(free, 512 * 1024 * 1024);
}

#[test]
fn test_memory_info_edge_cases() {
    let mut state = SharedDeviceInfo::new(1000, 80, 1024);
    state.set_pod_memory_used(1024);

    let total = state.get_mem_limit();
    let used = state.get_pod_memory_used();
    assert_eq!(total.saturating_sub(used), 0);

    state.set_pod_memory_used(2048);
    let used = state.get_pod_memory_used();
    assert_eq!(total.saturating_sub(used), 0);
}
