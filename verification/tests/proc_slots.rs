use hip_limiter::counter::fetch_sub;
use hip_limiter::proc_slots::{ProcSlotHandle, ProcSlotTable, MAX_DEVICES, MAX_PROC_SLOTS};
use hip_limiter::simulated_limiter::SimulatedLimiter;

/// A process that runs.
const LIVING: u32 = 4321;

#[test]
fn claim_and_release() {
    let mut table = ProcSlotTable::new_zeroed();
    table.initialize();

    let idx = table.claim_slot(42).expect("should claim");
    assert_eq!(table.slots[idx].pid, 42);

    table.release_slot(idx);
    assert_eq!(table.slots[idx].pid, 0);
}

#[test]
fn claim_fills_up() {
    let mut table = ProcSlotTable::new_zeroed();
    table.initialize();

    for i in 0..MAX_PROC_SLOTS {
        assert!(
            table.claim_slot((i + 1) as u32).is_some(),
            "slot {i} should be claimable"
        );
    }
    assert!(table.claim_slot(9999).is_none(), "table should be full");
}

#[test]
fn add_sub_usage() {
    let mut table = ProcSlotTable::new_zeroed();
    table.initialize();
    let idx = table.claim_slot(1).unwrap();

    table.add_usage(idx, 0, 1000);
    table.add_usage(idx, 0, 500);
    assert_eq!(table.read_slot_usage(idx)[0], 1500);

    table.sub_usage(idx, 0, 400);
    assert_eq!(table.read_slot_usage(idx)[0], 1100);
}

#[test]
fn sub_usage_saturates() {
    let mut table = ProcSlotTable::new_zeroed();
    table.initialize();
    let idx = table.claim_slot(1).unwrap();

    table.add_usage(idx, 0, 100);
    table.sub_usage(idx, 0, 200);
    assert_eq!(table.read_slot_usage(idx)[0], 0, "should saturate to 0");
}

#[test]
fn read_slot_usage_multi_device() {
    let mut table = ProcSlotTable::new_zeroed();
    table.initialize();
    let idx = table.claim_slot(1).unwrap();

    table.add_usage(idx, 0, 1000);
    table.add_usage(idx, 2, 2000);

    let usage = table.read_slot_usage(idx);
    assert_eq!(usage[0], 1000);
    assert_eq!(usage[1], 0);
    assert_eq!(usage[2], 2000);
}

#[test]
fn find_dead_slots_detects_current_process() {
    let mut table = ProcSlotTable::new_zeroed();
    table.initialize();

    let pid = LIVING;
    let idx = table.claim_slot(pid).unwrap();
    table.add_usage(idx, 0, 500);

    let dead = table.find_dead_slots(&[LIVING]);
    assert!(
        dead.is_empty(),
        "current process should be alive, got {dead:?}"
    );
}

#[test]
fn find_dead_slots_detects_fake_pid() {
    let mut table = ProcSlotTable::new_zeroed();
    table.initialize();

    let idx = table.claim_slot(4_000_000).unwrap();
    table.add_usage(idx, 0, 999);

    let dead = table.find_dead_slots(&[LIVING]);
    assert_eq!(dead.len(), 1);
    assert_eq!(dead[0].0, idx);
    assert_eq!(dead[0].1, 4_000_000); // returns (slot_idx, pid)
}

#[test]
fn claim_reuses_released_slot() {
    let mut table = ProcSlotTable::new_zeroed();
    table.initialize();

    let idx1 = table.claim_slot(1).unwrap();
    table.add_usage(idx1, 0, 5000);
    table.add_usage(idx1, 1, 3000);
    table.release_slot(idx1);

    let idx2 = table.claim_slot(2).unwrap();
    assert_eq!(idx1, idx2, "should reuse the first released slot");

    let usage = table.read_slot_usage(idx2);
    assert_eq!(usage[0], 0, "device 0 counter must be zeroed after reclaim");
    assert_eq!(usage[1], 0, "device 1 counter must be zeroed after reclaim");
}

#[test]
fn try_claim_and_release_prevents_double_reap() {
    let mut table = ProcSlotTable::new_zeroed();
    table.initialize();

    let idx = table.claim_slot(4_000_000).unwrap();
    table.add_usage(idx, 0, 5000);

    let usage = table.try_claim_and_release(idx, 4_000_000);
    assert!(usage.is_some());
    assert_eq!(usage.unwrap()[0], 5000);

    let usage2 = table.try_claim_and_release(idx, 4_000_000);
    assert!(usage2.is_none());
}

#[test]
fn add_usage_out_of_bounds_is_noop() {
    let mut table = ProcSlotTable::new_zeroed();
    table.initialize();
    let idx = table.claim_slot(1).unwrap();
    table.add_usage(idx, 0, 1000);

    table.add_usage(idx, MAX_DEVICES, 500);
    table.add_usage(idx, usize::MAX, 500);
    assert_eq!(table.read_slot_usage(idx)[0], 1000);

    table.add_usage(MAX_PROC_SLOTS, 0, 1000);
    table.add_usage(usize::MAX, 0, 1000);
}

#[test]
fn sub_usage_out_of_bounds_is_noop() {
    let mut table = ProcSlotTable::new_zeroed();
    table.initialize();
    let idx = table.claim_slot(1).unwrap();
    table.add_usage(idx, 0, 1000);

    table.sub_usage(idx, MAX_DEVICES, 500);
    assert_eq!(table.read_slot_usage(idx)[0], 1000);

    table.sub_usage(MAX_PROC_SLOTS, 0, 500);
}

#[test]
fn add_sub_usage_last_device_boundary() {
    let mut table = ProcSlotTable::new_zeroed();
    table.initialize();
    let idx = table.claim_slot(1).unwrap();

    table.add_usage(idx, MAX_DEVICES - 1, 4200);
    assert_eq!(table.read_slot_usage(idx)[MAX_DEVICES - 1], 4200);

    table.sub_usage(idx, MAX_DEVICES - 1, 1200);
    assert_eq!(table.read_slot_usage(idx)[MAX_DEVICES - 1], 3000);

    for d in 0..MAX_DEVICES - 1 {
        assert_eq!(table.read_slot_usage(idx)[d], 0, "device {d} must be 0");
    }
}

#[test]
fn read_slot_usage_out_of_bounds_returns_zeroes() {
    let mut table = ProcSlotTable::new_zeroed();
    table.initialize();

    let usage = table.read_slot_usage(MAX_PROC_SLOTS);
    assert_eq!(usage, [0u64; MAX_DEVICES]);

    let usage = table.read_slot_usage(usize::MAX);
    assert_eq!(usage, [0u64; MAX_DEVICES]);
}

#[test]
fn consecutive_reaps_are_idempotent() {
    let mut table = ProcSlotTable::new_zeroed();
    table.initialize();

    let idx = table.claim_slot(4_000_000).unwrap();
    table.add_usage(idx, 0, 999);

    let dead1 = table.find_dead_slots(&[LIVING]);
    assert_eq!(dead1.len(), 1);

    let usage = table.try_claim_and_release(idx, 4_000_000);
    assert!(usage.is_some());

    let dead2 = table.find_dead_slots(&[LIVING]);
    assert!(dead2.is_empty(), "second reap should find nothing");
}

#[test]
fn find_dead_slots_empty_when_no_dead() {
    let mut table = ProcSlotTable::new_zeroed();
    table.initialize();

    let pid = LIVING;
    let idx = table.claim_slot(pid).unwrap();
    table.add_usage(idx, 0, 500);

    let dead = table.find_dead_slots(&[LIVING]);
    assert!(dead.is_empty());
    assert_eq!(table.read_slot_usage(idx)[0], 500);
}

#[test]
fn zero_and_release_clears_all_devices() {
    let mut table = ProcSlotTable::new_zeroed();
    table.initialize();

    let idx = table.claim_slot(1).unwrap();
    table.add_usage(idx, 0, 100);
    table.add_usage(idx, 1, 200);
    table.add_usage(idx, 2, 300);

    table.zero_and_release(idx);

    assert_eq!(table.slots[idx].pid, 0);
    let usage = table.read_slot_usage(idx);
    assert_eq!(usage[0], 0);
    assert_eq!(usage[1], 0);
    assert_eq!(usage[2], 0);
}

#[test]
fn handle_create_and_claim() {
    let handle = ProcSlotHandle::create_and_claim(ProcSlotTable::new_zeroed(), true, LIVING);
    assert!(handle.slot_idx().is_some());
    assert!(handle.table().is_initialized());
}

#[test]
fn handle_add_sub_usage() {
    let mut handle = ProcSlotHandle::create_and_claim(ProcSlotTable::new_zeroed(), true, LIVING);
    let idx = handle.slot_idx().unwrap();

    handle.add_usage(0, 1000);
    handle.add_usage(0, 500);
    handle.sub_usage(0, 300);

    let usage = handle.table().read_slot_usage(idx);
    assert_eq!(usage[0], 1200);
}

#[test]
fn handle_drain_our_slot() {
    let mut handle = ProcSlotHandle::create_and_claim(ProcSlotTable::new_zeroed(), true, LIVING);
    let idx = handle.slot_idx().unwrap();

    handle.add_usage(0, 100);
    handle.add_usage(1, 200);

    let usage = handle.drain_our_slot().expect("drain should return usage");
    assert_eq!(usage[0], 100);
    assert_eq!(usage[1], 200);

    assert_eq!(
        handle.table().slots[idx].pid,
        0,
        "slot should be released after drain"
    );

    assert!(handle.slot_idx().is_none(), "slot_idx should be None after drain");

    handle.add_usage(0, 9999);
    assert_eq!(handle.table().read_slot_usage(idx)[0], 0, "add_usage after drain should be noop");
}

#[test]
fn handle_reap_dead() {
    let mut handle = ProcSlotHandle::create_and_claim(ProcSlotTable::new_zeroed(), true, LIVING);

    let dead_pid: u32 = 4_000_000;
    let dead_idx = handle.table_mut().claim_slot(dead_pid).unwrap();
    handle.table_mut().add_usage(dead_idx, 0, 5000);
    handle.table_mut().add_usage(dead_idx, 1, 3000);

    let reaped = handle.reap_dead(&[LIVING]);
    assert_eq!(reaped.len(), 1);
    assert_eq!(reaped[0].0, dead_pid);
    assert_eq!(reaped[0].1[0], 5000);
    assert_eq!(reaped[0].1[1], 3000);

    assert_eq!(handle.table().slots[dead_idx].pid, 0);
    assert!(handle.slot_idx().is_some(), "our slot must still be valid");

    let reaped2 = handle.reap_dead(&[LIVING]);
    assert!(reaped2.is_empty());
}

#[test]
fn reap_dead_pid_corrects_counter() {
    let mut table = ProcSlotTable::new_zeroed();
    table.initialize();

    let slot_a = table.claim_slot(99999).unwrap();
    table.add_usage(slot_a, 0, 10 * 1024 * 1024 * 1024);

    let mut pod_memory_used: u64 = 10 * 1024 * 1024 * 1024;

    let dead = table.find_dead_slots(&[LIVING]);
    assert_eq!(dead.len(), 1);
    let (dead_slot, dead_pid) = dead[0];
    assert_eq!(dead_pid, 99999);

    let usage = table.try_claim_and_release(dead_slot, dead_pid).unwrap();
    assert_eq!(usage[0], 10 * 1024 * 1024 * 1024);

    let prev = fetch_sub(&mut pod_memory_used, usage[0]);
    assert_eq!(prev, 10 * 1024 * 1024 * 1024);
    assert_eq!(pod_memory_used, 0);

    assert_eq!(table.slots[dead_slot].pid, 0);
}

#[test]
fn concurrent_slot_claiming_no_duplicates() {
    let mut table = ProcSlotTable::new_zeroed();
    table.initialize();

    let mut claimed: Vec<usize> = Vec::new();
    for i in 0..MAX_PROC_SLOTS {
        if let Some(idx) = table.claim_slot((i + 1) as u32) {
            claimed.push(idx);
        }
    }

    assert_eq!(claimed.len(), MAX_PROC_SLOTS);
    claimed.sort();
    claimed.dedup();
    assert_eq!(claimed.len(), MAX_PROC_SLOTS);
}

#[test]
fn simulated_limiter_proc_usage_equals_pod_used() {
    let mut limiter = SimulatedLimiter::new(10_000_000);
    let mut live: Vec<usize> = Vec::new();

    for _ in 0..50 {
        if let Ok(ptr) = limiter.try_alloc(100_000) {
            live.push(ptr);
        }
    }
    assert_eq!(limiter.proc_usage(), limiter.pod_memory_used());

    for _ in 0..25 {
        if let Some(ptr) = live.pop() {
            limiter.free(ptr);
        }
    }
    assert_eq!(limiter.proc_usage(), limiter.pod_memory_used());

    limiter.drain_allocations();
    assert_eq!(limiter.proc_usage(), 0);
    assert_eq!(limiter.pod_memory_used(), 0);
}

#[test]
fn simulated_limiter_pitched_alloc_proc_usage() {
    let mut limiter = SimulatedLimiter::new(10_000_000);

    let ptr = limiter.try_alloc_pitched(1000, 1024, true).unwrap();
    assert_eq!(limiter.proc_usage(), 1024); // tracked at actual_size
    assert_eq!(limiter.pod_memory_used(), 1024);

    limiter.free(ptr);
    assert_eq!(limiter.proc_usage(), 0);
}

#[test]
fn simulated_limiter_native_fail_no_proc_usage() {
    let mut limiter = SimulatedLimiter::new(10_000_000);
    let _ = limiter.try_alloc_native_fails(5000);
    assert_eq!(limiter.proc_usage(), 0);
    assert_eq!(limiter.pod_memory_used(), 0);
}

#[test]
fn concurrent_add_usage_same_slot() {
    let mut table = ProcSlotTable::new_zeroed();
    table.initialize();
    let slot = table.claim_slot(LIVING).unwrap();

    let thread_count: u64 = 8;
    let increments_per_thread: u64 = 1000;
    let increment_size: u64 = 100;

    for _ in 0..increments_per_thread {
        for _ in 0..thread_count {
            table.add_usage(slot, 0, increment_size);
        }
    }

    let usage = table.read_slot_usage(slot);
    let expected = thread_count * increments_per_thread * increment_size;
    assert_eq!(usage[0], expected, "additions must sum correctly");

    for d in 1..MAX_DEVICES {
        assert_eq!(usage[d], 0, "device {d} must be 0");
    }
}

#[test]
fn concurrent_try_claim_and_release_single_winner() {
    let mut table = ProcSlotTable::new_zeroed();
    table.initialize();

    let dead_pid: u32 = 4_000_000;
    let idx = table.claim_slot(dead_pid).unwrap();
    table.add_usage(idx, 0, 7777);
    table.add_usage(idx, 1, 3333);

    let mut results = Vec::new();
    for _ in 0..16 {
        results.push(table.try_claim_and_release(idx, dead_pid));
    }
    let winners: Vec<_> = results.iter().filter_map(|r| r.as_ref()).collect();

    assert_eq!(winners.len(), 1, "exactly one reaper must win");
    assert_eq!(winners[0][0], 7777);
    assert_eq!(winners[0][1], 3333);

    assert_eq!(table.slots[idx].pid, 0);
}

#[test]
fn concurrent_reap_dead_no_double_subtraction() {
    let mut table = ProcSlotTable::new_zeroed();
    table.initialize();

    let dead_count = 8;
    let usage_per_slot: u64 = 1000;
    for i in 0..dead_count {
        let pid = 4_000_000 + i as u32;
        let idx = table.claim_slot(pid).unwrap();
        table.add_usage(idx, 0, usage_per_slot);
    }

    let thread_count = 16;
    let sightings: Vec<_> = (0..thread_count)
        .map(|_| table.find_dead_slots(&[LIVING]))
        .collect();
    let mut total_reaped: u64 = 0;
    for dead in sightings {
        assert_eq!(dead.len(), dead_count);
        for (slot_idx, dead_pid) in dead {
            if let Some(usage) = table.try_claim_and_release(slot_idx, dead_pid) {
                total_reaped += usage[0];
            }
        }
    }

    let expected = dead_count as u64 * usage_per_slot;
    assert_eq!(total_reaped, expected, "nothing may be handed out twice");

    for i in 0..dead_count {
        assert_eq!(table.slots[i].pid, 0, "slot {i} should be released");
    }
}

#[test]
fn slot_exhaustion_graceful_degradation() {
    let mut table = ProcSlotTable::new_zeroed();
    table.initialize();

    let mut slots = Vec::new();
    for i in 0..MAX_PROC_SLOTS {
        let idx = table.claim_slot((i + 1) as u32).unwrap();
        slots.push(idx);
    }

    assert!(table.claim_slot(9999).is_none(), "table should be full");

    table.add_usage(slots[0], 0, 1000);
    assert_eq!(table.read_slot_usage(slots[0])[0], 1000);

    table.zero_and_release(slots[0]);
    let new_slot = table.claim_slot(9999).unwrap();
    assert_eq!(new_slot, slots[0], "should reuse released slot");
    assert_eq!(table.read_slot_usage(new_slot)[0], 0, "counters must be zeroed");
}

#[test]
fn toctou_reap_does_not_evict_new_occupant() {
    let mut table = ProcSlotTable::new_zeroed();
    table.initialize();

    let dead_pid: u32 = 4_000_000;
    let idx = table.claim_slot(dead_pid).unwrap();
    table.add_usage(idx, 0, 5000);

    let reaper_a_snapshot = table.find_dead_slots(&[LIVING]);
    assert_eq!(reaper_a_snapshot.len(), 1);
    let (snapshot_slot, snapshot_pid) = reaper_a_snapshot[0];
    assert_eq!(snapshot_pid, dead_pid);

    let reaper_b_result = table.try_claim_and_release(idx, dead_pid);
    assert!(reaper_b_result.is_some());
    assert_eq!(reaper_b_result.unwrap()[0], 5000);

    let new_pid: u32 = 42;
    let new_idx = table.claim_slot(new_pid).unwrap();
    assert_eq!(new_idx, idx, "should reuse the same slot");
    table.add_usage(new_idx, 0, 9999);

    let reaper_a_result = table.try_claim_and_release(snapshot_slot, snapshot_pid);
    assert!(
        reaper_a_result.is_none(),
        "slot now holds PID {new_pid}, not {dead_pid}"
    );

    assert_eq!(
        table.slots[idx].pid,
        new_pid,
        "live process must still own the slot"
    );
    assert_eq!(
        table.read_slot_usage(idx)[0],
        9999,
        "live process usage must be intact"
    );
}

#[test]
fn toctou_usage_snapshot_before_cas_not_after() {
    let mut table = ProcSlotTable::new_zeroed();
    table.initialize();

    let dead_pid: u32 = 4_000_000;
    let idx = table.claim_slot(dead_pid).unwrap();
    table.add_usage(idx, 0, 7777);

    let usage = table.try_claim_and_release(idx, dead_pid);
    assert!(usage.is_some());

    let new_idx = table.claim_slot(42).unwrap();
    assert_eq!(new_idx, idx);

    assert_eq!(
        usage.unwrap()[0],
        7777,
        "the counters must be those of the dead process"
    );
}

#[test]
fn reap_on_oom_recovers_stale_usage() {
    let mut limiter = SimulatedLimiter::new(1_000_000);

    let ptr = limiter.try_alloc(900_000).unwrap();
    assert_eq!(limiter.pod_memory_used(), 900_000);

    limiter.inject_stale_usage(200_000);
    assert_eq!(limiter.pod_memory_used(), 1_100_000);

    assert!(limiter.try_alloc(50_000).is_err());

    let ptr2 = limiter.try_alloc_with_reap(50_000, |l| {
        l.recover_stale_usage(200_000);
        1 // reaped 1 dead process
    });
    assert!(ptr2.is_ok());
    assert_eq!(limiter.pod_memory_used(), 950_000);

    limiter.free(ptr);
    limiter.free(ptr2.unwrap());
    assert_eq!(limiter.pod_memory_used(), 0);
}

#[test]
fn reap_on_oom_insufficient_recovery() {
    let mut limiter = SimulatedLimiter::new(1_000_000);

    let _ptr = limiter.try_alloc(950_000).unwrap();

    limiter.inject_stale_usage(100_000);

    let result = limiter.try_alloc_with_reap(200_000, |l| {
        l.recover_stale_usage(100_000);
        1
    });
    assert!(result.is_err());
    assert_eq!(limiter.pod_memory_used(), 950_000);
}

#[test]
fn reap_on_oom_nothing_to_reap() {
    let mut limiter = SimulatedLimiter::new(1_000_000);
    let _ptr = limiter.try_alloc(900_000).unwrap();

    let mut reap_called = false;
    let result = limiter.try_alloc_with_reap(200_000, |_l| {
        reap_called = true;
        0 // nothing to reap
    });
    assert!(result.is_err());
    assert!(reap_called, "reap_fn must be called on OOM");
    assert_eq!(limiter.pod_memory_used(), 900_000, "no side effects from failed reap path");
}
