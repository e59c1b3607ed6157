use hip_limiter::simulated_pod::SimulatedPod;

const GIB: u64 = 1024 * 1024 * 1024;

#[test]
fn basic_spawn_alloc_drain() {
    let mut pod = SimulatedPod::new(&[128 * GIB]);
    let p0 = pod.spawn_process(&[0]);

    let ptr = pod.try_alloc(p0, 0, 1024).unwrap();
    assert_eq!(pod.pod_memory_used(0), 1024);

    assert!(pod.free(p0, ptr));
    assert_eq!(pod.pod_memory_used(0), 0);

    pod.drain_process(p0);
    assert!(!pod.process(p0).is_alive());
}

#[test]
fn kill_leaves_stale_slot() {
    let mut pod = SimulatedPod::new(&[128 * GIB]);
    let p0 = pod.spawn_process(&[5 * GIB]);

    let _ptr = pod.try_alloc(p0, 0, 1000).unwrap();

    pod.kill_process(p0);

    assert_eq!(pod.sum_non_hip_for_device(0), 5 * GIB);
    assert_eq!(pod.pod_memory_used(0), 1000);
}

#[test]
fn reconciliation_reaps_stale_non_hip() {
    let mut pod = SimulatedPod::new(&[128 * GIB]);

    for _ in 0..3 {
        let p = pod.spawn_process(&[13 * GIB]);
        pod.kill_process(p);
    }

    assert_eq!(pod.sum_non_hip_for_device(0), 39 * GIB);

    let live = pod.spawn_process(&[2 * GIB]);

    pod.reconcile(live);

    assert_eq!(pod.sum_non_hip_for_device(0), 2 * GIB);

    assert_eq!(pod.effective_mem_limit(0), 128 * GIB - 2 * GIB);
}

#[test]
fn effective_limit_gates_allocation() {
    let mut pod = SimulatedPod::new(&[128 * GIB]);
    let p0 = pod.spawn_process(&[100 * GIB]); // heavy overhead

    pod.reconcile(p0);
    assert_eq!(pod.effective_mem_limit(0), 28 * GIB);

    let ptr = pod.try_alloc(p0, 0, 20 * GIB).unwrap();

    assert!(pod.try_alloc(p0, 0, 10 * GIB).is_err());

    pod.free(p0, ptr);
    assert!(pod.try_alloc(p0, 0, 10 * GIB).is_ok());
}

#[test]
fn simulated_pod_multi_device_overhead_independence() {
    let mut pod = SimulatedPod::new(&[128 * GIB, 128 * GIB]);

    let p0 = pod.spawn_process(&[50 * GIB, 0]);
    pod.reconcile(p0);

    assert_eq!(pod.effective_mem_limit(0), 78 * GIB);
    assert_eq!(pod.effective_mem_limit(1), 128 * GIB);

    assert!(pod.try_alloc(p0, 0, 80 * GIB).is_err());
    assert!(pod.try_alloc(p0, 1, 80 * GIB).is_ok());
}

#[test]
fn stale_non_hip_cleared_by_reconciliation() {
    let mut pod = SimulatedPod::new(&[128 * GIB]);

    let procs: Vec<usize> = (0..4).map(|_| pod.spawn_process(&[13 * GIB])).collect();

    for &p in &procs[..3] {
        pod.kill_process(p);
    }

    assert_eq!(pod.sum_non_hip_for_device(0), 4 * 13 * GIB);

    let survivor = procs[3];
    pod.reconcile(survivor);

    assert_eq!(pod.sum_non_hip_for_device(0), 13 * GIB);
    assert_eq!(pod.effective_mem_limit(0), 128 * GIB - 13 * GIB);
}

#[test]
fn rapid_process_cycling_overhead_convergence() {
    let mut pod = SimulatedPod::new(&[128 * GIB]);

    for _ in 0..20 {
        let p = pod.spawn_process(&[5 * GIB]);

        for _ in 0..101 {
            let _ = pod.try_alloc(p, 0, 1024);
        }

        pod.kill_process(p);
    }

    let fresh_non_hip = 2 * GIB;
    let fresh = pod.spawn_process(&[fresh_non_hip]);
    pod.reconcile(fresh);

    assert_eq!(pod.sum_non_hip_for_device(0), fresh_non_hip);

    assert_eq!(pod.effective_mem_limit(0), 128 * GIB - fresh_non_hip);
}

#[test]
fn slot_exhaustion_with_non_hip() {
    let mut pod = SimulatedPod::new(&[128 * GIB]);

    let dead_procs: Vec<usize> = (0..127).map(|_| pod.spawn_process(&[1 * GIB])).collect();
    for &p in &dead_procs {
        pod.kill_process(p);
    }

    let live = pod.spawn_process(&[1 * GIB]);
    assert!(
        pod.process(live).slot_idx.is_some(),
        "should claim the last available slot"
    );

    assert_eq!(pod.sum_non_hip_for_device(0), 128 * GIB);

    pod.reconcile(live);

    assert_eq!(pod.sum_non_hip_for_device(0), 1 * GIB);
    assert_eq!(pod.effective_mem_limit(0), 127 * GIB);
}

#[test]
fn concurrent_reconciliation_no_double_reap() {
    let mut pod = SimulatedPod::new(&[128 * GIB]);

    let procs: Vec<usize> = (0..8).map(|_| pod.spawn_process(&[5 * GIB])).collect();

    for &p in &procs {
        let _ = pod.try_alloc(p, 0, 1024).unwrap();
    }

    for &p in &procs[..4] {
        pod.kill_process(p);
    }

    for &p in &procs[4..] {
        pod.reconcile(p);
    }

    assert_eq!(pod.sum_non_hip_for_device(0), 4 * 5 * GIB);
    assert_eq!(pod.effective_mem_limit(0), 128 * GIB - 20 * GIB);

    assert_eq!(pod.pod_memory_used(0), 4 * 1024);
}

/// Only running processes count, whoever reconciles.
#[test]
fn limits_are_less_the_overhead_of_the_living() {
    let mut pod = SimulatedPod::new(&[128 * GIB, 64 * GIB]);
    let a = pod.spawn_process(&[5 * GIB, GIB]);
    let b = pod.spawn_process(&[7 * GIB]);
    let c = pod.spawn_process(&[11 * GIB, 70 * GIB]);
    pod.reconcile(a);
    assert_eq!((pod.effective_mem_limit(0), pod.effective_mem_limit(1)), (105 * GIB, 0));
    pod.kill_process(c);
    pod.reconcile(b);
    assert_eq!((pod.effective_mem_limit(0), pod.effective_mem_limit(1)), (116 * GIB, 63 * GIB));
    pod.drain_process(a);
    pod.reconcile(b);
    assert_eq!((pod.effective_mem_limit(0), pod.effective_mem_limit(1)), (121 * GIB, 64 * GIB));
}

#[test]
fn effective_limit_tightens_with_more_processes() {
    let mut pod = SimulatedPod::new(&[128 * GIB]);

    for i in 1..=8u64 {
        let p = pod.spawn_process(&[5 * GIB]);
        pod.reconcile(p);
        assert_eq!(
            pod.effective_mem_limit(0),
            128 * GIB - i * 5 * GIB,
            "after spawning process {i}"
        );
    }
}

#[test]
fn kill_then_spawn_reuses_slot() {
    let mut pod = SimulatedPod::new(&[128 * GIB]);

    let procs: Vec<usize> = (0..4).map(|_| pod.spawn_process(&[10 * GIB])).collect();

    pod.kill_process(procs[0]);
    pod.kill_process(procs[1]);

    let new0 = pod.spawn_process(&[3 * GIB]);
    let new1 = pod.spawn_process(&[3 * GIB]);

    assert!(pod.process(new0).slot_idx.is_some());
    assert!(pod.process(new1).slot_idx.is_some());

    pod.reconcile(new0);

    assert_eq!(pod.sum_non_hip_for_device(0), 2 * 10 * GIB + 2 * 3 * GIB);
    assert_eq!(
        pod.effective_mem_limit(0),
        128 * GIB - (20 * GIB + 6 * GIB)
    );
}

#[test]
fn multi_process_lifecycle_multi_device_overhead_independence() {
    let mut pod = SimulatedPod::new(&[128 * GIB, 128 * GIB, 128 * GIB, 128 * GIB]);

    let p = pod.spawn_process(&[50 * GIB, 10 * GIB, 0, 30 * GIB]);
    pod.reconcile(p);

    assert_eq!(pod.effective_mem_limit(0), 78 * GIB);
    assert_eq!(pod.effective_mem_limit(1), 118 * GIB);
    assert_eq!(pod.effective_mem_limit(2), 128 * GIB);
    assert_eq!(pod.effective_mem_limit(3), 98 * GIB);

    assert!(
        pod.try_alloc(p, 2, 100 * GIB).is_ok(),
        "device 2 has no overhead, 100 GiB alloc should succeed"
    );

    assert!(
        pod.try_alloc(p, 0, 100 * GIB).is_err(),
        "device 0 has 50 GiB overhead, 100 GiB alloc should be denied"
    );
}

#[test]
fn drain_updates_effective_limit_for_other_processes() {
    let mut pod = SimulatedPod::new(&[128 * GIB]);

    let p0 = pod.spawn_process(&[20 * GIB]);
    let p1 = pod.spawn_process(&[10 * GIB]);
    pod.reconcile(p0);

    assert_eq!(pod.effective_mem_limit(0), 98 * GIB);

    pod.drain_process(p0);

    pod.reconcile(p1);
    assert_eq!(pod.effective_mem_limit(0), 118 * GIB);
    assert_eq!(pod.sum_non_hip_for_device(0), 10 * GIB);
}

#[test]
fn oom_reap_retry_succeeds() {
    let mut pod = SimulatedPod::new(&[20 * GIB]);

    let dead = pod.spawn_process(&[15 * GIB]);
    for _ in 0..101 {
        let _ = pod.try_alloc(dead, 0, 1024);
    }
    pod.kill_process(dead);

    let live = pod.spawn_process(&[1 * GIB]);

    assert!(pod.try_alloc(live, 0, 6 * GIB).is_err());

    pod.reconcile(live);

    assert_eq!(pod.effective_mem_limit(0), 19 * GIB);
    assert!(pod.try_alloc(live, 0, 6 * GIB).is_ok());
}

#[test]
fn no_slot_process_does_not_corrupt_effective_limit() {
    let mut pod = SimulatedPod::new(&[128 * GIB]);

    let holders: Vec<usize> = (0..128).map(|_| pod.spawn_process(&[0])).collect();

    let no_slot = pod.spawn_process(&[5 * GIB]);
    assert!(
        pod.process(no_slot).slot_idx.is_none(),
        "should have no slot when all 128 are taken"
    );

    let ptr = pod.try_alloc(no_slot, 0, 1024).unwrap();
    assert_eq!(pod.pod_memory_used(0), 1024);

    pod.reconcile(no_slot);

    assert_eq!(pod.effective_mem_limit(0), 128 * GIB);

    assert!(pod.free(no_slot, ptr));
    assert_eq!(pod.pod_memory_used(0), 0);

    pod.drain_process(holders[0]);
}

/// Random comings and goings: limits are never raised above the configured one, a granted
/// request is within the limit in force, and in the end nothing is left behind.
#[test]
fn pod_random_lifecycle_invariants() {
    for seed in 1..30u64 {
        let mut state = seed;
        let mut next = || {
            state ^= state << 13;
            state ^= state >> 7;
            state ^= state << 17;
            state
        };
        let mem_limit = 100 * GIB;
        let mut pod = SimulatedPod::new(&[mem_limit]);
        let mut live = vec![(pod.spawn_process(&[GIB]), Vec::new())];
        for _ in 0..100 {
            let i = next() as usize % live.len();
            match next() % 5 {
                0 => {
                    if live.len() < 64 {
                        live.push((pod.spawn_process(&[(next() % 20) * GIB]), Vec::new()));
                    }
                }
                1 => {
                    if live.len() > 1 {
                        let (p, _) = live.remove(i);
                        pod.kill_process(p);
                    }
                }
                2 => {
                    let size = (next() % 9_999 + 1) * 1024;
                    let effective = pod.effective_mem_limit(0);
                    let limit = if effective > 0 { effective } else { mem_limit };
                    if let Ok(pointer) = pod.try_alloc(live[i].0, 0, size) {
                        live[i].1.push(pointer);
                        assert!(pod.pod_memory_used(0) <= limit);
                    }
                }
                3 => {
                    if let Some(pointer) = live[i].1.pop() {
                        assert!(pod.free(live[i].0, pointer));
                    }
                }
                _ => pod.reconcile(live[i].0),
            }
            assert!(pod.effective_mem_limit(0) <= mem_limit);
        }
        assert_eq!(pod.live_process_count(), live.len());
        pod.reconcile(live[0].0);
        for (p, _) in live {
            pod.drain_process(p);
        }
        assert_eq!(pod.pod_memory_used(0), 0);
        assert_eq!(pod.live_process_count(), 0);
    }
}

#[test]
fn books_are_reconciled_at_the_first_and_every_hundredth_allocation() {
    let mut pod = SimulatedPod::new(&[10 * GIB, 10 * GIB]);
    let p = pod.spawn_process(&[GIB]);
    assert_eq!(pod.device_count(), 2);
    assert_eq!(pod.effective_mem_limit(0), 0);
    pod.try_alloc(p, 1, 1).unwrap();
    assert_eq!(pod.effective_mem_limit(0), 9 * GIB);
    pod.spawn_process(&[2 * GIB]);
    for _ in 0..99 {
        pod.try_alloc(p, 1, 1).unwrap();
        assert_eq!(pod.effective_mem_limit(0), 9 * GIB);
    }
    pod.try_alloc(p, 1, 1).unwrap();
    assert_eq!(pod.effective_mem_limit(0), 7 * GIB);
    assert_eq!(pod.process(p).alloc_count(), 101);
    assert_eq!(pod.drain_process(p), 101);
}

/// Overhead that eats up the whole limit leaves zero, which stands for "not computed".
#[test]
fn overhead_above_the_limit_puts_the_configured_limit_in_force() {
    let mut pod = SimulatedPod::new(&[10 * GIB]);
    let p = pod.spawn_process(&[11 * GIB]);
    pod.reconcile(p);
    assert_eq!(pod.effective_mem_limit(0), 0);
    assert!(pod.try_alloc(p, 0, 10 * GIB).is_ok());
}
