use hip_limiter::multi_device::MultiDeviceSimulatedLimiter;
use hip_limiter::simulated_limiter::SimulatedLimiter;

/// A deterministic source of numbers.
struct Numbers(u64);

impl Numbers {
    fn next(&mut self) -> u64 {
        self.0 ^= self.0 << 13;
        self.0 ^= self.0 >> 7;
        self.0 ^= self.0 << 17;
        self.0
    }

    /// A number from `low` up to, but without, `high`.
    fn within(&mut self, low: u64, high: u64) -> u64 {
        low + self.next() % (high - low)
    }
}

/// Random requests: usage is the sum of the live allocations throughout.
#[test]
fn alloc_free_accounting() {
    for seed in 1..40 {
        let mut n = Numbers(seed);
        let mut limiter = SimulatedLimiter::new(10_000_000);
        let mut live: Vec<usize> = Vec::new();
        for _ in 0..n.within(1, 500) {
            if n.next() % 2 == 0 {
                if let Ok(pointer) = limiter.try_alloc(n.within(1, 1_000_000)) {
                    live.push(pointer);
                }
            } else if !live.is_empty() {
                let i = (n.next() % 500) as usize % live.len();
                limiter.free(live.swap_remove(i));
            }
        }
        assert_eq!(limiter.allocation_count(), live.len());
        assert_eq!(limiter.pod_memory_used(), limiter.tracked_total());
        assert_eq!(limiter.proc_usage(), limiter.pod_memory_used());
    }
}

#[test]
fn never_exceeds_limit() {
    let limit = 5_000_000u64;
    for seed in 1..40 {
        let mut n = Numbers(seed);
        let mut limiter = SimulatedLimiter::new(limit);
        for _ in 0..100 {
            let _ = limiter.try_alloc(n.within(1, 1_000_000));
            assert!(limiter.pod_memory_used() <= limit);
            assert_eq!(limiter.proc_usage(), limiter.pod_memory_used());
        }
    }
}

#[test]
fn free_returns_to_zero() {
    for seed in 1..40 {
        let mut n = Numbers(seed);
        let mut limiter = SimulatedLimiter::new(u64::MAX / 2);
        let mut pointers = Vec::new();
        for _ in 0..n.within(1, 50) {
            if let Ok(pointer) = limiter.try_alloc(n.within(1, 1_000_000)) {
                pointers.push(pointer);
            }
        }
        for pointer in pointers {
            limiter.free(pointer);
        }
        assert_eq!(limiter.pod_memory_used(), 0);
        assert_eq!(limiter.tracked_total(), 0);
        assert_eq!(limiter.allocation_count(), 0);
        assert_eq!(limiter.proc_usage(), 0);
    }
}

/// One random step with pitched allocations among plain ones.
fn pitched_step(n: &mut Numbers, limiter: &mut SimulatedLimiter, live: &mut Vec<usize>) {
    match n.next() % 3 {
        0 => {
            let estimated = n.within(1, 500_000);
            let actual = estimated + estimated * n.within(0, 50) / 100;
            if let Ok(pointer) = limiter.try_alloc_pitched(estimated, actual, true) {
                live.push(pointer);
            }
        }
        1 => {
            if let Ok(pointer) = limiter.try_alloc(n.within(1, 500_000)) {
                live.push(pointer);
            }
        }
        _ => {
            if !live.is_empty() {
                let i = (n.next() % 500) as usize % live.len();
                limiter.free(live.swap_remove(i));
            }
        }
    }
}

#[test]
fn pitched_alloc_accounting() {
    for seed in 1..40 {
        let mut n = Numbers(seed);
        let mut limiter = SimulatedLimiter::new(10_000_000);
        let mut live: Vec<usize> = Vec::new();
        for _ in 0..n.within(1, 500) {
            pitched_step(&mut n, &mut limiter, &mut live);
        }
        assert_eq!(limiter.allocation_count(), live.len());
        assert_eq!(limiter.pod_memory_used(), limiter.tracked_total());
        assert_eq!(limiter.proc_usage(), limiter.pod_memory_used());
    }
}

#[test]
fn pitched_never_exceeds_limit() {
    let limit = 2_000_000u64;
    for seed in 1..40 {
        let mut n = Numbers(seed);
        let mut limiter = SimulatedLimiter::new(limit);
        let mut live: Vec<usize> = Vec::new();
        for _ in 0..200 {
            pitched_step(&mut n, &mut limiter, &mut live);
            assert!(limiter.pod_memory_used() <= limit);
        }
    }
}

#[test]
fn pitched_free_returns_to_zero() {
    for seed in 1..40 {
        let mut n = Numbers(seed);
        let mut limiter = SimulatedLimiter::new(u64::MAX / 2);
        let mut pointers = Vec::new();
        for _ in 0..n.within(1, 50) {
            let estimated = n.within(1, 500_000);
            let actual = estimated + estimated * n.within(0, 50) / 100;
            if let Ok(pointer) = limiter.try_alloc_pitched(estimated, actual, true) {
                pointers.push(pointer);
            }
        }
        for pointer in pointers {
            limiter.free(pointer);
        }
        assert_eq!(limiter.pod_memory_used(), 0);
        assert_eq!(limiter.tracked_total(), 0);
        assert_eq!(limiter.allocation_count(), 0);
        assert_eq!(limiter.proc_usage(), 0);
    }
}

#[test]
fn multi_device_usage_is_the_sum_of_its_own_allocations() {
    for seed in 1..40 {
        let mut n = Numbers(seed);
        let mut limiter = MultiDeviceSimulatedLimiter::new(&[5_000_000, 5_000_000, 5_000_000]);
        let mut live: Vec<(usize, usize, u64)> = Vec::new();
        for _ in 0..n.within(1, 500) {
            if n.next() % 2 == 0 {
                let device = n.within(0, 3) as usize;
                let size = n.within(1, 1_000_000);
                if let Ok(pointer) = limiter.try_alloc(device, size) {
                    live.push((pointer, device, size));
                }
            } else if !live.is_empty() {
                let i = (n.next() % 500) as usize % live.len();
                let (pointer, _, _) = live.swap_remove(i);
                assert!(limiter.free(pointer));
            }
        }
        for device in 0..3 {
            let expected: u64 = live.iter().filter(|e| e.1 == device).map(|e| e.2).sum();
            assert_eq!(limiter.pod_memory_used(device), expected);
            assert_eq!(limiter.proc_usage(device), expected);
        }
    }
}

#[test]
fn multi_device_limits_independent() {
    for seed in 1..40 {
        let mut n = Numbers(seed);
        let mut limiter = MultiDeviceSimulatedLimiter::new(&[2_000_000, 2_000_000]);
        for device in 0..2 {
            for _ in 0..50 {
                let _ = limiter.try_alloc(device, n.within(1, 500_000));
                assert!(limiter.pod_memory_used(device) <= 2_000_000);
            }
        }
    }
}

#[test]
fn drain_returns_to_zero() {
    for seed in 1..40 {
        let mut n = Numbers(seed);
        let mut limiter = SimulatedLimiter::new(10_000_000);
        let mut live: Vec<usize> = Vec::new();
        for _ in 0..n.within(1, 500) {
            pitched_step(&mut n, &mut limiter, &mut live);
        }
        let before = limiter.pod_memory_used();
        assert_eq!(limiter.drain_allocations(), before);
        assert_eq!(limiter.pod_memory_used(), 0);
        assert_eq!(limiter.tracked_total(), 0);
        assert_eq!(limiter.allocation_count(), 0);
        assert_eq!(limiter.proc_usage(), 0);
    }
}

#[test]
fn drain_after_partial_free() {
    for seed in 1..40 {
        let mut n = Numbers(seed);
        let mut limiter = SimulatedLimiter::new(u64::MAX / 2);
        let mut pointers = Vec::new();
        for _ in 0..n.within(2, 50) {
            pointers.push(limiter.try_alloc(n.within(1, 500_000)).unwrap());
        }
        let freed = pointers.len() * n.within(0, 100) as usize / 100;
        for pointer in pointers.drain(..freed) {
            limiter.free(pointer);
        }
        let before = limiter.pod_memory_used();
        assert_eq!(limiter.drain_allocations(), before);
        assert_eq!(limiter.pod_memory_used(), 0);
        assert_eq!(limiter.allocation_count(), 0);
        assert_eq!(limiter.proc_usage(), 0);
    }
}

#[test]
fn multi_device_drain_returns_to_zero() {
    for seed in 1..40 {
        let mut n = Numbers(seed);
        let mut limiter = MultiDeviceSimulatedLimiter::new(&[5_000_000, 5_000_000, 5_000_000]);
        let mut live = 0;
        for _ in 0..n.within(1, 100) {
            if limiter.try_alloc(n.within(0, 3) as usize, n.within(1, 1_000_000)).is_ok() {
                live += 1;
            }
        }
        let drained = limiter.drain_allocations();
        for device in 0..3 {
            assert_eq!(limiter.pod_memory_used(device), 0);
            assert_eq!(limiter.proc_usage(device), 0);
        }
        assert_eq!(drained > 0, live > 0);
    }
}

#[test]
fn multi_device_free_does_not_affect_other_device() {
    let mut n = Numbers(5);
    let mut limiter = MultiDeviceSimulatedLimiter::new(&[10_000_000, 10_000_000]);
    let mut first = Vec::new();
    for _ in 0..20 {
        if let Ok(pointer) = limiter.try_alloc(0, n.within(1, 500_000)) {
            first.push(pointer);
        }
        let _ = limiter.try_alloc(1, n.within(1, 500_000));
    }
    let before = limiter.pod_memory_used(1);
    for pointer in first {
        limiter.free(pointer);
    }
    assert_eq!(limiter.pod_memory_used(0), 0);
    assert_eq!(limiter.proc_usage(0), 0);
    assert_eq!(limiter.pod_memory_used(1), before);
    assert_eq!(limiter.proc_usage(1), before);
}

#[test]
fn multi_device_reap_on_oom_recovers_stale_device() {
    for (real, stale, request) in [
        (700_000u64, 299_999u64, 99_999u64),
        (899_999, 150_000, 10_000),
        (850_000, 200_000, 100_000),
        (899_999, 150_000, 100_001),
        (990_000, 20_000, 10_001),
    ] {
        let mut limiter = MultiDeviceSimulatedLimiter::new(&[1_000_000, 1_000_000]);
        let first = limiter.try_alloc(0, real).unwrap();
        limiter.inject_stale_usage(0, stale);
        limiter.try_alloc(1, 500_000).unwrap();
        let before = limiter.pod_memory_used(1);
        let result = limiter.try_alloc_with_reap(0, request, |l| {
            l.recover_stale_usage(0, stale);
            1
        });
        if real + request <= 1_000_000 {
            assert!(result.is_ok());
            assert_eq!(limiter.pod_memory_used(0), real + request);
        } else {
            assert!(result.is_err());
            assert_eq!(limiter.pod_memory_used(0), real);
        }
        assert_eq!(limiter.pod_memory_used(1), before);
        assert!(limiter.free(first));
    }
}

#[test]
fn effective_limit_gates_alloc() {
    for seed in 1..40 {
        let mut n = Numbers(seed);
        let mem_limit = n.within(1000, 100_000);
        let effective = mem_limit * n.within(10, 90) / 100;
        let mut limiter = SimulatedLimiter::new(mem_limit);
        limiter.set_effective_mem_limit(effective);
        let mut pointers = Vec::new();
        for _ in 0..50 {
            if let Ok(pointer) = limiter.try_alloc(n.within(1, 500)) {
                pointers.push(pointer);
            }
            assert!(limiter.pod_memory_used() <= effective);
        }
        for pointer in pointers {
            limiter.free(pointer);
        }
        assert_eq!(limiter.pod_memory_used(), 0);
    }
}

#[test]
fn effective_limit_zero_falls_back_to_mem_limit() {
    let mut n = Numbers(9);
    let mut limiter = SimulatedLimiter::new(5000);
    assert_eq!(limiter.effective_mem_limit(), 0);
    assert_eq!(limiter.mem_limit(), 5000);
    for _ in 0..50 {
        let _ = limiter.try_alloc(n.within(1, 500));
        assert!(limiter.pod_memory_used() <= 5000);
    }
    assert!(limiter.pod_memory_used() > 4000);
}

/// A denied request leaves the counter as it was, also where it runs over the range.
#[test]
fn overflowing_requests_are_denied_and_undone() {
    let mut limiter = SimulatedLimiter::new(u64::MAX - 1);
    assert!(limiter.try_alloc(u64::MAX / 2).is_ok());
    assert!(limiter.try_alloc(u64::MAX / 2).is_ok());
    assert_eq!(limiter.pod_memory_used(), u64::MAX - 1);
    assert!(limiter.try_alloc(10).is_err());
    assert!(limiter.try_alloc_native_fails(10).is_err());
    assert!(limiter.try_alloc_pitched(10, 20, true).is_err());
    assert_eq!(limiter.pod_memory_used(), u64::MAX - 1);
    assert_eq!(limiter.tracked_total(), u64::MAX - 1);

    let mut limiter = SimulatedLimiter::new(u64::MAX);
    limiter.inject_stale_usage(u64::MAX);
    assert!(limiter.try_alloc(10).is_err(), "no limit makes room for what cannot be counted");
    assert_eq!(limiter.pod_memory_used(), u64::MAX);
    assert_eq!(limiter.allocation_count(), 0);
}

/// A pointer is given back with its own size, whatever was asked in between.
#[test]
fn routed_pointers_keep_their_sizes() {
    let mut limiter = MultiDeviceSimulatedLimiter::new(&[1_000, 1_000]);
    let early = limiter.try_alloc(0, 300).unwrap();
    let other = limiter.try_alloc(1, 40).unwrap();
    let late = limiter.try_alloc(0, 5).unwrap();
    limiter.inject_stale_usage(0, 100);
    assert!(limiter.try_alloc(0, 1_000).is_err());
    assert!(limiter.free(late));
    assert!(limiter.free(early));
    assert_eq!((limiter.pod_memory_used(0), limiter.proc_usage(0)), (100, 0));
    assert_eq!((limiter.pod_memory_used(1), limiter.proc_usage(1)), (40, 40));
    assert!(!limiter.free(early));
    assert_eq!(limiter.pod_memory_used(0), 100);
    assert_eq!(limiter.drain_allocations(), 40);
    assert!(!limiter.free(other));
}

#[test]
fn device_that_does_not_exist_denies() {
    let mut limiter = MultiDeviceSimulatedLimiter::new(&[10]);
    assert_eq!(limiter.device_count(), 1);
    assert!(limiter.try_alloc(1, 1).is_err());
    assert!(limiter.try_alloc_with_reap(1, 1, |_| 1).is_err());
    assert!(!limiter.free(77));
}
