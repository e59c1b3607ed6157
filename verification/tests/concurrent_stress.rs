use hip_limiter::multi_device::MultiDeviceSimulatedLimiter;
use hip_limiter::simulated_limiter::SimulatedLimiter;

/// One of several parties that take turns on one accounting.
struct Party {
    state: u64,
    live: Vec<usize>,
}

impl Party {
    fn new(seed: u64) -> Self {
        Party { state: seed, live: Vec::new() }
    }

    fn next(&mut self) -> u64 {
        self.state ^= self.state << 13;
        self.state ^= self.state >> 7;
        self.state ^= self.state << 17;
        self.state
    }

    /// Takes a pointer out to be freed, on every third turn.
    fn to_free(&mut self, turn: u64) -> Option<usize> {
        if !self.live.is_empty() && turn % 3 == 0 {
            let index = (turn as usize) % self.live.len();
            Some(self.live.swap_remove(index))
        } else {
            None
        }
    }
}

fn parties(count: u64, seed: u64) -> Vec<Party> {
    (0..count).map(|i| Party::new(i + seed)).collect()
}

#[test]
fn concurrent_alloc_free_consistency() {
    let mut limiter = SimulatedLimiter::new(100_000_000);
    let mut parties = parties(8, 1);

    for _ in 0..1000 {
        for party in parties.iter_mut() {
            let turn = party.next();
            if let Some(pointer) = party.to_free(turn) {
                limiter.free(pointer);
            } else if let Ok(pointer) = limiter.try_alloc((turn % 10_000) + 1) {
                party.live.push(pointer);
            }
        }
    }

    assert_eq!(limiter.pod_memory_used(), limiter.tracked_total());
    for party in &parties {
        for pointer in &party.live {
            assert!(limiter.free(*pointer), "live pointer should be freeable");
        }
    }
    assert_eq!(limiter.pod_memory_used(), 0, "all freed, usage should be 0");
    assert_eq!(limiter.tracked_total(), 0);
    assert_eq!(limiter.allocation_count(), 0);
}

#[test]
fn concurrent_tight_limit_no_overcommit() {
    let mem_limit: u64 = 1_000;
    let mut limiter = SimulatedLimiter::new(mem_limit);
    let thread_count = 16;
    let alloc_size: u64 = 200;

    let mut success_count = 0usize;
    for _ in 0..thread_count {
        if limiter.try_alloc(alloc_size).is_ok() {
            success_count += 1;
        }
    }

    let max_possible = (mem_limit / alloc_size) as usize;
    assert!(success_count <= max_possible);
    assert_eq!(limiter.pod_memory_used(), success_count as u64 * alloc_size);
    assert!(success_count > 0, "at least one alloc should succeed");
    assert!(success_count < thread_count, "some must be denied");
}

#[test]
fn concurrent_native_failures_no_drift() {
    let mut limiter = SimulatedLimiter::new(1_000_000);
    let mut parties = parties(8, 42);

    for _ in 0..500 {
        for party in parties.iter_mut() {
            let turn = party.next();
            match turn % 4 {
                0 => {
                    if let Ok(pointer) = limiter.try_alloc((turn % 1_000) + 1) {
                        party.live.push(pointer);
                    }
                }
                1 => {
                    let _ = limiter.try_alloc_native_fails((turn % 1_000) + 1);
                }
                _ => {
                    if !party.live.is_empty() {
                        let index = (turn as usize) % party.live.len();
                        limiter.free(party.live.swap_remove(index));
                    }
                }
            }
        }
    }

    assert_eq!(limiter.pod_memory_used(), limiter.tracked_total());
    for party in &parties {
        for pointer in &party.live {
            assert!(limiter.free(*pointer));
        }
    }
    assert_eq!(limiter.pod_memory_used(), 0);
    assert_eq!(limiter.allocation_count(), 0);
}

#[test]
fn concurrent_alloc_only_consistency() {
    let mut limiter = SimulatedLimiter::new(u64::MAX / 2);
    let mut total_pointers = 0usize;
    for i in 0..500 {
        for _ in 0..4 {
            if limiter.try_alloc((i as u64 + 1) * 100).is_ok() {
                total_pointers += 1;
            }
        }
    }
    assert_eq!(limiter.allocation_count(), total_pointers);
    assert_eq!(limiter.pod_memory_used(), limiter.tracked_total());
    assert!(limiter.pod_memory_used() > 0);
}

#[test]
fn concurrent_drain_while_allocating() {
    let mut limiter = SimulatedLimiter::new(100_000_000);
    for i in 0..100 {
        let _ = limiter.try_alloc((i as u64 + 1) * 100);
    }
    assert!(limiter.pod_memory_used() > 0);

    let mut parties = parties(6, 99);
    let mut drained = 0;
    for round in 0..500 {
        if round == 250 {
            drained = limiter.drain_allocations();
        }
        for party in parties.iter_mut() {
            let turn = party.next();
            if let Some(pointer) = party.to_free(turn) {
                limiter.free(pointer);
            } else if let Ok(pointer) = limiter.try_alloc((turn % 5_000) + 1) {
                party.live.push(pointer);
            }
        }
    }
    assert!(drained > 0, "drain should have removed initial allocations");

    assert_eq!(limiter.pod_memory_used(), limiter.tracked_total());
    for party in &parties {
        for pointer in &party.live {
            limiter.free(*pointer);
        }
    }
    let final_drain = limiter.drain_allocations();
    assert_eq!(limiter.pod_memory_used(), 0, "must be 0 after full cleanup");
    assert_eq!(limiter.allocation_count(), 0);
    assert_eq!(final_drain, 0, "no allocations should remain after manual free");
}

#[test]
fn concurrent_multi_device_drain() {
    let mut limiter = MultiDeviceSimulatedLimiter::new(&[100_000, 100_000, 100_000]);
    for device in 0..3 {
        for i in 0..20 {
            let _ = limiter.try_alloc(device, (i as u64 + 1) * 100);
        }
    }

    let mut parties = parties(6, 77);
    let mut drained = 0;
    for round in 0..200 {
        if round == 100 {
            drained = limiter.drain_allocations();
        }
        for party in parties.iter_mut() {
            let turn = party.next();
            if let Some(pointer) = party.to_free(turn) {
                limiter.free(pointer);
            } else if let Ok(pointer) =
                limiter.try_alloc((turn as usize) % 3, (turn % 3_000) + 1)
            {
                party.live.push(pointer);
            }
        }
    }
    assert!(drained > 0);

    for party in &parties {
        for pointer in &party.live {
            limiter.free(*pointer);
        }
    }
    limiter.drain_allocations();
    for device in 0..3 {
        assert_eq!(limiter.pod_memory_used(device), 0, "device {device} must be 0");
    }
}

#[test]
fn concurrent_multi_device_consistency() {
    let mut limiter = MultiDeviceSimulatedLimiter::new(&[50_000, 50_000, 50_000]);
    let mut parties = parties(8, 7);

    for _ in 0..500 {
        for party in parties.iter_mut() {
            let turn = party.next();
            if let Some(pointer) = party.to_free(turn) {
                limiter.free(pointer);
            } else {
                let device_idx = (turn as usize) % limiter.device_count();
                if let Ok(pointer) = limiter.try_alloc(device_idx, (turn % 5_000) + 1) {
                    party.live.push(pointer);
                }
            }
        }
    }

    for device_idx in 0..limiter.device_count() {
        assert!(limiter.pod_memory_used(device_idx) <= 50_000);
    }
    for party in &parties {
        for pointer in &party.live {
            assert!(limiter.free(*pointer));
        }
    }
    for device_idx in 0..limiter.device_count() {
        assert_eq!(limiter.pod_memory_used(device_idx), 0);
    }
}
