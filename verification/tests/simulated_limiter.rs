use hip_limiter::multi_device::MultiDeviceSimulatedLimiter;
use hip_limiter::simulated_limiter::SimulatedLimiter;

#[test]
fn basic_alloc_free_cycle() {
    let mut limiter = SimulatedLimiter::new(1024);
    let pointer = limiter.try_alloc(512).expect("should succeed");
    assert_eq!(limiter.pod_memory_used(), 512);
    assert!(limiter.free(pointer));
    assert_eq!(limiter.pod_memory_used(), 0);
}

#[test]
fn zero_size_alloc_not_tracked() {
    let mut limiter = SimulatedLimiter::new(1024);

    let ptr1 = limiter.try_alloc(0).expect("zero-size should succeed");
    let ptr2 = limiter.try_alloc(0).expect("zero-size should succeed");
    assert_ne!(ptr1, ptr2, "each zero-size alloc gets a unique pointer");

    assert_eq!(limiter.pod_memory_used(), 0, "zero-size must not affect counter");
    assert_eq!(limiter.proc_usage(), 0, "zero-size must not affect proc_usage");
    assert_eq!(limiter.allocation_count(), 0, "zero-size must not be tracked");

    assert!(!limiter.free(ptr1), "free of zero-size pointer returns false");
    assert!(!limiter.free(ptr2), "free of zero-size pointer returns false");
    assert_eq!(limiter.pod_memory_used(), 0, "free of untracked pointer is noop");
}

#[test]
fn zero_size_alloc_succeeds_but_not_tracked() {
    let mut limiter = SimulatedLimiter::new(1024);
    let pointer = limiter.try_alloc(0).expect("zero-size should succeed");
    assert!(pointer > 0, "should return a valid fake pointer");
    assert_eq!(limiter.pod_memory_used(), 0, "zero-size should not affect accounting");
    assert_eq!(limiter.allocation_count(), 0, "zero-size should not be tracked");

    assert!(!limiter.free(pointer), "zero-size alloc was not tracked, free returns false");
}

#[test]
fn max_u64_size_denied() {
    let mut limiter = SimulatedLimiter::new(1024 * 1024 * 1024);
    assert!(limiter.try_alloc(u64::MAX).is_err(), "u64::MAX should be denied");
    assert_eq!(limiter.pod_memory_used(), 0, "no accounting change on denial");
}

#[test]
fn free_unknown_pointer_returns_false() {
    let mut limiter = SimulatedLimiter::new(1024);
    let pointer = limiter.try_alloc(100).expect("should succeed");
    assert_eq!(limiter.pod_memory_used(), 100);

    assert!(!limiter.free(9999), "unknown pointer should return false");
    assert_eq!(limiter.pod_memory_used(), 100, "accounting unchanged");
    assert_eq!(limiter.allocation_count(), 1, "tracker unchanged");

    assert!(limiter.free(pointer));
    assert_eq!(limiter.pod_memory_used(), 0);
}

#[test]
fn double_free_safe() {
    let mut limiter = SimulatedLimiter::new(1024);
    let pointer = limiter.try_alloc(256).expect("should succeed");
    assert_eq!(limiter.pod_memory_used(), 256);

    assert!(limiter.free(pointer), "first free should succeed");
    assert_eq!(limiter.pod_memory_used(), 0);

    assert!(!limiter.free(pointer), "second free should return false");
    assert_eq!(limiter.pod_memory_used(), 0, "no underflow from double free");
}

#[test]
fn alloc_at_exact_limit_boundary() {
    let limit = 1024u64;
    let mut limiter = SimulatedLimiter::new(limit);

    let pointer = limiter.try_alloc(limit).expect("exact limit should succeed");
    assert_eq!(limiter.pod_memory_used(), limit);

    assert!(limiter.try_alloc(1).is_err(), "over limit by 1 byte should fail");
    assert_eq!(limiter.pod_memory_used(), limit, "denied alloc should not change accounting");

    limiter.free(pointer);
    assert_eq!(limiter.pod_memory_used(), 0);
}

#[test]
fn incremental_fill_to_limit() {
    let limit = 1000u64;
    let mut limiter = SimulatedLimiter::new(limit);
    let mut pointers = Vec::new();

    for _ in 0..10 {
        let pointer = limiter.try_alloc(100).expect("should fit");
        pointers.push(pointer);
    }
    assert_eq!(limiter.pod_memory_used(), 1000);

    assert!(limiter.try_alloc(1).is_err());

    limiter.free(pointers.pop().expect("should have pointers"));
    assert_eq!(limiter.pod_memory_used(), 900);

    let pointer = limiter.try_alloc(100).expect("should fit after free");
    pointers.push(pointer);
    assert_eq!(limiter.pod_memory_used(), 1000);
}

#[test]
fn rapid_alloc_free_no_leak() {
    let mut limiter = SimulatedLimiter::new(1_000_000);

    for _ in 0..10_000 {
        let pointer = limiter.try_alloc(100).expect("should succeed");
        assert!(limiter.free(pointer));
    }

    assert_eq!(limiter.pod_memory_used(), 0);
    assert_eq!(limiter.allocation_count(), 0);
}

#[test]
fn native_failure_rolls_back_reservation() {
    let mut limiter = SimulatedLimiter::new(10_000);

    let ptr = limiter.try_alloc(3_000).expect("should succeed");
    assert_eq!(limiter.pod_memory_used(), 3_000);

    assert!(limiter.try_alloc_native_fails(2_000).is_err());
    assert_eq!(limiter.pod_memory_used(), 3_000, "rollback must restore previous value");
    assert_eq!(limiter.allocation_count(), 1, "no new allocation tracked");

    assert!(limiter.free(ptr));
    assert_eq!(limiter.pod_memory_used(), 0);
}

#[test]
fn multi_device_independent_accounting() {
    let mut limiter = MultiDeviceSimulatedLimiter::new(&[10_000, 20_000]);

    let ptr_d0 = limiter.try_alloc(0, 5_000).expect("device 0 alloc");
    let _ptr_d1 = limiter.try_alloc(1, 8_000).expect("device 1 alloc");

    assert_eq!(limiter.pod_memory_used(0), 5_000);
    assert_eq!(limiter.pod_memory_used(1), 8_000);

    assert!(limiter.free(ptr_d0));
    assert_eq!(limiter.pod_memory_used(0), 0);
    assert_eq!(limiter.pod_memory_used(1), 8_000);

    let _ptr = limiter.try_alloc(0, 10_000).expect("device 0 at limit");
    assert!(limiter.try_alloc(0, 1).is_err(), "device 0 over limit");
    let _ptr2 = limiter.try_alloc(1, 12_000).expect("device 1 still has room");
}

#[test]
fn max_alloc_size_guard_rejects_before_fetch_add() {
    let mut limiter = SimulatedLimiter::new(u64::MAX);
    let boundary = u64::MAX / 2;

    let ptr = limiter.try_alloc(boundary).expect("exactly MAX_ALLOC_SIZE should succeed");
    assert_eq!(limiter.pod_memory_used(), boundary);
    limiter.free(ptr);

    assert!(limiter.try_alloc(boundary + 1).is_err(), "MAX_ALLOC_SIZE + 1 should be denied");
    assert_eq!(limiter.pod_memory_used(), 0, "guard rejects before fetch_add, no accounting change");
}

#[test]
fn pitched_alloc_no_overhead() {
    let mut limiter = SimulatedLimiter::new(10_000);
    let ptr = limiter.try_alloc_pitched(5_000, 5_000, true).expect("should succeed");
    assert_eq!(limiter.pod_memory_used(), 5_000);
    assert_eq!(limiter.allocation_count(), 1);

    assert!(limiter.free(ptr));
    assert_eq!(limiter.pod_memory_used(), 0);
}

#[test]
fn pitched_alloc_with_overhead_within_limit() {
    let mut limiter = SimulatedLimiter::new(10_000);
    let ptr = limiter.try_alloc_pitched(5_000, 6_400, true).expect("should succeed");
    assert_eq!(limiter.pod_memory_used(), 6_400, "must account for actual pitch*height");
    assert_eq!(limiter.allocation_count(), 1);

    assert!(limiter.free(ptr));
    assert_eq!(limiter.pod_memory_used(), 0);
}

#[test]
fn pitched_alloc_overhead_exceeds_limit() {
    let mut limiter = SimulatedLimiter::new(6_000);
    assert!(limiter.try_alloc_pitched(5_000, 6_400, true).is_err());
    assert_eq!(limiter.pod_memory_used(), 0, "rollback must restore to zero");
    assert_eq!(limiter.allocation_count(), 0);
}

#[test]
fn pitched_alloc_overhead_rollback_preserves_existing() {
    let mut limiter = SimulatedLimiter::new(8_000);
    let ptr1 = limiter.try_alloc(3_000).expect("pre-fill");
    assert_eq!(limiter.pod_memory_used(), 3_000);

    assert!(limiter.try_alloc_pitched(4_000, 5_500, true).is_err());
    assert_eq!(limiter.pod_memory_used(), 3_000, "rollback must restore to pre-alloc value");
    assert_eq!(limiter.allocation_count(), 1, "only the pre-fill allocation remains");

    assert!(limiter.free(ptr1));
    assert_eq!(limiter.pod_memory_used(), 0);
}

#[test]
fn pitched_alloc_native_failure_rolls_back() {
    let mut limiter = SimulatedLimiter::new(10_000);
    assert!(limiter.try_alloc_pitched(5_000, 6_400, false).is_err());
    assert_eq!(limiter.pod_memory_used(), 0, "native failure must rollback reservation");
    assert_eq!(limiter.allocation_count(), 0);
}

#[test]
fn pitched_alloc_zero_size() {
    let mut limiter = SimulatedLimiter::new(1_000);
    let ptr = limiter.try_alloc_pitched(0, 0, true).expect("zero-size should succeed");
    assert!(ptr > 0);
    assert_eq!(limiter.pod_memory_used(), 0);
    assert_eq!(limiter.allocation_count(), 0);
}

#[test]
fn pitched_alloc_3d_overhead_within_limit() {
    let mut limiter = SimulatedLimiter::new(100_000);
    let ptr = limiter.try_alloc_pitched(50_000, 64_000, true).expect("should succeed");
    assert_eq!(limiter.pod_memory_used(), 64_000);

    assert!(limiter.free(ptr));
    assert_eq!(limiter.pod_memory_used(), 0);
}

#[test]
fn pitched_alloc_3d_overhead_exceeds_limit() {
    let mut limiter = SimulatedLimiter::new(55_000);
    assert!(limiter.try_alloc_pitched(50_000, 64_000, true).is_err());
    assert_eq!(limiter.pod_memory_used(), 0, "3D rollback must restore to zero");
}

#[test]
fn pitched_alloc_actual_size_exceeds_max_alloc() {
    let mut limiter = SimulatedLimiter::new(u64::MAX);
    let max_alloc = u64::MAX / 2;
    assert!(limiter.try_alloc_pitched(max_alloc - 1, max_alloc + 1, true).is_err());
    assert_eq!(limiter.pod_memory_used(), 0, "denial must leave accounting unchanged");
    assert_eq!(limiter.allocation_count(), 0);
}

#[test]
fn saturating_add_prevents_overflow_when_near_full() {
    let limit = 1_000_000u64;
    let mut limiter = SimulatedLimiter::new(limit);

    let pointer = limiter.try_alloc(999_999).expect("should fit");
    assert_eq!(limiter.pod_memory_used(), 999_999);

    assert!(limiter.try_alloc(2).is_err());
    assert_eq!(limiter.pod_memory_used(), 999_999, "no change on denied alloc");

    let pointer2 = limiter.try_alloc(1).expect("exactly 1 byte left");
    assert_eq!(limiter.pod_memory_used(), 1_000_000);

    limiter.free(pointer);
    limiter.free(pointer2);
    assert_eq!(limiter.pod_memory_used(), 0);
}
