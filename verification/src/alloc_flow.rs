//! What happens around the native calls of an allocation and of a free.
//!
//! Each native call is made by the caller, between two steps: the first one reserves
//! and says whether the call is to be made, the second one takes note of its outcome.
use crate::counter::{counter_sub, fits, MAX_ALLOC_SIZE};
use crate::error::{Error, ErrorState};
use crate::hip::{HIP_ERROR_INVALID_VALUE, HIP_ERROR_OUT_OF_MEMORY, HIP_ERROR_UNKNOWN, HIP_SUCCESS};
use crate::limiter::{reserve_outcome, reserved_state, Limiter, ProcessBooks, SharedMemory};
use crate::shared_state::DevicesState;
use crate::sizes::{
    array_bytes, array_format_bytes, at_least_one, bounded, channel_desc_alloc_size,
    channel_desc_bytes_per_elem, checked_pitched_size, driver_array_alloc_size, element_bits,
    format_bytes, mip_bytes, mip_chain_total_size, product, whole_bytes, HipArray3DDescriptor,
    HipArrayDescriptor, HipChannelFormatDesc, HipExtent, MAX_MIP_LEVELS,
};
use crate::tracker::{device_bytes, lemma_weighed_insert, lemma_weighed_remove, on_device};
use vstd::prelude::*;

verus! {

/// The code with which a failed reservation is answered.
pub open spec fn denial_code(e: ErrorState) -> i32 {
    if e is OverLimit {
        HIP_ERROR_OUT_OF_MEMORY
    } else {
        HIP_ERROR_UNKNOWN
    }
}

/// The code with which a failed reservation is answered, where it is: a request over the
/// limit is out of memory, and anything else an unknown error.
pub fn handle_reserve_error(error: &Error) -> (code: i32)
    ensures
        code == denial_code(error@),
        code == (if error is OverLimit {
            2i32
        } else {
            999
        }),
{
    match error {
        Error::OverLimit { used: _, request: _, limit: _, device_idx: _ } => {
            HIP_ERROR_OUT_OF_MEMORY
        },
        _ => HIP_ERROR_UNKNOWN,
    }
}

/// What is to be done before a native allocation.
pub enum AllocStart {
    /// The native call is to be made. The device is given where the request was
    /// reserved there.
    Native(Option<usize>),
    /// The request is answered with a code, without a native call.
    Deny(i32),
}

/// What follows from the outcome of a reservation. Nothing asked for, nothing reserved;
/// and without shared memory the native call is made without any accounting.
pub open spec fn start_of(
    device_idx: usize,
    request_size: u64,
    outcome: Result<u64, ErrorState>,
) -> AllocStart {
    match outcome {
        Ok(_) => if request_size == 0 {
            AllocStart::Native(None)
        } else {
            AllocStart::Native(Some(device_idx))
        },
        Err(ErrorState::SharedMemory(_)) => AllocStart::Native(None),
        Err(e) => AllocStart::Deny(denial_code(e)),
    }
}

/// Decides what follows from an attempt to reserve a request.
pub fn start_alloc(
    device_idx: usize,
    request_size: u64,
    attempt: &Result<u64, Error>,
) -> (start: AllocStart)
    ensures
        start == start_of(
            device_idx,
            request_size,
            match *attempt {
                Ok(used) => Ok(used),
                Err(e) => Err(e@),
            },
        ),
{
    match attempt {
        Ok(_) => if request_size == 0 {
            AllocStart::Native(None)
        } else {
            AllocStart::Native(Some(device_idx))
        },
        Err(Error::SharedMemory(_)) => AllocStart::Native(None),
        Err(error) => AllocStart::Deny(handle_reserve_error(error)),
    }
}

/// Reserves a request on the current device. Where the device is not known, or the shared
/// memory cannot be used, the native call is made without any accounting.
pub fn begin_alloc(
    limiter: &Limiter,
    shm: &mut SharedMemory,
    device: Result<usize, Error>,
    request_size: u64,
) -> (start: AllocStart)
    ensures
        device is Err ==> start == AllocStart::Native(None) && *final(shm) == *old(shm),
        device is Ok && *old(shm) is Unavailable ==> {
            &&& start == (if request_size <= MAX_ALLOC_SIZE {
                AllocStart::Native(None)
            } else {
                AllocStart::Deny(HIP_ERROR_OUT_OF_MEMORY)
            })
            &&& *final(shm) == *old(shm)
        },
        device matches Ok(device_idx) ==> {
            &&& start == start_of(
                device_idx,
                request_size,
                reserve_outcome(*old(shm), device_idx, request_size),
            )
            &&& old(shm).becomes(*final(shm), reserved_state(*old(shm), device_idx, request_size))
        },
{
    match device {
        Err(_) => AllocStart::Native(None),
        Ok(device_idx) => {
            let attempt = limiter.try_reserve(shm, device_idx, request_size);
            start_alloc(device_idx, request_size, &attempt)
        },
    }
}

/// What is to be done after a native allocation of a request that was reserved.
#[derive(Clone, Copy, PartialEq, Eq, Structural, Debug)]
pub enum Settlement {
    /// Nothing: nothing was asked for.
    Nothing,
    /// Record the pointer.
    Record,
    /// Take the reservation back.
    TakeBack,
}

/// Decides what is to be done after a native allocation: a pointer is recorded, and where
/// there is none the reservation is taken back.
pub fn settle_alloc(request_size: u64, result: i32, allocated_ptr: usize) -> (s: Settlement)
    ensures
        s == (if request_size == 0 {
            Settlement::Nothing
        } else if result == HIP_SUCCESS && allocated_ptr != 0 {
            Settlement::Record
        } else {
            Settlement::TakeBack
        }),
        s == Settlement::Record <==> request_size > 0 && result == 0 && allocated_ptr != 0,
{
    if request_size == 0 {
        Settlement::Nothing
    } else if result == HIP_SUCCESS && allocated_ptr != 0 {
        Settlement::Record
    } else {
        Settlement::TakeBack
    }
}

/// Takes note of the outcome of a native allocation: a pointer is recorded, and where
/// there is none the reservation is taken back. Returns when a check of the books is
/// due, as recording does. The code of the native call is the answer in any case.
pub fn finish_alloc(
    limiter: &mut Limiter,
    shm: &mut SharedMemory,
    reserved: Option<usize>,
    request_size: u64,
    result: i32,
    allocated_ptr: usize,
) -> (due: Option<u64>)
    ensures
        match reserved {
            None => due is None && final(limiter)@ == old(limiter)@ && *final(shm) == *old(shm),
            Some(device_idx) => if result == HIP_SUCCESS && allocated_ptr != 0 {
                &&& final(limiter)@ == old(limiter)@.recorded(
                    device_idx,
                    allocated_ptr,
                    request_size,
                )
                &&& due == (if request_size > 0 && old(limiter)@.alloc_count % 100 == 0 {
                    Some(old(limiter)@.alloc_count)
                } else {
                    None
                })
                &&& *final(shm) == *old(shm)
            } else {
                &&& due is None
                &&& final(limiter)@ == old(limiter)@
                &&& old(shm).becomes(
                    *final(shm),
                    old(shm).state().released(device_idx, request_size),
                )
            },
        },
{
    match reserved {
        None => None,
        Some(device_idx) => match settle_alloc(request_size, result, allocated_ptr) {
            Settlement::Nothing => {
                assert(old(shm).state().released(device_idx, 0) =~= old(shm).state());
                None
            },
            Settlement::Record => limiter.record_allocation(
                device_idx,
                allocated_ptr,
                request_size,
            ),
            Settlement::TakeBack => {
                limiter.rollback_reservation(shm, device_idx, request_size);
                None
            },
        },
    }
}

/// What is to be done after a native pitched allocation whose estimate was reserved.
#[derive(Clone, Copy, PartialEq, Eq, Structural, Debug)]
pub enum PitchedSettlement {
    /// Take the reservation back: nothing was allocated.
    TakeBack,
    /// Take the reservation back and free the allocation: its size cannot be represented.
    Undo,
    /// Reserve so much on top, and record the actual size where that is granted. Nothing
    /// on top is granted without asking.
    Extend(u64, u64),
}

/// Decides what is to be done after a native pitched allocation.
pub fn settle_pitched(
    estimated_size: u64,
    result: i32,
    allocated_ptr: usize,
    actual_size: Option<u64>,
) -> (s: PitchedSettlement)
    ensures
        s == (if result != HIP_SUCCESS || allocated_ptr == 0 {
            PitchedSettlement::TakeBack
        } else {
            match actual_size {
                None => PitchedSettlement::Undo,
                Some(actual) => PitchedSettlement::Extend(
                    pitch_extra(estimated_size, actual),
                    actual,
                ),
            }
        }),
{
    if result != HIP_SUCCESS || allocated_ptr == 0 {
        return PitchedSettlement::TakeBack;
    }
    match actual_size {
        None => PitchedSettlement::Undo,
        Some(actual) => PitchedSettlement::Extend(actual.saturating_sub(estimated_size), actual),
    }
}

/// What is to be done after a native pitched allocation.
pub struct PitchedEnd {
    /// The answer.
    pub code: i32,
    /// Whether the native allocation is to be freed again.
    pub free_native: bool,
    /// When a check of the books is due.
    pub due: Option<u64>,
}

/// What the actual size of a pitched allocation adds to its estimate.
pub open spec fn pitch_extra(estimated_size: u64, actual_size: u64) -> u64 {
    counter_sub(actual_size, estimated_size)
}

/// A pitched allocation can be kept: it was made, its size is known, and what that
/// adds to the estimate could be reserved.
pub open spec fn pitched_kept(
    shm: SharedMemory,
    device_idx: usize,
    estimated_size: u64,
    result: i32,
    allocated_ptr: usize,
    actual_size: Option<u64>,
) -> bool {
    &&& result == HIP_SUCCESS
    &&& allocated_ptr != 0
    &&& actual_size matches Some(actual) && reserve_outcome(
        shm,
        device_idx,
        pitch_extra(estimated_size, actual),
    ) is Ok
}

/// The shared state after an attempt to reserve what the actual size adds.
pub open spec fn extra_state(
    shm: SharedMemory,
    device_idx: usize,
    estimated_size: u64,
    result: i32,
    allocated_ptr: usize,
    actual_size: Option<u64>,
) -> DevicesState {
    if result == HIP_SUCCESS && allocated_ptr != 0 && actual_size is Some {
        reserved_state(shm, device_idx, pitch_extra(estimated_size, actual_size->0))
    } else {
        shm.state()
    }
}

/// Takes note of the outcome of a native pitched allocation, whose actual size is known
/// only now: reserves what that adds to the estimate, and records it. Where it is over
/// the limit or cannot be represented, the reservation is taken back, the native
/// allocation is to be freed, and the answer is out of memory.
pub fn finish_pitched(
    limiter: &mut Limiter,
    shm: &mut SharedMemory,
    reserved: Option<usize>,
    estimated_size: u64,
    result: i32,
    allocated_ptr: usize,
    actual_size: Option<u64>,
) -> (end: PitchedEnd)
    ensures
        match reserved {
            None => {
                &&& end == (PitchedEnd { code: result, free_native: false, due: None })
                &&& final(limiter)@ == old(limiter)@
                &&& *final(shm) == *old(shm)
            },
            Some(device_idx) => {
                let made = result == HIP_SUCCESS && allocated_ptr != 0;
                let kept = pitched_kept(
                    *old(shm),
                    device_idx,
                    estimated_size,
                    result,
                    allocated_ptr,
                    actual_size,
                );
                let state = extra_state(
                    *old(shm),
                    device_idx,
                    estimated_size,
                    result,
                    allocated_ptr,
                    actual_size,
                );
                &&& end.code == (if made && !kept {
                    HIP_ERROR_OUT_OF_MEMORY
                } else {
                    result
                })
                &&& end.free_native == (made && !kept)
                &&& end.due == (if kept && actual_size->0 > 0 && old(limiter)@.alloc_count % 100
                    == 0 {
                    Some(old(limiter)@.alloc_count)
                } else {
                    None
                })
                &&& final(limiter)@ == (if kept {
                    old(limiter)@.recorded(device_idx, allocated_ptr, actual_size->0)
                } else {
                    old(limiter)@
                })
                &&& old(shm).becomes(
                    *final(shm),
                    if kept {
                        state
                    } else {
                        state.released(device_idx, estimated_size)
                    },
                )
            },
        },
{
    match reserved {
        None => PitchedEnd { code: result, free_native: false, due: None },
        Some(device_idx) => match settle_pitched(
            estimated_size,
            result,
            allocated_ptr,
            actual_size,
        ) {
            PitchedSettlement::TakeBack => {
                limiter.rollback_reservation(shm, device_idx, estimated_size);
                PitchedEnd { code: result, free_native: false, due: None }
            },
            PitchedSettlement::Undo => {
                limiter.rollback_reservation(shm, device_idx, estimated_size);
                PitchedEnd { code: HIP_ERROR_OUT_OF_MEMORY, free_native: true, due: None }
            },
            PitchedSettlement::Extend(extra, actual) => {
                if extra > 0 {
                    let attempt = limiter.try_reserve(shm, device_idx, extra);
                    if attempt.is_err() {
                        limiter.rollback_reservation(shm, device_idx, estimated_size);
                        return PitchedEnd {
                            code: HIP_ERROR_OUT_OF_MEMORY,
                            free_native: true,
                            due: None,
                        };
                    }
                }
                let due = limiter.record_allocation(device_idx, allocated_ptr, actual);
                PitchedEnd { code: result, free_native: false, due }
            },
        },
    }
}

/// Whether a native free has freed something.
pub fn has_freed(result: i32, ptr: usize) -> (b: bool)
    ensures
        b == (result == HIP_SUCCESS && ptr != 0),
        b <==> result == 0 && ptr != 0,
{
    result == HIP_SUCCESS && ptr != 0
}

/// Takes note of the outcome of a native free, which comes first: only what was freed
/// is taken from the books. Returns whether the pointer was recorded.
pub fn finish_free(
    limiter: &mut Limiter,
    shm: &mut SharedMemory,
    result: i32,
    ptr: usize,
) -> (known: bool)
    ensures
        known == (result == HIP_SUCCESS && ptr != 0 && old(limiter)@.live.dom().contains(ptr)),
        final(limiter)@ == (if known {
            old(limiter)@.forgotten(ptr)
        } else {
            old(limiter)@
        }),
        old(shm).becomes(
            *final(shm),
            if known {
                old(shm).state().released(old(limiter)@.live[ptr].0, old(limiter)@.live[ptr].1)
            } else {
                old(shm).state()
            },
        ),
{
    if has_freed(result, ptr) {
        let known = limiter.record_free(shm, ptr);
        assert(!known ==> limiter@ =~= old(limiter)@);
        known
    } else {
        false
    }
}

/// What a pitched request comes to before anything is reserved.
pub enum PitchedRequest {
    /// It is answered with a code.
    Deny(i32),
    /// It asks for nothing and goes to the native call as it is.
    Passthrough,
    /// So many bytes are to be reserved as an estimate.
    Reserve(u64),
}

/// The bytes that the dimensions of a pitched request come to, where they can be
/// represented.
pub open spec fn pitched_bytes(dims: Seq<usize>) -> Option<u64> {
    if (forall|n: nat| n <= dims.len() ==> #[trigger] product(dims, n) <= usize::MAX) && product(
        dims,
        dims.len(),
    ) <= usize::MAX / 2 {
        Some(product(dims, dims.len()) as u64)
    } else {
        None
    }
}

/// Looks at the dimensions of a pitched request.
pub fn pitched_request(dims: &[usize]) -> (r: PitchedRequest)
    ensures
        r == (match pitched_bytes(dims@) {
            None => PitchedRequest::Deny(HIP_ERROR_OUT_OF_MEMORY),
            Some(size) => if size == 0 {
                PitchedRequest::Passthrough
            } else {
                PitchedRequest::Reserve(size)
            },
        }),
        r matches PitchedRequest::Deny(code) ==> code == 2,
{
    match checked_pitched_size(dims) {
        None => PitchedRequest::Deny(HIP_ERROR_OUT_OF_MEMORY),
        Some(size) => if size == 0 {
            PitchedRequest::Passthrough
        } else {
            PitchedRequest::Reserve(size)
        },
    }
}

/// The bytes that a pitched allocation takes, given the distance of its rows.
pub fn pitched_actual(pitch: usize, height: usize) -> (r: Option<u64>)
    ensures
        r == (if pitch * height <= usize::MAX {
            Some((pitch * height) as u64)
        } else {
            None
        }),
{
    match pitch.checked_mul(height) {
        Some(size) => Some(size as u64),
        None => None,
    }
}

/// The bytes that a pitched allocation in three dimensions takes.
pub fn pitched_actual_3d(pitch: usize, height: usize, depth: usize) -> (r: Option<u64>)
    ensures
        r == (if pitch * height <= usize::MAX && pitch * height * depth <= usize::MAX {
            Some((pitch * height * depth) as u64)
        } else {
            None
        }),
{
    match pitch.checked_mul(height) {
        Some(plane) => match plane.checked_mul(depth) {
            Some(size) => Some(size as u64),
            None => None,
        },
        None => None,
    }
}

/// The request of an array with a channel format, or the code of an invalid value.
pub fn channel_array_request(
    desc: &HipChannelFormatDesc,
    extent: HipExtent,
) -> (r: Result<u64, i32>)
    ensures
        r == (match (if whole_bytes(*desc) {
            bounded(
                array_bytes(
                    (element_bits(*desc) / 8) as nat,
                    extent.width as nat,
                    at_least_one(extent.height),
                    at_least_one(extent.depth),
                ),
            )
        } else {
            None
        }) {
            Some(size) => Ok(size),
            None => Err(HIP_ERROR_INVALID_VALUE),
        }),
        r matches Err(code) ==> code == 1,
{
    match channel_desc_alloc_size(desc, extent.width, extent.height, extent.depth) {
        Some(size) => Ok(size),
        None => Err(HIP_ERROR_INVALID_VALUE),
    }
}

/// The bytes of an array of the driver interface.
pub open spec fn driver_bytes(
    format: i32,
    num_channels: u32,
    width: usize,
    height: usize,
    depth: usize,
) -> Option<u64> {
    match format_bytes(format) {
        Some(channel_bytes) => bounded(
            array_bytes(
                channel_bytes as nat * num_channels as nat,
                width as nat,
                at_least_one(height),
                at_least_one(depth),
            ),
        ),
        None => None,
    }
}

/// The request of a two-dimensional array of the driver interface, or the code of an
/// invalid value.
pub fn array_create_request(desc: &HipArrayDescriptor) -> (r: Result<u64, i32>)
    ensures
        r == (match driver_bytes(desc.format, desc.num_channels, desc.width, desc.height, 0) {
            Some(size) => Ok(size),
            None => Err(HIP_ERROR_INVALID_VALUE),
        }),
        r matches Err(code) ==> code == 1,
{
    match driver_array_alloc_size(desc.format, desc.num_channels, desc.width, desc.height, 0) {
        Some(size) => Ok(size),
        None => Err(HIP_ERROR_INVALID_VALUE),
    }
}

/// The request of a three-dimensional array of the driver interface, or the code of an
/// invalid value.
pub fn array_3d_create_request(desc: &HipArray3DDescriptor) -> (r: Result<u64, i32>)
    ensures
        r == (match driver_bytes(
            desc.format,
            desc.num_channels,
            desc.width,
            desc.height,
            desc.depth,
        ) {
            Some(size) => Ok(size),
            None => Err(HIP_ERROR_INVALID_VALUE),
        }),
        r matches Err(code) ==> code == 1,
{
    match driver_array_alloc_size(
        desc.format,
        desc.num_channels,
        desc.width,
        desc.height,
        desc.depth,
    ) {
        Some(size) => Ok(size),
        None => Err(HIP_ERROR_INVALID_VALUE),
    }
}

/// The bytes of a mipmapped array.
pub open spec fn mipmap_bytes(
    bytes_per_elem: nat,
    width: usize,
    height: usize,
    depth: usize,
    num_levels: u32,
) -> Option<u64> {
    if num_levels > MAX_MIP_LEVELS {
        None
    } else {
        bounded(
            mip_bytes(
                bytes_per_elem,
                width as nat,
                at_least_one(height),
                at_least_one(depth),
                num_levels as nat,
            ),
        )
    }
}

/// The request of a mipmapped array with a channel format, or the code of an invalid
/// value.
pub fn mipmapped_array_request(
    desc: &HipChannelFormatDesc,
    extent: HipExtent,
    num_levels: u32,
) -> (r: Result<u64, i32>)
    ensures
        r == (match (if whole_bytes(*desc) {
            mipmap_bytes(
                (element_bits(*desc) / 8) as nat,
                extent.width,
                extent.height,
                extent.depth,
                num_levels,
            )
        } else {
            None
        }) {
            Some(size) => Ok(size),
            None => Err(HIP_ERROR_INVALID_VALUE),
        }),
        r matches Err(code) ==> code == 1,
{
    match channel_desc_bytes_per_elem(desc) {
        None => Err(HIP_ERROR_INVALID_VALUE),
        Some(bytes_per_elem) => match mip_chain_total_size(
            bytes_per_elem,
            extent.width,
            extent.height,
            extent.depth,
            num_levels,
        ) {
            Some(size) => Ok(size),
            None => Err(HIP_ERROR_INVALID_VALUE),
        },
    }
}

/// The request of a mipmapped array of the driver interface, or the code of an invalid
/// value.
pub fn mipmapped_array_create_request(
    desc: &HipArray3DDescriptor,
    num_levels: u32,
) -> (r: Result<u64, i32>)
    ensures
        r == (match (match format_bytes(desc.format) {
            Some(channel_bytes) => mipmap_bytes(
                channel_bytes as nat * desc.num_channels as nat,
                desc.width,
                desc.height,
                desc.depth,
                num_levels,
            ),
            None => None,
        }) {
            Some(size) => Ok(size),
            None => Err(HIP_ERROR_INVALID_VALUE),
        }),
        r matches Err(code) ==> code == 1,
{
    match array_format_bytes(desc.format) {
        None => Err(HIP_ERROR_INVALID_VALUE),
        Some(channel_bytes) => {
            assert(channel_bytes * desc.num_channels <= 4 * 0xffff_ffff) by (nonlinear_arith)
                requires
                    0 <= channel_bytes <= 4,
                    0 <= desc.num_channels <= 0xffff_ffff,
            ;
            match mip_chain_total_size(
                channel_bytes * desc.num_channels as u64,
                desc.width,
                desc.height,
                desc.depth,
                num_levels,
            ) {
                Some(size) => Ok(size),
                None => Err(HIP_ERROR_INVALID_VALUE),
            }
        },
    }
}

/// Taking back what was reserved restores the shared state: a native failure leaves no
/// trace.
pub proof fn law_native_failure_leaves_no_trace(s: DevicesState, device_idx: usize, size: u64)
    requires
        s.has(device_idx),
        fits(s.info(device_idx).pod_memory_used, size, s.info(device_idx).limit()),
    ensures
        s.after_reserve(device_idx, size).released(device_idx, size) == s,
{
    assert(s.after_reserve(device_idx, size).released(device_idx, size) =~= s);
}

/// A request that is turned away leaves the shared state as it was.
pub proof fn law_denied_reservation_leaves_no_trace(s: DevicesState, device_idx: usize, size: u64)
    requires
        s.has(device_idx),
        !fits(s.info(device_idx).pod_memory_used, size, s.info(device_idx).limit()),
    ensures
        s.after_reserve(device_idx, size) == s,
{
}

/// Reserving the estimate and then the rest is reserving the actual size.
pub proof fn law_two_phases_make_one(
    s: DevicesState,
    device_idx: usize,
    estimated_size: u64,
    actual_size: u64,
)
    requires
        s.has(device_idx),
        estimated_size <= actual_size,
        fits(s.info(device_idx).pod_memory_used, actual_size, s.info(device_idx).limit()),
    ensures
        s.after_reserve(device_idx, estimated_size).after_reserve(
            device_idx,
            pitch_extra(estimated_size, actual_size),
        ) == s.after_reserve(device_idx, actual_size),
{
    assert(s.after_reserve(device_idx, estimated_size).after_reserve(
        device_idx,
        pitch_extra(estimated_size, actual_size),
    ) =~= s.after_reserve(device_idx, actual_size));
}

/// A pitched allocation that turns out too large leaves the shared state as it was
/// before its estimate was reserved.
pub proof fn law_denied_pitch_leaves_no_trace(
    s: DevicesState,
    device_idx: usize,
    estimated_size: u64,
    actual_size: u64,
)
    requires
        s.has(device_idx),
        estimated_size <= actual_size,
        fits(s.info(device_idx).pod_memory_used, estimated_size, s.info(device_idx).limit()),
        !fits(s.info(device_idx).pod_memory_used, actual_size, s.info(device_idx).limit()),
    ensures
        s.after_reserve(device_idx, estimated_size).after_reserve(
            device_idx,
            pitch_extra(estimated_size, actual_size),
        ).released(device_idx, estimated_size) == s,
{
    assert(s.after_reserve(device_idx, estimated_size).after_reserve(
        device_idx,
        pitch_extra(estimated_size, actual_size),
    ).released(device_idx, estimated_size) =~= s);
}

/// What the shared usage of a device holds beyond the allocations of one process.
pub open spec fn beyond(s: DevicesState, books: ProcessBooks, device_idx: usize) -> int {
    s.info(device_idx).pod_memory_used - device_bytes(books.live, device_idx)
}

/// Allocating moves the shared usage and the books of the process by the same amount on
/// the device, and neither on any other: what others hold is never touched.
pub proof fn law_allocation_moves_both_books(
    s: DevicesState,
    books: ProcessBooks,
    device_idx: usize,
    ptr: usize,
    size: u64,
    other: usize,
)
    requires
        s.has(device_idx),
        other < s.devices.len(),
        size > 0,
        books.live.dom().finite(),
        !books.live.dom().contains(ptr),
        fits(s.info(device_idx).pod_memory_used, size, s.info(device_idx).limit()),
    ensures
        beyond(
            s.after_reserve(device_idx, size),
            books.recorded(device_idx, ptr, size),
            other,
        ) == beyond(s, books, other),
{
    lemma_weighed_insert(books.live, on_device(other), ptr, (device_idx, size));
}

/// Freeing moves both books back by the same amount, as long as the shared usage covers
/// the allocations of the process.
pub proof fn law_free_moves_both_books(
    s: DevicesState,
    books: ProcessBooks,
    ptr: usize,
    other: usize,
)
    requires
        books.live.dom().finite(),
        books.live.dom().contains(ptr),
        s.has(books.live[ptr].0),
        other < s.devices.len(),
        beyond(s, books, books.live[ptr].0) >= 0,
    ensures
        beyond(
            s.released(books.live[ptr].0, books.live[ptr].1),
            books.forgotten(ptr),
            other,
        ) == beyond(s, books, other),
{
    let device_idx = books.live[ptr].0;
    lemma_weighed_remove(books.live, on_device(other), ptr);
    lemma_weighed_remove(books.live, on_device(device_idx), ptr);
}

/// Freeing what was just allocated restores the shared state and the allocations.
pub proof fn law_free_undoes_allocation(
    s: DevicesState,
    books: ProcessBooks,
    device_idx: usize,
    ptr: usize,
    size: u64,
)
    requires
        s.has(device_idx),
        size > 0,
        !books.live.dom().contains(ptr),
        fits(s.info(device_idx).pod_memory_used, size, s.info(device_idx).limit()),
    ensures
        books.recorded(device_idx, ptr, size).live[ptr] == (device_idx, size),
        books.recorded(device_idx, ptr, size).forgotten(ptr).live == books.live,
        s.after_reserve(device_idx, size).released(device_idx, size) == s,
{
    assert(books.recorded(device_idx, ptr, size).forgotten(ptr).live =~= books.live);
    assert(s.after_reserve(device_idx, size).released(device_idx, size) =~= s);
}

/// At the end of a process nothing of it stays in the shared usage, and all that others
/// hold does.
pub proof fn law_drain_leaves_what_others_hold(
    s: DevicesState,
    books: ProcessBooks,
    device_idx: usize,
)
    requires
        s.has(device_idx),
        beyond(s, books, device_idx) >= 0,
    ensures
        s.after_drain(books.live).info(device_idx).pod_memory_used == beyond(
            s,
            books,
            device_idx,
        ),
{
}

/// A request over the limit is answered with two, out of memory; any other failure that is
/// answered at all with 999.
pub proof fn law_denials_have_codes(e: ErrorState)
    ensures
        denial_code(e) == 2 <==> e is OverLimit,
        denial_code(e) == 2 || denial_code(e) == 999,
{
}

/// What follows from a reservation: the native call is made and accounted for exactly where
/// something was reserved; it is made without accounting where nothing was asked for and
/// where there is no shared state; and it is not made in any other case.
pub proof fn law_native_calls_follow_reservations(
    device_idx: usize,
    size: u64,
    outcome: Result<u64, ErrorState>,
)
    ensures
        start_of(device_idx, size, outcome) == AllocStart::Native(Some(device_idx)) <==> outcome
            is Ok && size > 0,
        start_of(device_idx, size, outcome) == AllocStart::Native(None) <==> (outcome is Ok && size
            == 0) || (outcome is Err && outcome->Err_0 is SharedMemory),
        start_of(device_idx, size, outcome) == AllocStart::Deny(2) <==> outcome is Err
            && outcome->Err_0 is OverLimit,
        start_of(device_idx, size, outcome) == AllocStart::Deny(999) <==> outcome is Err && !(
        outcome->Err_0 is OverLimit) && !(outcome->Err_0 is SharedMemory),
{
}

/// What the actual size adds to an estimate makes up the larger of the two.
pub proof fn law_extra_completes_the_estimate(estimated_size: u64, actual_size: u64)
    ensures
        actual_size >= estimated_size ==> estimated_size + pitch_extra(estimated_size, actual_size)
            == actual_size,
        actual_size <= estimated_size ==> pitch_extra(estimated_size, actual_size) == 0,
{
}

/// A pitched allocation on a device in use, whose estimate is counted already, is kept
/// exactly where it was made, its size is known, and what that adds is within the limit;
/// and what it adds is then counted, and nothing otherwise.
pub proof fn law_pitched_allocations_by_the_limit(
    shm: SharedMemory,
    device_idx: usize,
    estimated_size: u64,
    result: i32,
    allocated_ptr: usize,
    actual_size: Option<u64>,
)
    requires
        shm is Attached,
        device_idx < shm.state().devices.len(),
        shm.state().devices[device_idx as int].is_active,
        actual_size matches Some(actual) ==> actual <= u64::MAX / 2,
    ensures
        ({
            let info = shm.state().devices[device_idx as int].info;
            let limit = if info.effective_mem_limit > 0 {
                info.effective_mem_limit
            } else {
                info.mem_limit
            };
            let kept = pitched_kept(
                shm,
                device_idx,
                estimated_size,
                result,
                allocated_ptr,
                actual_size,
            );
            let end = extra_state(
                shm,
                device_idx,
                estimated_size,
                result,
                allocated_ptr,
                actual_size,
            );
            &&& kept <==> {
                &&& result == 0
                &&& allocated_ptr != 0
                &&& actual_size is Some
                &&& actual_size->0 <= estimated_size || info.pod_memory_used + (actual_size->0
                    - estimated_size) <= limit
            }
            &&& kept ==> end.devices[device_idx as int].info.pod_memory_used
                == info.pod_memory_used + (if actual_size->0 > estimated_size {
                actual_size->0 - estimated_size
            } else {
                0
            })
            &&& !kept ==> end == shm.state()
        }),
{
}

/// A pitched request without a zero among its dimensions asks for their product, where that
/// is at most half of what an address can hold.
pub proof fn law_pitched_requests_are_products(width: usize, height: usize, depth: usize)
    requires
        width > 0,
        height > 0,
        depth > 0,
    ensures
        pitched_bytes(seq![width, height]) == (if width * height <= usize::MAX / 2 {
            Some((width * height) as u64)
        } else {
            None
        }),
        pitched_bytes(seq![width, height, depth]) == (if width * height * depth <= usize::MAX / 2 {
            Some((width * height * depth) as u64)
        } else {
            None
        }),
{
    let two = seq![width, height];
    let three = seq![width, height, depth];
    crate::sizes::law_pitched_sizes_are_products(width, height, depth);
    assert forall|n: nat| n <= 2 && width * height <= usize::MAX / 2 implies #[trigger] product(
        two,
        n,
    ) <= usize::MAX by {
        crate::sizes::law_nonzero_dimensions(two, n);
    }
    assert forall|n: nat| n <= 3 && width * height * depth <= usize::MAX
        / 2 implies #[trigger] product(three, n) <= usize::MAX by {
        crate::sizes::law_nonzero_dimensions(three, n);
    }
}

/// An array of the driver interface takes the width of its numbers times its channels times
/// its dimensions, of which a missing one counts as one.
pub proof fn law_driver_arrays_are_products(
    format: i32,
    num_channels: u32,
    width: usize,
    height: usize,
    depth: usize,
)
    ensures
        ({
            let channel_bytes: int = if format == 1 || format == 8 {
                1
            } else if format == 2 || format == 9 || format == 16 {
                2
            } else if format == 3 || format == 10 || format == 32 {
                4
            } else {
                0
            };
            let bytes = channel_bytes * num_channels * width * (if height == 0 {
                1
            } else {
                height as int
            }) * (if depth == 0 {
                1
            } else {
                depth as int
            });
            &&& driver_bytes(format, num_channels, width, height, depth) is Some <==> channel_bytes
                > 0 && bytes <= u64::MAX / 2
            &&& driver_bytes(format, num_channels, width, height, depth) matches Some(n) ==> n
                == bytes
        }),
{
}

/// A mipmapped array of one level is an array, one with more than thirty-two levels is
/// refused, and one without levels takes nothing.
pub proof fn law_mipmapped_arrays(
    bytes_per_elem: nat,
    width: usize,
    height: usize,
    depth: usize,
    num_levels: u32,
)
    ensures
        num_levels > 32 ==> mipmap_bytes(bytes_per_elem, width, height, depth, num_levels) is None,
        num_levels == 0 ==> mipmap_bytes(bytes_per_elem, width, height, depth, num_levels) == Some(
            0u64,
        ),
        num_levels == 1 ==> {
            let bytes = bytes_per_elem * width * (if height == 0 {
                1
            } else {
                height as int
            }) * (if depth == 0 {
                1
            } else {
                depth as int
            });
            &&& mipmap_bytes(bytes_per_elem, width, height, depth, num_levels) is Some <==> bytes
                <= u64::MAX / 2
            &&& mipmap_bytes(bytes_per_elem, width, height, depth, num_levels) matches Some(n)
                ==> n == bytes
        },
        num_levels <= 32 ==> (mipmap_bytes(bytes_per_elem, width, height, depth, num_levels)
            is Some <==> mip_bytes(
            bytes_per_elem,
            width as nat,
            at_least_one(height),
            at_least_one(depth),
            num_levels as nat,
        ) <= u64::MAX / 2),
        num_levels <= 32 && mipmap_bytes(bytes_per_elem, width, height, depth, num_levels) is Some
            ==> mipmap_bytes(bytes_per_elem, width, height, depth, num_levels)->0 == mip_bytes(
            bytes_per_elem,
            width as nat,
            at_least_one(height),
            at_least_one(depth),
            num_levels as nat,
        ),
{
    crate::sizes::law_one_level_is_an_array(
        bytes_per_elem,
        width as nat,
        at_least_one(height),
        at_least_one(depth),
    );
    crate::sizes::law_arrays_are_products(bytes_per_elem, width as nat, height, depth);
}

/// A pitched request with a zero among two dimensions asks for nothing.
pub proof fn law_empty_pitched_requests(width: usize, height: usize)
    requires
        width == 0 || height == 0,
    ensures
        pitched_bytes(seq![width, height]) == Some(0u64),
{
    let two = seq![width, height];
    crate::sizes::law_pitched_sizes_are_products(width, height, 1);
    assert(width * height == 0) by (nonlinear_arith)
        requires
            width == 0 || height == 0,
    ;
    assert forall|n: nat| n <= 2 implies #[trigger] product(two, n) <= usize::MAX by {
        if n == 0 {
        } else if n == 1 {
        } else {
            assert(n == 2);
        }
    }
}

} // verus!
