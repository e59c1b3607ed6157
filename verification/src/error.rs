//! What can go wrong when memory is accounted for.
use crate::text::{push_decimal, push_signed, push_text, signed, written};
use vstd::prelude::*;

verus! {

/// A failure of the accounting.
#[derive(Debug)]
pub enum Error {
    /// The HIP runtime failed with a code.
    Hip(i32),
    /// The shared state cannot be reached, for a reason.
    SharedMemory(String),
    /// The device is not configured.
    DeviceNotConfigured(String),
    /// The request would exceed the limit of the device.
    OverLimit {
        /// The usage before the request.
        used: u64,
        /// The request.
        request: u64,
        /// The limit.
        limit: u64,
        /// The device.
        device_idx: usize,
    },
    /// There is no limiter.
    LimiterNotInitialized,
}

/// A failure as plain values.
pub enum ErrorState {
    /// The HIP runtime failed with a code.
    Hip(i32),
    /// The shared state cannot be reached, for a reason.
    SharedMemory(Seq<char>),
    /// The device is not configured.
    DeviceNotConfigured(Seq<char>),
    /// The request would exceed the limit of the device.
    OverLimit {
        /// The usage before the request.
        used: u64,
        /// The request.
        request: u64,
        /// The limit.
        limit: u64,
        /// The device.
        device_idx: usize,
    },
    /// There is no limiter.
    LimiterNotInitialized,
}

impl View for Error {
    type V = ErrorState;

    open spec fn view(&self) -> ErrorState {
        match *self {
            Error::Hip(code) => ErrorState::Hip(code),
            Error::SharedMemory(reason) => ErrorState::SharedMemory(reason@),
            Error::DeviceNotConfigured(device) => ErrorState::DeviceNotConfigured(device@),
            Error::OverLimit { used, request, limit, device_idx } => ErrorState::OverLimit {
                used,
                request,
                limit,
                device_idx,
            },
            Error::LimiterNotInitialized => ErrorState::LimiterNotInitialized,
        }
    }
}

impl ErrorState {
    /// The failure in words.
    pub open spec fn message(self) -> Seq<char> {
        match self {
            ErrorState::Hip(code) => "HIP error: "@ + signed(code as int),
            ErrorState::SharedMemory(reason) => "Shared memory access failed: "@ + reason,
            ErrorState::DeviceNotConfigured(device) => "Device not configured: "@ + device,
            ErrorState::OverLimit { used, request, limit, device_idx } =>
                "Allocation exceeds limit on device "@ + written(device_idx as nat, 10)
                    + ": used ("@ + written(used as nat, 10) + ") + request ("@ + written(
                    request as nat,
                    10,
                ) + ") > limit ("@ + written(limit as nat, 10) + ")"@,
            ErrorState::LimiterNotInitialized => "Limiter not initialized"@,
        }
    }
}

impl Error {
    /// The failure in words.
    pub fn message(&self) -> (m: String)
        ensures
            m@ == self@.message(),
            self matches Error::Hip(code) ==> m@ == "HIP error: "@ + signed(*code as int),
            self matches Error::SharedMemory(reason) ==> m@ == "Shared memory access failed: "@
                + reason@,
            self matches Error::DeviceNotConfigured(device) ==> m@ == "Device not configured: "@
                + device@,
            self is LimiterNotInitialized ==> m@ == "Limiter not initialized"@,
            self matches Error::OverLimit { used, request, limit, device_idx } ==> m@
                == "Allocation exceeds limit on device "@ + written(*device_idx as nat, 10)
                + ": used ("@ + written(*used as nat, 10) + ") + request ("@ + written(
                *request as nat,
                10,
            ) + ") > limit ("@ + written(*limit as nat, 10) + ")"@,
    {
        let mut m = String::new();
        match self {
            Error::Hip(code) => {
                push_text(&mut m, "HIP error: ");
                push_signed(&mut m, *code as i64);
            },
            Error::SharedMemory(reason) => {
                push_text(&mut m, "Shared memory access failed: ");
                push_text(&mut m, reason.as_str());
            },
            Error::DeviceNotConfigured(device) => {
                push_text(&mut m, "Device not configured: ");
                push_text(&mut m, device.as_str());
            },
            Error::OverLimit { used, request, limit, device_idx } => {
                push_text(&mut m, "Allocation exceeds limit on device ");
                push_decimal(&mut m, *device_idx as u64);
                push_text(&mut m, ": used (");
                push_decimal(&mut m, *used);
                push_text(&mut m, ") + request (");
                push_decimal(&mut m, *request);
                push_text(&mut m, ") > limit (");
                push_decimal(&mut m, *limit);
                push_text(&mut m, ")");
            },
            Error::LimiterNotInitialized => {
                push_text(&mut m, "Limiter not initialized");
            },
        }
        assert(m@ =~= self@.message());
        m
    }
}

} // verus!
