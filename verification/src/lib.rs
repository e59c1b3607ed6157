//! Per-pod GPU memory limiting for HIP applications.
//!
//! Memory is reserved in a counter that all processes of a pod share before it is
//! allocated, and given back after it was freed. The modules hold the rules of that
//! accounting and of everything around it: which device is which, what a limit in writing
//! comes to, which calls are intercepted, and what an application is told.

pub mod alloc_flow;
pub mod caches;
pub mod config;
pub mod counter;
pub mod decimal;
pub mod devices;
pub mod error;
pub mod hip;
pub mod hooks;
pub mod info;
pub mod kfd;
pub mod limiter;
pub mod limiter_laws;
pub mod logging;
pub mod multi_device;
pub mod number;
pub mod pod_info;
pub mod pod_laws;
pub mod proc_slots;
pub mod quantity;
pub mod reaping;
pub mod reservation;
pub mod rounding;
pub mod shared_state;
pub mod shm_handle;
pub mod simulated_limiter;
pub mod simulated_pod;
pub mod size_parser;
pub mod sizes;
pub mod startup;
pub mod text;
pub mod text_map;
pub mod tracker;
