# hip_limiter

Per-pod GPU memory limiting for HIP applications. A preloaded library stands between an
application and the HIP runtime, grants or denies allocations by the limit of the pod, and
reports the limit in place of the memory of the device.

`src/` holds the rules, written and proved with Verus. `app/` holds what touches the
machine: the intercepted calls, shared memory, the hypervisor, files and logs.

| Part | Modules |
|---|---|
| Usage counters, and why reserving first never overcommits | `counter`, `reservation` |
| Live allocations, and the books of one device, several devices, and a pod | `tracker`, `simulated_limiter`, `limiter_laws`, `multi_device`, `simulated_pod`, `pod_laws` |
| Process slots, and why racing reapers hand out each counter once | `proc_slots`, `reaping` |
| The shared state of a pod | `shared_state`, `shm_handle` |
| The limiter of a process, and what happens around native calls | `limiter`, `error`, `caches`, `alloc_flow`, `info`, `sizes` |
| Which device is which | `devices`, `hip`, `kfd` |
| Quantities in writing | `text`, `number`, `rounding`, `decimal`, `size_parser`, `quantity` |
| Configuration and start-up | `text_map`, `pod_info`, `config`, `startup`, `hooks`, `logging` |

## What is stated

Every function says what it returns and changes, for every input it takes. Proof functions
whose names begin with `law_` state what holds across functions: that the books balance
after any sequence of requests, that no interleaving of reservations exceeds a limit, that
nothing is left in the counters once a pod's processes have ended, that a size in writing
comes to what floating-point arithmetic makes of it.

Counters wrap around at the end of their range. A request that runs past it is denied, and
taking it back restores the counter. Where several reservations that were not judged yet
could run past it together, the laws say so in their conditions.

## What is believed

A few functions of other crates and of the standard library are called through declarations
whose contracts are believed without proof. Each has a comment that begins with `Trusted:`
and says what is claimed.
