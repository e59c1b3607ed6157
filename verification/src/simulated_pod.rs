//! A pod: devices with shared counters, and processes that come, allocate, and go
//! cleanly or not.
use crate::counter::{
    counter_add, counter_sub, fetch_add, fetch_sub, fits, saturating_fetch_sub, within_limit,
    MAX_ALLOC_SIZE,
};
use crate::proc_slots::{
    fresh_slot, non_hip_total, ProcSlotTable, SlotState, TableState, MAX_DEVICES, MAX_PROC_SLOTS,
    PROC_SLOTS_MAGIC,
};
use crate::tracker::{
    device_bytes, lemma_weighed_items, live, live_clear, live_insert, live_items, live_new,
    live_remove, on_device, sum_device_items,
};
use dashmap::DashMap;
use vstd::prelude::*;

verus! {

/// The counters of one device that all processes share.
#[derive(Clone, Copy)]
pub struct DeviceState {
    /// The configured limit in bytes.
    pub mem_limit: u64,
    /// The usage of all processes.
    pub pod_memory_used: u64,
    /// The limit less what is taken outside of allocation calls; zero where it has
    /// not been computed.
    pub effective_mem_limit: u64,
}

impl DeviceState {
    /// The limit in force.
    pub open spec fn limit(self) -> u64 {
        if self.effective_mem_limit > 0 {
            self.effective_mem_limit
        } else {
            self.mem_limit
        }
    }

    /// A device that nobody uses yet.
    pub fn new(mem_limit: u64) -> (device: Self)
        ensures
            device == (DeviceState { mem_limit, pod_memory_used: 0, effective_mem_limit: 0 }),
    {
        DeviceState { mem_limit, pod_memory_used: 0, effective_mem_limit: 0 }
    }

    /// The limit in force.
    pub fn active_limit(&self) -> (limit: u64)
        ensures
            limit == self.limit(),
    {
        if self.effective_mem_limit > 0 {
            self.effective_mem_limit
        } else {
            self.mem_limit
        }
    }
}

/// A process as plain values.
#[verifier::ext_equal]
pub struct ProcessState {
    /// The process id.
    pub pid: u32,
    /// Its slot in the shared table, if it got one.
    pub slot: Option<usize>,
    /// Its live allocations.
    pub live: Map<usize, (usize, u64)>,
    /// How many allocations it has made.
    pub alloc_count: u64,
    /// What it takes outside of allocation calls, per device.
    pub non_hip: Seq<u64>,
    /// The pointer that its next allocation gets.
    pub next_pointer: usize,
    /// Whether it still runs.
    pub alive: bool,
}

impl ProcessState {
    /// The process with one pointer handed out.
    pub open spec fn pointer_taken(self) -> ProcessState {
        ProcessState {
            next_pointer: (if self.next_pointer == usize::MAX {
                0
            } else {
                self.next_pointer + 1
            }) as usize,
            ..self
        }
    }

    /// The process after it got an allocation.
    pub open spec fn holding(self, device_idx: usize, size: u64) -> ProcessState {
        ProcessState {
            live: self.live.insert(self.next_pointer, (device_idx, size)),
            alloc_count: (if self.alloc_count == u64::MAX {
                0
            } else {
                self.alloc_count + 1
            }) as u64,
            ..self.pointer_taken()
        }
    }
}

/// One process of the pod.
pub struct SimulatedProcess {
    /// The process id.
    pub pid: u32,
    /// Its slot in the shared table, if it got one.
    pub slot_idx: Option<usize>,
    alloc_tracker: DashMap<usize, (usize, u64)>,
    alloc_count: u64,
    non_hip: Vec<u64>,
    next_pointer: usize,
    alive: bool,
}

impl View for SimulatedProcess {
    type V = ProcessState;

    closed spec fn view(&self) -> ProcessState {
        ProcessState {
            pid: self.pid,
            slot: self.slot_idx,
            live: live(self.alloc_tracker),
            alloc_count: self.alloc_count,
            non_hip: self.non_hip@,
            next_pointer: self.next_pointer,
            alive: self.alive,
        }
    }
}

/// The first `n` values, with zeros for those that are missing.
pub open spec fn resized(values: Seq<u64>, n: nat) -> Seq<u64> {
    Seq::new(
        n,
        |d: int|
            if d < values.len() {
                values[d]
            } else {
                0u64
            },
    )
}

impl SimulatedProcess {
    /// A running process without allocations.
    pub fn new(
        pid: u32,
        slot_idx: Option<usize>,
        num_devices: usize,
        non_hip: &[u64],
    ) -> (process: Self)
        ensures
            process@ == (ProcessState {
                pid,
                slot: slot_idx,
                live: Map::empty(),
                alloc_count: 0,
                non_hip: resized(non_hip@, num_devices as nat),
                next_pointer: 1,
                alive: true,
            }),
    {
        let mut overhead: Vec<u64> = Vec::new();
        let mut d: usize = 0;
        while d < num_devices
            invariant
                d <= num_devices,
                overhead@ == resized(non_hip@, d as nat),
            decreases num_devices - d,
        {
            let value: u64 = if d < non_hip.len() {
                non_hip[d]
            } else {
                0
            };
            overhead.push(value);
            d = d + 1;
            assert(overhead@ =~= resized(non_hip@, d as nat));
        }
        let process = SimulatedProcess {
            pid,
            slot_idx,
            alloc_tracker: live_new(),
            alloc_count: 0,
            non_hip: overhead,
            next_pointer: 1,
            alive: true,
        };
        assert(process@.live =~= Map::empty());
        process
    }

    /// Whether the process still runs.
    pub fn is_alive(&self) -> (alive: bool)
        ensures
            alive == self@.alive,
    {
        self.alive
    }

    /// How many allocations the process has made.
    pub fn alloc_count(&self) -> (count: u64)
        ensures
            count == self@.alloc_count,
    {
        self.alloc_count
    }
}

/// A pod as plain values.
#[verifier::ext_equal]
pub struct PodState {
    /// The devices.
    pub devices: Seq<DeviceState>,
    /// The shared table.
    pub table: TableState,
    /// The processes, dead ones among them.
    pub processes: Seq<ProcessState>,
    /// The id that the next process gets.
    pub next_pid: u32,
}

/// The ids of the running ones of the first `n` processes.
pub open spec fn alive_pids(processes: Seq<ProcessState>, n: nat) -> Seq<u32>
    decreases n,
{
    if n == 0 {
        Seq::empty()
    } else if processes[n - 1].alive {
        alive_pids(processes, (n - 1) as nat).push(processes[n - 1].pid)
    } else {
        alive_pids(processes, (n - 1) as nat)
    }
}

/// What the dead ones of the first `n` slots have counted on a device.
pub open spec fn dead_usage(t: TableState, alive: Seq<u32>, device_idx: int, n: nat) -> nat
    decreases n,
{
    if n == 0 {
        0
    } else {
        dead_usage(t, alive, device_idx, (n - 1) as nat) + (if t.dead(n - 1, alive) {
            t.slots[n - 1].used[device_idx] as nat
        } else {
            0
        })
    }
}

/// A counter less some bytes, down to zero at most.
pub open spec fn less(used: u64, bytes: nat) -> u64 {
    (if used < bytes {
        0
    } else {
        used - bytes
    }) as u64
}

/// A slot after its owner has recorded what it takes outside of allocation calls.
pub open spec fn with_overhead(slot: SlotState, non_hip: Seq<u64>) -> SlotState {
    SlotState {
        non_hip: Seq::new(
            slot.non_hip.len(),
            |d: int|
                if d < non_hip.len() {
                    non_hip[d]
                } else {
                    slot.non_hip[d]
                },
        ),
        ..slot
    }
}

/// What is taken on a device outside of allocation calls, as the table records it.
pub open spec fn overhead(t: TableState, device_idx: int) -> u64 {
    if device_idx >= MAX_DEVICES {
        0
    } else {
        let total = non_hip_total(t.slots, device_idx, MAX_PROC_SLOTS as nat);
        (if total <= u64::MAX {
            total
        } else {
            u64::MAX as nat
        }) as u64
    }
}

impl PodState {
    /// The ids of all running processes.
    pub open spec fn alive(self) -> Seq<u32> {
        alive_pids(self.processes, self.processes.len())
    }

    /// Every process records its overhead for each device, its slot is in the
    /// table, and its allocations are on devices of the pod.
    pub open spec fn wf(self) -> bool {
        &&& forall|p: int|
            0 <= p < self.processes.len() ==> {
                let process = #[trigger] self.processes[p];
                &&& process.non_hip.len() == self.devices.len()
                &&& process.slot matches Some(i) ==> i < MAX_PROC_SLOTS
                &&& process.live.dom().finite()
                &&& forall|k: usize| #[trigger]
                    process.live.dom().contains(k) ==> process.live[k].0 < self.devices.len()
            }
        &&& self.table.slots.len() == MAX_PROC_SLOTS
        &&& forall|i: int|
            0 <= i < MAX_PROC_SLOTS ==> (#[trigger] self.table.slots[i]).used.len() == MAX_DEVICES
                && self.table.slots[i].non_hip.len() == MAX_DEVICES
    }

    /// The table after dead processes were reaped and the overhead of one process
    /// was recorded.
    pub open spec fn reconciled_table(self, proc_idx: int) -> TableState {
        let reaped = self.table.after_reap(self.alive());
        match self.processes[proc_idx].slot {
            Some(i) => reaped.with_slot(
                i as int,
                with_overhead(reaped.slots[i as int], self.processes[proc_idx].non_hip),
            ),
            None => reaped,
        }
    }

    /// The pod after a process reconciled it: what dead processes had counted is
    /// taken from the counters, and every limit is computed anew.
    pub open spec fn after_reconcile(self, proc_idx: int) -> PodState {
        let table = self.reconciled_table(proc_idx);
        PodState {
            devices: Seq::new(
                self.devices.len(),
                |d: int|
                    DeviceState {
                        mem_limit: self.devices[d].mem_limit,
                        pod_memory_used: if d < MAX_DEVICES {
                            less(
                                self.devices[d].pod_memory_used,
                                dead_usage(self.table, self.alive(), d, MAX_PROC_SLOTS as nat),
                            )
                        } else {
                            self.devices[d].pod_memory_used
                        },
                        effective_mem_limit: counter_sub(
                            self.devices[d].mem_limit,
                            overhead(table, d),
                        ),
                    },
            ),
            table,
            ..self
        }
    }

    /// The pod with another counter value for one device.
    pub open spec fn with_used(self, device_idx: usize, used: u64) -> PodState {
        PodState {
            devices: self.devices.update(
                device_idx as int,
                (DeviceState { pod_memory_used: used, ..self.devices[device_idx as int] }),
            ),
            ..self
        }
    }

    /// The pod with another process at one place.
    pub open spec fn with_process(self, proc_idx: usize, process: ProcessState) -> PodState {
        PodState { processes: self.processes.update(proc_idx as int, process), ..self }
    }

    /// A request is granted.
    pub open spec fn grants(self, device_idx: usize, size: u64) -> bool {
        size == 0 || (size <= MAX_ALLOC_SIZE && fits(
            self.devices[device_idx as int].pod_memory_used,
            size,
            self.devices[device_idx as int].limit(),
        ))
    }

    /// The pod after a granted request was counted and recorded.
    pub open spec fn holding(self, proc_idx: usize, device_idx: usize, size: u64) -> PodState {
        let process = self.processes[proc_idx as int];
        PodState {
            table: match process.slot {
                Some(i) => self.table.after_add(i, device_idx, size),
                None => self.table,
            },
            ..self.with_used(
                device_idx,
                counter_add(self.devices[device_idx as int].pod_memory_used, size),
            ).with_process(proc_idx, process.holding(device_idx, size))
        }
    }

    /// The pod after a request. A denied one changes nothing. The first allocation of a
    /// process and then every hundredth reconcile.
    pub open spec fn after_alloc(self, proc_idx: usize, device_idx: usize, size: u64) -> PodState {
        let process = self.processes[proc_idx as int];
        if size == 0 {
            self.with_process(proc_idx, process.pointer_taken())
        } else if !self.grants(device_idx, size) {
            self
        } else if process.alloc_count % 100 == 0 {
            self.holding(proc_idx, device_idx, size).after_reconcile(proc_idx as int)
        } else {
            self.holding(proc_idx, device_idx, size)
        }
    }

    /// The pod after a pointer was freed; an unknown pointer changes nothing.
    pub open spec fn after_free(self, proc_idx: usize, pointer: usize) -> PodState {
        let process = self.processes[proc_idx as int];
        if process.live.dom().contains(pointer) {
            let (device_idx, size) = process.live[pointer];
            PodState {
                table: match process.slot {
                    Some(i) => self.table.after_sub(i, device_idx, size),
                    None => self.table,
                },
                ..self.with_used(
                    device_idx,
                    counter_sub(self.devices[device_idx as int].pod_memory_used, size),
                ).with_process(
                    proc_idx,
                    (ProcessState { live: process.live.remove(pointer), ..process }),
                )
            }
        } else {
            self
        }
    }

    /// The pod after a process gave all its allocations and its slot back.
    pub open spec fn after_drain(self, proc_idx: usize) -> PodState {
        let process = self.processes[proc_idx as int];
        PodState {
            devices: Seq::new(
                self.devices.len(),
                |d: int|
                    DeviceState {
                        pod_memory_used: less(
                            self.devices[d].pod_memory_used,
                            device_bytes(process.live, d as usize),
                        ),
                        ..self.devices[d]
                    },
            ),
            table: match process.slot {
                Some(i) => self.table.with_slot(i as int, fresh_slot(0)),
                None => self.table,
            },
            ..self.with_process(
                proc_idx,
                (ProcessState { alive: false, live: Map::empty(), ..process }),
            )
        }
    }

    /// What a new process is given: the pod's next id, the first empty slot or
    /// none, and its overhead, which is recorded in that slot.
    pub open spec fn is_spawn(self, non_hip: Seq<u64>, end: PodState) -> bool {
        &&& self.next_pid < u32::MAX
        &&& end.next_pid == self.next_pid + 1
        &&& end.devices == self.devices
        &&& end.processes.len() == self.processes.len() + 1
        &&& end.processes == self.processes.push(
            ProcessState {
                pid: self.next_pid,
                slot: end.processes.last().slot,
                live: Map::empty(),
                alloc_count: 0,
                non_hip: resized(non_hip, self.devices.len()),
                next_pointer: 1,
                alive: true,
            },
        )
        &&& match end.processes.last().slot {
            Some(i) => {
                &&& self.table.is_first_free(i as int)
                &&& end.table == self.table.with_slot(
                    i as int,
                    with_overhead(
                        fresh_slot(self.next_pid),
                        resized(non_hip, self.devices.len()),
                    ),
                )
            },
            None => self.table.full() && end.table == self.table,
        }
    }
}

/// The bytes that the first `n` devices hold of a process's allocations.
pub open spec fn bytes_on_first(live: Map<usize, (usize, u64)>, n: nat) -> nat
    decreases n,
{
    if n == 0 {
        0
    } else {
        bytes_on_first(live, (n - 1) as nat) + device_bytes(live, (n - 1) as usize)
    }
}

/// The bytes on more devices are no fewer.
proof fn lemma_bytes_on_first_grows(live: Map<usize, (usize, u64)>, n: nat, m: nat)
    requires
        n <= m,
    ensures
        bytes_on_first(live, n) <= bytes_on_first(live, m),
    decreases m - n,
{
    if n < m {
        lemma_bytes_on_first_grows(live, n + 1, m);
    }
}

/// Taking two amounts one after the other takes their sum.
proof fn lemma_less_twice(used: u64, a: nat, b: nat)
    ensures
        less(less(used, a), b) == less(used, a + b),
{
}

/// What the first `n` reaped owners had counted on a device.
pub open spec fn reaped_usage(
    reaped: Seq<(u32, [u64; MAX_DEVICES])>,
    device_idx: int,
    n: nat,
) -> nat
    decreases n,
{
    if n == 0 {
        0
    } else {
        reaped_usage(reaped, device_idx, (n - 1) as nat) + reaped[n - 1].1@[device_idx] as nat
    }
}

/// What was handed out for the dead slots below `n` is what those had counted.
proof fn lemma_reaped_usage(
    t: TableState,
    alive: Seq<u32>,
    found: Seq<(usize, u32)>,
    reaped: Seq<(u32, [u64; MAX_DEVICES])>,
    device_idx: int,
    n: nat,
    m: nat,
)
    requires
        0 <= device_idx < MAX_DEVICES,
        t.lists_dead(alive, found),
        reaped.len() == found.len(),
        forall|k: int|
            0 <= k < found.len() ==> (#[trigger] reaped[k]).1@ == t.slots[found[k].0 as int].used,
        n <= t.slots.len(),
        m <= found.len(),
        forall|k: int| 0 <= k < m ==> (#[trigger] found[k]).0 < n,
        forall|k: int| m <= k < found.len() ==> (#[trigger] found[k]).0 >= n,
    ensures
        reaped_usage(reaped, device_idx, m) == dead_usage(t, alive, device_idx, n),
    decreases n,
{
    if n == 0 {
        if m > 0 {
            assert(found[0].0 < 0);
        }
    } else if t.dead(n - 1, alive) {
        let k = choose|k: int| 0 <= k < found.len() && (#[trigger] found[k]).0 == n - 1;
        assert(found[k].0 == n - 1);
        if k < m - 1 {
            assert(found[k].0 < found[m - 1].0);
        }
        assert(k == m - 1);
        assert forall|l: int| 0 <= l < m - 1 implies (#[trigger] found[l]).0 < n - 1 by {
            assert(found[l].0 < found[k].0);
        }
        lemma_reaped_usage(t, alive, found, reaped, device_idx, (n - 1) as nat, (m - 1) as nat);
        assert(reaped[m - 1].1@ == t.slots[found[m - 1].0 as int].used);
    } else {
        assert forall|l: int| 0 <= l < m implies (#[trigger] found[l]).0 < n - 1 by {
            assert(t.dead(found[l].0 as int, alive));
        }
        lemma_reaped_usage(t, alive, found, reaped, device_idx, (n - 1) as nat, m);
    }
}

/// A pod whose processes share devices and a table.
pub struct SimulatedPod {
    /// The devices.
    pub devices: Vec<DeviceState>,
    proc_slots: ProcSlotTable,
    processes: Vec<SimulatedProcess>,
    next_pid: u32,
}

impl View for SimulatedPod {
    type V = PodState;

    closed spec fn view(&self) -> PodState {
        PodState {
            devices: self.devices@,
            table: self.proc_slots@,
            processes: Seq::new(self.processes@.len(), |p: int| self.processes@[p]@),
            next_pid: self.next_pid,
        }
    }
}

impl SimulatedPod {
    /// A pod without processes, with one unused device per limit.
    pub fn new(device_limits: &[u64]) -> (pod: Self)
        ensures
            pod@.wf(),
            pod@.devices.len() == device_limits@.len(),
            forall|d: int|
                0 <= d < device_limits@.len() ==> #[trigger] pod@.devices[d] == (DeviceState {
                    mem_limit: device_limits@[d],
                    pod_memory_used: 0,
                    effective_mem_limit: 0,
                }),
            pod@.table == (TableState {
                magic: PROC_SLOTS_MAGIC,
                slots: Seq::new(MAX_PROC_SLOTS as nat, |i: int| fresh_slot(0)),
            }),
            pod@.processes == Seq::<ProcessState>::empty(),
            pod@.next_pid == 4_000_000,
    {
        let mut proc_slots = ProcSlotTable::new_zeroed();
        proc_slots.initialize();
        let mut devices: Vec<DeviceState> = Vec::new();
        let mut d: usize = 0;
        while d < device_limits.len()
            invariant
                d <= device_limits@.len(),
                devices@.len() == d,
                forall|e: int|
                    0 <= e < d ==> #[trigger] devices@[e] == (DeviceState {
                        mem_limit: device_limits@[e],
                        pod_memory_used: 0,
                        effective_mem_limit: 0,
                    }),
            decreases device_limits@.len() - d,
        {
            devices.push(DeviceState::new(device_limits[d]));
            d = d + 1;
        }
        let pod = SimulatedPod { devices, proc_slots, processes: Vec::new(), next_pid: 4_000_000 };
        assert(pod@.processes =~= Seq::<ProcessState>::empty());
        pod
    }

    /// Records a process's overhead in its slot, device by device.
    fn write_overhead(&mut self, slot_idx: usize, non_hip: &[u64])
        requires
            old(self)@.wf(),
            slot_idx < MAX_PROC_SLOTS,
        ensures
            final(self)@ == (PodState {
                table: old(self)@.table.with_slot(
                    slot_idx as int,
                    with_overhead(
                        old(self)@.table.slots[slot_idx as int],
                        if non_hip@.len() <= old(self)@.devices.len() {
                            non_hip@
                        } else {
                            non_hip@.take(old(self)@.devices.len() as int)
                        },
                    ),
                ),
                ..old(self)@
            }),
    {
        let ghost slot = old(self)@.table.slots[slot_idx as int];
        let mut d: usize = 0;
        proof {
            assert(with_overhead(slot, non_hip@.take(0)).non_hip =~= slot.non_hip);
            assert(self@.table =~= old(self)@.table.with_slot(
                slot_idx as int,
                with_overhead(slot, non_hip@.take(0)),
            ));
        }
        while d < non_hip.len() && d < self.devices.len()
            invariant
                d <= non_hip@.len(),
                d <= old(self)@.devices.len(),
                old(self)@.wf(),
                slot_idx < MAX_PROC_SLOTS,
                slot == old(self)@.table.slots[slot_idx as int],
                self@ == (PodState {
                    table: old(self)@.table.with_slot(
                        slot_idx as int,
                        with_overhead(slot, non_hip@.take(d as int)),
                    ),
                    ..old(self)@
                }),
            decreases non_hip@.len() - d,
        {
            let ghost before = self@;
            self.proc_slots.write_non_hip(slot_idx, d, non_hip[d]);
            proof {
                assert(before.table.slots[slot_idx as int] == with_overhead(
                    slot,
                    non_hip@.take(d as int),
                ));
                assert(self@.table.slots[slot_idx as int].non_hip =~= with_overhead(
                    slot,
                    non_hip@.take(d + 1),
                ).non_hip);
                assert(self@.table =~= old(self)@.table.with_slot(
                    slot_idx as int,
                    with_overhead(slot, non_hip@.take(d + 1)),
                ));
                assert(self@.processes =~= old(self)@.processes);
            }
            d = d + 1;
        }
        proof {
            if non_hip@.len() <= old(self)@.devices.len() {
                assert(non_hip@.take(d as int) =~= non_hip@);
            }
        }
    }

    /// Starts a process with the given overhead per device, and returns its index.
    /// It claims a slot, where one is empty, and records the overhead there.
    pub fn spawn_process(&mut self, non_hip_per_device: &[u64]) -> (proc_idx: usize)
        requires
            old(self)@.wf(),
            old(self)@.next_pid < u32::MAX,
        ensures
            final(self)@.wf(),
            proc_idx == old(self)@.processes.len(),
            old(self)@.is_spawn(non_hip_per_device@, final(self)@),
    {
        let pid: u32 = self.next_pid;
        self.next_pid = pid + 1;
        let slot_idx = self.proc_slots.claim_slot(pid);
        let process = SimulatedProcess::new(pid, slot_idx, self.devices.len(), non_hip_per_device);
        let ghost claimed = self@;
        assert(claimed.processes =~= old(self)@.processes);
        if let Some(i) = slot_idx {
            self.write_overhead(i, non_hip_per_device);
        }
        let proc_idx: usize = self.processes.len();
        self.processes.push(process);
        proof {
            assert(self@.processes =~= old(self)@.processes.push(process@));
            if let Some(i) = slot_idx {
                let written = if non_hip_per_device@.len() <= old(self)@.devices.len() {
                    non_hip_per_device@
                } else {
                    non_hip_per_device@.take(old(self)@.devices.len() as int)
                };
                assert(with_overhead(fresh_slot(pid), written).non_hip =~= with_overhead(
                    fresh_slot(pid),
                    resized(non_hip_per_device@, old(self)@.devices.len()),
                ).non_hip);
                assert(self@.table =~= old(self)@.table.with_slot(
                    i as int,
                    with_overhead(
                        fresh_slot(pid),
                        resized(non_hip_per_device@, old(self)@.devices.len()),
                    ),
                ));
            }
            assert forall|p: int| 0 <= p < self@.processes.len() implies {
                let process = #[trigger] self@.processes[p];
                &&& process.non_hip.len() == self@.devices.len()
                &&& process.slot matches Some(i) ==> i < MAX_PROC_SLOTS
                &&& process.live.dom().finite()
                &&& forall|k: usize| #[trigger]
                    process.live.dom().contains(k) ==> process.live[k].0 < self@.devices.len()
            } by {
                if p < old(self)@.processes.len() {
                    assert(self@.processes[p] == old(self)@.processes[p]);
                } else {
                    assert(self@.processes[p] == process@);
                }
            }
        }
        proc_idx
    }

    /// Ends a process without any clean-up: its slot keeps its id and its counters
    /// until another process reaps it.
    pub fn kill_process(&mut self, proc_idx: usize)
        requires
            old(self)@.wf(),
            proc_idx < old(self)@.processes.len(),
        ensures
            final(self)@.wf(),
            final(self)@ == old(self)@.with_process(
                proc_idx,
                (ProcessState { alive: false, ..old(self)@.processes[proc_idx as int] }),
            ),
    {
        self.processes[proc_idx].alive = false;
        assert(self@.processes =~= old(self)@.processes.update(
            proc_idx as int,
            (ProcessState { alive: false, ..old(self)@.processes[proc_idx as int] }),
        ));
    }

    /// A device's usage in bytes.
    pub fn pod_memory_used(&self, device_idx: usize) -> (used: u64)
        requires
            device_idx < self@.devices.len(),
        ensures
            used == self@.devices[device_idx as int].pod_memory_used,
    {
        self.devices[device_idx].pod_memory_used
    }

    /// A device's limit less the recorded overhead; zero where it was not computed.
    pub fn effective_mem_limit(&self, device_idx: usize) -> (limit: u64)
        requires
            device_idx < self@.devices.len(),
        ensures
            limit == self@.devices[device_idx as int].effective_mem_limit,
    {
        self.devices[device_idx].effective_mem_limit
    }

    /// A process.
    pub fn process(&self, proc_idx: usize) -> (process: &SimulatedProcess)
        requires
            proc_idx < self@.processes.len(),
        ensures
            process@ == self@.processes[proc_idx as int],
    {
        &self.processes[proc_idx]
    }

    /// The number of devices.
    pub fn device_count(&self) -> (n: usize)
        ensures
            n == self@.devices.len(),
    {
        self.devices.len()
    }

    /// What all recorded processes take on a device outside of allocation calls.
    pub fn sum_non_hip_for_device(&self, device_idx: usize) -> (sum: u64)
        ensures
            sum == overhead(self@.table, device_idx as int),
    {
        self.proc_slots.sum_non_hip_for_device(device_idx)
    }

    /// The ids of all running processes.
    fn live_pids(&self) -> (pids: Vec<u32>)
        ensures
            pids@ == self@.alive(),
    {
        let mut pids: Vec<u32> = Vec::new();
        let mut p: usize = 0;
        while p < self.processes.len()
            invariant
                p <= self.processes@.len(),
                pids@ == alive_pids(self@.processes, p as nat),
            decreases self.processes@.len() - p,
        {
            if self.processes[p].alive {
                pids.push(self.processes[p].pid);
            }
            p = p + 1;
        }
        pids
    }

    /// The number of running processes.
    pub fn live_process_count(&self) -> (n: usize)
        ensures
            n == self@.alive().len(),
    {
        self.live_pids().len()
    }

    /// Empties the slots of all processes that no longer run, and hands out what
    /// each had counted.
    fn reap_dead_pids(&mut self) -> (reaped: Vec<(u32, [u64; MAX_DEVICES])>)
        ensures
            final(self)@ == (PodState {
                table: old(self)@.table.after_reap(old(self)@.alive()),
                ..old(self)@
            }),
            old(self)@.table.hands_out(old(self)@.alive(), reaped@),
    {
        let pids = self.live_pids();
        let reaped = self.proc_slots.reap_dead(pids.as_slice());
        assert(self@.processes =~= old(self)@.processes);
        reaped
    }

    /// Takes what reaped processes had counted from the counters of the devices.
    fn forget_usage(&mut self, reaped: &Vec<(u32, [u64; MAX_DEVICES])>)
        ensures
            final(self)@.table == old(self)@.table,
            final(self)@.processes == old(self)@.processes,
            final(self)@.next_pid == old(self)@.next_pid,
            final(self)@.devices == Seq::new(
                old(self)@.devices.len(),
                |d: int|
                    DeviceState {
                        pod_memory_used: if d < MAX_DEVICES {
                            less(
                                old(self)@.devices[d].pod_memory_used,
                                reaped_usage(reaped@, d, reaped@.len()),
                            )
                        } else {
                            old(self)@.devices[d].pod_memory_used
                        },
                        ..old(self)@.devices[d]
                    },
            ),
    {
        let mut d: usize = 0;
        while d < self.devices.len() && d < MAX_DEVICES
            invariant
                d <= self.devices@.len(),
                d <= MAX_DEVICES,
                self@.table == old(self)@.table,
                self@.processes == old(self)@.processes,
                self@.next_pid == old(self)@.next_pid,
                self.devices@.len() == old(self)@.devices.len(),
                forall|e: int|
                    0 <= e < d ==> #[trigger] self.devices@[e] == (DeviceState {
                        pod_memory_used: less(
                            old(self)@.devices[e].pod_memory_used,
                            reaped_usage(reaped@, e, reaped@.len()),
                        ),
                        ..old(self)@.devices[e]
                    }),
                forall|e: int|
                    d <= e < self.devices@.len() ==> #[trigger] self.devices@[e] == old(
                        self,
                    )@.devices[e],
            decreases MAX_DEVICES - d,
        {
            let mut used: u64 = self.devices[d].pod_memory_used;
            let mut k: usize = 0;
            while k < reaped.len()
                invariant
                    k <= reaped@.len(),
                    d < MAX_DEVICES,
                    used == less(
                        old(self)@.devices[d as int].pod_memory_used,
                        reaped_usage(reaped@, d as int, k as nat),
                    ),
                decreases reaped@.len() - k,
            {
                let bytes: u64 = reaped[k].1[d];
                proof {
                    lemma_less_twice(
                        old(self)@.devices[d as int].pod_memory_used,
                        reaped_usage(reaped@, d as int, k as nat),
                        bytes as nat,
                    );
                }
                if bytes > 0 {
                    saturating_fetch_sub(&mut used, bytes);
                }
                k = k + 1;
            }
            self.devices[d].pod_memory_used = used;
            d = d + 1;
            assert(self@.processes =~= old(self)@.processes);
        }
        assert(self@.devices =~= Seq::new(
            old(self)@.devices.len(),
            |d: int|
                DeviceState {
                    pod_memory_used: if d < MAX_DEVICES {
                        less(
                            old(self)@.devices[d].pod_memory_used,
                            reaped_usage(reaped@, d, reaped@.len()),
                        )
                    } else {
                        old(self)@.devices[d].pod_memory_used
                    },
                    ..old(self)@.devices[d]
                },
        ));
    }

    /// Reconciles the pod on behalf of a running process: reaps processes that no
    /// longer run and takes what they had counted from the devices, records this
    /// process's overhead, and computes the limits anew from all overheads.
    pub fn reconcile(&mut self, proc_idx: usize)
        requires
            old(self)@.wf(),
            proc_idx < old(self)@.processes.len(),
            old(self)@.processes[proc_idx as int].alive,
        ensures
            final(self)@.wf(),
            final(self)@ == old(self)@.after_reconcile(proc_idx as int),
    {
        let reaped = self.reap_dead_pids();
        let ghost reaped_table = self@.table;
        self.forget_usage(&reaped);
        proof {
            let t = old(self)@.table;
            let alive = old(self)@.alive();
            let found = choose|found: Seq<(usize, u32)>|
                {
                    &&& #[trigger] t.lists_dead(alive, found)
                    &&& reaped@.len() == found.len()
                    &&& forall|k: int|
                        0 <= k < found.len() ==> (#[trigger] reaped@[k]).0 == found[k].1
                            && reaped@[k].1@ == t.slots[found[k].0 as int].used
                };
            assert forall|d: int| 0 <= d < MAX_DEVICES implies #[trigger] reaped_usage(
                reaped@,
                d,
                reaped@.len(),
            ) == dead_usage(t, alive, d, MAX_PROC_SLOTS as nat) by {
                lemma_reaped_usage(
                    t,
                    alive,
                    found,
                    reaped@,
                    d,
                    MAX_PROC_SLOTS as nat,
                    found.len(),
                );
            }
        }
        let slot_idx = self.processes[proc_idx].slot_idx;
        if let Some(i) = slot_idx {
            let non_hip = self.overhead_of(proc_idx);
            assert(self@.wf());
            assert(self@.processes[proc_idx as int] == old(self)@.processes[proc_idx as int]);
            self.write_overhead(i, non_hip.as_slice());
        }
        assert(self@.table =~= old(self)@.reconciled_table(proc_idx as int));
        let ghost counted = self@;
        let mut d: usize = 0;
        while d < self.devices.len()
            invariant
                d <= self.devices@.len(),
                self@.table == counted.table,
                self@.processes == counted.processes,
                self@.next_pid == counted.next_pid,
                self.devices@.len() == counted.devices.len(),
                forall|e: int|
                    0 <= e < d ==> #[trigger] self.devices@[e] == (DeviceState {
                        effective_mem_limit: counter_sub(
                            counted.devices[e].mem_limit,
                            overhead(counted.table, e),
                        ),
                        ..counted.devices[e]
                    }),
                forall|e: int|
                    d <= e < self.devices@.len() ==> #[trigger] self.devices@[e]
                        == counted.devices[e],
            decreases self.devices@.len() - d,
        {
            let total: u64 = self.proc_slots.sum_non_hip_for_device(d);
            self.devices[d].effective_mem_limit = self.devices[d].mem_limit.saturating_sub(total);
            d = d + 1;
            assert(self@.processes =~= counted.processes);
        }
        assert(self@ =~= old(self)@.after_reconcile(proc_idx as int));
    }

    /// A process's overhead per device.
    fn overhead_of(&self, proc_idx: usize) -> (non_hip: Vec<u64>)
        requires
            proc_idx < self@.processes.len(),
        ensures
            non_hip@ == self@.processes[proc_idx as int].non_hip,
    {
        self.processes[proc_idx].non_hip.clone()
    }

    /// Attempts an allocation for a running process on a device.
    pub fn try_alloc(
        &mut self,
        proc_idx: usize,
        device_idx: usize,
        size: u64,
    ) -> (r: Result<usize, ()>)
        requires
            old(self)@.wf(),
            proc_idx < old(self)@.processes.len(),
            old(self)@.processes[proc_idx as int].alive,
            0 < size <= MAX_ALLOC_SIZE ==> device_idx < old(self)@.devices.len(),
        ensures
            final(self)@.wf(),
            r == (if old(self)@.grants(device_idx, size) {
                Ok(old(self)@.processes[proc_idx as int].next_pointer)
            } else {
                Err(())
            }),
            final(self)@ == old(self)@.after_alloc(proc_idx, device_idx, size),
    {
        let ghost process = old(self)@.processes[proc_idx as int];
        if size == 0 {
            let pointer: usize = self.processes[proc_idx].next_pointer;
            self.processes[proc_idx].next_pointer = pointer.wrapping_add(1);
            assert(self@ =~= old(self)@.with_process(proc_idx, process.pointer_taken()));
            return Ok(pointer);
        }
        if size > MAX_ALLOC_SIZE {
            return Err(());
        }
        let limit: u64 = self.devices[device_idx].active_limit();
        let previous: u64 = fetch_add(&mut self.devices[device_idx].pod_memory_used, size);
        if !within_limit(previous, size, limit) {
            fetch_sub(&mut self.devices[device_idx].pod_memory_used, size);
            assert(self@ =~= old(self)@.after_alloc(proc_idx, device_idx, size));
            return Err(());
        }
        let pointer: usize = self.processes[proc_idx].next_pointer;
        self.processes[proc_idx].next_pointer = pointer.wrapping_add(1);
        live_insert(&mut self.processes[proc_idx].alloc_tracker, pointer, (device_idx, size));
        if let Some(slot_idx) = self.processes[proc_idx].slot_idx {
            self.proc_slots.add_usage(slot_idx, device_idx, size);
        }
        let count: u64 = fetch_add(&mut self.processes[proc_idx].alloc_count, 1);
        assert(self@ =~= old(self)@.holding(proc_idx, device_idx, size));
        assert(self@.wf());
        if count % 100 == 0 {
            self.reconcile(proc_idx);
        }
        Ok(pointer)
    }

    /// Gives an allocation of a running process back. Returns whether the pointer
    /// was recorded.
    pub fn free(&mut self, proc_idx: usize, pointer: usize) -> (known: bool)
        requires
            old(self)@.wf(),
            proc_idx < old(self)@.processes.len(),
            old(self)@.processes[proc_idx as int].alive,
        ensures
            final(self)@.wf(),
            known == old(self)@.processes[proc_idx as int].live.dom().contains(pointer),
            final(self)@ == old(self)@.after_free(proc_idx, pointer),
    {
        let ghost process = old(self)@.processes[proc_idx as int];
        match live_remove(&mut self.processes[proc_idx].alloc_tracker, pointer) {
            None => {
                assert(self@.processes[proc_idx as int] =~= process);
                assert(self@ =~= old(self)@);
                false
            },
            Some(entry) => {
                assert(process.live.dom().contains(pointer));
                let (device_idx, size) = entry;
                saturating_fetch_sub(&mut self.devices[device_idx].pod_memory_used, size);
                if let Some(slot_idx) = self.processes[proc_idx].slot_idx {
                    self.proc_slots.sub_usage(slot_idx, device_idx, size);
                }
                assert(self@ =~= old(self)@.after_free(proc_idx, pointer));
                true
            },
        }
    }

    /// Ends a process cleanly: its allocations are taken from the counters of the
    /// devices, and its slot is zeroed and released. Returns the bytes given back.
    pub fn drain_process(&mut self, proc_idx: usize) -> (total: u64)
        requires
            old(self)@.wf(),
            proc_idx < old(self)@.processes.len(),
            bytes_on_first(
                old(self)@.processes[proc_idx as int].live,
                old(self)@.devices.len(),
            ) <= u64::MAX,
        ensures
            final(self)@.wf(),
            total == bytes_on_first(
                old(self)@.processes[proc_idx as int].live,
                old(self)@.devices.len(),
            ),
            final(self)@ == old(self)@.after_drain(proc_idx),
    {
        let ghost process = old(self)@.processes[proc_idx as int];
        self.processes[proc_idx].alive = false;
        let items = live_items(&self.processes[proc_idx].alloc_tracker);
        live_clear(&mut self.processes[proc_idx].alloc_tracker);
        let ghost emptied = self@;
        proof {
            assert(emptied.processes[proc_idx as int].live =~= Map::empty());
            assert(emptied =~= old(self)@.with_process(
                proc_idx,
                (ProcessState { alive: false, live: Map::empty(), ..process }),
            ));
        }
        let mut total: u64 = 0;
        let mut d: usize = 0;
        while d < self.devices.len()
            invariant
                d <= self.devices@.len(),
                proc_idx < old(self)@.processes.len(),
                process == old(self)@.processes[proc_idx as int],
                crate::tracker::lists(items@, process.live),
                bytes_on_first(process.live, old(self)@.devices.len()) <= u64::MAX,
                total == bytes_on_first(process.live, d as nat),
                emptied.devices == old(self)@.devices,
                self@.table == emptied.table,
                self@.processes == emptied.processes,
                self@.next_pid == emptied.next_pid,
                self.devices@.len() == old(self)@.devices.len(),
                forall|e: int|
                    0 <= e < d ==> #[trigger] self.devices@[e] == (DeviceState {
                        pod_memory_used: less(
                            old(self)@.devices[e].pod_memory_used,
                            device_bytes(process.live, e as usize),
                        ),
                        ..old(self)@.devices[e]
                    }),
                forall|e: int|
                    d <= e < self.devices@.len() ==> #[trigger] self.devices@[e] == old(
                        self,
                    )@.devices[e],
            decreases self.devices@.len() - d,
        {
            proof {
                lemma_bytes_on_first_grows(
                    process.live,
                    (d + 1) as nat,
                    old(self)@.devices.len(),
                );
                assert(bytes_on_first(process.live, (d + 1) as nat) == bytes_on_first(
                    process.live,
                    d as nat,
                ) + device_bytes(process.live, d));
                lemma_weighed_items(items@, process.live, on_device(d));
            }
            let amount: u64 = sum_device_items(&items, d);
            if amount > 0 {
                saturating_fetch_sub(&mut self.devices[d].pod_memory_used, amount);
                total = total + amount;
            }
            d = d + 1;
            assert(self@.processes =~= emptied.processes);
        }
        if let Some(slot_idx) = self.processes[proc_idx].slot_idx {
            self.proc_slots.zero_and_release(slot_idx);
        }
        proof {
            assert(self@.processes =~= emptied.processes);
            assert(self@ =~= old(self)@.after_drain(proc_idx));
        }
        total
    }
}

} // verus!
