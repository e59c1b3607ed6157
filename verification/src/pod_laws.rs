//! What a pod keeps through the comings and goings of its processes.
use crate::counter::MAX_ALLOC_SIZE;
use crate::proc_slots::{
    fresh_slot, non_hip_total, zeros, SlotState, TableState, MAX_DEVICES, MAX_PROC_SLOTS,
};
use crate::simulated_pod::{alive_pids, dead_usage, less, overhead, PodState, ProcessState};
use crate::tracker::{device_bytes, lemma_weighed_insert, lemma_weighed_remove, on_device};
use vstd::prelude::*;

verus! {

/// What the first `n` slots have counted on a device.
pub open spec fn slot_usage(slots: Seq<SlotState>, device_idx: int, n: nat) -> nat
    decreases n,
{
    if n == 0 {
        0
    } else {
        slot_usage(slots, device_idx, (n - 1) as nat) + slots[n - 1].used[device_idx] as nat
    }
}

/// What the running ones of the first `n` processes hold on a device without a slot
/// to count it in.
pub open spec fn loose_usage(processes: Seq<ProcessState>, device_idx: usize, n: nat) -> nat
    decreases n,
{
    if n == 0 {
        0
    } else {
        loose_usage(processes, device_idx, (n - 1) as nat) + loose(processes[n - 1], device_idx)
    }
}

/// What one running process holds on a device without a slot to count it in.
pub open spec fn loose(process: ProcessState, device_idx: usize) -> nat {
    if process.alive && process.slot is None {
        device_bytes(process.live, device_idx)
    } else {
        0
    }
}

impl PodState {
    /// A running process owns its slot, and the slot counts its allocations and records
    /// its overhead.
    pub open spec fn slot_in_order(self, p: int) -> bool {
        let process = self.processes[p];
        process.alive ==> (process.slot matches Some(i) ==> {
            &&& self.table.slots[i as int].pid == process.pid
            &&& forall|d: int|
                0 <= d < MAX_DEVICES ==> #[trigger] self.table.slots[i as int].used[d]
                    == device_bytes(process.live, d as usize)
            &&& forall|d: int|
                0 <= d < self.devices.len() ==> #[trigger] self.table.slots[i as int].non_hip[d]
                    == process.non_hip[d]
        })
    }

    /// Every id was given out once, a slot is held by the process that claimed it,
    /// and pointers still to be handed out are not in use.
    pub open spec fn ids_in_order(self) -> bool {
        &&& forall|p: int|
            0 <= p < self.processes.len() ==> 0 < (#[trigger] self.processes[p]).pid
                < self.next_pid
        &&& forall|p: int, q: int|
            0 <= p < q < self.processes.len() ==> (#[trigger] self.processes[p]).pid != (
            #[trigger] self.processes[q]).pid
        &&& forall|p: int, k: usize|
            0 <= p < self.processes.len() && #[trigger] self.processes[p].live.dom().contains(k)
                ==> k < self.processes[p].next_pointer
        &&& forall|i: int|
            0 <= i < MAX_PROC_SLOTS ==> (#[trigger] self.table.slots[i]).pid < self.next_pid
        &&& forall|i: int, p: int|
            0 <= i < MAX_PROC_SLOTS && 0 <= p < self.processes.len() && (
            #[trigger] self.table.slots[i]).pid == (#[trigger] self.processes[p]).pid
                ==> self.processes[p].slot == Some(i as usize)
    }

    /// The books of the pod are in order: every device's counter holds what the slots have
    /// counted and what running processes hold without a slot, the slot of every running
    /// process counts its allocations and records its overhead, and an empty slot counts
    /// nothing.
    pub open spec fn in_order(self) -> bool {
        &&& self.wf()
        &&& self.devices.len() <= MAX_DEVICES
        &&& self.ids_in_order()
        &&& forall|p: int| 0 <= p < self.processes.len() ==> #[trigger] self.slot_in_order(p)
        &&& forall|i: int|
            0 <= i < MAX_PROC_SLOTS && (#[trigger] self.table.slots[i]).pid == 0
                ==> self.table.slots[i].used == zeros()
        &&& forall|d: int|
            0 <= d < self.devices.len() ==> (#[trigger] self.devices[d]).pod_memory_used
                == slot_usage(self.table.slots, d, MAX_PROC_SLOTS as nat) + loose_usage(
                self.processes,
                d as usize,
                self.processes.len(),
            )
    }
}

/// Replacing one slot changes the sum by the difference.
proof fn lemma_slot_usage_update(
    slots: Seq<SlotState>,
    device_idx: int,
    n: nat,
    i: int,
    slot: SlotState,
)
    requires
        0 <= i < slots.len(),
        n <= slots.len(),
    ensures
        i < n ==> slot_usage(slots.update(i, slot), device_idx, n) + slots[i].used[device_idx]
            == slot_usage(slots, device_idx, n) + slot.used[device_idx],
        i >= n ==> slot_usage(slots.update(i, slot), device_idx, n) == slot_usage(
            slots,
            device_idx,
            n,
        ),
    decreases n,
{
    if n > 0 {
        lemma_slot_usage_update(slots, device_idx, (n - 1) as nat, i, slot);
    }
}

/// One slot counts no more than all.
proof fn lemma_slot_usage_part(slots: Seq<SlotState>, device_idx: int, n: nat, i: int)
    requires
        0 <= i < n <= slots.len(),
    ensures
        slots[i].used[device_idx] <= slot_usage(slots, device_idx, n),
    decreases n,
{
    if i < n - 1 {
        lemma_slot_usage_part(slots, device_idx, (n - 1) as nat, i);
    }
}

/// Replacing one process changes the sum by the difference.
proof fn lemma_loose_usage_update(
    processes: Seq<ProcessState>,
    device_idx: usize,
    n: nat,
    p: int,
    process: ProcessState,
)
    requires
        0 <= p < processes.len(),
        n <= processes.len(),
    ensures
        p < n ==> loose_usage(processes.update(p, process), device_idx, n) + loose(
            processes[p],
            device_idx,
        ) == loose_usage(processes, device_idx, n) + loose(process, device_idx),
        p >= n ==> loose_usage(processes.update(p, process), device_idx, n) == loose_usage(
            processes,
            device_idx,
            n,
        ),
    decreases n,
{
    if n > 0 {
        lemma_loose_usage_update(processes, device_idx, (n - 1) as nat, p, process);
    }
}

/// One process holds no more than all.
proof fn lemma_loose_usage_part(processes: Seq<ProcessState>, device_idx: usize, n: nat, p: int)
    requires
        0 <= p < n <= processes.len(),
    ensures
        loose(processes[p], device_idx) <= loose_usage(processes, device_idx, n),
    decreases n,
{
    if p < n - 1 {
        lemma_loose_usage_part(processes, device_idx, (n - 1) as nat, p);
    }
}

/// The sum over processes looks at the summed ones only.
proof fn lemma_loose_usage_prefix(
    a: Seq<ProcessState>,
    b: Seq<ProcessState>,
    device_idx: usize,
    n: nat,
)
    requires
        n <= a.len(),
        n <= b.len(),
        forall|p: int| 0 <= p < n ==> #[trigger] a[p] == b[p],
    ensures
        loose_usage(a, device_idx, n) == loose_usage(b, device_idx, n),
    decreases n,
{
    if n > 0 {
        lemma_loose_usage_prefix(a, b, device_idx, (n - 1) as nat);
        assert(a[n - 1] == b[n - 1]);
    }
}

/// The sum over slots looks at the counters only.
proof fn lemma_slot_usage_same(a: Seq<SlotState>, b: Seq<SlotState>, device_idx: int, n: nat)
    requires
        n <= a.len(),
        n <= b.len(),
        forall|i: int| 0 <= i < n ==> (#[trigger] a[i]).used == b[i].used,
    ensures
        slot_usage(a, device_idx, n) == slot_usage(b, device_idx, n),
    decreases n,
{
    if n > 0 {
        lemma_slot_usage_same(a, b, device_idx, (n - 1) as nat);
        assert(a[n - 1].used == b[n - 1].used);
    }
}

/// An allocation adds its bytes to its device and to no other.
proof fn lemma_device_bytes_insert(
    live: Map<usize, (usize, u64)>,
    k: usize,
    device_idx: usize,
    size: u64,
    d: usize,
)
    requires
        live.dom().finite(),
        !live.dom().contains(k),
    ensures
        device_bytes(live.insert(k, (device_idx, size)), d) == device_bytes(live, d) + (if d
            == device_idx {
            size as nat
        } else {
            0
        }),
{
    lemma_weighed_insert(live, on_device(d), k, (device_idx, size));
}

/// A free takes its bytes from its device and from no other.
proof fn lemma_device_bytes_remove(live: Map<usize, (usize, u64)>, k: usize, d: usize)
    requires
        live.dom().finite(),
        live.dom().contains(k),
    ensures
        device_bytes(live, d) == device_bytes(live.remove(k), d) + (if d == live[k].0 {
            live[k].1 as nat
        } else {
            0
        }),
{
    lemma_weighed_remove(live, on_device(d), k);
}

/// A pod without processes is in order.
pub proof fn law_new_pod_is_in_order(s: PodState)
    requires
        s.wf(),
        s.devices.len() <= MAX_DEVICES,
        s.processes.len() == 0,
        s.next_pid > 0,
        forall|i: int| 0 <= i < MAX_PROC_SLOTS ==> #[trigger] s.table.slots[i] == fresh_slot(0),
        forall|d: int| 0 <= d < s.devices.len() ==> (#[trigger] s.devices[d]).pod_memory_used == 0,
    ensures
        s.in_order(),
{
    assert forall|d: int| 0 <= d < s.devices.len() implies (
    #[trigger] s.devices[d]).pod_memory_used == slot_usage(
        s.table.slots,
        d,
        MAX_PROC_SLOTS as nat,
    ) + loose_usage(s.processes, d as usize, s.processes.len()) by {
        lemma_no_usage(s.table.slots, d, MAX_PROC_SLOTS as nat);
    }
}

/// Slots that have counted nothing sum to nothing.
proof fn lemma_no_usage(slots: Seq<SlotState>, device_idx: int, n: nat)
    requires
        n <= slots.len(),
        0 <= device_idx < MAX_DEVICES,
        forall|i: int| 0 <= i < n ==> (#[trigger] slots[i]).used == zeros(),
    ensures
        slot_usage(slots, device_idx, n) == 0,
    decreases n,
{
    if n > 0 {
        lemma_no_usage(slots, device_idx, (n - 1) as nat);
        assert(slots[n - 1].used == zeros());
    }
}

/// Starting a process keeps the pod in order.
pub proof fn law_spawn_keeps_order(s: PodState, non_hip: Seq<u64>, end: PodState)
    requires
        s.in_order(),
        end.wf(),
        s.is_spawn(non_hip, end),
    ensures
        end.in_order(),
{
    let n = s.processes.len();
    assert(end.processes[n as int] == end.processes.last());
    assert forall|d: int| 0 <= d < end.devices.len() implies (
    #[trigger] end.devices[d]).pod_memory_used == slot_usage(
        end.table.slots,
        d,
        MAX_PROC_SLOTS as nat,
    ) + loose_usage(end.processes, d as usize, end.processes.len()) by {
        lemma_loose_usage_prefix(s.processes, end.processes, d as usize, n);
        assert(device_bytes(Map::empty(), d as usize) == 0);
        if let Some(i) = end.processes.last().slot {
            lemma_slot_usage_update(
                s.table.slots,
                d,
                MAX_PROC_SLOTS as nat,
                i as int,
                end.table.slots[i as int],
            );
            assert(s.table.slots[i as int].used == zeros());
        }
    }
    assert forall|p: int| 0 <= p < end.processes.len() implies #[trigger] end.slot_in_order(p) by {
        if p < n {
            assert(end.processes[p] == s.processes[p]);
            assert(s.slot_in_order(p));
        } else {
            if let Some(i) = end.processes[p].slot {
                assert forall|d: int| 0 <= d < MAX_DEVICES implies #[trigger]
                    end.table.slots[i as int].used[d] == device_bytes(
                    end.processes[p].live,
                    d as usize,
                ) by {
                    assert(device_bytes(Map::empty(), d as usize) == 0);
                }
            }
        }
    }
    assert forall|p: int, q: int| 0 <= p < q < end.processes.len() implies (
    #[trigger] end.processes[p]).pid != (#[trigger] end.processes[q]).pid by {
        assert(end.processes[p] == s.processes[p]);
        if q < n {
            assert(end.processes[q] == s.processes[q]);
        }
    }
    assert forall|p: int, k: usize|
        0 <= p < end.processes.len()
            && #[trigger] end.processes[p].live.dom().contains(k) implies k
        < end.processes[p].next_pointer by {
        if p < n {
            assert(s.processes[p].live.dom().contains(k));
        }
    }
    assert forall|p: int| 0 <= p < end.processes.len() implies 0 < (
    #[trigger] end.processes[p]).pid < end.next_pid by {
        if p < n {
            assert(end.processes[p] == s.processes[p]);
        }
    }
    assert forall|i: int| 0 <= i < MAX_PROC_SLOTS implies (#[trigger] end.table.slots[i]).pid
        < end.next_pid by {
        assert(s.table.slots[i].pid < s.next_pid);
    }
    assert forall|i: int|
        0 <= i < MAX_PROC_SLOTS && (#[trigger] end.table.slots[i]).pid
            == 0 implies end.table.slots[i].used == zeros() by {
        assert(end.table.slots[i] == s.table.slots[i]);
    }
}

/// Counting a request keeps the pod in order, as long as the device's counter does not
/// wrap around and pointers are left.
proof fn lemma_holding_keeps_order(s: PodState, proc_idx: usize, device_idx: usize, size: u64)
    requires
        s.in_order(),
        proc_idx < s.processes.len(),
        s.processes[proc_idx as int].alive,
        device_idx < s.devices.len(),
        s.devices[device_idx as int].pod_memory_used + size <= u64::MAX,
        s.processes[proc_idx as int].next_pointer < usize::MAX,
    ensures
        s.holding(proc_idx, device_idx, size).in_order(),
{
    let end = s.holding(proc_idx, device_idx, size);
    let process = s.processes[proc_idx as int];
    let after = process.holding(device_idx, size);
    let k = process.next_pointer;
    assert(!process.live.dom().contains(k));
    assert(end.processes[proc_idx as int] == after);
    assert forall|d: int| 0 <= d < end.devices.len() implies (
    #[trigger] end.devices[d]).pod_memory_used == slot_usage(
        end.table.slots,
        d,
        MAX_PROC_SLOTS as nat,
    ) + loose_usage(end.processes, d as usize, end.processes.len()) by {
        lemma_loose_usage_update(
            s.processes,
            d as usize,
            s.processes.len(),
            proc_idx as int,
            after,
        );
        lemma_device_bytes_insert(process.live, k, device_idx, size, d as usize);
        assert(s.devices[d].pod_memory_used == slot_usage(
            s.table.slots,
            d,
            MAX_PROC_SLOTS as nat,
        ) + loose_usage(s.processes, d as usize, s.processes.len()));
        if let Some(i) = process.slot {
            lemma_slot_usage_update(
                s.table.slots,
                d,
                MAX_PROC_SLOTS as nat,
                i as int,
                end.table.slots[i as int],
            );
            lemma_slot_usage_part(s.table.slots, d, MAX_PROC_SLOTS as nat, i as int);
        }
    }
    assert forall|p: int| 0 <= p < end.processes.len() implies #[trigger] end.slot_in_order(p) by {
        assert(s.slot_in_order(p));
        if p != proc_idx {
            assert(end.processes[p] == s.processes[p]);
            assert(s.processes[p].pid != process.pid);
            assert(s.slot_in_order(proc_idx as int));
        } else if let Some(i) = process.slot {
            assert(s.devices[device_idx as int].pod_memory_used == slot_usage(
                s.table.slots,
                device_idx as int,
                MAX_PROC_SLOTS as nat,
            ) + loose_usage(s.processes, device_idx, s.processes.len()));
            lemma_slot_usage_part(
                s.table.slots,
                device_idx as int,
                MAX_PROC_SLOTS as nat,
                i as int,
            );
            assert forall|d: int| 0 <= d < MAX_DEVICES implies #[trigger]
                end.table.slots[i as int].used[d] == device_bytes(after.live, d as usize) by {
                lemma_device_bytes_insert(process.live, k, device_idx, size, d as usize);
                assert(s.table.slots[i as int].used[d] == device_bytes(process.live, d as usize));
            }
        }
    }
    assert forall|p: int, q: usize|
        0 <= p < end.processes.len()
            && #[trigger] end.processes[p].live.dom().contains(q) implies q
        < end.processes[p].next_pointer by {
        if p != proc_idx || q != k {
            assert(s.processes[p].live.dom().contains(q));
        }
    }
    lemma_processes_step(s, end, proc_idx);
    assert forall|i: int| 0 <= i < MAX_PROC_SLOTS implies (#[trigger] end.table.slots[i]).pid
        < end.next_pid && (end.table.slots[i].pid == 0 ==> end.table.slots[i].used == zeros())
        && end.table.slots[i].used.len() == MAX_DEVICES && end.table.slots[i].non_hip.len()
        == MAX_DEVICES by {
        assert(s.table.slots[i].pid < s.next_pid);
        assert(s.slot_in_order(proc_idx as int));
    }
}

/// What holds of the ids after one process changed other things than its id.
proof fn lemma_processes_step(s: PodState, end: PodState, proc_idx: usize)
    requires
        s.ids_in_order(),
        proc_idx < s.processes.len(),
        end.processes.len() == s.processes.len(),
        end.next_pid == s.next_pid,
        forall|p: int|
            0 <= p < s.processes.len() && p != proc_idx ==> #[trigger] end.processes[p]
                == s.processes[p],
        end.processes[proc_idx as int].pid == s.processes[proc_idx as int].pid,
    ensures
        forall|p: int|
            0 <= p < end.processes.len() ==> 0 < (#[trigger] end.processes[p]).pid < end.next_pid,
        forall|p: int, q: int|
            0 <= p < q < end.processes.len() ==> (#[trigger] end.processes[p]).pid != (
            #[trigger] end.processes[q]).pid,
{
    assert forall|p: int| 0 <= p < end.processes.len() implies 0 < (
    #[trigger] end.processes[p]).pid < end.next_pid by {
        assert(end.processes[p].pid == s.processes[p].pid);
    }
    assert forall|p: int, q: int| 0 <= p < q < end.processes.len() implies (
    #[trigger] end.processes[p]).pid != (#[trigger] end.processes[q]).pid by {
        assert(end.processes[p].pid == s.processes[p].pid);
        assert(end.processes[q].pid == s.processes[q].pid);
    }
}

/// Giving a pointer back keeps the pod in order.
pub proof fn law_free_keeps_order(s: PodState, proc_idx: usize, pointer: usize)
    requires
        s.in_order(),
        proc_idx < s.processes.len(),
        s.processes[proc_idx as int].alive,
    ensures
        s.after_free(proc_idx, pointer).in_order(),
{
    let end = s.after_free(proc_idx, pointer);
    let process = s.processes[proc_idx as int];
    if process.live.dom().contains(pointer) {
        let (device_idx, size) = process.live[pointer];
        let after = ProcessState { live: process.live.remove(pointer), ..process };
        assert(end.processes[proc_idx as int] == after);
        assert forall|d: int| 0 <= d < end.devices.len() implies (
        #[trigger] end.devices[d]).pod_memory_used == slot_usage(
            end.table.slots,
            d,
            MAX_PROC_SLOTS as nat,
        ) + loose_usage(end.processes, d as usize, end.processes.len()) by {
            lemma_loose_usage_update(
                s.processes,
                d as usize,
                s.processes.len(),
                proc_idx as int,
                after,
            );
            lemma_loose_usage_part(
                s.processes,
                d as usize,
                s.processes.len(),
                proc_idx as int,
            );
            lemma_device_bytes_remove(process.live, pointer, d as usize);
            assert(s.devices[d].pod_memory_used == slot_usage(
                s.table.slots,
                d,
                MAX_PROC_SLOTS as nat,
            ) + loose_usage(s.processes, d as usize, s.processes.len()));
            if let Some(i) = process.slot {
                lemma_slot_usage_update(
                    s.table.slots,
                    d,
                    MAX_PROC_SLOTS as nat,
                    i as int,
                    end.table.slots[i as int],
                );
                lemma_slot_usage_part(s.table.slots, d, MAX_PROC_SLOTS as nat, i as int);
                assert(s.slot_in_order(proc_idx as int));
                assert(s.table.slots[i as int].used[d] == device_bytes(process.live, d as usize));
            }
        }
        assert forall|p: int| 0 <= p < end.processes.len() implies #[trigger] end.slot_in_order(
            p,
        ) by {
            assert(s.slot_in_order(p));
            if p != proc_idx {
                assert(end.processes[p] == s.processes[p]);
                assert(s.processes[p].pid != process.pid);
                assert(s.slot_in_order(proc_idx as int));
            } else if let Some(i) = process.slot {
                assert forall|d: int| 0 <= d < MAX_DEVICES implies #[trigger]
                    end.table.slots[i as int].used[d] == device_bytes(after.live, d as usize) by {
                    lemma_device_bytes_remove(process.live, pointer, d as usize);
                    assert(s.table.slots[i as int].used[d] == device_bytes(
                        process.live,
                        d as usize,
                    ));
                }
            }
        }
        assert forall|p: int, q: usize|
            0 <= p < end.processes.len()
                && #[trigger] end.processes[p].live.dom().contains(q) implies q
            < end.processes[p].next_pointer by {
            assert(s.processes[p].live.dom().contains(q));
        }
        lemma_processes_step(s, end, proc_idx);
        assert forall|i: int| 0 <= i < MAX_PROC_SLOTS implies (#[trigger] end.table.slots[i]).pid
            < end.next_pid && (end.table.slots[i].pid == 0 ==> end.table.slots[i].used == zeros())
            && end.table.slots[i].used.len() == MAX_DEVICES && end.table.slots[i].non_hip.len()
            == MAX_DEVICES by {
            assert(s.table.slots[i].pid < s.next_pid);
            assert(s.slot_in_order(proc_idx as int));
        }
        assert forall|p: int| 0 <= p < end.processes.len() implies {
            let process = #[trigger] end.processes[p];
            &&& process.non_hip.len() == end.devices.len()
            &&& process.slot matches Some(i) ==> i < MAX_PROC_SLOTS
            &&& process.live.dom().finite()
            &&& forall|k: usize| #[trigger]
                process.live.dom().contains(k) ==> process.live[k].0 < end.devices.len()
        } by {
            let before = s.processes[p];
            assert forall|k: usize| #[trigger]
                end.processes[p].live.dom().contains(k) implies end.processes[p].live[k].0
                < end.devices.len() by {
                assert(before.live.dom().contains(k));
            }
        }
    }
}

/// Killing a process keeps the pod in order, unless it holds allocations without a
/// slot to count them in.
pub proof fn law_kill_keeps_order(s: PodState, proc_idx: usize)
    requires
        s.in_order(),
        proc_idx < s.processes.len(),
        s.processes[proc_idx as int].slot is Some || s.processes[proc_idx as int].live.dom().len()
            == 0,
    ensures
        s.with_process(
            proc_idx,
            (ProcessState { alive: false, ..s.processes[proc_idx as int] }),
        ).in_order(),
{
    let process = s.processes[proc_idx as int];
    let after = ProcessState { alive: false, ..process };
    let end = s.with_process(proc_idx, after);
    assert forall|d: int| 0 <= d < end.devices.len() implies (
    #[trigger] end.devices[d]).pod_memory_used == slot_usage(
        end.table.slots,
        d,
        MAX_PROC_SLOTS as nat,
    ) + loose_usage(end.processes, d as usize, end.processes.len()) by {
        lemma_loose_usage_update(
            s.processes,
            d as usize,
            s.processes.len(),
            proc_idx as int,
            after,
        );
    }
    assert forall|p: int| 0 <= p < end.processes.len() implies #[trigger] end.slot_in_order(p) by {
        assert(s.slot_in_order(p));
    }
    assert forall|p: int, q: usize|
        0 <= p < end.processes.len()
            && #[trigger] end.processes[p].live.dom().contains(q) implies q
        < end.processes[p].next_pointer by {
        assert(s.processes[p].live.dom().contains(q));
    }
    lemma_processes_step(s, end, proc_idx);
}

/// The id of a running process is among the ids of the running.
proof fn lemma_alive_pids_contain(processes: Seq<ProcessState>, n: nat, p: int)
    requires
        0 <= p < n <= processes.len(),
        processes[p].alive,
    ensures
        alive_pids(processes, n).contains(processes[p].pid),
    decreases n,
{
    if p == n - 1 {
        assert(alive_pids(processes, n).last() == processes[p].pid);
    } else {
        lemma_alive_pids_contain(processes, (n - 1) as nat, p);
        let rest = alive_pids(processes, (n - 1) as nat);
        let k = choose|k: int| 0 <= k < rest.len() && rest[k] == processes[p].pid;
        assert(alive_pids(processes, n)[k] == processes[p].pid);
    }
}

/// An id among the ids of the running is that of a running process.
proof fn lemma_alive_pids_only(processes: Seq<ProcessState>, n: nat, pid: u32) -> (p: int)
    requires
        n <= processes.len(),
        alive_pids(processes, n).contains(pid),
    ensures
        0 <= p < n,
        processes[p].alive,
        processes[p].pid == pid,
    decreases n,
{
    let all = alive_pids(processes, n);
    let k = choose|k: int| 0 <= k < all.len() && all[k] == pid;
    let rest = alive_pids(processes, (n - 1) as nat);
    if processes[n - 1].alive && k == rest.len() {
        n - 1
    } else {
        assert(rest[k] == pid);
        lemma_alive_pids_only(processes, (n - 1) as nat, pid)
    }
}

/// Reaping takes exactly what the dead had counted.
proof fn lemma_reap_usage(t: TableState, alive: Seq<u32>, device_idx: int, n: nat)
    requires
        n <= t.slots.len(),
        0 <= device_idx < MAX_DEVICES,
    ensures
        slot_usage(t.after_reap(alive).slots, device_idx, n) + dead_usage(t, alive, device_idx, n)
            == slot_usage(t.slots, device_idx, n),
    decreases n,
{
    if n > 0 {
        lemma_reap_usage(t, alive, device_idx, (n - 1) as nat);
    }
}

/// Reconciling keeps the pod in order, and afterwards every occupied slot belongs
/// to a running process.
pub proof fn law_reconcile_keeps_order(s: PodState, proc_idx: int)
    requires
        s.in_order(),
        0 <= proc_idx < s.processes.len(),
        s.processes[proc_idx].alive,
    ensures
        s.after_reconcile(proc_idx).in_order(),
        s.after_reconcile(proc_idx).only_the_living(),
{
    let end = s.after_reconcile(proc_idx);
    let alive = s.alive();
    let reaped = s.table.after_reap(alive);
    lemma_alive_pids_contain(s.processes, s.processes.len(), proc_idx);
    assert(s.slot_in_order(proc_idx));
    assert forall|i: int| 0 <= i < MAX_PROC_SLOTS implies (
    #[trigger] end.table.slots[i]).used == reaped.slots[i].used && end.table.slots[i].pid
        == reaped.slots[i].pid && end.table.slots[i].non_hip.len() == MAX_DEVICES by {
        assert(s.table.slots[i].used.len() == MAX_DEVICES);
    }
    assert forall|d: int| 0 <= d < end.devices.len() implies (
    #[trigger] end.devices[d]).pod_memory_used == slot_usage(
        end.table.slots,
        d,
        MAX_PROC_SLOTS as nat,
    ) + loose_usage(end.processes, d as usize, end.processes.len()) by {
        lemma_reap_usage(s.table, alive, d, MAX_PROC_SLOTS as nat);
        lemma_slot_usage_same(end.table.slots, reaped.slots, d, MAX_PROC_SLOTS as nat);
        assert(s.devices[d].pod_memory_used == slot_usage(
            s.table.slots,
            d,
            MAX_PROC_SLOTS as nat,
        ) + loose_usage(s.processes, d as usize, s.processes.len()));
    }
    assert forall|p: int| 0 <= p < end.processes.len() implies #[trigger] end.slot_in_order(p) by {
        assert(s.slot_in_order(p));
        if s.processes[p].alive && s.processes[p].slot is Some {
            let i = s.processes[p].slot->0;
            lemma_alive_pids_contain(s.processes, s.processes.len(), p);
            assert(!s.table.dead(i as int, alive));
            assert forall|d: int| 0 <= d < MAX_DEVICES implies #[trigger]
                end.table.slots[i as int].used[d] == device_bytes(
                end.processes[p].live,
                d as usize,
            ) by {
                assert(end.table.slots[i as int].used == s.table.slots[i as int].used);
                assert(s.table.slots[i as int].used[d] == device_bytes(
                    s.processes[p].live,
                    d as usize,
                ));
            }
        }
    }
    assert forall|i: int| 0 <= i < MAX_PROC_SLOTS implies (#[trigger] end.table.slots[i]).pid
        < end.next_pid && (end.table.slots[i].pid == 0 ==> end.table.slots[i].used == zeros())
        && end.table.slots[i].used.len() == MAX_DEVICES by {
        assert(s.table.slots[i].pid < s.next_pid);
    }
    assert forall|i: int, p: int|
        0 <= i < MAX_PROC_SLOTS && 0 <= p < end.processes.len() && (
        #[trigger] end.table.slots[i]).pid == (
        #[trigger] end.processes[p]).pid implies end.processes[p].slot == Some(i as usize) by {
        assert(s.processes[p].pid > 0);
        assert(s.table.slots[i].pid == s.processes[p].pid);
    }
    assert forall|i: int|
        0 <= i < MAX_PROC_SLOTS && (#[trigger] end.table.slots[i]).pid
            != 0 implies end.alive().contains(end.table.slots[i].pid) by {
        assert(!s.table.dead(i, alive));
    }
    assert forall|p: int, q: usize|
        0 <= p < end.processes.len()
            && #[trigger] end.processes[p].live.dom().contains(q) implies q
        < end.processes[p].next_pointer by {
        assert(s.processes[p].live.dom().contains(q));
    }
}

impl PodState {
    /// Every occupied slot belongs to a running process.
    pub open spec fn only_the_living(self) -> bool {
        forall|i: int|
            0 <= i < MAX_PROC_SLOTS && (#[trigger] self.table.slots[i]).pid != 0
                ==> self.alive().contains(self.table.slots[i].pid)
    }

    /// The pod after the running ones of its first `n` processes ended cleanly, one
    /// after the other.
    pub open spec fn after_drain_all(self, n: nat) -> PodState
        decreases n,
    {
        if n == 0 {
            self
        } else {
            let before = self.after_drain_all((n - 1) as nat);
            if before.processes[n - 1].alive {
                before.after_drain((n - 1) as usize)
            } else {
                before
            }
        }
    }
}

/// A request keeps the pod in order, as long as pointers are left.
pub proof fn law_alloc_keeps_order(s: PodState, proc_idx: usize, device_idx: usize, size: u64)
    requires
        s.in_order(),
        proc_idx < s.processes.len(),
        s.processes[proc_idx as int].alive,
        s.processes[proc_idx as int].next_pointer < usize::MAX,
        0 < size <= MAX_ALLOC_SIZE ==> device_idx < s.devices.len(),
    ensures
        s.after_alloc(proc_idx, device_idx, size).in_order(),
{
    let process = s.processes[proc_idx as int];
    if size == 0 {
        let end = s.after_alloc(proc_idx, device_idx, size);
        lemma_processes_step(s, end, proc_idx);
        assert forall|d: int| 0 <= d < end.devices.len() implies (
        #[trigger] end.devices[d]).pod_memory_used == slot_usage(
            end.table.slots,
            d,
            MAX_PROC_SLOTS as nat,
        ) + loose_usage(end.processes, d as usize, end.processes.len()) by {
            lemma_loose_usage_update(
                s.processes,
                d as usize,
                s.processes.len(),
                proc_idx as int,
                process.pointer_taken(),
            );
        }
        assert forall|p: int| 0 <= p < end.processes.len() implies #[trigger] end.slot_in_order(
            p,
        ) by {
            assert(s.slot_in_order(p));
        }
        assert forall|p: int, q: usize|
            0 <= p < end.processes.len()
                && #[trigger] end.processes[p].live.dom().contains(q) implies q
            < end.processes[p].next_pointer by {
            assert(s.processes[p].live.dom().contains(q));
        }
    } else if size <= MAX_ALLOC_SIZE {
        if s.grants(device_idx, size) {
            lemma_holding_keeps_order(s, proc_idx, device_idx, size);
            let held = s.holding(proc_idx, device_idx, size);
            if process.alloc_count % 100 == 0 {
                law_reconcile_keeps_order(held, proc_idx as int);
            }
        }
    }
}

/// A granted request leaves the device within the limit that was in force; what
/// reconciling does afterwards only lowers it.
pub proof fn law_granted_stays_within_limit(
    s: PodState,
    proc_idx: usize,
    device_idx: usize,
    size: u64,
)
    requires
        proc_idx < s.processes.len(),
        device_idx < s.devices.len(),
        size > 0,
        s.grants(device_idx, size),
    ensures
        s.after_alloc(proc_idx, device_idx, size).devices[device_idx as int].pod_memory_used
            <= s.devices[device_idx as int].limit(),
{
}

/// Reconciling never sets a limit above the configured one, and never raises a
/// counter.
pub proof fn law_reconcile_only_tightens(s: PodState, proc_idx: int, d: int)
    requires
        0 <= d < s.devices.len(),
    ensures
        s.after_reconcile(proc_idx).devices[d].effective_mem_limit <= s.devices[d].mem_limit,
        s.after_reconcile(proc_idx).devices[d].mem_limit == s.devices[d].mem_limit,
        s.after_reconcile(proc_idx).devices[d].pod_memory_used <= s.devices[d].pod_memory_used,
{
}

/// A clean end keeps the pod in order, and leaves no dead process in the table
/// where there was none.
pub proof fn law_drain_keeps_order(s: PodState, proc_idx: usize)
    requires
        s.in_order(),
        proc_idx < s.processes.len(),
        s.processes[proc_idx as int].alive,
    ensures
        s.after_drain(proc_idx).in_order(),
        s.only_the_living() ==> s.after_drain(proc_idx).only_the_living(),
{
    let end = s.after_drain(proc_idx);
    let process = s.processes[proc_idx as int];
    let after = ProcessState { alive: false, live: Map::empty(), ..process };
    assert(end.processes[proc_idx as int] == after);
    assert(s.slot_in_order(proc_idx as int));
    lemma_processes_step(s, end, proc_idx);
    assert forall|d: int| 0 <= d < end.devices.len() implies (
    #[trigger] end.devices[d]).pod_memory_used == slot_usage(
        end.table.slots,
        d,
        MAX_PROC_SLOTS as nat,
    ) + loose_usage(end.processes, d as usize, end.processes.len()) by {
        lemma_loose_usage_update(
            s.processes,
            d as usize,
            s.processes.len(),
            proc_idx as int,
            after,
        );
        lemma_loose_usage_part(s.processes, d as usize, s.processes.len(), proc_idx as int);
        assert(s.devices[d].pod_memory_used == slot_usage(
            s.table.slots,
            d,
            MAX_PROC_SLOTS as nat,
        ) + loose_usage(s.processes, d as usize, s.processes.len()));
        if let Some(i) = process.slot {
            lemma_slot_usage_update(
                s.table.slots,
                d,
                MAX_PROC_SLOTS as nat,
                i as int,
                fresh_slot(0),
            );
            lemma_slot_usage_part(s.table.slots, d, MAX_PROC_SLOTS as nat, i as int);
            assert(s.table.slots[i as int].used[d] == device_bytes(process.live, d as usize));
        }
    }
    assert forall|p: int| 0 <= p < end.processes.len() implies #[trigger] end.slot_in_order(p) by {
        assert(s.slot_in_order(p));
        if p != proc_idx {
            assert(end.processes[p] == s.processes[p]);
            assert(s.processes[p].pid != process.pid);
        }
    }
    assert forall|i: int| 0 <= i < MAX_PROC_SLOTS implies (#[trigger] end.table.slots[i]).pid
        < end.next_pid && (end.table.slots[i].pid == 0 ==> end.table.slots[i].used == zeros())
        && end.table.slots[i].used.len() == MAX_DEVICES && end.table.slots[i].non_hip.len()
        == MAX_DEVICES by {
        assert(s.table.slots[i].pid < s.next_pid);
    }
    assert forall|i: int, p: int|
        0 <= i < MAX_PROC_SLOTS && 0 <= p < end.processes.len() && (
        #[trigger] end.table.slots[i]).pid == (
        #[trigger] end.processes[p]).pid implies end.processes[p].slot == Some(i as usize) by {
        assert(s.processes[p].pid > 0);
        assert(s.table.slots[i].pid == s.processes[p].pid);
    }
    assert forall|p: int, q: usize|
        0 <= p < end.processes.len()
            && #[trigger] end.processes[p].live.dom().contains(q) implies q
        < end.processes[p].next_pointer by {
        if p != proc_idx {
            assert(s.processes[p].live.dom().contains(q));
        }
    }
    if s.only_the_living() {
        assert forall|i: int|
            0 <= i < MAX_PROC_SLOTS && (#[trigger] end.table.slots[i]).pid
                != 0 implies end.alive().contains(end.table.slots[i].pid) by {
            assert(end.table.slots[i].pid == s.table.slots[i].pid);
            let p = lemma_alive_pids_only(
                s.processes,
                s.processes.len(),
                s.table.slots[i].pid,
            );
            assert(s.processes[p].slot == Some(i as usize));
            assert(p != proc_idx);
            assert(end.processes[p] == s.processes[p]);
            lemma_alive_pids_contain(end.processes, end.processes.len(), p);
        }
    }
}

/// Draining the running ones of the first `n` processes keeps the pod in order and
/// leaves none of them running.
proof fn lemma_drain_all(s: PodState, n: nat)
    requires
        s.in_order(),
        s.only_the_living(),
        n <= s.processes.len(),
    ensures
        s.after_drain_all(n).in_order(),
        s.after_drain_all(n).only_the_living(),
        s.after_drain_all(n).processes.len() == s.processes.len(),
        s.after_drain_all(n).devices.len() == s.devices.len(),
        forall|p: int| 0 <= p < n ==> !(#[trigger] s.after_drain_all(n).processes[p]).alive,
    decreases n,
{
    if n > 0 {
        lemma_drain_all(s, (n - 1) as nat);
        let before = s.after_drain_all((n - 1) as nat);
        assert(n - 1 <= usize::MAX) by {
            assert(before.processes[n - 1].pid > 0);
            lemma_few_processes(before);
        }
        if before.processes[n - 1].alive {
            law_drain_keeps_order(before, (n - 1) as usize);
        }
    }
}

/// There are no more processes than ids.
proof fn lemma_few_processes(s: PodState)
    requires
        s.ids_in_order(),
    ensures
        s.processes.len() <= u32::MAX,
{
    let pids = Seq::new(s.processes.len(), |p: int| s.processes[p].pid as int);
    assert(pids.no_duplicates()) by {
        assert forall|i: int, j: int| 0 <= i < pids.len() && 0 <= j < pids.len() && i
            != j implies pids[i] != pids[j] by {
            if i < j {
                assert(s.processes[i].pid != s.processes[j].pid);
            } else {
                assert(s.processes[j].pid != s.processes[i].pid);
            }
        }
    }
    pids.unique_seq_to_set();
    let all = vstd::set_lib::set_int_range(0, u32::MAX as int);
    vstd::set_lib::lemma_int_range(0, u32::MAX as int);
    assert(pids.to_set().subset_of(all)) by {
        assert forall|x: int| pids.to_set().contains(x) implies all.contains(x) by {
            let p = choose|p: int| 0 <= p < pids.len() && pids[p] == x;
            assert(s.processes[p].pid < s.next_pid);
        }
    }
    vstd::set_lib::lemma_len_subset(pids.to_set(), all);
}

/// Once the dead were reaped and every running process has ended cleanly, no device
/// has anything in use.
pub proof fn law_nothing_left_behind(s: PodState, proc_idx: int, d: int)
    requires
        s.in_order(),
        0 <= proc_idx < s.processes.len(),
        s.processes[proc_idx].alive,
        0 <= d < s.devices.len(),
    ensures
        s.after_reconcile(proc_idx).after_drain_all(
            s.processes.len(),
        ).devices[d].pod_memory_used == 0,
{
    law_reconcile_keeps_order(s, proc_idx);
    let n = s.processes.len();
    let clean = s.after_reconcile(proc_idx);
    lemma_drain_all(clean, n);
    let end = clean.after_drain_all(n);
    assert forall|i: int| 0 <= i < MAX_PROC_SLOTS implies (
    #[trigger] end.table.slots[i]).used == zeros() by {
        if end.table.slots[i].pid != 0 {
            let p = lemma_alive_pids_only(
                end.processes,
                end.processes.len(),
                end.table.slots[i].pid,
            );
            assert(!end.processes[p].alive);
        }
    }
    lemma_no_usage(end.table.slots, d, MAX_PROC_SLOTS as nat);
    lemma_nobody_loose(end.processes, d as usize, end.processes.len());
    assert(end.devices[d].pod_memory_used == slot_usage(
        end.table.slots,
        d,
        MAX_PROC_SLOTS as nat,
    ) + loose_usage(end.processes, d as usize, end.processes.len()));
}

/// Without running processes nothing is held outside of the slots.
proof fn lemma_nobody_loose(processes: Seq<ProcessState>, device_idx: usize, n: nat)
    requires
        n <= processes.len(),
        forall|p: int| 0 <= p < n ==> !(#[trigger] processes[p]).alive,
    ensures
        loose_usage(processes, device_idx, n) == 0,
    decreases n,
{
    if n > 0 {
        lemma_nobody_loose(processes, device_idx, (n - 1) as nat);
        assert(!processes[n - 1].alive);
    }
}

/// A request on one device leaves every other device alone, unless it is one that
/// reconciles.
pub proof fn law_request_leaves_other_devices(
    s: PodState,
    proc_idx: usize,
    device_idx: usize,
    size: u64,
    other: int,
)
    requires
        proc_idx < s.processes.len(),
        device_idx < s.devices.len(),
        0 <= other < s.devices.len(),
        other != device_idx,
        s.processes[proc_idx as int].alloc_count % 100 != 0,
    ensures
        s.after_alloc(proc_idx, device_idx, size).devices[other] == s.devices[other],
{
}

/// The overhead on a device, and with it the limit, depends on what was recorded for that
/// device alone.
pub proof fn law_overhead_is_per_device(a: TableState, b: TableState, device_idx: int)
    requires
        a.slots.len() == MAX_PROC_SLOTS,
        b.slots.len() == MAX_PROC_SLOTS,
        forall|i: int|
            0 <= i < MAX_PROC_SLOTS ==> (#[trigger] a.slots[i]).pid == b.slots[i].pid
                && a.slots[i].non_hip[device_idx] == b.slots[i].non_hip[device_idx],
    ensures
        overhead(a, device_idx) == overhead(b, device_idx),
{
    lemma_non_hip_same(a.slots, b.slots, device_idx, MAX_PROC_SLOTS as nat);
}

/// Slots that record the same on a device sum to the same.
proof fn lemma_non_hip_same(a: Seq<SlotState>, b: Seq<SlotState>, device_idx: int, n: nat)
    requires
        n <= a.len(),
        n <= b.len(),
        forall|i: int|
            0 <= i < n ==> (#[trigger] a[i]).pid == b[i].pid && a[i].non_hip[device_idx]
                == b[i].non_hip[device_idx],
    ensures
        non_hip_total(a, device_idx, n) == non_hip_total(b, device_idx, n),
    decreases n,
{
    if n > 0 {
        lemma_non_hip_same(a, b, device_idx, (n - 1) as nat);
        assert(a[n - 1].pid == b[n - 1].pid);
    }
}

/// What the running ones of the first `n` processes that hold a slot take on a device
/// outside of allocation calls.
pub open spec fn living_overhead(processes: Seq<ProcessState>, device_idx: int, n: nat) -> nat
    decreases n,
{
    if n == 0 {
        0
    } else {
        living_overhead(processes, device_idx, (n - 1) as nat) + (if processes[n - 1].alive
            && processes[n - 1].slot is Some {
            processes[n - 1].non_hip[device_idx] as nat
        } else {
            0
        })
    }
}

/// What those of the first `n` slots record on a device whose owners are among `pids`.
spec fn owned_overhead(slots: Seq<SlotState>, pids: Seq<u32>, device_idx: int, n: nat) -> nat
    decreases n,
{
    if n == 0 {
        0
    } else {
        owned_overhead(slots, pids, device_idx, (n - 1) as nat) + (if slots[n - 1].pid != 0
            && pids.contains(slots[n - 1].pid) {
            slots[n - 1].non_hip[device_idx] as nat
        } else {
            0
        })
    }
}

/// One more owner adds what its slot records.
proof fn lemma_one_more_owner(
    slots: Seq<SlotState>,
    pids: Seq<u32>,
    pid: u32,
    slot: Option<usize>,
    device_idx: int,
    n: nat,
)
    requires
        n <= slots.len(),
        pid != 0,
        !pids.contains(pid),
        forall|j: int|
            0 <= j < slots.len() && (#[trigger] slots[j]).pid == pid ==> slot == Some(j as usize),
        slot matches Some(i) ==> i < slots.len() && slots[i as int].pid == pid,
        slots.len() <= usize::MAX,
    ensures
        owned_overhead(slots, pids.push(pid), device_idx, n) == owned_overhead(
            slots,
            pids,
            device_idx,
            n,
        ) + (match slot {
            Some(i) => if i < n {
                slots[i as int].non_hip[device_idx] as nat
            } else {
                0
            },
            None => 0,
        }),
    decreases n,
{
    if n > 0 {
        lemma_one_more_owner(slots, pids, pid, slot, device_idx, (n - 1) as nat);
        let owner = slots[n - 1].pid;
        let all = pids.push(pid);
        if pids.contains(owner) {
            let k = choose|k: int| 0 <= k < pids.len() && pids[k] == owner;
            assert(all[k] == owner);
        }
        if owner == pid {
            assert(all[pids.len() as int] == owner);
        }
        if all.contains(owner) {
            let k = choose|k: int| 0 <= k < all.len() && all[k] == owner;
            if k < pids.len() {
                assert(pids[k] == owner);
            }
        }
    }
}

/// What the slots of the running ones of the first `n` processes record is what those
/// processes take.
proof fn lemma_owned_is_living(s: PodState, device_idx: int, n: nat)
    requires
        s.in_order(),
        0 <= device_idx < s.devices.len(),
        n <= s.processes.len(),
    ensures
        owned_overhead(
            s.table.slots,
            alive_pids(s.processes, n),
            device_idx,
            MAX_PROC_SLOTS as nat,
        ) == living_overhead(s.processes, device_idx, n),
    decreases n,
{
    if n == 0 {
        lemma_nobody_owns(s.table.slots, device_idx, MAX_PROC_SLOTS as nat);
    } else {
        lemma_owned_is_living(s, device_idx, (n - 1) as nat);
        let process = s.processes[n - 1];
        let pids = alive_pids(s.processes, (n - 1) as nat);
        if process.alive {
            assert(s.slot_in_order(n - 1));
            if pids.contains(process.pid) {
                let p = lemma_alive_pids_only(s.processes, (n - 1) as nat, process.pid);
                assert(s.processes[p].pid != s.processes[n - 1].pid);
            }
            if let Some(i) = process.slot {
                assert(s.table.slots[i as int].non_hip[device_idx] == process.non_hip[device_idx]);
            }
            assert forall|j: int|
                0 <= j < s.table.slots.len() && (#[trigger] s.table.slots[j]).pid
                    == process.pid implies process.slot == Some(j as usize) by {
                assert(s.table.slots[j].pid == s.processes[n - 1].pid);
            }
            lemma_one_more_owner(
                s.table.slots,
                pids,
                process.pid,
                process.slot,
                device_idx,
                MAX_PROC_SLOTS as nat,
            );
        }
    }
}

/// Without owners nothing is owned.
proof fn lemma_nobody_owns(slots: Seq<SlotState>, device_idx: int, n: nat)
    ensures
        owned_overhead(slots, Seq::empty(), device_idx, n) == 0,
    decreases n,
{
    if n > 0 {
        lemma_nobody_owns(slots, device_idx, (n - 1) as nat);
    }
}

/// Where every owner is among `pids`, all that is recorded is owned.
proof fn lemma_all_owned(slots: Seq<SlotState>, pids: Seq<u32>, device_idx: int, n: nat)
    requires
        n <= slots.len(),
        forall|i: int|
            0 <= i < n && (#[trigger] slots[i]).pid != 0 ==> pids.contains(slots[i].pid),
    ensures
        owned_overhead(slots, pids, device_idx, n) == non_hip_total(slots, device_idx, n),
    decreases n,
{
    if n > 0 {
        lemma_all_owned(slots, pids, device_idx, (n - 1) as nat);
        assert(slots[n - 1].pid != 0 ==> pids.contains(slots[n - 1].pid));
    }
}

/// After a process reconciled, the limit of every device is the configured one less what
/// the running processes that hold a slot take outside of allocation calls, down to zero
/// at most. What dead processes took does not count any more.
pub proof fn law_limit_is_less_the_living_overhead(s: PodState, proc_idx: int, d: int)
    requires
        s.in_order(),
        0 <= proc_idx < s.processes.len(),
        s.processes[proc_idx].alive,
        0 <= d < s.devices.len(),
    ensures
        s.after_reconcile(proc_idx).devices[d].effective_mem_limit == less(
            s.devices[d].mem_limit,
            living_overhead(s.processes, d, s.processes.len()),
        ),
{
    law_reconcile_keeps_order(s, proc_idx);
    let end = s.after_reconcile(proc_idx);
    lemma_owned_is_living(end, d, end.processes.len());
    lemma_all_owned(end.table.slots, end.alive(), d, MAX_PROC_SLOTS as nat);
}

/// A request of a process is granted by the limit in force on the device: the tighter one
/// where one was computed. Granted bytes are counted for the pod, recorded for the process,
/// and counted in its slot; a denied request changes nothing. This holds of every request but
/// the first of each hundred, which also reconciles.
pub proof fn law_pod_requests_by_the_limit(
    s: PodState,
    proc_idx: usize,
    device_idx: usize,
    size: u64,
)
    requires
        s.wf(),
        proc_idx < s.processes.len(),
        device_idx < s.devices.len() <= 16,
    ensures
        ({
            let device = s.devices[device_idx as int];
            let limit = if device.effective_mem_limit > 0 {
                device.effective_mem_limit
            } else {
                device.mem_limit
            };
            let process = s.processes[proc_idx as int];
            let end = s.after_alloc(proc_idx, device_idx, size);
            &&& s.grants(device_idx, size) <==> size == 0 || (size <= u64::MAX / 2
                && device.pod_memory_used + size <= limit)
            &&& !s.grants(device_idx, size) ==> end == s
            &&& s.grants(device_idx, size) && size > 0 && process.alloc_count % 100 != 0 ==> {
                &&& end.devices[device_idx as int].pod_memory_used == device.pod_memory_used + size
                &&& end.devices[device_idx as int].effective_mem_limit
                    == device.effective_mem_limit
                &&& end.processes[proc_idx as int].live == process.live.insert(
                    process.next_pointer,
                    (device_idx, size),
                )
                &&& process.alloc_count < u64::MAX ==> end.processes[proc_idx as int].alloc_count
                    == process.alloc_count + 1
                &&& process.slot is None ==> end.table == s.table
                &&& process.slot matches Some(i) ==> end.table.slots[i as int].used[
                    device_idx as int] == (s.table.slots[i as int].used[device_idx as int] + size)
                    % 0x1_0000_0000_0000_0000
            }
            &&& s.grants(device_idx, size) && size > 0 && process.alloc_count % 100 == 0 ==> end
                == s.holding(proc_idx, device_idx, size).after_reconcile(proc_idx as int)
        }),
{
    if s.processes[proc_idx as int].slot is Some {
        let i = s.processes[proc_idx as int].slot->0;
        assert(s.table.slots[i as int].used.len() == MAX_DEVICES);
    }
}

/// The first allocation of each hundred computes the limits anew, by what the running
/// processes take outside of allocation calls.
pub proof fn law_every_hundredth_allocation_reconciles(
    s: PodState,
    proc_idx: usize,
    device_idx: usize,
    size: u64,
    d: int,
)
    requires
        s.in_order(),
        proc_idx < s.processes.len(),
        s.processes[proc_idx as int].alive,
        s.processes[proc_idx as int].next_pointer < usize::MAX,
        device_idx < s.devices.len(),
        size > 0,
        s.grants(device_idx, size),
        s.processes[proc_idx as int].alloc_count % 100 == 0,
        0 <= d < s.devices.len(),
    ensures
        ({
            let total = living_overhead(s.processes, d, s.processes.len());
            s.after_alloc(proc_idx, device_idx, size).devices[d].effective_mem_limit == (if total
                <= s.devices[d].mem_limit {
                s.devices[d].mem_limit - total
            } else {
                0
            })
        }),
{
    let held = s.holding(proc_idx, device_idx, size);
    lemma_holding_keeps_order(s, proc_idx, device_idx, size);
    law_limit_is_less_the_living_overhead(held, proc_idx as int, d);
    lemma_overhead_stays(s.processes, held.processes, d, s.processes.len());
}

proof fn lemma_overhead_stays(a: Seq<ProcessState>, b: Seq<ProcessState>, device_idx: int, n: nat)
    requires
        n <= a.len(),
        n <= b.len(),
        forall|p: int|
            0 <= p < n ==> (#[trigger] a[p]).alive == b[p].alive && a[p].slot == b[p].slot
                && a[p].non_hip == b[p].non_hip,
    ensures
        living_overhead(a, device_idx, n) == living_overhead(b, device_idx, n),
    decreases n,
{
    if n > 0 {
        lemma_overhead_stays(a, b, device_idx, (n - 1) as nat);
        assert(a[n - 1].alive == b[n - 1].alive);
    }
}

/// Giving a pointer back takes its recorded size from the counter of its device and from the
/// slot of the process; a pointer that is not recorded changes nothing.
pub proof fn law_pod_frees_by_the_record(s: PodState, proc_idx: usize, pointer: usize, other: int)
    requires
        s.wf(),
        s.devices.len() <= 16,
        proc_idx < s.processes.len(),
    ensures
        ({
            let process = s.processes[proc_idx as int];
            let end = s.after_free(proc_idx, pointer);
            &&& !process.live.dom().contains(pointer) ==> end == s
            &&& process.live.dom().contains(pointer) ==> {
                let (d, size) = process.live[pointer];
                let used = s.devices[d as int].pod_memory_used;
                &&& end.devices[d as int].pod_memory_used == (if used >= size {
                    used - size
                } else {
                    0
                })
                &&& 0 <= other < s.devices.len() && other != d ==> end.devices[other]
                    == s.devices[other]
                &&& end.processes[proc_idx as int].live == process.live.remove(pointer)
                &&& process.slot matches Some(i) ==> end.table.slots[i as int].used[d as int] == (
                if s.table.slots[i as int].used[d as int] >= size {
                    s.table.slots[i as int].used[d as int] - size
                } else {
                    0
                })
            }
        }),
{
    let process = s.processes[proc_idx as int];
    if process.live.dom().contains(pointer) {
        assert(process.live[pointer].0 < s.devices.len());
        if process.slot is Some {
            assert(s.table.slots[process.slot->0 as int].used.len() == MAX_DEVICES);
        }
    }
}

/// A clean end takes from each device what the process holds there, empties its slot, and
/// stops it; other processes are not touched.
pub proof fn law_pod_drains_by_the_record(s: PodState, proc_idx: usize, d: int, other: int)
    requires
        s.wf(),
        proc_idx < s.processes.len(),
        0 <= d < s.devices.len(),
    ensures
        ({
            let process = s.processes[proc_idx as int];
            let end = s.after_drain(proc_idx);
            let held = device_bytes(process.live, d as usize);
            &&& end.devices[d].pod_memory_used == (if s.devices[d].pod_memory_used >= held {
                s.devices[d].pod_memory_used - held
            } else {
                0
            })
            &&& end.devices[d].mem_limit == s.devices[d].mem_limit
            &&& end.devices[d].effective_mem_limit == s.devices[d].effective_mem_limit
            &&& !end.processes[proc_idx as int].alive
            &&& end.processes[proc_idx as int].live.dom().len() == 0
            &&& process.slot matches Some(i) ==> end.table.slots[i as int].pid == 0
            &&& process.slot is None ==> end.table == s.table
            &&& 0 <= other < s.processes.len() && other != proc_idx ==> end.processes[other]
                == s.processes[other]
        }),
{
}

/// Reconciling takes from a counter what the slots of dead processes had counted there, and
/// nothing else: what is left in the slots and what was taken make up what was there.
pub proof fn law_reconciling_takes_what_the_dead_counted(s: PodState, proc_idx: int, d: int)
    requires
        s.in_order(),
        0 <= proc_idx < s.processes.len(),
        s.processes[proc_idx].alive,
        0 <= d < s.devices.len(),
    ensures
        ({
            let end = s.after_reconcile(proc_idx);
            s.devices[d].pod_memory_used - end.devices[d].pod_memory_used == slot_usage(
                s.table.slots,
                d,
                128,
            ) - slot_usage(end.table.slots, d, 128)
        }),
        dead_usage(s.table, s.alive(), d, 128) == s.devices[d].pod_memory_used
            - s.after_reconcile(proc_idx).devices[d].pod_memory_used,
{
    law_reconcile_keeps_order(s, proc_idx);
    let end = s.after_reconcile(proc_idx);
    assert(end.processes == s.processes);
    assert(s.devices[d].pod_memory_used == slot_usage(s.table.slots, d, MAX_PROC_SLOTS as nat)
        + loose_usage(s.processes, d as usize, s.processes.len()));
    assert(end.devices[d].pod_memory_used == slot_usage(end.table.slots, d, MAX_PROC_SLOTS as nat)
        + loose_usage(s.processes, d as usize, s.processes.len()));
    lemma_reap_usage(s.table, s.alive(), d, MAX_PROC_SLOTS as nat);
}

/// The living are the processes that run, and no others.
pub proof fn law_the_living(s: PodState, p: int)
    requires
        s.ids_in_order(),
        0 <= p < s.processes.len(),
    ensures
        s.alive().contains(s.processes[p].pid) <==> s.processes[p].alive,
{
    let n = s.processes.len();
    if s.processes[p].alive {
        lemma_alive_pids_contain(s.processes, n, p);
    }
    if s.alive().contains(s.processes[p].pid) {
        let q = lemma_alive_pids_only(s.processes, n, s.processes[p].pid);
        if q < p {
            assert(s.processes[q].pid != s.processes[p].pid);
        } else if p < q {
            assert(s.processes[p].pid != s.processes[q].pid);
        }
    }
}

/// A new process has the next id, holds nothing, runs, and records its overhead on each
/// device, zero where none is given; others are not touched.
pub proof fn law_new_processes(s: PodState, non_hip: Seq<u64>, end: PodState, p: int, d: int)
    requires
        s.is_spawn(non_hip, end),
        s.devices.len() <= 16,
        0 <= d < s.devices.len(),
    ensures
        end.processes.len() == s.processes.len() + 1,
        0 <= p < s.processes.len() ==> end.processes[p] == s.processes[p],
        ({
            let process = end.processes[s.processes.len() as int];
            let given = if d < non_hip.len() {
                non_hip[d]
            } else {
                0
            };
            &&& process.pid == s.next_pid
            &&& process.alive
            &&& process.live.dom().len() == 0
            &&& process.alloc_count == 0
            &&& process.non_hip[d] == given
            &&& process.slot matches Some(i) ==> {
                &&& s.table.is_first_free(i as int)
                &&& end.table.slots[i as int].pid == s.next_pid
                &&& end.table.slots[i as int].used[d] == 0
                &&& end.table.slots[i as int].non_hip[d] == given
            }
            &&& process.slot is None ==> s.table.full() && end.table == s.table
        }),
        end.devices == s.devices,
        end.next_pid == s.next_pid + 1,
{
    assert(end.processes[s.processes.len() as int] == end.processes.last());
}

/// The limit in force on a device of a pod is the tighter one where one was computed.
pub proof fn law_pod_limit_in_force(device: crate::simulated_pod::DeviceState)
    ensures
        device.effective_mem_limit == 0 ==> device.limit() == device.mem_limit,
        device.effective_mem_limit > 0 ==> device.limit() == device.effective_mem_limit,
{
}

} // verus!
