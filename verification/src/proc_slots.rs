//! Per-process, per-device usage, kept in a table that all processes of a pod share.
use crate::counter::{counter_add, counter_sub, fetch_add, saturating_fetch_sub};
use crate::number::holds;
use vstd::prelude::*;

verus! {

/// The number of processes that can be recorded.
pub const MAX_PROC_SLOTS: usize = 128;

/// The number of devices that a slot counts.
pub const MAX_DEVICES: usize = 16;

/// Marks a table as initialised ("PROC").
pub const PROC_SLOTS_MAGIC: u32 = 0x50524F43;

/// The error number of a signal that may not be sent.
pub const EPERM: i32 = 1;

/// Stands for "no slot" in a handle.
pub const NO_SLOT: usize = usize::MAX;

/// One process's counters.
#[derive(Clone, Copy)]
pub struct ProcSlot {
    /// The owner; zero marks an empty slot.
    pub pid: u32,
    /// Bytes allocated, per device.
    pub used: [u64; MAX_DEVICES],
    /// Bytes taken outside of allocation calls, per device.
    pub non_hip: [u64; MAX_DEVICES],
}

/// The shared table of slots.
pub struct ProcSlotTable {
    /// Holds the magic number once the table is initialised.
    pub magic: u32,
    /// The slots.
    pub slots: [ProcSlot; MAX_PROC_SLOTS],
}

/// A slot as plain values.
#[verifier::ext_equal]
pub struct SlotState {
    /// The owner; zero marks an empty slot.
    pub pid: u32,
    /// Bytes allocated, per device.
    pub used: Seq<u64>,
    /// Bytes taken outside of allocation calls, per device.
    pub non_hip: Seq<u64>,
}

/// A table as plain values.
#[verifier::ext_equal]
pub struct TableState {
    /// Holds the magic number once the table is initialised.
    pub magic: u32,
    /// The slots.
    pub slots: Seq<SlotState>,
}

/// A zero for every device.
pub open spec fn zeros() -> Seq<u64> {
    Seq::new(MAX_DEVICES as nat, |d: int| 0u64)
}

/// A slot of the given owner that has counted nothing yet.
pub open spec fn fresh_slot(pid: u32) -> SlotState {
    SlotState { pid, used: zeros(), non_hip: zeros() }
}

impl View for ProcSlot {
    type V = SlotState;

    open spec fn view(&self) -> SlotState {
        SlotState { pid: self.pid, used: self.used@, non_hip: self.non_hip@ }
    }
}

impl View for ProcSlotTable {
    type V = TableState;

    open spec fn view(&self) -> TableState {
        TableState {
            magic: self.magic,
            slots: Seq::new(MAX_PROC_SLOTS as nat, |i: int| self.slots@[i]@),
        }
    }
}

/// The sum over the occupied ones of the first `n` slots of what they hold outside
/// of allocation calls on a device.
pub open spec fn non_hip_total(slots: Seq<SlotState>, device_idx: int, n: nat) -> nat
    decreases n,
{
    if n == 0 {
        0
    } else {
        non_hip_total(slots, device_idx, (n - 1) as nat) + (if slots[n - 1].pid != 0 {
            slots[n - 1].non_hip[device_idx] as nat
        } else {
            0
        })
    }
}

impl TableState {
    /// The table with another slot at one place.
    pub open spec fn with_slot(self, i: int, slot: SlotState) -> TableState {
        TableState { slots: self.slots.update(i, slot), ..self }
    }

    /// Slot `i` is the first empty one.
    pub open spec fn is_first_free(self, i: int) -> bool {
        &&& 0 <= i < self.slots.len()
        &&& self.slots[i].pid == 0
        &&& forall|j: int| 0 <= j < i ==> (#[trigger] self.slots[j]).pid != 0
    }

    /// No slot is empty.
    pub open spec fn full(self) -> bool {
        forall|j: int| 0 <= j < self.slots.len() ==> (#[trigger] self.slots[j]).pid != 0
    }

    /// The slot and the device exist.
    pub open spec fn in_range(self, slot_idx: usize, device_idx: usize) -> bool {
        slot_idx < MAX_PROC_SLOTS && device_idx < MAX_DEVICES
    }

    /// The table after bytes were added to a counter; outside of the table nothing
    /// is counted.
    pub open spec fn after_add(self, slot_idx: usize, device_idx: usize, size: u64) -> TableState {
        if self.in_range(slot_idx, device_idx) {
            let slot = self.slots[slot_idx as int];
            self.with_slot(
                slot_idx as int,
                (SlotState {
                    used: slot.used.update(
                        device_idx as int,
                        counter_add(slot.used[device_idx as int], size),
                    ),
                    ..slot
                }),
            )
        } else {
            self
        }
    }

    /// The table after bytes were taken from a counter, down to zero at most.
    pub open spec fn after_sub(self, slot_idx: usize, device_idx: usize, size: u64) -> TableState {
        if self.in_range(slot_idx, device_idx) {
            let slot = self.slots[slot_idx as int];
            self.with_slot(
                slot_idx as int,
                (SlotState {
                    used: slot.used.update(
                        device_idx as int,
                        counter_sub(slot.used[device_idx as int], size),
                    ),
                    ..slot
                }),
            )
        } else {
            self
        }
    }

    /// The table after a slot's bytes outside of allocation calls were recorded.
    pub open spec fn after_non_hip(
        self,
        slot_idx: usize,
        device_idx: usize,
        bytes: u64,
    ) -> TableState {
        if self.in_range(slot_idx, device_idx) {
            let slot = self.slots[slot_idx as int];
            self.with_slot(
                slot_idx as int,
                (SlotState { non_hip: slot.non_hip.update(device_idx as int, bytes), ..slot }),
            )
        } else {
            self
        }
    }

    /// A slot can be reaped on behalf of a dead process.
    pub open spec fn reapable(self, slot_idx: usize, pid: u32) -> bool {
        slot_idx < MAX_PROC_SLOTS && pid != 0 && self.slots[slot_idx as int].pid == pid
    }

    /// Slot `i` belongs to a process that is not among the living.
    pub open spec fn dead(self, i: int, alive: Seq<u32>) -> bool {
        self.slots[i].pid != 0 && !alive.contains(self.slots[i].pid)
    }

    /// `found` names every slot of a dead process once, in order.
    pub open spec fn lists_dead(self, alive: Seq<u32>, found: Seq<(usize, u32)>) -> bool {
        &&& forall|k: int|
            0 <= k < found.len() ==> {
                &&& (#[trigger] found[k]).0 < self.slots.len()
                &&& self.dead(found[k].0 as int, alive)
                &&& found[k].1 == self.slots[found[k].0 as int].pid
            }
        &&& forall|k: int, l: int|
            0 <= k < l < found.len() ==> (#[trigger] found[k]).0 < (#[trigger] found[l]).0
        &&& forall|i: int|
            0 <= i < self.slots.len() && #[trigger] self.dead(i, alive) ==> exists|k: int|
                0 <= k < found.len() && (#[trigger] found[k]).0 == i
    }

    /// The table after the slots of all dead processes were emptied.
    pub open spec fn after_reap(self, alive: Seq<u32>) -> TableState {
        TableState {
            slots: Seq::new(
                self.slots.len(),
                |i: int|
                    if self.dead(i, alive) {
                        fresh_slot(0)
                    } else {
                        self.slots[i]
                    },
            ),
            ..self
        }
    }
}

impl ProcSlotTable {
    /// An all-zero table, as fresh shared memory holds it.
    pub fn new_zeroed() -> (table: Self)
        ensures
            table@ == (TableState {
                magic: 0,
                slots: Seq::new(MAX_PROC_SLOTS as nat, |i: int| fresh_slot(0)),
            }),
    {
        let slot = Self::empty_slot(0);
        let table = ProcSlotTable { magic: 0, slots: [slot; MAX_PROC_SLOTS] };
        assert(table@.slots =~= Seq::new(MAX_PROC_SLOTS as nat, |i: int| fresh_slot(0)));
        table
    }

    /// A slot of the given owner that has counted nothing yet.
    fn empty_slot(pid: u32) -> (slot: ProcSlot)
        ensures
            slot@ == fresh_slot(pid),
    {
        let counters: [u64; MAX_DEVICES] = [0u64; MAX_DEVICES];
        assert(counters@ =~= zeros());
        ProcSlot { pid, used: counters, non_hip: counters }
    }

    /// Whether the magic number has been written.
    pub fn is_initialized(&self) -> (b: bool)
        ensures
            b == (self@.magic == PROC_SLOTS_MAGIC),
            b <==> self@.magic == 0x5052_4F43,
    {
        self.magic == PROC_SLOTS_MAGIC
    }

    /// Writes the magic number. Doing so again changes nothing.
    pub fn initialize(&mut self)
        ensures
            final(self)@ == (TableState { magic: PROC_SLOTS_MAGIC, ..old(self)@ }),
    {
        self.magic = PROC_SLOTS_MAGIC;
        assert(self@.slots =~= old(self)@.slots);
    }

    /// Claims the first empty slot for a process, with every counter at zero, so
    /// that nothing of an earlier owner is left. Returns `None` where no slot is
    /// empty.
    pub fn claim_slot(&mut self, pid: u32) -> (r: Option<usize>)
        ensures
            r is None <==> old(self)@.full(),
            r is None ==> final(self)@ == old(self)@,
            r matches Some(i) ==> old(self)@.is_first_free(i as int) && final(self)@ == old(
                self,
            )@.with_slot(i as int, fresh_slot(pid)),
    {
        let mut i: usize = 0;
        while i < MAX_PROC_SLOTS
            invariant
                i <= MAX_PROC_SLOTS,
                self@ == old(self)@,
                forall|j: int| 0 <= j < i ==> (#[trigger] self@.slots[j]).pid != 0,
            decreases MAX_PROC_SLOTS - i,
        {
            if self.slots[i].pid == 0 {
                assert(old(self)@.slots[i as int].pid == 0);
                self.slots[i] = Self::empty_slot(pid);
                assert(self@.slots =~= old(self)@.slots.update(i as int, fresh_slot(pid)));
                return Some(i);
            }
            i = i + 1;
        }
        None
    }

    /// Marks a slot as empty and leaves its counters as they are.
    pub fn release_slot(&mut self, slot_idx: usize)
        ensures
            final(self)@ == (if slot_idx < MAX_PROC_SLOTS {
                old(self)@.with_slot(
                    slot_idx as int,
                    (SlotState { pid: 0, ..old(self)@.slots[slot_idx as int] }),
                )
            } else {
                old(self)@
            }),
    {
        if slot_idx < MAX_PROC_SLOTS {
            self.slots[slot_idx].pid = 0;
            assert(self@.slots =~= old(self)@.slots.update(
                slot_idx as int,
                (SlotState { pid: 0, ..old(self)@.slots[slot_idx as int] }),
            ));
        }
    }

    /// What the outcome of sending signal zero to a process says of it: it is alive
    /// where the signal could be sent, and where it exists but may not be sent one.
    /// No process has the id zero.
    pub fn is_process_alive(pid: u32, kill_result: i32, errno: i32) -> (alive: bool)
        ensures
            alive == (pid != 0 && (kill_result == 0 || errno == EPERM)),
            alive <==> pid != 0 && (kill_result == 0 || errno == 1),
    {
        if pid == 0 {
            return false;
        }
        if kill_result == 0 {
            return true;
        }
        errno == EPERM
    }

    /// The slots whose owner is not among the living, each with the owner that was
    /// seen there.
    pub fn find_dead_slots(&self, alive: &[u32]) -> (found: Vec<(usize, u32)>)
        ensures
            self@.lists_dead(alive@, found@),
    {
        let mut found: Vec<(usize, u32)> = Vec::new();
        let mut i: usize = 0;
        while i < MAX_PROC_SLOTS
            invariant
                i <= MAX_PROC_SLOTS,
                forall|k: int|
                    0 <= k < found@.len() ==> {
                        &&& (#[trigger] found@[k]).0 < i
                        &&& self@.dead(found@[k].0 as int, alive@)
                        &&& found@[k].1 == self@.slots[found@[k].0 as int].pid
                    },
                forall|k: int, l: int|
                    0 <= k < l < found@.len() ==> (#[trigger] found@[k]).0 < (
                    #[trigger] found@[l]).0,
                forall|j: int|
                    0 <= j < i && #[trigger] self@.dead(j, alive@) ==> exists|k: int|
                        0 <= k < found@.len() && (#[trigger] found@[k]).0 == j,
            decreases MAX_PROC_SLOTS - i,
        {
            let pid: u32 = self.slots[i].pid;
            let ghost before = found@;
            if pid != 0 && !holds(alive, pid) {
                found.push((i, pid));
                assert(found@[before.len() as int].0 == i);
                assert forall|j: int| 0 <= j < i + 1 && #[trigger]
                    self@.dead(j, alive@) implies exists|k: int|
                    0 <= k < found@.len() && (#[trigger] found@[k]).0 == j by {
                    if j < i {
                        let k = choose|k: int| 0 <= k < before.len() && (#[trigger] before[k]).0 == j;
                        assert(found@[k] == before[k]);
                    }
                }
            }
            i = i + 1;
        }
        found
    }

    /// Adds bytes to a counter. Outside of the table nothing happens.
    pub fn add_usage(&mut self, slot_idx: usize, device_idx: usize, size: u64)
        ensures
            final(self)@ == old(self)@.after_add(slot_idx, device_idx, size),
    {
        if slot_idx < MAX_PROC_SLOTS && device_idx < MAX_DEVICES {
            fetch_add(&mut self.slots[slot_idx].used[device_idx], size);
            assert(self@ =~= old(self)@.after_add(slot_idx, device_idx, size));
        }
    }

    /// Takes bytes from a counter, down to zero at most. Outside of the table
    /// nothing happens.
    pub fn sub_usage(&mut self, slot_idx: usize, device_idx: usize, size: u64)
        ensures
            final(self)@ == old(self)@.after_sub(slot_idx, device_idx, size),
    {
        if slot_idx >= MAX_PROC_SLOTS || device_idx >= MAX_DEVICES {
            return;
        }
        saturating_fetch_sub(&mut self.slots[slot_idx].used[device_idx], size);
        assert(self@ =~= old(self)@.after_sub(slot_idx, device_idx, size));
    }

    /// Records what a slot's owner takes on a device outside of allocation calls.
    /// Outside of the table nothing happens.
    pub fn write_non_hip(&mut self, slot_idx: usize, device_idx: usize, bytes: u64)
        ensures
            final(self)@ == old(self)@.after_non_hip(slot_idx, device_idx, bytes),
    {
        if slot_idx < MAX_PROC_SLOTS && device_idx < MAX_DEVICES {
            self.slots[slot_idx].non_hip[device_idx] = bytes;
            assert(self@ =~= old(self)@.after_non_hip(slot_idx, device_idx, bytes));
        }
    }

    /// What all recorded processes together take on a device outside of allocation
    /// calls, capped at the largest `u64`. A device out of range takes nothing.
    pub fn sum_non_hip_for_device(&self, device_idx: usize) -> (sum: u64)
        ensures
            device_idx >= MAX_DEVICES ==> sum == 0,
            device_idx < MAX_DEVICES ==> ({
                let total = non_hip_total(self@.slots, device_idx as int, MAX_PROC_SLOTS as nat);
                sum == if total <= u64::MAX {
                    total
                } else {
                    u64::MAX as nat
                }
            }),
    {
        if device_idx >= MAX_DEVICES {
            return 0;
        }
        let mut sum: u64 = 0;
        let mut i: usize = 0;
        while i < MAX_PROC_SLOTS
            invariant
                i <= MAX_PROC_SLOTS,
                device_idx < MAX_DEVICES,
                ({
                    let total = non_hip_total(self@.slots, device_idx as int, i as nat);
                    sum == if total <= u64::MAX {
                        total
                    } else {
                        u64::MAX as nat
                    }
                }),
            decreases MAX_PROC_SLOTS - i,
        {
            if self.slots[i].pid != 0 {
                sum = sum.saturating_add(self.slots[i].non_hip[device_idx]);
            }
            i = i + 1;
        }
        sum
    }

    /// The counters of a slot; zeros outside of the table.
    pub fn read_slot_usage(&self, slot_idx: usize) -> (usage: [u64; MAX_DEVICES])
        ensures
            usage@ == (if slot_idx < MAX_PROC_SLOTS {
                self@.slots[slot_idx as int].used
            } else {
                zeros()
            }),
    {
        if slot_idx < MAX_PROC_SLOTS {
            self.slots[slot_idx].used
        } else {
            let counters: [u64; MAX_DEVICES] = [0u64; MAX_DEVICES];
            assert(counters@ =~= zeros());
            counters
        }
    }

    /// Zeroes the counters of a slot and marks it as empty.
    pub fn zero_and_release(&mut self, slot_idx: usize)
        ensures
            final(self)@ == (if slot_idx < MAX_PROC_SLOTS {
                old(self)@.with_slot(slot_idx as int, fresh_slot(0))
            } else {
                old(self)@
            }),
    {
        if slot_idx < MAX_PROC_SLOTS {
            self.slots[slot_idx] = Self::empty_slot(0);
            assert(self@.slots =~= old(self)@.slots.update(slot_idx as int, fresh_slot(0)));
        }
    }

    /// Empties a slot on behalf of the dead process that was seen there, and hands
    /// out its counters. Returns `None` where the slot no longer belongs to that
    /// process, so that the counters are handed out once only.
    pub fn try_claim_and_release(
        &mut self,
        slot_idx: usize,
        expected_pid: u32,
    ) -> (r: Option<[u64; MAX_DEVICES]>)
        ensures
            r is Some <==> old(self)@.reapable(slot_idx, expected_pid),
            r matches Some(usage) ==> usage@ == old(self)@.slots[slot_idx as int].used
                && final(self)@ == old(self)@.with_slot(slot_idx as int, fresh_slot(0)),
            r is None ==> final(self)@ == old(self)@,
    {
        if slot_idx >= MAX_PROC_SLOTS || expected_pid == 0 {
            return None;
        }
        let usage = self.read_slot_usage(slot_idx);
        if self.slots[slot_idx].pid != expected_pid {
            return None;
        }
        self.zero_and_release(slot_idx);
        Some(usage)
    }

    /// Empties the slots of all dead processes, and hands out each one's counters.
    pub fn reap_dead(&mut self, alive: &[u32]) -> (reaped: Vec<(u32, [u64; MAX_DEVICES])>)
        ensures
            final(self)@ == old(self)@.after_reap(alive@),
            old(self)@.hands_out(alive@, reaped@),
    {
        let dead = self.find_dead_slots(alive);
        let mut reaped: Vec<(u32, [u64; MAX_DEVICES])> = Vec::new();
        let mut k: usize = 0;
        while k < dead.len()
            invariant
                k <= dead@.len(),
                old(self)@.lists_dead(alive@, dead@),
                reaped@.len() == k,
                forall|l: int|
                    0 <= l < k ==> (#[trigger] reaped@[l]).0 == dead@[l].1 && reaped@[l].1@ == old(
                        self,
                    )@.slots[dead@[l].0 as int].used,
                self@.magic == old(self)@.magic,
                forall|l: int| 0 <= l < k ==> self@.slots[(#[trigger] dead@[l]).0 as int] == fresh_slot(0),
                forall|i: int|
                    0 <= i < MAX_PROC_SLOTS && (forall|l: int|
                        0 <= l < k ==> (#[trigger] dead@[l]).0 != i) ==> #[trigger] self@.slots[i]
                        == old(self)@.slots[i],
            decreases dead@.len() - k,
        {
            let (slot_idx, pid) = dead[k];
            assert(dead@[k as int] == (slot_idx, pid));
            assert(self@.slots[slot_idx as int] == old(self)@.slots[slot_idx as int]);
            let ghost before = self@;
            match self.try_claim_and_release(slot_idx, pid) {
                Some(usage) => {
                    reaped.push((pid, usage));
                },
                None => {},
            }
            assert(self@ == before.with_slot(slot_idx as int, fresh_slot(0)));
            k = k + 1;
            assert forall|i: int|
                0 <= i < MAX_PROC_SLOTS && (forall|l: int|
                    0 <= l < k ==> (#[trigger] dead@[l]).0 != i) implies #[trigger] self@.slots[i]
                == old(self)@.slots[i] by {
                assert(dead@[k - 1].0 != i);
                assert(before.slots[i] == old(self)@.slots[i]);
            }
        }
        proof {
            assert forall|i: int| 0 <= i < MAX_PROC_SLOTS implies #[trigger] self@.slots[i] == old(
                self,
            )@.after_reap(alive@).slots[i] by {
                if old(self)@.dead(i, alive@) {
                    let l = choose|l: int| 0 <= l < dead@.len() && (#[trigger] dead@[l]).0 == i;
                    assert(self@.slots[dead@[l].0 as int] == fresh_slot(0));
                } else {
                    assert forall|l: int| 0 <= l < k implies (#[trigger] dead@[l]).0 != i by {}
                }
            }
            assert(self@ =~= old(self)@.after_reap(alive@));
        }
        reaped
    }
}

impl TableState {
    /// `reaped` names the owner and the counters of each slot of a dead process, in
    /// the order of the slots.
    pub open spec fn hands_out(
        self,
        alive: Seq<u32>,
        reaped: Seq<(u32, [u64; MAX_DEVICES])>,
    ) -> bool {
        exists|found: Seq<(usize, u32)>|
            {
                &&& #[trigger] self.lists_dead(alive, found)
                &&& reaped.len() == found.len()
                &&& forall|k: int|
                    0 <= k < found.len() ==> (#[trigger] reaped[k]).0 == found[k].1
                        && reaped[k].1@ == self.slots[found[k].0 as int].used
            }
    }
}

/// A handle as plain values.
#[verifier::ext_equal]
pub struct HandleState {
    /// The shared table.
    pub table: TableState,
    /// The slot of this process, if it has one.
    pub slot: Option<usize>,
}

impl HandleState {
    /// The table has all its slots, and the slot of the process is one of them.
    pub open spec fn wf(self) -> bool {
        &&& self.table.slots.len() == MAX_PROC_SLOTS
        &&& self.slot matches Some(i) ==> i < MAX_PROC_SLOTS
    }
}

/// A process's access to the shared table: the table, and the slot it claimed.
pub struct ProcSlotHandle {
    table: ProcSlotTable,
    slot_idx: usize,
}

impl View for ProcSlotHandle {
    type V = HandleState;

    closed spec fn view(&self) -> HandleState {
        HandleState {
            table: self.table@,
            slot: if self.slot_idx == NO_SLOT {
                None
            } else {
                Some(self.slot_idx)
            },
        }
    }
}

impl ProcSlotHandle {
    /// Takes part in a table that was just created or that others use already: a
    /// table without the magic number gets it, and a slot is claimed. With every
    /// slot taken the handle works without one.
    pub fn create_and_claim(table: ProcSlotTable, created_fresh: bool, pid: u32) -> (handle: Self)
        ensures
            handle@.wf(),
            ({
                let ready = TableState { magic: PROC_SLOTS_MAGIC, ..table@ };
                match handle@.slot {
                    Some(i) => ready.is_first_free(i as int) && handle@.table == ready.with_slot(
                        i as int,
                        fresh_slot(pid),
                    ),
                    None => ready.full() && handle@.table == ready,
                }
            }),
    {
        let mut table = table;
        if created_fresh {
            table.initialize();
        } else if !table.is_initialized() {
            table.initialize();
        }
        match table.claim_slot(pid) {
            Some(slot_idx) => ProcSlotHandle { table, slot_idx },
            None => ProcSlotHandle { table, slot_idx: NO_SLOT },
        }
    }

    /// The shared table.
    pub fn table(&self) -> (table: &ProcSlotTable)
        ensures
            table@ == self@.table,
    {
        &self.table
    }

    /// The shared table, to be changed on behalf of other processes.
    pub fn table_mut(&mut self) -> (table: &mut ProcSlotTable)
        requires
            old(self)@.wf(),
        ensures
            final(self)@.wf(),
            table@ == old(self)@.table,
            final(self)@ == (HandleState { table: final(table)@, ..old(self)@ }),
    {
        &mut self.table
    }

    /// The slot of this process, if it has one.
    pub fn slot_idx(&self) -> (slot: Option<usize>)
        requires
            self@.wf(),
        ensures
            slot == self@.slot,
            slot matches Some(i) ==> i < MAX_PROC_SLOTS,
    {
        if self.slot_idx == NO_SLOT {
            None
        } else {
            Some(self.slot_idx)
        }
    }

    /// Adds bytes to this process's counter of a device; without a slot nothing is
    /// counted.
    pub fn add_usage(&mut self, device_idx: usize, size: u64)
        requires
            old(self)@.wf(),
        ensures
            final(self)@.wf(),
            final(self)@ == (HandleState {
                table: match old(self)@.slot {
                    Some(i) => old(self)@.table.after_add(i, device_idx, size),
                    None => old(self)@.table,
                },
                ..old(self)@
            }),
    {
        if self.slot_idx != NO_SLOT {
            self.table.add_usage(self.slot_idx, device_idx, size);
        }
    }

    /// Takes bytes from this process's counter of a device, down to zero at most.
    pub fn sub_usage(&mut self, device_idx: usize, size: u64)
        requires
            old(self)@.wf(),
        ensures
            final(self)@.wf(),
            final(self)@ == (HandleState {
                table: match old(self)@.slot {
                    Some(i) => old(self)@.table.after_sub(i, device_idx, size),
                    None => old(self)@.table,
                },
                ..old(self)@
            }),
    {
        if self.slot_idx != NO_SLOT {
            self.table.sub_usage(self.slot_idx, device_idx, size);
        }
    }

    /// Empties the slots of all dead processes, and hands out each one's counters.
    pub fn reap_dead(&mut self, alive: &[u32]) -> (reaped: Vec<(u32, [u64; MAX_DEVICES])>)
        requires
            old(self)@.wf(),
        ensures
            final(self)@.wf(),
            final(self)@ == (HandleState {
                table: old(self)@.table.after_reap(alive@),
                ..old(self)@
            }),
            old(self)@.table.hands_out(alive@, reaped@),
    {
        self.table.reap_dead(alive)
    }

    /// Gives this process's slot up and returns its counters. From then on the
    /// handle counts nothing, and giving up again returns `None`.
    pub fn drain_our_slot(&mut self) -> (r: Option<[u64; MAX_DEVICES]>)
        requires
            old(self)@.wf(),
        ensures
            final(self)@.wf(),
            r is Some <==> old(self)@.slot is Some,
            final(self)@.slot is None,
            match old(self)@.slot {
                Some(i) => {
                    &&& i < MAX_PROC_SLOTS
                    &&& r->0@ == old(self)@.table.slots[i as int].used
                    &&& final(self)@.table == old(self)@.table.with_slot(i as int, fresh_slot(0))
                },
                None => final(self)@.table == old(self)@.table,
            },
    {
        let slot_idx: usize = self.slot_idx;
        self.slot_idx = NO_SLOT;
        if slot_idx == NO_SLOT {
            return None;
        }
        let usage = self.table.read_slot_usage(slot_idx);
        self.table.zero_and_release(slot_idx);
        Some(usage)
    }
}

/// Initialising a table twice is initialising it once.
pub proof fn law_initialize_is_idempotent(t: TableState)
    ensures
        ({
            let once = TableState { magic: PROC_SLOTS_MAGIC, ..t };
            once == TableState { magic: PROC_SLOTS_MAGIC, ..once }
        }),
{
}

/// Two processes never get the same slot: the second claim goes past the first.
pub proof fn law_successive_claims_differ(t: TableState, pid: u32, first: int, second: int)
    requires
        pid != 0,
        t.is_first_free(first),
        t.with_slot(first, fresh_slot(pid)).is_first_free(second),
    ensures
        first < second,
{
    let claimed = t.with_slot(first, fresh_slot(pid));
    if second < first {
        assert(t.slots[second].pid != 0);
        assert(claimed.slots[second] == t.slots[second]);
    }
}

/// A slot that is emptied in a full table is the one that the next claim gets.
pub proof fn law_emptied_slot_is_reused(t: TableState, i: int)
    requires
        t.full(),
        0 <= i < t.slots.len(),
    ensures
        t.with_slot(i, fresh_slot(0)).is_first_free(i),
{
}

/// Taking back what was just added restores the table, unless the counter wrapped
/// around.
pub proof fn law_sub_undoes_add(t: TableState, slot_idx: usize, device_idx: usize, size: u64)
    requires
        t.slots.len() == MAX_PROC_SLOTS,
        t.in_range(slot_idx, device_idx) ==> t.slots[slot_idx as int].used.len() == MAX_DEVICES
            && t.slots[slot_idx as int].used[device_idx as int] + size <= u64::MAX,
    ensures
        t.after_add(slot_idx, device_idx, size).after_sub(slot_idx, device_idx, size) == t,
{
    if t.in_range(slot_idx, device_idx) {
        assert(t.after_add(slot_idx, device_idx, size).after_sub(
            slot_idx,
            device_idx,
            size,
        ).slots[slot_idx as int].used =~= t.slots[slot_idx as int].used);
        assert(t.after_add(slot_idx, device_idx, size).after_sub(slot_idx, device_idx, size)
            =~= t);
    }
}

/// Counting on one device leaves a slot's other devices and every other slot alone.
pub proof fn law_usage_is_isolated(
    t: TableState,
    slot_idx: usize,
    device_idx: usize,
    size: u64,
    slot: int,
    device: int,
)
    requires
        t.slots.len() == MAX_PROC_SLOTS,
        0 <= slot < MAX_PROC_SLOTS,
        0 <= device < MAX_DEVICES,
        t.slots[slot].used.len() == MAX_DEVICES,
        slot != slot_idx || device != device_idx,
    ensures
        t.after_add(slot_idx, device_idx, size).slots[slot].used[device]
            == t.slots[slot].used[device],
        t.after_sub(slot_idx, device_idx, size).slots[slot].used[device]
            == t.slots[slot].used[device],
{
}

/// Reaping a second time finds nothing, whoever does it.
pub proof fn law_reaping_is_idempotent(t: TableState, alive: Seq<u32>, found: Seq<(usize, u32)>)
    requires
        t.after_reap(alive).lists_dead(alive, found),
    ensures
        found.len() == 0,
        t.after_reap(alive).after_reap(alive) == t.after_reap(alive),
{
    let once = t.after_reap(alive);
    assert forall|i: int| 0 <= i < once.slots.len() implies !once.dead(i, alive) by {}
    if found.len() > 0 {
        assert(once.dead(found[0].0 as int, alive));
    }
    assert(once.after_reap(alive) =~= once);
}

/// Reaping never touches the slot of a living process.
pub proof fn law_reaping_spares_the_living(t: TableState, alive: Seq<u32>, i: int)
    requires
        0 <= i < t.slots.len(),
        alive.contains(t.slots[i].pid),
    ensures
        t.after_reap(alive).slots[i] == t.slots[i],
{
}

/// A reaper that saw a dead owner cannot evict a process that has claimed the slot
/// since.
pub proof fn law_stale_sighting_cannot_evict(t: TableState, slot_idx: usize, seen: u32, owner: u32)
    requires
        t.slots.len() == MAX_PROC_SLOTS,
        slot_idx < MAX_PROC_SLOTS,
        seen != owner,
    ensures
        !t.with_slot(slot_idx as int, fresh_slot(owner)).reapable(slot_idx, seen),
{
}

/// One indivisible change of the owner of a slot.
pub enum OwnerStep {
    /// A process claims the slot; only an empty one can be claimed.
    Claim(u32),
    /// A reaper empties the slot on behalf of the owner it saw; this fails where
    /// the owner is another.
    Reap(u32),
    /// The slot is released by its owner.
    Release,
}

/// The owner after a step.
pub open spec fn owner_after(owner: u32, step: OwnerStep) -> u32 {
    match step {
        OwnerStep::Claim(pid) => if owner == 0 {
            pid
        } else {
            owner
        },
        OwnerStep::Reap(pid) => if pid != 0 && owner == pid {
            0
        } else {
            owner
        },
        OwnerStep::Release => 0,
    }
}

/// The owner after a sequence of steps.
pub open spec fn owner_after_all(owner: u32, steps: Seq<OwnerStep>) -> u32
    decreases steps.len(),
{
    if steps.len() == 0 {
        owner
    } else {
        owner_after(owner_after_all(owner, steps.drop_last()), steps.last())
    }
}

/// How often a process claimed the slot in a sequence of steps.
pub open spec fn claims_of(owner: u32, steps: Seq<OwnerStep>, pid: u32) -> nat
    decreases steps.len(),
{
    if steps.len() == 0 {
        0
    } else {
        claims_of(owner, steps.drop_last(), pid) + (if steps.last() == OwnerStep::Claim(pid)
            && owner_after_all(owner, steps.drop_last()) == 0 {
            1nat
        } else {
            0
        })
    }
}

/// How often the slot was reaped on behalf of a process in a sequence of steps.
pub open spec fn reaps_of(owner: u32, steps: Seq<OwnerStep>, pid: u32) -> nat
    decreases steps.len(),
{
    if steps.len() == 0 {
        0
    } else {
        reaps_of(owner, steps.drop_last(), pid) + (if steps.last() == OwnerStep::Reap(pid)
            && owner_after_all(owner, steps.drop_last()) == pid {
            1nat
        } else {
            0
        })
    }
}

/// However many reapers race for a slot, its counters are handed out at most once
/// for each time the dead process had claimed it.
pub proof fn law_each_claim_is_reaped_at_most_once(owner: u32, steps: Seq<OwnerStep>, pid: u32)
    requires
        pid != 0,
    ensures
        reaps_of(owner, steps, pid) + (if owner_after_all(owner, steps) == pid {
            1nat
        } else {
            0
        }) <= claims_of(owner, steps, pid) + (if owner == pid {
            1nat
        } else {
            0
        }),
    decreases steps.len(),
{
    if steps.len() > 0 {
        law_each_claim_is_reaped_at_most_once(owner, steps.drop_last(), pid);
    }
}

/// A slot of a new owner has counted nothing, on any of the sixteen devices.
pub proof fn law_new_owners_start_at_zero(pid: u32, d: int)
    requires
        0 <= d < 16,
    ensures
        fresh_slot(pid).pid == pid,
        fresh_slot(pid).used.len() == 16,
        fresh_slot(pid).non_hip.len() == 16,
        fresh_slot(pid).used[d] == 0,
        fresh_slot(pid).non_hip[d] == 0,
{
}

/// Counting moves one counter of one slot: up by the bytes added, down by those given back
/// to zero at most, and to what is recorded. Outside of the hundred and twenty-eight slots
/// and the sixteen devices nothing moves.
pub proof fn law_slots_count_bytes(
    t: TableState,
    slot_idx: usize,
    device_idx: usize,
    size: u64,
    i: int,
    d: int,
)
    requires
        t.slots.len() == 128,
        0 <= i < 128,
        t.slots[i].used.len() == 16,
        t.slots[i].non_hip.len() == 16,
        0 <= d < 16,
    ensures
        ({
            let hit = i == slot_idx && d == device_idx;
            let used = t.slots[i].used[d];
            let added = t.after_add(slot_idx, device_idx, size).slots[i];
            let taken = t.after_sub(slot_idx, device_idx, size).slots[i];
            let recorded = t.after_non_hip(slot_idx, device_idx, size).slots[i];
            &&& added.used[d] == (if hit {
                (used + size) % 0x1_0000_0000_0000_0000
            } else {
                used as int
            })
            &&& taken.used[d] == (if hit {
                if used >= size {
                    used - size
                } else {
                    0
                }
            } else {
                used as int
            })
            &&& recorded.non_hip[d] == (if hit {
                size
            } else {
                t.slots[i].non_hip[d]
            })
            &&& added.pid == t.slots[i].pid && added.non_hip == t.slots[i].non_hip
            &&& taken.pid == t.slots[i].pid && taken.non_hip == t.slots[i].non_hip
            &&& recorded.pid == t.slots[i].pid && recorded.used == t.slots[i].used
        }),
        slot_idx >= 128 || device_idx >= 16 ==> t.after_add(slot_idx, device_idx, size) == t
            && t.after_sub(slot_idx, device_idx, size) == t && t.after_non_hip(
            slot_idx,
            device_idx,
            size,
        ) == t,
{
}

/// The first empty slot is empty, and there is none before it; there is one unless every
/// slot is taken.
pub proof fn law_first_empty_slot(t: TableState, i: int, j: int)
    requires
        t.is_first_free(i),
        0 <= j < t.slots.len(),
    ensures
        t.slots[i].pid == 0,
        j < i ==> t.slots[j].pid != 0,
        t.is_first_free(j) ==> i == j,
        !t.full(),
{
}

/// A table without an empty slot is full, and no other is.
pub proof fn law_full_tables(t: TableState, j: int)
    requires
        0 <= j < t.slots.len(),
    ensures
        t.full() ==> t.slots[j].pid != 0,
        t.slots[j].pid == 0 ==> !t.full(),
{
}

/// A slot is that of a dead process where it has an owner who is not among the living.
/// Reaping empties exactly those, and leaves every other slot as it is.
pub proof fn law_the_dead_are_reaped(t: TableState, alive: Seq<u32>, i: int, d: int)
    requires
        0 <= i < t.slots.len(),
        0 <= d < 16,
    ensures
        t.dead(i, alive) <==> t.slots[i].pid != 0 && !alive.contains(t.slots[i].pid),
        t.after_reap(alive).slots.len() == t.slots.len(),
        t.after_reap(alive).magic == t.magic,
        t.dead(i, alive) ==> t.after_reap(alive).slots[i].pid == 0 && t.after_reap(
            alive,
        ).slots[i].used[d] == 0 && t.after_reap(alive).slots[i].non_hip[d] == 0,
        !t.dead(i, alive) ==> t.after_reap(alive).slots[i] == t.slots[i],
{
}

/// What is found dead are exactly the slots of dead processes, in order and with their
/// owners.
pub proof fn law_the_dead_are_found(
    t: TableState,
    alive: Seq<u32>,
    found: Seq<(usize, u32)>,
    k: int,
    i: int,
)
    requires
        t.lists_dead(alive, found),
        0 <= k < found.len(),
    ensures
        found[k].0 < t.slots.len(),
        found[k].1 == t.slots[found[k].0 as int].pid,
        found[k].1 != 0,
        !alive.contains(found[k].1),
        k > 0 ==> found[k - 1].0 < found[k].0,
        0 <= i < t.slots.len() && t.slots[i].pid != 0 && !alive.contains(t.slots[i].pid)
            ==> exists|l: int| 0 <= l < found.len() && (#[trigger] found[l]).0 == i,
{
    if 0 <= i < t.slots.len() && t.slots[i].pid != 0 && !alive.contains(t.slots[i].pid) {
        assert(t.dead(i, alive));
    }
}

/// Every dead process is handed out with what its slot has counted, and nobody else is.
pub proof fn law_the_dead_are_handed_out(
    t: TableState,
    alive: Seq<u32>,
    reaped: Seq<(u32, [u64; MAX_DEVICES])>,
    i: int,
) -> (k: int)
    requires
        t.hands_out(alive, reaped),
        0 <= i < t.slots.len(),
        t.slots[i].pid != 0,
        !alive.contains(t.slots[i].pid),
    ensures
        0 <= k < reaped.len(),
        reaped[k].0 == t.slots[i].pid,
        reaped[k].1@ == t.slots[i].used,
{
    let found = choose|found: Seq<(usize, u32)>|
        {
            &&& #[trigger] t.lists_dead(alive, found)
            &&& reaped.len() == found.len()
            &&& forall|k: int|
                0 <= k < found.len() ==> (#[trigger] reaped[k]).0 == found[k].1 && reaped[k].1@
                    == t.slots[found[k].0 as int].used
        };
    assert(t.dead(i, alive));
    let k = choose|k: int| 0 <= k < found.len() && (#[trigger] found[k]).0 == i;
    assert(reaped[k].0 == found[k].1);
    k
}

/// A slot is given up for a process exactly where that process still owns it.
pub proof fn law_only_the_owner_is_reaped(t: TableState, slot_idx: usize, pid: u32)
    requires
        t.slots.len() == 128,
    ensures
        t.reapable(slot_idx, pid) <==> slot_idx < 128 && pid != 0 && t.slots[slot_idx as int].pid
            == pid,
{
}

/// What all processes take outside of allocation calls is the sum over the occupied slots:
/// another slot in a place changes it by the difference, and an empty one counts nothing.
pub proof fn law_overhead_is_a_sum(
    slots: Seq<SlotState>,
    device_idx: int,
    n: nat,
    i: int,
    slot: SlotState,
)
    requires
        0 <= i < n <= slots.len(),
    ensures
        non_hip_total(slots, device_idx, 0) == 0,
        non_hip_total(slots.update(i, slot), device_idx, n) + (if slots[i].pid != 0 {
            slots[i].non_hip[device_idx] as int
        } else {
            0
        }) == non_hip_total(slots, device_idx, n) + (if slot.pid != 0 {
            slot.non_hip[device_idx] as int
        } else {
            0
        }),
    decreases n,
{
    if i < n - 1 {
        law_overhead_is_a_sum(slots, device_idx, (n - 1) as nat, i, slot);
    } else {
        lemma_total_of_others(slots, device_idx, (n - 1) as nat, i, slot);
    }
}

proof fn lemma_total_of_others(
    slots: Seq<SlotState>,
    device_idx: int,
    n: nat,
    i: int,
    slot: SlotState,
)
    requires
        n <= i < slots.len(),
    ensures
        non_hip_total(slots.update(i, slot), device_idx, n) == non_hip_total(slots, device_idx, n),
    decreases n,
{
    if n > 0 {
        lemma_total_of_others(slots, device_idx, (n - 1) as nat, i, slot);
    }
}

/// Whoever is handed out was dead, and is handed out with what its slot has counted.
pub proof fn law_only_the_dead_are_handed_out(
    t: TableState,
    alive: Seq<u32>,
    reaped: Seq<(u32, [u64; MAX_DEVICES])>,
    k: int,
) -> (i: int)
    requires
        t.hands_out(alive, reaped),
        0 <= k < reaped.len(),
    ensures
        0 <= i < t.slots.len(),
        reaped[k].0 == t.slots[i].pid,
        reaped[k].0 != 0,
        !alive.contains(reaped[k].0),
        reaped[k].1@ == t.slots[i].used,
{
    let found = choose|found: Seq<(usize, u32)>|
        {
            &&& #[trigger] t.lists_dead(alive, found)
            &&& reaped.len() == found.len()
            &&& forall|k: int|
                0 <= k < found.len() ==> (#[trigger] reaped[k]).0 == found[k].1 && reaped[k].1@
                    == t.slots[found[k].0 as int].used
        };
    assert(reaped[k].0 == found[k].1);
    assert(t.dead(found[k].0 as int, alive));
    found[k].0 as int
}

} // verus!
