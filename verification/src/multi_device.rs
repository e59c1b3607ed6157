//! Memory accounting of several devices side by side.
use crate::counter::{counter_add, counter_sub};
use crate::simulated_limiter::{empty_books, LimiterState, SimulatedLimiter};
use crate::tracker::{
    lemma_weighed_insert, lemma_weighed_remove, live, live_clear, live_insert, live_new,
    live_remove, total_bytes,
};
use dashmap::DashMap;
use vstd::prelude::*;

verus! {

/// The accounting state of several devices, as plain values.
#[verifier::ext_equal]
pub struct MultiDeviceState {
    /// One accounting per device.
    pub devices: Seq<LimiterState>,
    /// Pointer to (device index, pointer within that device's accounting).
    pub routes: Map<usize, (usize, u64)>,
    /// The pointer that the next allocation gets.
    pub next_pointer: usize,
}

/// The bytes of all live allocations of the first `n` devices.
pub open spec fn bytes_of_first(devices: Seq<LimiterState>, n: nat) -> nat
    decreases n,
{
    if n == 0 {
        0
    } else {
        bytes_of_first(devices, (n - 1) as nat) + total_bytes(devices[n - 1].live)
    }
}

/// The accounting of several devices at its start.
pub open spec fn no_allocations(device_limits: Seq<u64>) -> MultiDeviceState {
    MultiDeviceState {
        devices: device_limits.map_values(|limit: u64| empty_books(limit)),
        routes: Map::empty(),
        next_pointer: 1,
    }
}

impl MultiDeviceState {
    /// Every route leads to a device.
    pub open spec fn routed(self) -> bool {
        forall|p: usize| #[trigger]
            self.routes.dom().contains(p) ==> self.routes[p].0 < self.devices.len()
                && self.routes[p].1 <= usize::MAX
    }

    /// A request on a device is granted.
    pub open spec fn grants(self, device_idx: usize, size: u64) -> bool {
        device_idx < self.devices.len() && self.devices[device_idx as int].grants(size)
    }

    /// The state with another accounting for one device.
    pub open spec fn with_device(
        self,
        device_idx: usize,
        device: LimiterState,
    ) -> MultiDeviceState {
        MultiDeviceState { devices: self.devices.update(device_idx as int, device), ..self }
    }

    /// The state after a device's pointer was given a pointer of its own.
    pub open spec fn registered(
        self,
        device_idx: usize,
        device_pointer: usize,
        size: u64,
    ) -> MultiDeviceState {
        MultiDeviceState {
            routes: if size > 0 {
                self.routes.insert(self.next_pointer, (device_idx, device_pointer as u64))
            } else {
                self.routes
            },
            next_pointer: (if self.next_pointer == usize::MAX {
                0
            } else {
                self.next_pointer + 1
            }) as usize,
            ..self
        }
    }

    /// The state after a request on a device.
    pub open spec fn after_alloc(self, device_idx: usize, size: u64) -> MultiDeviceState {
        if device_idx >= self.devices.len() {
            self
        } else {
            let device = self.devices[device_idx as int];
            let counted = self.with_device(device_idx, device.after_alloc(size));
            if device.grants(size) {
                counted.registered(device_idx, device.next_pointer, size)
            } else {
                counted
            }
        }
    }

    /// The state after a pointer was freed; an unknown pointer changes nothing.
    pub open spec fn after_free(self, pointer: usize) -> MultiDeviceState {
        if self.routes.dom().contains(pointer) {
            let (device_idx, device_pointer) = self.routes[pointer];
            MultiDeviceState {
                devices: self.devices.update(
                    device_idx as int,
                    self.devices[device_idx as int].after_free(device_pointer as usize),
                ),
                routes: self.routes.remove(pointer),
                ..self
            }
        } else {
            self
        }
    }

    /// The state after every live allocation of every device was given back.
    pub open spec fn after_drain(self) -> MultiDeviceState {
        MultiDeviceState {
            devices: self.devices.map_values(|device: LimiterState| device.after_drain()),
            routes: Map::empty(),
            ..self
        }
    }

    /// The state after usage was added to a device that no live allocation accounts for.
    pub open spec fn after_inject(self, device_idx: usize, size: u64) -> MultiDeviceState {
        self.with_device(
            device_idx,
            LimiterState {
                used: counter_add(self.devices[device_idx as int].used, size),
                ..self.devices[device_idx as int]
            },
        )
    }

    /// What follows a denied request and a recovery that left this state.
    pub open spec fn after_reap(
        self,
        device_idx: usize,
        size: u64,
        recovered: u64,
        end: MultiDeviceState,
        r: Result<usize, ()>,
    ) -> bool {
        if recovered > 0 && self.grants(device_idx, size) {
            end == self.after_alloc(device_idx, size) && r == Ok::<usize, ()>(self.next_pointer)
        } else if recovered > 0 {
            end == self.after_alloc(device_idx, size) && r is Err
        } else {
            end == self && r is Err
        }
    }
}

/// The memory accounting of several devices. Each device has its own limit and
/// counters; pointers are unique across the devices and lead back to theirs.
pub struct MultiDeviceSimulatedLimiter {
    devices: Vec<SimulatedLimiter>,
    pointer_device_map: DashMap<usize, (usize, u64)>,
    next_pointer: usize,
}

impl View for MultiDeviceSimulatedLimiter {
    type V = MultiDeviceState;

    closed spec fn view(&self) -> MultiDeviceState {
        MultiDeviceState {
            devices: Seq::new(self.devices@.len(), |i: int| self.devices@[i]@),
            routes: live(self.pointer_device_map),
            next_pointer: self.next_pointer,
        }
    }
}

impl MultiDeviceSimulatedLimiter {
    /// One empty accounting per limit.
    pub fn new(device_limits: &[u64]) -> (limiter: Self)
        ensures
            limiter@.routed(),
            limiter@ == no_allocations(device_limits@),
    {
        let mut devices: Vec<SimulatedLimiter> = Vec::new();
        let mut i: usize = 0;
        while i < device_limits.len()
            invariant
                i <= device_limits@.len(),
                devices@.len() == i,
                forall|j: int|
                    0 <= j < i ==> (#[trigger] devices@[j])@ == empty_books(device_limits@[j]),
            decreases device_limits@.len() - i,
        {
            devices.push(SimulatedLimiter::new(device_limits[i]));
            i = i + 1;
        }
        let limiter = MultiDeviceSimulatedLimiter {
            devices,
            pointer_device_map: live_new(),
            next_pointer: 1,
        };
        assert(limiter@ =~= no_allocations(device_limits@));
        limiter
    }

    /// Gives a device's pointer a pointer that is unique across the devices, and
    /// records where it leads unless the allocation was of zero bytes.
    fn register_pointer(
        &mut self,
        device_idx: usize,
        device_pointer: usize,
        size: u64,
    ) -> (pointer: usize)
        ensures
            pointer == old(self)@.next_pointer,
            final(self)@ == old(self)@.registered(device_idx, device_pointer, size),
    {
        let pointer: usize = self.next_pointer;
        self.next_pointer = pointer.wrapping_add(1);
        if size > 0 {
            live_insert(&mut self.pointer_device_map, pointer, (device_idx, device_pointer as u64));
        }
        assert(self@.devices =~= old(self)@.devices);
        pointer
    }

    /// Attempts an allocation on one device. A device that does not exist denies.
    pub fn try_alloc(&mut self, device_idx: usize, size: u64) -> (r: Result<usize, ()>)
        requires
            old(self)@.routed(),
        ensures
            r == (if old(self)@.grants(device_idx, size) {
                Ok(old(self)@.next_pointer)
            } else {
                Err(())
            }),
            final(self)@ == old(self)@.after_alloc(device_idx, size),
            final(self)@.routed(),
    {
        if device_idx >= self.devices.len() {
            return Err(());
        }
        let attempt = self.devices[device_idx].try_alloc(size);
        assert(self@ =~= old(self)@.with_device(device_idx, self@.devices[device_idx as int]));
        match attempt {
            Ok(device_pointer) => Ok(self.register_pointer(device_idx, device_pointer, size)),
            Err(_) => Err(()),
        }
    }

    /// Gives an allocation back on the device that made it. Returns whether the
    /// pointer was recorded there.
    pub fn free(&mut self, pointer: usize) -> (known: bool)
        requires
            old(self)@.routed(),
        ensures
            known == (old(self)@.routes.dom().contains(pointer) && ({
                let (device_idx, device_pointer) = old(self)@.routes[pointer];
                old(self)@.devices[device_idx as int].live.dom().contains(device_pointer as usize)
            })),
            final(self)@ == old(self)@.after_free(pointer),
            final(self)@.routed(),
    {
        match live_remove(&mut self.pointer_device_map, pointer) {
            None => {
                assert(self@ =~= old(self)@);
                false
            },
            Some(route) => {
                assert(old(self)@.routes.dom().contains(pointer));
                let known = self.devices[route.0].free(route.1 as usize);
                assert(self@ =~= old(self)@.after_free(pointer));
                known
            },
        }
    }

    /// Gives every live allocation of every device back and returns their bytes.
    pub fn drain_allocations(&mut self) -> (total: u64)
        requires
            bytes_of_first(old(self)@.devices, old(self)@.devices.len()) <= u64::MAX,
        ensures
            total == bytes_of_first(old(self)@.devices, old(self)@.devices.len()),
            final(self)@ == old(self)@.after_drain(),
    {
        live_clear(&mut self.pointer_device_map);
        let mut total: u64 = 0;
        let mut i: usize = 0;
        let ghost before = old(self)@.devices;
        while i < self.devices.len()
            invariant
                i <= self.devices@.len(),
                self.devices@.len() == before.len(),
                bytes_of_first(before, before.len()) <= u64::MAX,
                total == bytes_of_first(before, i as nat),
                forall|j: int|
                    0 <= j < i ==> (#[trigger] self.devices@[j])@ == before[j].after_drain(),
                forall|j: int|
                    i <= j < before.len() ==> (#[trigger] self.devices@[j])@ == before[j],
                live(self.pointer_device_map).dom() == Set::<usize>::empty(),
                self.next_pointer == old(self)@.next_pointer,
            decreases before.len() - i,
        {
            proof {
                lemma_bytes_of_first_grows(before, (i + 1) as nat, before.len());
            }
            assert(bytes_of_first(before, (i + 1) as nat) == bytes_of_first(before, i as nat)
                + total_bytes(before[i as int].live));
            let drained: u64 = self.devices[i].drain_allocations();
            total = total + drained;
            i = i + 1;
        }
        assert(self@ =~= old(self)@.after_drain());
        total
    }

    /// A device's pod-wide usage in bytes.
    pub fn pod_memory_used(&self, device_idx: usize) -> (used: u64)
        requires
            device_idx < self@.devices.len(),
        ensures
            used == self@.devices[device_idx as int].used,
    {
        self.devices[device_idx].pod_memory_used()
    }

    /// The number of devices.
    pub fn device_count(&self) -> (n: usize)
        ensures
            n == self@.devices.len(),
    {
        self.devices.len()
    }

    /// The usage of this process on a device in bytes.
    pub fn proc_usage(&self, device_idx: usize) -> (used: u64)
        requires
            device_idx < self@.devices.len(),
        ensures
            used == self@.devices[device_idx as int].proc_usage,
    {
        self.devices[device_idx].proc_usage()
    }

    /// Adds usage to a device that no live allocation accounts for.
    pub fn inject_stale_usage(&mut self, device_idx: usize, size: u64)
        requires
            device_idx < old(self)@.devices.len(),
        ensures
            final(self)@ == old(self)@.after_inject(device_idx, size),
    {
        self.devices[device_idx].inject_stale_usage(size);
        assert(self@ =~= old(self)@.with_device(device_idx, self@.devices[device_idx as int]));
    }

    /// Takes usage back from a device that no live allocation accounts for.
    pub fn recover_stale_usage(&mut self, device_idx: usize, size: u64)
        requires
            device_idx < old(self)@.devices.len(),
        ensures
            final(self)@ == old(self)@.with_device(
                device_idx,
                (LimiterState {
                    used: counter_sub(old(self)@.devices[device_idx as int].used, size),
                    ..old(self)@.devices[device_idx as int]
                }),
            ),
    {
        self.devices[device_idx].recover_stale_usage(size);
        assert(self@ =~= old(self)@.with_device(device_idx, self@.devices[device_idx as int]));
    }

    /// Attempts an allocation on one device, and where it is denied lets `reap_fn`
    /// recover stale usage. Where that returns anything above zero the attempt is
    /// made once more. A device that does not exist denies at once.
    pub fn try_alloc_with_reap(
        &mut self,
        device_idx: usize,
        size: u64,
        reap_fn: impl FnOnce(&mut Self) -> u64,
    ) -> (r: Result<usize, ()>)
        requires
            old(self)@.routed(),
            forall|l: &mut Self|
                l@ == old(self)@.after_alloc(device_idx, size) ==> #[trigger] call_requires(
                    reap_fn,
                    (l,),
                ),
            forall|l: &mut Self, recovered: u64| #[trigger]
                call_ensures(reap_fn, (l,), recovered) && l@ == old(self)@.after_alloc(
                    device_idx,
                    size,
                ) ==> final(l)@.routed() && final(l)@.devices.len() == l@.devices.len(),
        ensures
            final(self)@.routed(),
            device_idx >= old(self)@.devices.len() ==> r is Err && final(self)@ == old(self)@,
            old(self)@.grants(device_idx, size) ==> r == Ok::<usize, ()>(old(self)@.next_pointer)
                && final(self)@ == old(self)@.after_alloc(device_idx, size),
            device_idx < old(self)@.devices.len() && !old(self)@.grants(device_idx, size)
                ==> exists|l: &mut Self, recovered: u64|
                {
                    &&& l@ == old(self)@.after_alloc(device_idx, size)
                    &&& #[trigger] call_ensures(reap_fn, (l,), recovered)
                    &&& final(l)@.after_reap(device_idx, size, recovered, final(self)@, r)
                },
    {
        if device_idx >= self.devices.len() {
            return Err(());
        }
        match self.try_alloc(device_idx, size) {
            Ok(pointer) => Ok(pointer),
            Err(_) => {
                let recovered: u64 = reap_fn(self);
                if recovered > 0 {
                    self.try_alloc(device_idx, size)
                } else {
                    Err(())
                }
            },
        }
    }
}

/// The bytes of more devices are no fewer.
proof fn lemma_bytes_of_first_grows(devices: Seq<LimiterState>, n: nat, m: nat)
    requires
        n <= m,
    ensures
        bytes_of_first(devices, n) <= bytes_of_first(devices, m),
    decreases m - n,
{
    if n < m {
        lemma_bytes_of_first_grows(devices, n + 1, m);
    }
}

/// A request on one device leaves every other device alone.
pub proof fn law_alloc_leaves_other_devices(
    s: MultiDeviceState,
    device_idx: usize,
    size: u64,
    other: int,
)
    requires
        0 <= other < s.devices.len(),
        other != device_idx,
    ensures
        s.after_alloc(device_idx, size).devices[other] == s.devices[other],
{
}

impl MultiDeviceState {
    /// Every recorded pointer leads to a live allocation of its own, and pointers
    /// still to be handed out are not in use.
    pub open spec fn faithful(self) -> bool {
        &&& self.routed()
        &&& forall|p: usize| #[trigger]
            self.routes.dom().contains(p) ==> p < self.next_pointer
                && self.devices[self.routes[p].0 as int].live.dom().contains(
                self.routes[p].1 as usize,
            )
        &&& forall|p: usize, q: usize|
            #![trigger self.routes.dom().contains(p), self.routes.dom().contains(q)]
            self.routes.dom().contains(p) && self.routes.dom().contains(q) && p != q
                ==> self.routes[p] != self.routes[q]
        &&& forall|i: int, p: usize|
            #![trigger self.devices[i].live.dom().contains(p)]
            0 <= i < self.devices.len() && self.devices[i].live.dom().contains(p) ==> p
                < self.devices[i].next_pointer
    }
}

/// A request keeps every recorded pointer leading to a live allocation of its own,
/// as long as pointers are left.
pub proof fn law_alloc_keeps_pointers_faithful(s: MultiDeviceState, device_idx: usize, size: u64)
    requires
        s.faithful(),
        s.next_pointer < usize::MAX,
        device_idx < s.devices.len() ==> s.devices[device_idx as int].next_pointer < usize::MAX,
    ensures
        s.after_alloc(device_idx, size).faithful(),
{
    if device_idx < s.devices.len() {
        let end = s.after_alloc(device_idx, size);
        let device = s.devices[device_idx as int];
        assert forall|p: usize, q: usize|
            #![trigger end.routes.dom().contains(p), end.routes.dom().contains(q)]
            end.routes.dom().contains(p) && end.routes.dom().contains(q) && p
                != q implies end.routes[p] != end.routes[q] by {
            if p == s.next_pointer && s.grants(device_idx, size) {
                assert(s.routes.dom().contains(q));
            } else if q == s.next_pointer && s.grants(device_idx, size) {
                assert(s.routes.dom().contains(p));
            }
        }
        assert forall|p: usize| #[trigger] end.routes.dom().contains(p) implies p
            < end.next_pointer && end.devices[end.routes[p].0 as int].live.dom().contains(
            end.routes[p].1 as usize,
        ) by {
            if s.routes.dom().contains(p) {
                assert(s.devices[s.routes[p].0 as int].live.dom().contains(
                    s.routes[p].1 as usize,
                ));
            }
        }
        assert forall|i: int, p: usize|
            #![trigger end.devices[i].live.dom().contains(p)]
            0 <= i < end.devices.len() && end.devices[i].live.dom().contains(p) implies p
            < end.devices[i].next_pointer by {
            if i != device_idx || p != device.next_pointer {
                assert(s.devices[i].live.dom().contains(p));
            }
        }
    }
}

/// Giving a pointer back keeps every other recorded pointer leading to a live
/// allocation of its own; so a recorded pointer can always be given back.
pub proof fn law_free_keeps_pointers_faithful(s: MultiDeviceState, pointer: usize)
    requires
        s.faithful(),
    ensures
        s.after_free(pointer).faithful(),
        s.routes.dom().contains(pointer)
            ==> s.devices[s.routes[pointer].0 as int].live.dom().contains(
            s.routes[pointer].1 as usize,
        ),
{
    let end = s.after_free(pointer);
    if s.routes.dom().contains(pointer) {
        assert forall|p: usize| #[trigger] end.routes.dom().contains(p) implies p
            < end.next_pointer && end.devices[end.routes[p].0 as int].live.dom().contains(
            end.routes[p].1 as usize,
        ) by {
            assert(s.routes.dom().contains(p));
            assert(s.routes[p] != s.routes[pointer]);
        }
        assert forall|i: int, p: usize|
            #![trigger end.devices[i].live.dom().contains(p)]
            0 <= i < end.devices.len() && end.devices[i].live.dom().contains(p) implies p
            < end.devices[i].next_pointer by {
            assert(s.devices[i].live.dom().contains(p));
        }
        assert forall|p: usize, q: usize|
            #![trigger end.routes.dom().contains(p), end.routes.dom().contains(q)]
            end.routes.dom().contains(p) && end.routes.dom().contains(q) && p
                != q implies end.routes[p] != end.routes[q] by {
            assert(s.routes.dom().contains(p) && s.routes.dom().contains(q));
        }
    }
}

/// Freeing a pointer a second time changes nothing.
pub proof fn law_second_routed_free_changes_nothing(s: MultiDeviceState, pointer: usize)
    ensures
        !s.after_free(pointer).routes.dom().contains(pointer),
        s.after_free(pointer).after_free(pointer) == s.after_free(pointer),
{
}

/// Draining keeps every recorded pointer leading to a live allocation of its own: there
/// are none left.
pub proof fn law_drain_keeps_pointers_faithful(s: MultiDeviceState)
    requires
        s.faithful(),
    ensures
        s.after_drain().faithful(),
        s.after_drain().routes.dom() == Set::<usize>::empty(),
{
    assert(s.after_drain().routes.dom() =~= Set::<usize>::empty());
}

/// A recorded pointer is given back to the device that handed it out: its recorded size
/// is taken from the two counters of that device, and every other device is left alone.
pub proof fn law_free_reaches_its_device(s: MultiDeviceState, pointer: usize)
    requires
        s.faithful(),
        s.routes.dom().contains(pointer),
    ensures
        ({
            let (device_idx, device_pointer) = s.routes[pointer];
            let device = s.devices[device_idx as int];
            let size = device.live[device_pointer as usize].1;
            let end = s.after_free(pointer);
            &&& device.live.dom().contains(device_pointer as usize)
            &&& end.devices.len() == s.devices.len()
            &&& end.devices[device_idx as int] == (LimiterState {
                used: counter_sub(device.used, size),
                proc_usage: counter_sub(device.proc_usage, size),
                live: device.live.remove(device_pointer as usize),
                ..device
            })
            &&& forall|i: int|
                0 <= i < s.devices.len() && i != device_idx ==> #[trigger] end.devices[i]
                    == s.devices[i]
        }),
{
}

/// One thing that can be asked of the accounting of several devices.
pub enum RoutedRequest {
    /// An allocation on a device of so many bytes.
    Alloc(usize, u64),
    /// A pointer to give back.
    Free(usize),
    /// Everything at once to give back.
    Drain,
    /// So much stale usage to add to a device.
    Inject(usize, u64),
}

impl LimiterState {
    /// The usage of the process is the bytes of its live allocations, and the usage of the
    /// pod covers them.
    pub open spec fn covered(self) -> bool {
        &&& self.live.dom().finite()
        &&& self.proc_usage == total_bytes(self.live)
        &&& self.used >= total_bytes(self.live)
    }
}

impl MultiDeviceState {
    /// Pointers are faithful, counters cover the allocations, and the devices hand out no
    /// more pointers than there are across the devices.
    pub open spec fn in_order(self) -> bool {
        &&& self.faithful()
        &&& forall|i: int|
            0 <= i < self.devices.len() ==> (#[trigger] self.devices[i]).covered()
                && self.devices[i].next_pointer <= self.next_pointer
    }

    /// The state after one request.
    pub open spec fn after(self, request: RoutedRequest) -> MultiDeviceState {
        match request {
            RoutedRequest::Alloc(device_idx, size) => self.after_alloc(device_idx, size),
            RoutedRequest::Free(pointer) => self.after_free(pointer),
            RoutedRequest::Drain => self.after_drain(),
            RoutedRequest::Inject(device_idx, size) => self.after_inject(device_idx, size),
        }
    }

    /// The request is in order: stale usage is of a device, and can be counted there.
    pub open spec fn serves(self, request: RoutedRequest) -> bool {
        request matches RoutedRequest::Inject(device_idx, size) ==> device_idx
            < self.devices.len() && self.devices[device_idx as int].used + size <= u64::MAX
    }

    /// The state after a sequence of requests.
    pub open spec fn after_all(self, requests: Seq<RoutedRequest>) -> MultiDeviceState
        decreases requests.len(),
    {
        if requests.len() == 0 {
            self
        } else {
            self.after_all(requests.drop_last()).after(requests.last())
        }
    }

    /// Every request of a sequence is in order when its turn comes.
    pub open spec fn serves_all(self, requests: Seq<RoutedRequest>) -> bool
        decreases requests.len(),
    {
        requests.len() > 0 ==> self.serves_all(requests.drop_last()) && self.after_all(
            requests.drop_last(),
        ).serves(requests.last())
    }

    /// A pointer leads to an allocation of so many bytes on a device.
    pub open spec fn leads_to(self, pointer: usize, device_idx: usize, size: u64) -> bool {
        &&& self.routes.dom().contains(pointer)
        &&& self.routes[pointer].0 == device_idx
        &&& device_idx < self.devices.len()
        &&& self.devices[device_idx as int].live.dom().contains(self.routes[pointer].1 as usize)
        &&& self.devices[device_idx as int].live[self.routes[pointer].1 as usize].1 == size
    }
}

/// One request keeps the accounting in order, as long as pointers are left.
proof fn lemma_request_keeps_order(s: MultiDeviceState, request: RoutedRequest)
    requires
        s.in_order(),
        s.serves(request),
        s.next_pointer < usize::MAX,
    ensures
        s.after(request).in_order(),
        s.after(request).next_pointer <= s.next_pointer + 1,
        s.after(request).devices.len() == s.devices.len(),
{
    let end = s.after(request);
    let w = |e: (usize, u64)| e.1 as nat;
    match request {
        RoutedRequest::Alloc(device_idx, size) => {
            if device_idx < s.devices.len() {
                let device = s.devices[device_idx as int];
                assert(device.covered() && device.next_pointer <= s.next_pointer);
                law_alloc_keeps_pointers_faithful(s, device_idx, size);
                assert(!device.live.dom().contains(device.next_pointer));
                if size > 0 && device.grants(size) {
                    lemma_weighed_insert(device.live, w, device.next_pointer, (0usize, size));
                }
            }
        },
        RoutedRequest::Free(pointer) => {
            law_free_keeps_pointers_faithful(s, pointer);
            if s.routes.dom().contains(pointer) {
                let (device_idx, device_pointer) = s.routes[pointer];
                let device = s.devices[device_idx as int];
                assert(device.covered());
                if device.live.dom().contains(device_pointer as usize) {
                    lemma_weighed_remove(device.live, w, device_pointer as usize);
                }
            }
        },
        RoutedRequest::Drain => {
            law_drain_keeps_pointers_faithful(s);
            assert forall|i: int| 0 <= i < end.devices.len() implies (
            #[trigger] end.devices[i]).covered() && end.devices[i].next_pointer
                <= end.next_pointer by {
                assert(s.devices[i].covered() && s.devices[i].next_pointer <= s.next_pointer);
                assert(total_bytes(end.devices[i].live) == 0);
            }
        },
        RoutedRequest::Inject(device_idx, size) => {
            assert(s.devices[device_idx as int].covered());
            lemma_inject_keeps_pointers_faithful(s, device_idx, size);
        },
    }
}

/// Stale usage is no pointer's.
proof fn lemma_inject_keeps_pointers_faithful(s: MultiDeviceState, device_idx: usize, size: u64)
    requires
        s.faithful(),
        device_idx < s.devices.len(),
    ensures
        s.after_inject(device_idx, size).faithful(),
{
    let end = s.after_inject(device_idx, size);
    assert forall|i: int| 0 <= i < s.devices.len() implies (#[trigger] end.devices[i]).live
        == s.devices[i].live && end.devices[i].next_pointer == s.devices[i].next_pointer by {}
    assert forall|i: int, p: usize|
        #![trigger end.devices[i].live.dom().contains(p)]
        0 <= i < end.devices.len() && end.devices[i].live.dom().contains(p) implies p
        < end.devices[i].next_pointer by {
        assert(s.devices[i].live.dom().contains(p));
    }
}

/// Whatever is asked of a new accounting, pointers stay faithful and the counters cover
/// the allocations.
pub proof fn law_routed_requests_keep_order(
    device_limits: Seq<u64>,
    requests: Seq<RoutedRequest>,
)
    requires
        requests.len() < usize::MAX,
        no_allocations(device_limits).serves_all(requests),
    ensures
        no_allocations(device_limits).after_all(requests).in_order(),
        no_allocations(device_limits).after_all(requests).devices.len() == device_limits.len(),
        no_allocations(device_limits).after_all(requests).next_pointer <= 1 + requests.len(),
    decreases requests.len(),
{
    let start = no_allocations(device_limits);
    if requests.len() == 0 {
        assert forall|i: int| 0 <= i < start.devices.len() implies (
        #[trigger] start.devices[i]).covered() && start.devices[i].next_pointer
            <= start.next_pointer by {
            assert(total_bytes(start.devices[i].live) == 0);
        }
    } else {
        law_routed_requests_keep_order(device_limits, requests.drop_last());
        lemma_request_keeps_order(start.after_all(requests.drop_last()), requests.last());
    }
}

/// A pointer keeps leading to its allocation while it is neither freed nor drained.
proof fn lemma_pointer_stays(
    s: MultiDeviceState,
    requests: Seq<RoutedRequest>,
    pointer: usize,
    device_idx: usize,
    size: u64,
)
    requires
        s.in_order(),
        s.leads_to(pointer, device_idx, size),
        s.next_pointer + requests.len() <= usize::MAX,
        s.serves_all(requests),
        forall|i: int|
            0 <= i < requests.len() ==> !(#[trigger] requests[i] is Drain) && requests[i]
                != RoutedRequest::Free(pointer),
    ensures
        s.after_all(requests).in_order(),
        s.after_all(requests).leads_to(pointer, device_idx, size),
        s.after_all(requests).next_pointer <= s.next_pointer + requests.len(),
    decreases requests.len(),
{
    if requests.len() > 0 {
        let rest = requests.drop_last();
        assert forall|i: int| 0 <= i < rest.len() implies !(#[trigger] rest[i] is Drain) && rest[i]
            != RoutedRequest::Free(pointer) by {
            assert(rest[i] == requests[i]);
        }
        lemma_pointer_stays(s, rest, pointer, device_idx, size);
        let before = s.after_all(rest);
        let request = requests.last();
        assert(request == requests[requests.len() - 1]);
        lemma_request_keeps_order(before, request);
        let at = before.routes[pointer].1 as usize;
        assert(before.devices[device_idx as int].live.dom().contains(at));
        match request {
            RoutedRequest::Free(q) => {
                if before.routes.dom().contains(q) {
                    assert(before.routes[q] != before.routes[pointer]);
                    assert(before.routes[q].1 <= usize::MAX);
                }
            },
            _ => {},
        }
    }
}

/// A pointer that was handed out for more than zero bytes, and neither freed nor drained
/// since, can be given back at any time: the counters of its device fall by exactly its
/// size, those of every other device stay, and giving it back once more changes nothing.
pub proof fn law_routed_free_gives_its_size_back(
    device_limits: Seq<u64>,
    before: Seq<RoutedRequest>,
    device_idx: usize,
    size: u64,
    between: Seq<RoutedRequest>,
)
    requires
        before.len() + 1 + between.len() < usize::MAX,
        no_allocations(device_limits).serves_all(before),
        size > 0,
        no_allocations(device_limits).after_all(before).grants(device_idx, size),
        no_allocations(device_limits).after_all(before).after_alloc(device_idx, size).serves_all(
            between,
        ),
        forall|i: int|
            0 <= i < between.len() ==> !(#[trigger] between[i] is Drain) && between[i]
                != RoutedRequest::Free(
                no_allocations(device_limits).after_all(before).next_pointer,
            ),
    ensures
        ({
            let allocating = no_allocations(device_limits).after_all(before);
            let pointer = allocating.next_pointer;
            let s = allocating.after_alloc(device_idx, size).after_all(between);
            let end = s.after_free(pointer);
            &&& s.leads_to(pointer, device_idx, size)
            &&& end.devices[device_idx as int].used == s.devices[device_idx as int].used - size
            &&& end.devices[device_idx as int].proc_usage
                == s.devices[device_idx as int].proc_usage - size
            &&& forall|i: int|
                0 <= i < s.devices.len() && i != device_idx ==> #[trigger] end.devices[i]
                    == s.devices[i]
            &&& !end.routes.dom().contains(pointer)
            &&& end.after_free(pointer) == end
        }),
{
    law_routed_requests_keep_order(device_limits, before);
    let allocating = no_allocations(device_limits).after_all(before);
    let pointer = allocating.next_pointer;
    let request = RoutedRequest::Alloc(device_idx, size);
    lemma_request_keeps_order(allocating, request);
    let allocated = allocating.after_alloc(device_idx, size);
    assert(allocated == allocating.after(request));
    assert(allocated.leads_to(pointer, device_idx, size));
    lemma_pointer_stays(allocated, between, pointer, device_idx, size);
    let s = allocated.after_all(between);
    let device = s.devices[device_idx as int];
    assert(device.covered());
    lemma_weighed_remove(
        device.live,
        |e: (usize, u64)| e.1 as nat,
        s.routes[pointer].1 as usize,
    );
}

/// A request goes to the device that it names and to that alone: it is granted by that
/// device's limit, and where it asks for anything the pointer leads there. A device that does
/// not exist denies.
pub proof fn law_requests_go_to_their_device(
    s: MultiDeviceState,
    device_idx: usize,
    size: u64,
    other: int,
)
    ensures
        device_idx >= s.devices.len() ==> !s.grants(device_idx, size) && s.after_alloc(
            device_idx,
            size,
        ) == s,
        device_idx < s.devices.len() ==> {
            let device = s.devices[device_idx as int];
            let end = s.after_alloc(device_idx, size);
            &&& s.grants(device_idx, size) <==> device.grants(size)
            &&& end.devices.len() == s.devices.len()
            &&& end.devices[device_idx as int] == device.after_alloc(size)
            &&& 0 <= other < s.devices.len() && other != device_idx ==> end.devices[other]
                == s.devices[other]
            &&& device.grants(size) && size > 0 ==> end.routes == s.routes.insert(
                s.next_pointer,
                (device_idx, device.next_pointer as u64),
            )
            &&& !device.grants(size) || size == 0 ==> end.routes == s.routes
            &&& device.grants(size) && s.next_pointer < usize::MAX ==> end.next_pointer
                == s.next_pointer + 1
        },
{
}

/// New devices have nothing in use, each its own limit, and no pointer leads anywhere.
pub proof fn law_new_devices_are_empty(device_limits: Seq<u64>, i: int)
    requires
        0 <= i < device_limits.len(),
    ensures
        no_allocations(device_limits).devices.len() == device_limits.len(),
        no_allocations(device_limits).devices[i].mem_limit == device_limits[i],
        no_allocations(device_limits).devices[i].used == 0,
        no_allocations(device_limits).devices[i].live.dom().len() == 0,
        no_allocations(device_limits).routes.dom().len() == 0,
{
}

/// A drain gives back on every device what the process holds there, and its total is the sum
/// over the devices.
pub proof fn law_drains_reach_every_device(s: MultiDeviceState, i: int, n: nat)
    requires
        0 <= i < s.devices.len(),
        n < s.devices.len(),
    ensures
        s.after_drain().devices.len() == s.devices.len(),
        s.after_drain().devices[i] == s.devices[i].after_drain(),
        s.after_drain().routes.dom().len() == 0,
        bytes_of_first(s.devices, 0) == 0,
        bytes_of_first(s.devices, n + 1) == bytes_of_first(s.devices, n) + total_bytes(
            s.devices[n as int].live,
        ),
{
}

/// After a denial and a recovery one more attempt is made exactly where something was
/// recovered.
pub proof fn law_one_more_attempt_on_a_device(
    s: MultiDeviceState,
    device_idx: usize,
    size: u64,
    recovered: u64,
    end: MultiDeviceState,
    r: Result<usize, ()>,
)
    requires
        s.after_reap(device_idx, size, recovered, end, r),
    ensures
        r is Ok <==> recovered > 0 && s.grants(device_idx, size),
        r is Ok ==> r->Ok_0 == s.next_pointer,
        recovered == 0 ==> end == s,
        recovered > 0 ==> end == s.after_alloc(device_idx, size),
{
}

} // verus!
