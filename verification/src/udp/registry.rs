//! The flow registry of one rule: which source is talking to which port of
//! the rule, under one cap for the whole rule.
//!
//! A slot is `Pending` from the moment a new source is admitted until its
//! upstream socket is connected, and `Live` from then on. Pending and live
//! slots both count against the cap.

use dashmap::DashMap;
use vstd::prelude::*;

use crate::addr::SocketAddr;

verus! {

/// One client source on one listen port. The same source on two ports of a
/// range rule is two flows.
#[derive(Clone, Copy, Debug, PartialEq, Eq, Hash, Structural)]
pub struct FlowKey {
    pub listen_port: u16,
    pub src: SocketAddr,
}

/// Names a flow. The flow itself is owned by whoever opened its socket.
#[derive(Clone, Copy, Debug, PartialEq, Eq, Hash, Structural)]
pub struct FlowId(pub u64);

/// What the registry holds for a key.
#[derive(Clone, Copy, Debug, PartialEq, Eq, Structural)]
pub enum Slot {
    /// Admitted, its upstream not connected yet.
    Pending,
    /// Connected.
    Live(FlowId),
}

/// A key as integers: listen port, address family, address, source port, flow
/// label, scope.
pub type RawKey = (u16, u8, u128, u16, u32, u32);

/// A slot as an integer: `None` is pending, `Some` is the live flow.
pub type RawSlot = Option<u64>;

impl FlowKey {
    pub fn new(listen_port: u16, src: SocketAddr) -> (key: FlowKey)
        ensures
            key.listen_port == listen_port,
            key.src == src,
    {
        FlowKey { listen_port, src }
    }

    pub open spec fn spec_raw(self) -> RawKey {
        match self.src {
            SocketAddr::V4 { ip, port } => (self.listen_port, 4u8, ip as u128, port, 0u32, 0u32),
            SocketAddr::V6 { ip, port, flowinfo, scope_id } => (
                self.listen_port,
                6u8,
                ip,
                port,
                flowinfo,
                scope_id,
            ),
        }
    }

    fn raw(&self) -> (raw: RawKey)
        ensures
            raw == self.spec_raw(),
    {
        match self.src {
            SocketAddr::V4 { ip, port } => (self.listen_port, 4u8, ip as u128, port, 0u32, 0u32),
            SocketAddr::V6 { ip, port, flowinfo, scope_id } => (
                self.listen_port,
                6u8,
                ip,
                port,
                flowinfo,
                scope_id,
            ),
        }
    }

    /// The key that a tuple of integers stands for.
    spec fn spec_from_raw(raw: RawKey) -> FlowKey {
        if raw.1 == 4 {
            FlowKey { listen_port: raw.0, src: SocketAddr::V4 { ip: raw.2 as u32, port: raw.3 } }
        } else {
            FlowKey {
                listen_port: raw.0,
                src: SocketAddr::V6 {
                    ip: raw.2,
                    port: raw.3,
                    flowinfo: raw.4,
                    scope_id: raw.5,
                },
            }
        }
    }

    fn from_raw(raw: RawKey) -> (key: FlowKey)
        ensures
            key == FlowKey::spec_from_raw(raw),
    {
        if raw.1 == 4 {
            FlowKey { listen_port: raw.0, src: SocketAddr::V4 { ip: raw.2 as u32, port: raw.3 } }
        } else {
            FlowKey {
                listen_port: raw.0,
                src: SocketAddr::V6 {
                    ip: raw.2,
                    port: raw.3,
                    flowinfo: raw.4,
                    scope_id: raw.5,
                },
            }
        }
    }

    proof fn lemma_raw_round_trip(self)
        ensures
            FlowKey::spec_from_raw(self.spec_raw()) == self,
    {
    }
}

/// Declares `dashmap::DashMap`, a hash map split into locked shards.
#[verifier::external_type_specification]
#[verifier::external_body]
#[verifier::reject_recursive_types(K)]
#[verifier::reject_recursive_types(V)]
#[verifier::reject_recursive_types(S)]
pub struct ExDashMap<K, V, S>(dashmap::DashMap<K, V, S>);

/// What a map of slots holds.
pub uninterp spec fn slot_contents(map: DashMap<RawKey, RawSlot>) -> Map<RawKey, RawSlot>;

/// `DashMap::new`: the map holds nothing.
#[verifier::external_body]
fn slots_new() -> (created: DashMap<RawKey, RawSlot>)
    ensures
        slot_contents(created).dom() =~= Set::<RawKey>::empty(),
{
    DashMap::new()
}

/// `DashMap::get`: the value stored under the key, if there is one.
#[verifier::external_body]
fn slots_get(map: &DashMap<RawKey, RawSlot>, key: RawKey) -> (found: Option<RawSlot>)
    ensures
        found == (if slot_contents(*map).dom().contains(key) {
            Some(slot_contents(*map)[key])
        } else {
            None
        }),
{
    map.get(&key).map(|entry| *entry.value())
}

/// `DashMap::insert`: the key now maps to the value, whatever it mapped to
/// before; no other key changes. Returns the value that was replaced.
#[verifier::external_body]
fn slots_insert(map: &mut DashMap<RawKey, RawSlot>, key: RawKey, slot: RawSlot) -> (replaced:
    Option<RawSlot>)
    ensures
        slot_contents(*final(map)) == slot_contents(*old(map)).insert(key, slot),
        replaced == (if slot_contents(*old(map)).dom().contains(key) {
            Some(slot_contents(*old(map))[key])
        } else {
            None
        }),
{
    map.insert(key, slot)
}

/// `DashMap::remove`: the key is gone, no other key changes. Returns the value
/// that was removed.
#[verifier::external_body]
fn slots_remove(map: &mut DashMap<RawKey, RawSlot>, key: RawKey) -> (removed: Option<RawSlot>)
    ensures
        slot_contents(*final(map)) == slot_contents(*old(map)).remove(key),
        removed == (if slot_contents(*old(map)).dom().contains(key) {
            Some(slot_contents(*old(map))[key])
        } else {
            None
        }),
{
    map.remove(&key).map(|entry| entry.1)
}

/// `DashMap::iter`: every entry once. The order in which they come is left
/// open: it follows a hasher that each map seeds for itself.
#[verifier::external_body]
fn slots_iter(map: &DashMap<RawKey, RawSlot>) -> (entries: Vec<(RawKey, RawSlot)>)
    ensures
        forall|i: int, j: int|
            0 <= i < j < entries@.len() ==> (#[trigger] entries@[i]).0 != (
            #[trigger] entries@[j]).0,
        forall|i: int|
            0 <= i < entries@.len() ==> slot_contents(*map).dom().contains(
                (#[trigger] entries@[i]).0,
            ) && slot_contents(*map)[entries@[i].0] == entries@[i].1,
        forall|key: RawKey| #[trigger]
            slot_contents(*map).dom().contains(key) ==> exists|i: int|
                0 <= i < entries@.len() && (#[trigger] entries@[i]).0 == key,
{
    map.iter().map(|entry| (*entry.key(), *entry.value())).collect()
}

/// The flow registry of one rule.
pub struct UdpFlowRegistry {
    inner: DashMap<RawKey, RawSlot>,
    cap: usize,
    dropped_overflow: u64,
    occupancy: usize,
}

/// The right to turn one pending slot into a live one.
pub struct Reservation {
    key: FlowKey,
}

/// What [`UdpFlowRegistry::try_get_or_reserve`] found.
pub enum TryGetOrReserve {
    /// The key has a live flow.
    Existing(FlowId),
    /// The key had no slot and now has a pending one.
    Reserved(Reservation),
    /// No slot was to be had; the datagram is to be dropped.
    CapExhausted,
}

spec fn slot_of_raw(raw: RawSlot) -> Slot {
    match raw {
        None => Slot::Pending,
        Some(id) => Slot::Live(FlowId(id)),
    }
}

impl Reservation {
    pub closed spec fn spec_key(self) -> FlowKey {
        self.key
    }

    pub fn key(&self) -> (key: FlowKey)
        ensures
            key == self.spec_key(),
    {
        self.key
    }
}

impl UdpFlowRegistry {
    /// The slots of the registry, by key.
    pub closed spec fn slots(&self) -> Map<FlowKey, Slot> {
        Map::new(
            |key: FlowKey| slot_contents(self.inner).dom().contains(key.spec_raw()),
            |key: FlowKey| slot_of_raw(slot_contents(self.inner)[key.spec_raw()]),
        )
    }

    pub closed spec fn spec_cap(&self) -> usize {
        self.cap
    }

    pub closed spec fn spec_dropped_overflow(&self) -> u64 {
        self.dropped_overflow
    }

    /// The count of slots agrees with the slots, and every stored key stands
    /// for a flow key.
    pub closed spec fn wf(&self) -> bool {
        &&& slot_contents(self.inner).dom().finite()
        &&& self.occupancy == slot_contents(self.inner).dom().len()
        &&& forall|raw: RawKey| #[trigger]
            slot_contents(self.inner).dom().contains(raw) ==> FlowKey::spec_from_raw(raw).spec_raw()
                == raw
    }

    /// The raw map has as many keys as there are slots.
    proof fn lemma_slots_len(&self)
        requires
            self.wf(),
        ensures
            self.slots().dom().finite(),
            self.slots().dom().len() == self.occupancy,
    {
        let raw = slot_contents(self.inner).dom();
        let f = |r: RawKey| FlowKey::spec_from_raw(r);
        assert(raw.map(f) =~= self.slots().dom()) by {
            assert forall|key: FlowKey| raw.map(f).contains(key) == self.slots().dom().contains(
                key,
            ) by {
                key.lemma_raw_round_trip();
                if self.slots().dom().contains(key) {
                    assert(f(key.spec_raw()) == key);
                }
                if raw.map(f).contains(key) {
                    let r = choose|r: RawKey| raw.contains(r) && f(r) == key;
                    assert(raw.contains(r));
                    assert(key.spec_raw() == r);
                }
            }
        }
        assert(vstd::relations::injective_on(f, raw)) by {
            assert forall|a: RawKey, b: RawKey| raw.contains(a) && raw.contains(b) && #[trigger]
                f(a) == #[trigger] f(b) implies a == b by {
                assert(FlowKey::spec_from_raw(a).spec_raw() == a);
                assert(FlowKey::spec_from_raw(b).spec_raw() == b);
            }
        }
        vstd::set_lib::lemma_map_size(raw, self.slots().dom(), f);
    }

    /// An empty registry with the given cap.
    pub fn new(cap: usize) -> (registry: UdpFlowRegistry)
        ensures
            registry.wf(),
            registry.slots() =~= Map::<FlowKey, Slot>::empty(),
            registry.spec_cap() == cap,
            registry.spec_dropped_overflow() == 0,
    {
        UdpFlowRegistry { inner: slots_new(), cap, dropped_overflow: 0, occupancy: 0 }
    }

    pub fn cap(&self) -> (cap: usize)
        ensures
            cap == self.spec_cap(),
    {
        self.cap
    }

    /// How many first datagrams of new flows were refused.
    pub fn dropped_overflow(&self) -> (count: u64)
        ensures
            count == self.spec_dropped_overflow(),
    {
        self.dropped_overflow
    }

    /// The number of slots, pending and live.
    pub fn len(&self) -> (len: usize)
        requires
            self.wf(),
        ensures
            self.slots().dom().finite(),
            len == self.slots().dom().len(),
    {
        proof {
            self.lemma_slots_len();
        }
        self.occupancy
    }

    pub fn is_empty(&self) -> (empty: bool)
        requires
            self.wf(),
        ensures
            empty == (self.slots() =~= Map::<FlowKey, Slot>::empty()),
    {
        proof {
            self.lemma_slots_len();
        }
        self.occupancy == 0
    }

    /// The live flow of a key, if it has one.
    pub fn get(&self, key: FlowKey) -> (flow: Option<FlowId>)
        requires
            self.wf(),
        ensures
            flow == match self.slots().get(key) {
                Some(Slot::Live(id)) => Some(id),
                _ => None,
            },
    {
        match slots_get(&self.inner, key.raw()) {
            Some(Some(id)) => Some(FlowId(id)),
            _ => None,
        }
    }

    /// The slot of a key, if it has one.
    pub fn slot(&self, key: FlowKey) -> (slot: Option<Slot>)
        requires
            self.wf(),
        ensures
            slot == self.slots().get(key),
    {
        match slots_get(&self.inner, key.raw()) {
            Some(Some(id)) => Some(Slot::Live(FlowId(id))),
            Some(None) => Some(Slot::Pending),
            None => None,
        }
    }

    /// Finds the live flow of a key, or reserves a slot for it. A key that
    /// already has a pending slot is refused like one that finds no room.
    pub fn try_get_or_reserve(&mut self, key: FlowKey) -> (outcome: TryGetOrReserve)
        requires
            old(self).wf(),
        ensures
            final(self).wf(),
            final(self).spec_cap() == old(self).spec_cap(),
            final(self).slots() == after_reserve(
                old(self).slots(),
                old(self).spec_cap() as nat,
                key,
            ),
            match old(self).slots().get(key) {
                Some(Slot::Live(id)) => outcome == TryGetOrReserve::Existing(id),
                Some(Slot::Pending) => outcome is CapExhausted,
                None => if old(self).slots().dom().len() < old(self).spec_cap() {
                    outcome matches TryGetOrReserve::Reserved(r) && r.spec_key() == key
                } else {
                    outcome is CapExhausted
                },
            },
            outcome is Reserved ==> final(self).slots().dom().len()
                == old(self).slots().dom().len() + 1,
            final(self).spec_dropped_overflow() == (if outcome is CapExhausted {
                old(self).spec_dropped_overflow().wrapping_add(1)
            } else {
                old(self).spec_dropped_overflow()
            }),
    {
        proof {
            self.lemma_slots_len();
        }
        match slots_get(&self.inner, key.raw()) {
            Some(Some(id)) => {
                return TryGetOrReserve::Existing(FlowId(id));
            },
            Some(None) => {
                self.dropped_overflow = self.dropped_overflow.wrapping_add(1);
                return TryGetOrReserve::CapExhausted;
            },
            None => {},
        }
        if self.occupancy >= self.cap {
            self.dropped_overflow = self.dropped_overflow.wrapping_add(1);
            return TryGetOrReserve::CapExhausted;
        }
        let ghost before = *self;
        slots_insert(&mut self.inner, key.raw(), None);
        self.occupancy = self.occupancy + 1;
        proof {
            key.lemma_raw_round_trip();
            self.lemma_insert(before, key, None);
        }
        TryGetOrReserve::Reserved(Reservation { key })
    }

    /// Inserting under the raw key inserts under the key.
    proof fn lemma_insert(&self, before: UdpFlowRegistry, key: FlowKey, raw: RawSlot)
        requires
            slot_contents(self.inner) == slot_contents(before.inner).insert(key.spec_raw(), raw),
        ensures
            self.slots() =~= before.slots().insert(key, slot_of_raw(raw)),
    {
        assert forall|k: FlowKey| #[trigger] k.spec_raw() == key.spec_raw() implies k == key by {
            k.lemma_raw_round_trip();
            key.lemma_raw_round_trip();
        }
    }

    /// Removing the raw key removes the key.
    proof fn lemma_remove(&self, before: UdpFlowRegistry, key: FlowKey)
        requires
            slot_contents(self.inner) == slot_contents(before.inner).remove(key.spec_raw()),
        ensures
            self.slots() =~= before.slots().remove(key),
    {
        assert forall|k: FlowKey| #[trigger] k.spec_raw() == key.spec_raw() implies k == key by {
            k.lemma_raw_round_trip();
            key.lemma_raw_round_trip();
        }
    }

    /// Turns the reserved slot into a live one. A slot that was drained since
    /// it was reserved comes back.
    pub fn commit(&mut self, reservation: Reservation, flow: FlowId)
        requires
            old(self).wf(),
            old(self).slots().dom().len() < usize::MAX,
        ensures
            final(self).wf(),
            final(self).spec_cap() == old(self).spec_cap(),
            final(self).spec_dropped_overflow() == old(self).spec_dropped_overflow(),
            final(self).slots() == after_commit(old(self).slots(), reservation.spec_key(), flow),
    {
        proof {
            self.lemma_slots_len();
        }
        let key = reservation.key;
        let ghost before = *self;
        let replaced = slots_insert(&mut self.inner, key.raw(), Some(flow.0));
        if replaced.is_none() {
            self.occupancy = self.occupancy + 1;
        }
        proof {
            key.lemma_raw_round_trip();
            self.lemma_insert(before, key, Some(flow.0));
        }
    }

    /// Gives a reservation back without committing it. The slot goes, unless
    /// it is no longer pending.
    pub fn release(&mut self, reservation: Reservation)
        requires
            old(self).wf(),
        ensures
            final(self).wf(),
            final(self).spec_cap() == old(self).spec_cap(),
            final(self).spec_dropped_overflow() == old(self).spec_dropped_overflow(),
            final(self).slots() == after_release(old(self).slots(), reservation.spec_key()),
    {
        let key = reservation.key;
        if let Some(None) = slots_get(&self.inner, key.raw()) {
            self.remove(key);
        }
    }

    /// Removes the slot of a key, pending or live, and returns its live flow.
    pub fn remove(&mut self, key: FlowKey) -> (flow: Option<FlowId>)
        requires
            old(self).wf(),
        ensures
            final(self).wf(),
            final(self).spec_cap() == old(self).spec_cap(),
            final(self).spec_dropped_overflow() == old(self).spec_dropped_overflow(),
            final(self).slots() == old(self).slots().remove(key),
            flow == match old(self).slots().get(key) {
                Some(Slot::Live(id)) => Some(id),
                _ => None,
            },
    {
        let ghost before = *self;
        let removed = slots_remove(&mut self.inner, key.raw());
        proof {
            self.lemma_remove(before, key);
        }
        match removed {
            Some(slot) => {
                self.occupancy = self.occupancy - 1;
                match slot {
                    Some(id) => Some(FlowId(id)),
                    None => None,
                }
            },
            None => None,
        }
    }

    /// Empties the registry and returns the live flows it held, so that they
    /// can be cancelled.
    pub fn drain(&mut self) -> (flows: Vec<(FlowKey, FlowId)>)
        requires
            old(self).wf(),
        ensures
            final(self).wf(),
            final(self).spec_cap() == old(self).spec_cap(),
            final(self).spec_dropped_overflow() == old(self).spec_dropped_overflow(),
            final(self).slots() =~= Map::<FlowKey, Slot>::empty(),
            lists_live(flows@, old(self).slots()),
    {
        let flows = self.snapshot_live();
        let entries = slots_iter(&self.inner);
        let ghost all = slot_contents(self.inner);
        let mut i: usize = 0;
        while i < entries.len()
            invariant
                i <= entries@.len(),
                self.wf(),
                self.spec_cap() == old(self).spec_cap(),
                self.spec_dropped_overflow() == old(self).spec_dropped_overflow(),
                forall|a: int, b: int|
                    0 <= a < b < entries@.len() ==> (#[trigger] entries@[a]).0 != (
                    #[trigger] entries@[b]).0,
                forall|key: RawKey| #[trigger]
                    slot_contents(self.inner).dom().contains(key) ==> exists|j: int|
                        i <= j < entries@.len() && (#[trigger] entries@[j]).0 == key,
            decreases entries@.len() - i,
        {
            let removed = slots_remove(&mut self.inner, entries[i].0);
            if removed.is_some() {
                self.occupancy = self.occupancy - 1;
            }
            i = i + 1;
        }
        assert(slot_contents(self.inner).dom() =~= Set::<RawKey>::empty());
        flows
    }

    /// The live flows, in no particular order.
    pub fn snapshot_live(&self) -> (flows: Vec<(FlowKey, FlowId)>)
        requires
            self.wf(),
        ensures
            lists_live(flows@, self.slots()),
    {
        let entries = slots_iter(&self.inner);
        let mut flows: Vec<(FlowKey, FlowId)> = Vec::new();
        let mut i: usize = 0;
        while i < entries.len()
            invariant
                i <= entries@.len(),
                self.wf(),
                forall|a: int, b: int|
                    0 <= a < b < entries@.len() ==> (#[trigger] entries@[a]).0 != (
                    #[trigger] entries@[b]).0,
                forall|a: int|
                    0 <= a < entries@.len() ==> slot_contents(self.inner).dom().contains(
                        (#[trigger] entries@[a]).0,
                    ) && slot_contents(self.inner)[entries@[a].0] == entries@[a].1,
                forall|a: int, b: int|
                    0 <= a < b < flows@.len() ==> (#[trigger] flows@[a]).0 != (
                    #[trigger] flows@[b]).0,
                forall|a: int|
                    0 <= a < flows@.len() ==> self.slots().get((#[trigger] flows@[a]).0) == Some(
                        Slot::Live(flows@[a].1),
                    ),
                forall|a: int|
                    0 <= a < flows@.len() ==> exists|b: int|
                        0 <= b < i && (#[trigger] entries@[b]).0 == (
                        #[trigger] flows@[a]).0.spec_raw(),
                forall|b: int|
                    0 <= b < i && (#[trigger] entries@[b]).1 is Some ==> flows@.contains(
                        (FlowKey::spec_from_raw(entries@[b].0), FlowId(entries@[b].1->0)),
                    ),
            decreases entries@.len() - i,
        {
            let (raw, slot) = entries[i];
            let ghost before = flows@;
            assert(slot_contents(self.inner).dom().contains(entries@[i as int].0));
            if let Some(id) = slot {
                let key = FlowKey::from_raw(raw);
                flows.push((key, FlowId(id)));
                assert(flows@.last() == (key, FlowId(id)));
                assert forall|b: int|
                    0 <= b < i + 1 && (#[trigger] entries@[b]).1 is Some implies flows@.contains(
                    (FlowKey::spec_from_raw(entries@[b].0), FlowId(entries@[b].1->0)),
                ) by {
                    if b < i {
                        let pair = (FlowKey::spec_from_raw(entries@[b].0), FlowId(entries@[b].1->0));
                        assert(before.contains(pair));
                        let at = choose|at: int| 0 <= at < before.len() && before[at] == pair;
                        assert(flows@[at] == pair);
                    }
                }
            }
            i = i + 1;
        }
        assert forall|key: FlowKey, id: FlowId| #[trigger]
            self.slots().get(key) == Some(Slot::Live(id)) implies #[trigger] flows@.contains(
            (key, id),
        ) by {
            key.lemma_raw_round_trip();
            let b = choose|b: int| 0 <= b < entries@.len() && entries@[b].0 == key.spec_raw();
            assert(entries@[b].1 == Some(id.0));
            assert(FlowId(id.0) == id);
        }
        flows
    }
}

/// The slots after a key asked for one, under the given cap.
pub open spec fn after_reserve(slots: Map<FlowKey, Slot>, cap: nat, key: FlowKey) -> Map<
    FlowKey,
    Slot,
> {
    if slots.contains_key(key) || slots.dom().len() >= cap {
        slots
    } else {
        slots.insert(key, Slot::Pending)
    }
}

/// The slots after a reservation of the key was committed.
pub open spec fn after_commit(slots: Map<FlowKey, Slot>, key: FlowKey, flow: FlowId) -> Map<
    FlowKey,
    Slot,
> {
    slots.insert(key, Slot::Live(flow))
}

/// The slots after a reservation of the key was given back.
pub open spec fn after_release(slots: Map<FlowKey, Slot>, key: FlowKey) -> Map<FlowKey, Slot> {
    if slots.get(key) == Some(Slot::Pending) {
        slots.remove(key)
    } else {
        slots
    }
}

/// A reservation that is given back leaves the registry as it was.
pub proof fn law_release_undoes_reserve(slots: Map<FlowKey, Slot>, cap: nat, key: FlowKey)
    requires
        slots.get(key) != Some(Slot::Pending),
    ensures
        after_release(after_reserve(slots, cap, key), key) =~= slots,
{
}

/// No slot is ever added past the cap: reserving keeps the number of slots
/// within it, committing a reserved slot adds none, and giving back or
/// removing only takes away.
pub proof fn law_cap_bounds_the_slots(
    slots: Map<FlowKey, Slot>,
    cap: nat,
    key: FlowKey,
    flow: FlowId,
)
    requires
        slots.dom().finite(),
        slots.dom().len() <= cap,
    ensures
        after_reserve(slots, cap, key).dom().len() <= cap,
        slots.contains_key(key) ==> after_commit(slots, key, flow).dom().len() <= cap,
        after_release(slots, key).dom().len() <= cap,
        slots.remove(key).dom().len() <= cap,
{
    if slots.contains_key(key) {
        assert(slots.insert(key, Slot::Live(flow)).dom() =~= slots.dom());
    }
}

/// A slot that was reserved and committed is found under its key, and a second
/// reservation of the key before the commit is turned away without a new slot.
pub proof fn law_reserve_then_commit(
    slots: Map<FlowKey, Slot>,
    cap: nat,
    key: FlowKey,
    flow: FlowId,
)
    requires
        !slots.contains_key(key),
        slots.dom().len() < cap,
    ensures
        ({
            let reserved = after_reserve(slots, cap, key);
            &&& reserved.get(key) == Some(Slot::Pending)
            &&& after_reserve(reserved, cap, key) == reserved
            &&& after_commit(reserved, key, flow).get(key) == Some(Slot::Live(flow))
        }),
{
}

/// One source on two listen ports is two flows: nothing that happens to the
/// slot of one port shows in the slot of the other.
pub proof fn law_ports_are_independent(
    slots: Map<FlowKey, Slot>,
    cap: nat,
    src: SocketAddr,
    port_a: u16,
    port_b: u16,
    flow: FlowId,
)
    requires
        port_a != port_b,
    ensures
        ({
            let a = FlowKey { listen_port: port_a, src };
            let b = FlowKey { listen_port: port_b, src };
            &&& after_reserve(slots, cap, a).get(b) == slots.get(b)
            &&& after_commit(slots, a, flow).get(b) == slots.get(b)
            &&& after_release(slots, a).get(b) == slots.get(b)
            &&& slots.remove(a).get(b) == slots.get(b)
        }),
{
}

/// `flows` holds every live slot once, and nothing else.
pub open spec fn lists_live(flows: Seq<(FlowKey, FlowId)>, slots: Map<FlowKey, Slot>) -> bool {
    &&& forall|i: int, j: int|
        0 <= i < j < flows.len() ==> (#[trigger] flows[i]).0 != (#[trigger] flows[j]).0
    &&& forall|i: int|
        0 <= i < flows.len() ==> slots.get((#[trigger] flows[i]).0) == Some(
            Slot::Live(flows[i].1),
        )
    &&& forall|key: FlowKey, id: FlowId|
        slots.get(key) == Some(Slot::Live(id)) ==> #[trigger] flows.contains((key, id))
}

/// A source that has a flow gets it; one whose flow is being set up, and a new one
/// when all slots are taken, are refused and counted; a new one gets a slot otherwise.
/// No other slot changes.
pub proof fn law_a_source_gets_a_slot_while_there_is_one(
    registry: &mut UdpFlowRegistry,
    key: FlowKey,
    outcome: TryGetOrReserve,
    found: Option<Slot>,
    len: usize,
    cap: usize,
    reserved: FlowKey,
    other: FlowKey,
)
    requires
        registry.wf(),
        other != key,
        call_ensures(UdpFlowRegistry::slot, (&*registry, key), found),
        call_ensures(UdpFlowRegistry::len, (&*registry,), len),
        call_ensures(UdpFlowRegistry::cap, (&*registry,), cap),
        call_ensures(UdpFlowRegistry::try_get_or_reserve, (registry, key), outcome),
        outcome matches TryGetOrReserve::Reserved(r) ==> call_ensures(
            Reservation::key,
            (&r,),
            reserved,
        ),
    ensures
        ({
            let (before, after) = (old(registry).slots(), final(registry).slots());
            &&& found == before.get(key)
            &&& found matches Some(Slot::Live(id)) ==> outcome == TryGetOrReserve::Existing(id)
            &&& found == Some(Slot::Pending) ==> outcome is CapExhausted
            &&& found is None && len >= cap ==> outcome is CapExhausted
            &&& found is None && len < cap ==> outcome is Reserved && reserved == key && after.get(
                key,
            ) == Some(Slot::Pending)
            &&& !(outcome is Reserved) ==> after == before
            &&& after.get(other) == before.get(other)
            &&& final(registry).spec_cap() == old(registry).spec_cap()
            &&& final(registry).spec_dropped_overflow() == (if outcome is CapExhausted {
                old(registry).spec_dropped_overflow().wrapping_add(1)
            } else {
                old(registry).spec_dropped_overflow()
            })
        }),
{
}

/// A reservation becomes a flow that its source finds, or frees its slot again
/// unless it has become a flow. No other slot changes.
pub proof fn law_a_reservation_is_used_or_given_back(
    registry: &mut UdpFlowRegistry,
    reservation: Reservation,
    key: FlowKey,
    flow: FlowId,
    found: Option<FlowId>,
    back: &mut UdpFlowRegistry,
    other: FlowKey,
)
    requires
        registry.wf(),
        registry.slots().dom().len() < usize::MAX,
        back.wf(),
        other != key,
        call_ensures(Reservation::key, (&reservation,), key),
        call_ensures(UdpFlowRegistry::commit, (registry, reservation, flow), ()),
        call_ensures(UdpFlowRegistry::get, (&*final(registry), key), found),
        call_ensures(UdpFlowRegistry::release, (back, reservation), ()),
    ensures
        found == Some(flow),
        final(registry).slots().get(other) == old(registry).slots().get(other),
        final(back).slots().get(other) == old(back).slots().get(other),
        old(back).slots().get(key) == Some(Slot::Pending) ==> final(back).slots().get(key) is None,
        old(back).slots().get(key) != Some(Slot::Pending) ==> final(back).slots() == old(back).slots(),
        final(registry).spec_dropped_overflow() == old(registry).spec_dropped_overflow(),
        final(back).spec_dropped_overflow() == old(back).spec_dropped_overflow(),
        final(registry).spec_cap() == old(registry).spec_cap(),
        final(back).spec_cap() == old(back).spec_cap(),
{
}

/// Removing a source frees its slot and names its flow, and changes no other.
pub proof fn law_removing_frees_one_slot(
    registry: &mut UdpFlowRegistry,
    key: FlowKey,
    had: Option<FlowId>,
    removed: Option<FlowId>,
    slot: Option<Slot>,
    other: FlowKey,
)
    requires
        registry.wf(),
        other != key,
        call_ensures(UdpFlowRegistry::get, (&*registry, key), had),
        call_ensures(UdpFlowRegistry::remove, (registry, key), removed),
        call_ensures(UdpFlowRegistry::slot, (&*final(registry), key), slot),
    ensures
        removed == had,
        slot is None,
        final(registry).slots().get(other) == old(registry).slots().get(other),
        had matches Some(id) ==> old(registry).slots().get(key) == Some(Slot::Live(id)),
        had is None ==> !(old(registry).slots().get(key) matches Some(Slot::Live(_))),
{
}

/// All live flows are listed, each once, and nothing else; draining lists them and
/// frees every slot.
pub proof fn law_listing_names_every_live_flow_once(
    registry: &mut UdpFlowRegistry,
    listed: Vec<(FlowKey, FlowId)>,
    drained: Vec<(FlowKey, FlowId)>,
    len: usize,
    empty: bool,
    key: FlowKey,
    id: FlowId,
)
    requires
        registry.wf(),
        call_ensures(UdpFlowRegistry::snapshot_live, (&*registry,), listed),
        call_ensures(UdpFlowRegistry::drain, (registry,), drained),
        call_ensures(UdpFlowRegistry::len, (&*final(registry),), len),
        call_ensures(UdpFlowRegistry::is_empty, (&*final(registry),), empty),
    ensures
        listed@.contains((key, id)) <==> old(registry).slots().get(key) == Some(Slot::Live(id)),
        drained@.contains((key, id)) <==> old(registry).slots().get(key) == Some(Slot::Live(id)),
        forall|i: int, j: int|
            0 <= i < j < listed@.len() ==> (#[trigger] listed@[i]).0 != (#[trigger] listed@[j]).0,
        forall|i: int, j: int|
            0 <= i < j < drained@.len() ==> (#[trigger] drained@[i]).0 != (#[trigger] drained@[j]).0,
        len == 0,
        empty,
        final(registry).spec_cap() == old(registry).spec_cap(),
{
    assert(final(registry).slots().dom() =~= Set::<FlowKey>::empty());
    if listed@.contains((key, id)) {
        let i = choose|i: int| 0 <= i < listed@.len() && listed@[i] == (key, id);
        assert(listed@[i].0 == key);
    }
    if drained@.contains((key, id)) {
        let i = choose|i: int| 0 <= i < drained@.len() && drained@[i] == (key, id);
        assert(drained@[i].0 == key);
    }
}

/// A new registry has the cap that it was given, no slot taken and nothing refused.
pub proof fn law_a_new_registry_is_empty(
    cap: usize,
    registry: UdpFlowRegistry,
    most: usize,
    dropped: u64,
    len: usize,
    port: u16,
    src: SocketAddr,
    key: FlowKey,
    found: Option<FlowId>,
)
    requires
        call_ensures(UdpFlowRegistry::new, (cap,), registry),
        call_ensures(UdpFlowRegistry::cap, (&registry,), most),
        call_ensures(UdpFlowRegistry::dropped_overflow, (&registry,), dropped),
        call_ensures(UdpFlowRegistry::len, (&registry,), len),
        call_ensures(FlowKey::new, (port, src), key),
        call_ensures(UdpFlowRegistry::get, (&registry, key), found),
    ensures
        most == cap,
        dropped == 0,
        len == 0,
        key == (FlowKey { listen_port: port, src }),
        found is None,
{
    assert(registry.slots().dom() =~= Set::<FlowKey>::empty());
}

} // verus!
