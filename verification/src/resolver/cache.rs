//! The cache of resolved names.
//!
//! One call of the resolver at a time serves all who ask for a name, an answer
//! lives for a bounded time, the last good answer outlives a failed refresh for
//! a while, and a failure is remembered for a while.

use vstd::prelude::*;

use super::{ResolveAnswer, ResolverConfig, ResolverError};
use crate::addr::IpAddr;

verus! {

/// How much longer than the timeout of one resolver call an entry may stay
/// pending before its owner is taken to be gone: one second.
pub const PENDING_ABANDON_MARGIN: u128 = 1_000_000_000;

/// How many times one lookup goes back to the cache before it gives up.
pub const MAX_LOOKUP_ROUNDS: u32 = 4;

/// Where an answer came from.
#[derive(Clone, Copy, Debug, PartialEq, Eq, Structural)]
pub enum AnswerSource {
    /// The resolver was just called.
    Fresh,
    /// The cache held an answer that had not expired.
    Cached,
    /// The refresh failed and the last good answer still serves.
    Stale,
}

/// An answer and where it came from.
#[derive(Debug)]
pub struct CacheResult {
    pub addrs: Vec<IpAddr>,
    pub source: AnswerSource,
}

/// The state of one name.
#[derive(Debug)]
pub enum CacheEntry {
    /// The resolver is being asked. Others who ask wait until `notify` fires.
    Pending { notify: u64, started_at: u128 },
    /// The resolver answered; the answer serves until `expiry`.
    Resolved { addrs: Vec<IpAddr>, expiry: u128 },
    /// The answer expired and its refresh failed; it serves until
    /// `fail_grace_until` all the same.
    StaleAfterFailedRefresh { stale_addrs: Vec<IpAddr>, fail_grace_until: u128 },
    /// The resolver failed; until `retry_after` it is not asked again.
    Failed { retry_after: u128, last_reason: ResolverError },
}

/// The state of one name, as a mathematical value.
pub enum EntryView {
    Pending { notify: u64, started_at: u128 },
    Resolved { addrs: Seq<IpAddr>, expiry: u128 },
    Stale { addrs: Seq<IpAddr>, until: u128 },
    Failed { retry_after: u128, reason: ResolverError },
}

impl View for CacheEntry {
    type V = EntryView;

    open spec fn view(&self) -> EntryView {
        match *self {
            CacheEntry::Pending { notify, started_at } => EntryView::Pending { notify, started_at },
            CacheEntry::Resolved { addrs, expiry } => EntryView::Resolved { addrs: addrs@, expiry },
            CacheEntry::StaleAfterFailedRefresh { stale_addrs, fail_grace_until } => {
                EntryView::Stale { addrs: stale_addrs@, until: fail_grace_until }
            },
            CacheEntry::Failed { retry_after, last_reason } => EntryView::Failed {
                retry_after,
                reason: last_reason,
            },
        }
    }
}

/// The entries of the cache, by name.
pub type EntryMap = Map<Seq<char>, EntryView>;

impl EntryView {
    /// The instant from which on the entry is of no use. A pending entry has
    /// none.
    pub open spec fn deadline(self) -> Option<u128> {
        match self {
            EntryView::Pending { .. } => None,
            EntryView::Resolved { expiry, .. } => Some(expiry),
            EntryView::Stale { until, .. } => Some(until),
            EntryView::Failed { retry_after, .. } => Some(retry_after),
        }
    }

    /// The entry has been pending for so long that its owner is gone.
    pub open spec fn abandoned(self, now: u128, abandon_after: u128) -> bool {
        self matches EntryView::Pending { started_at, .. } && now - started_at > abandon_after
    }

    /// The entry is still of use: in flight, or not past its deadline.
    pub open spec fn survives(self, now: u128, abandon_after: u128) -> bool {
        match self.deadline() {
            None => !self.abandoned(now, abandon_after),
            Some(deadline) => deadline > now,
        }
    }
}

/// The entries that are still of use.
pub open spec fn surviving(entries: EntryMap, now: u128, abandon_after: u128) -> EntryMap {
    Map::new(
        |name: Seq<char>| entries.contains_key(name) && entries[name].survives(now, abandon_after),
        |name: Seq<char>| entries[name],
    )
}

/// `after` is what eviction may leave of `before`. Nothing goes while there is
/// room. Otherwise everything of no use goes, and then, one by one, the entries
/// that are closest to their deadline, until there is room or only pending
/// entries are left.
pub open spec fn evicted(
    before: EntryMap,
    after: EntryMap,
    now: u128,
    max_entries: nat,
    abandon_after: u128,
) -> bool {
    let kept = surviving(before, now, abandon_after);
    if before.dom().len() < max_entries {
        after == before
    } else {
        &&& after.submap_of(kept)
        &&& forall|name: Seq<char>| #[trigger]
            kept.contains_key(name) && kept[name] is Pending ==> after.contains_key(name)
        &&& forall|gone: Seq<char>, stays: Seq<char>|
            #![trigger kept.contains_key(gone), after.contains_key(stays)]
            kept.contains_key(gone) && !after.contains_key(gone) && after.contains_key(stays)
                && !(after[stays] is Pending) ==> kept[gone].deadline()->0
                <= after[stays].deadline()->0
        &&& after.dom().len() >= max_entries ==> forall|name: Seq<char>| #[trigger]
            after.contains_key(name) ==> after[name] is Pending
        &&& after.dom().len() < kept.dom().len() ==> after.dom().len() + 1 >= max_entries
    }
}

/// The entry of `name` is pending under the number `notify` and abandoned.
pub open spec fn reaped(
    entries: EntryMap,
    name: Seq<char>,
    notify: u64,
    now: u128,
    abandon_after: u128,
) -> bool {
    &&& entries.contains_key(name)
    &&& entries[name].abandoned(now, abandon_after)
    &&& entries[name]->notify == notify
}

/// Eviction wakes the waiters of the abandoned entries that it drops.
pub open spec fn eviction_wakes(
    before: EntryMap,
    woken: Seq<u64>,
    now: u128,
    max_entries: nat,
    abandon_after: u128,
) -> bool {
    if before.dom().len() < max_entries {
        woken.len() == 0
    } else {
        forall|notify: u64| #[trigger]
            woken.contains(notify) <==> exists|name: Seq<char>| #[trigger]
                reaped(before, name, notify, now, abandon_after)
    }
}

/// How long an entry may stay pending.
pub open spec fn abandon_after(config: ResolverConfig) -> u128 {
    (config.attempt_timeout + PENDING_ABANDON_MARGIN) as u128
}

/// What is known of a name does not serve at `now`: the resolver has to be
/// asked.
pub open spec fn needs_resolver(entry: Option<EntryView>, now: u128, config: ResolverConfig) -> bool {
    match entry {
        None => true,
        Some(entry) => match entry.deadline() {
            None => entry.abandoned(now, abandon_after(config)),
            Some(deadline) => now >= deadline,
        },
    }
}

/// What a lookup of a name with an entry that serves is told.
pub open spec fn served(next: Lookup, entry: EntryView) -> bool {
    match entry {
        EntryView::Pending { notify, .. } => next == Lookup::Wait { notify },
        EntryView::Resolved { addrs, .. } => {
            next matches Lookup::Answer(r) && r.addrs@ == addrs && r.source == AnswerSource::Cached
        },
        EntryView::Stale { addrs, .. } => {
            next matches Lookup::Answer(r) && r.addrs@ == addrs && r.source == AnswerSource::Stale
        },
        EntryView::Failed { reason, .. } => next == Lookup::Fail(reason),
    }
}

/// The addresses that serve on if the refresh fails: those of an answer that
/// has expired.
pub open spec fn fallback_of(entry: Option<EntryView>) -> Option<Seq<IpAddr>> {
    match entry {
        Some(EntryView::Resolved { addrs, .. }) => Some(addrs),
        _ => None,
    }
}

struct CacheSlot {
    name: String,
    entry: CacheEntry,
}

spec fn has_name(slots: Seq<CacheSlot>, name: Seq<char>) -> bool {
    exists|i: int| 0 <= i < slots.len() && (#[trigger] slots[i]).name@ == name
}

spec fn index_of_name(slots: Seq<CacheSlot>, name: Seq<char>) -> int {
    choose|i: int| 0 <= i < slots.len() && (#[trigger] slots[i]).name@ == name
}

spec fn distinct_names(slots: Seq<CacheSlot>) -> bool {
    forall|i: int, j: int|
        0 <= i < j < slots.len() ==> (#[trigger] slots[i]).name@ != (#[trigger] slots[j]).name@
}

spec fn entry_map(slots: Seq<CacheSlot>) -> EntryMap {
    Map::new(
        |name: Seq<char>| has_name(slots, name),
        |name: Seq<char>| slots[index_of_name(slots, name)].entry@,
    )
}

proof fn lemma_entry_at(slots: Seq<CacheSlot>, i: int)
    requires
        distinct_names(slots),
        0 <= i < slots.len(),
    ensures
        entry_map(slots).contains_key(slots[i].name@),
        entry_map(slots)[slots[i].name@] == slots[i].entry@,
{
    assert(index_of_name(slots, slots[i].name@) == i);
}

proof fn lemma_entry_map_len(slots: Seq<CacheSlot>)
    requires
        distinct_names(slots),
    ensures
        entry_map(slots).dom().finite(),
        entry_map(slots).dom().len() == slots.len(),
{
    let names = slots.map_values(|slot: CacheSlot| slot.name@);
    assert(names.no_duplicates());
    assert(names.to_set() =~= entry_map(slots).dom()) by {
        assert forall|name: Seq<char>| names.to_set().contains(name) == has_name(slots, name) by {
            if has_name(slots, name) {
                let i = index_of_name(slots, name);
                assert(names[i] == name);
            }
        }
    }
    names.unique_seq_to_set();
}

proof fn lemma_push(slots: Seq<CacheSlot>, slot: CacheSlot)
    requires
        distinct_names(slots),
        !has_name(slots, slot.name@),
    ensures
        distinct_names(slots.push(slot)),
        entry_map(slots.push(slot)) =~= entry_map(slots).insert(slot.name@, slot.entry@),
{
    let after = slots.push(slot);
    assert(distinct_names(after));
    assert forall|name: Seq<char>| has_name(after, name) == (has_name(slots, name) || name
        == slot.name@) by {
        if has_name(slots, name) {
            let i = index_of_name(slots, name);
            assert(after[i].name@ == name);
        }
        if name == slot.name@ {
            assert(after[slots.len() as int].name@ == name);
        }
    }
    assert forall|name: Seq<char>| has_name(after, name) implies entry_map(after)[name]
        == entry_map(slots).insert(slot.name@, slot.entry@)[name] by {
        let i = index_of_name(after, name);
        lemma_entry_at(after, i);
        if i < slots.len() {
            lemma_entry_at(slots, i);
        }
    }
}

proof fn lemma_update(slots: Seq<CacheSlot>, i: int, slot: CacheSlot)
    requires
        distinct_names(slots),
        0 <= i < slots.len(),
        slot.name@ == slots[i].name@,
    ensures
        distinct_names(slots.update(i, slot)),
        entry_map(slots.update(i, slot)) =~= entry_map(slots).insert(slot.name@, slot.entry@),
{
    let after = slots.update(i, slot);
    assert(distinct_names(after));
    assert forall|name: Seq<char>| has_name(after, name) == has_name(slots, name) by {
        if has_name(slots, name) {
            let j = index_of_name(slots, name);
            assert(after[j].name@ == name);
        }
        if has_name(after, name) {
            let j = index_of_name(after, name);
            assert(slots[j].name@ == name);
        }
    }
    lemma_entry_at(slots, i);
    assert forall|name: Seq<char>| has_name(after, name) implies entry_map(after)[name]
        == entry_map(slots).insert(slot.name@, slot.entry@)[name] by {
        let j = index_of_name(after, name);
        lemma_entry_at(after, j);
        lemma_entry_at(slots, j);
    }
}

proof fn lemma_remove(slots: Seq<CacheSlot>, i: int)
    requires
        distinct_names(slots),
        0 <= i < slots.len(),
    ensures
        distinct_names(slots.remove(i)),
        entry_map(slots.remove(i)) =~= entry_map(slots).remove(slots[i].name@),
{
    let after = slots.remove(i);
    assert(distinct_names(after));
    assert forall|name: Seq<char>| has_name(after, name) == (has_name(slots, name) && name
        != slots[i].name@) by {
        if has_name(slots, name) && name != slots[i].name@ {
            let j = index_of_name(slots, name);
            if j < i {
                assert(after[j].name@ == name);
            } else {
                assert(after[j - 1].name@ == name);
            }
        }
        if has_name(after, name) {
            let j = index_of_name(after, name);
            if j < i {
                assert(slots[j].name@ == name);
            } else {
                assert(slots[j + 1].name@ == name);
            }
        }
    }
    assert forall|name: Seq<char>| has_name(after, name) implies entry_map(after)[name]
        == entry_map(slots).remove(slots[i].name@)[name] by {
        let j = index_of_name(after, name);
        lemma_entry_at(after, j);
        if j < i {
            lemma_entry_at(slots, j);
        } else {
            lemma_entry_at(slots, j + 1);
        }
    }
}

/// What a lookup has to do next.
pub enum Lookup {
    /// Done: return these addresses.
    Answer(CacheResult),
    /// Done: return this error.
    Fail(ResolverError),
    /// Somebody else is asking the resolver. Wait for `notify`, then look again.
    Wait { notify: u64 },
    /// Ask the resolver and hand the outcome to [`Cache::apply_refresh`]
    /// together with `stale_addrs`; then give the slot back with
    /// [`Cache::release_slot`]. All who wait for one of `woken` are to look
    /// again.
    Resolve { stale_addrs: Option<Vec<IpAddr>>, woken: Vec<u64> },
}

/// The cache.
pub struct Cache {
    slots: Vec<CacheSlot>,
    next_notify: u64,
    max_in_flight: usize,
    in_flight: usize,
}

pub open spec fn addrs_view(addrs: Option<Vec<IpAddr>>) -> Option<Seq<IpAddr>> {
    match addrs {
        Some(addrs) => Some(addrs@),
        None => None,
    }
}

impl View for Cache {
    type V = EntryMap;

    closed spec fn view(&self) -> EntryMap {
        entry_map(self.slots@)
    }
}

fn copy_addrs(addrs: &Vec<IpAddr>) -> (copy: Vec<IpAddr>)
    ensures
        copy@ == addrs@,
{
    let copy = addrs.clone();
    assert(copy@ =~= addrs@);
    copy
}

/// The time to live that is used for an answer: within the bounds of the
/// configuration.
pub open spec fn clamped_ttl(ttl: u128, config: ResolverConfig) -> u128 {
    if ttl < config.cache_floor {
        config.cache_floor
    } else if ttl > config.cache_ceiling {
        config.cache_ceiling
    } else {
        ttl
    }
}

fn clamp_ttl(ttl: u128, config: &ResolverConfig) -> (clamped: u128)
    requires
        config.cache_floor <= config.cache_ceiling,
    ensures
        clamped == clamped_ttl(ttl, *config),
{
    if ttl < config.cache_floor {
        config.cache_floor
    } else if ttl > config.cache_ceiling {
        config.cache_ceiling
    } else {
        ttl
    }
}

fn entry_deadline(entry: &CacheEntry) -> (deadline: Option<u128>)
    ensures
        deadline == entry@.deadline(),
{
    match entry {
        CacheEntry::Pending { .. } => None,
        CacheEntry::Resolved { expiry, .. } => Some(*expiry),
        CacheEntry::StaleAfterFailedRefresh { fail_grace_until, .. } => Some(*fail_grace_until),
        CacheEntry::Failed { retry_after, .. } => Some(*retry_after),
    }
}

/// The entry of a name after the resolver was asked.
pub open spec fn refreshed_entry(
    outcome: Result<ResolveAnswer, ResolverError>,
    stale: Option<Seq<IpAddr>>,
    now: u128,
    config: ResolverConfig,
) -> EntryView {
    match outcome {
        Ok(answer) if answer.addrs@.len() > 0 => EntryView::Resolved {
            addrs: answer.addrs@,
            expiry: (now + clamped_ttl(answer.ttl, config)) as u128,
        },
        Ok(_) => failed_entry(ResolverError::EmptyAnswer, stale, now, config),
        Err(err) => failed_entry(err, stale, now, config),
    }
}

/// The entry of a name after the resolver failed.
pub open spec fn failed_entry(
    err: ResolverError,
    stale: Option<Seq<IpAddr>>,
    now: u128,
    config: ResolverConfig,
) -> EntryView {
    match stale {
        Some(addrs) => EntryView::Stale {
            addrs,
            until: (now + config.stale_while_error_grace) as u128,
        },
        None => EntryView::Failed {
            retry_after: (now + config.negative_cache_retry) as u128,
            reason: err,
        },
    }
}

/// What the one who asked the resolver is told when it failed.
pub open spec fn failure_answers(
    result: Result<CacheResult, ResolverError>,
    err: ResolverError,
    stale: Option<Seq<IpAddr>>,
) -> bool {
    match stale {
        Some(addrs) => result matches Ok(r) && r.addrs@ == addrs && r.source == AnswerSource::Stale,
        None => result == Err::<CacheResult, ResolverError>(err),
    }
}

/// What the one who asked the resolver is told.
pub open spec fn refresh_answers(
    result: Result<CacheResult, ResolverError>,
    outcome: Result<ResolveAnswer, ResolverError>,
    stale: Option<Seq<IpAddr>>,
) -> bool {
    match outcome {
        Ok(answer) if answer.addrs@.len() > 0 => {
            result matches Ok(r) && r.addrs@ == answer.addrs@ && r.source == AnswerSource::Fresh
        },
        Ok(_) => failure_answers(result, ResolverError::EmptyAnswer, stale),
        Err(err) => failure_answers(result, err, stale),
    }
}

/// The waiters that an entry which is replaced leaves behind.
pub open spec fn waiters_of(entry: Option<EntryView>) -> Option<u64> {
    match entry {
        Some(EntryView::Pending { notify, .. }) => Some(notify),
        _ => None,
    }
}

impl Cache {
    /// The number that the next pending entry waits under.
    pub closed spec fn spec_next_notify(&self) -> u64 {
        self.next_notify
    }

    /// How many calls of the resolver may be in flight.
    pub closed spec fn spec_max_in_flight(&self) -> nat {
        self.max_in_flight as nat
    }

    /// How many calls of the resolver are in flight.
    pub closed spec fn spec_in_flight(&self) -> nat {
        self.in_flight as nat
    }

    /// No name has two entries, and no more calls are in flight than may be.
    pub closed spec fn wf(&self) -> bool {
        &&& distinct_names(self.slots@)
        &&& self.in_flight <= self.max_in_flight
    }

    pub fn new(max_concurrent_resolves: usize) -> (cache: Cache)
        ensures
            cache.wf(),
            cache@ =~= Map::<Seq<char>, EntryView>::empty(),
            cache.spec_max_in_flight() == max_concurrent_resolves,
            cache.spec_in_flight() == 0,
    {
        Cache {
            slots: Vec::new(),
            next_notify: 0,
            max_in_flight: max_concurrent_resolves,
            in_flight: 0,
        }
    }

    /// The number of names with an entry.
    pub fn len(&self) -> (len: usize)
        requires
            self.wf(),
        ensures
            self@.dom().finite(),
            len == self@.dom().len(),
    {
        proof {
            lemma_entry_map_len(self.slots@);
        }
        self.slots.len()
    }

    /// Whether a name has an entry.
    pub fn contains(&self, name: &String) -> (found: bool)
        requires
            self.wf(),
        ensures
            found == self@.contains_key(name@),
    {
        self.position(name).is_some()
    }

    fn position(&self, name: &String) -> (at: Option<usize>)
        requires
            distinct_names(self.slots@),
        ensures
            match at {
                Some(i) => i < self.slots@.len() && self.slots@[i as int].name@ == name@
                    && self@.contains_key(name@) && self@[name@] == self.slots@[i as int].entry@,
                None => !self@.contains_key(name@),
            },
    {
        let mut i: usize = 0;
        while i < self.slots.len()
            invariant
                i <= self.slots@.len(),
                distinct_names(self.slots@),
                forall|j: int| 0 <= j < i ==> (#[trigger] self.slots@[j]).name@ != name@,
            decreases self.slots@.len() - i,
        {
            if self.slots[i].name == *name {
                proof {
                    lemma_entry_at(self.slots@, i as int);
                }
                return Some(i);
            }
            i = i + 1;
        }
        None
    }

    /// Puts an entry in the place of whatever the name had, and returns the
    /// waiters of what it had.
    fn insert(&mut self, name: &String, entry: CacheEntry) -> (woken: Option<u64>)
        requires
            old(self).wf(),
        ensures
            final(self).wf(),
            final(self)@ == old(self)@.insert(name@, entry@),
            final(self).spec_next_notify() == old(self).spec_next_notify(),
            final(self).spec_max_in_flight() == old(self).spec_max_in_flight(),
            final(self).spec_in_flight() == old(self).spec_in_flight(),
            woken == waiters_of(old(self)@.get(name@)),
    {
        match self.position(name) {
            Some(i) => {
                let woken = match &self.slots[i].entry {
                    CacheEntry::Pending { notify, .. } => Some(*notify),
                    _ => None,
                };
                let slot = CacheSlot { name: name.clone(), entry };
                proof {
                    lemma_update(self.slots@, i as int, slot);
                }
                self.slots.set(i, slot);
                woken
            },
            None => {
                let slot = CacheSlot { name: name.clone(), entry };
                proof {
                    assert(!has_name(self.slots@, name@));
                    lemma_push(self.slots@, slot);
                }
                self.slots.push(slot);
                None
            },
        }
    }

    /// Reserves one of the calls that may be in flight. Never waits.
    fn try_reserve_slot(&mut self) -> (reserved: bool)
        requires
            old(self).wf(),
        ensures
            final(self).wf(),
            final(self)@ == old(self)@,
            final(self).spec_next_notify() == old(self).spec_next_notify(),
            final(self).spec_max_in_flight() == old(self).spec_max_in_flight(),
            reserved == (old(self).spec_in_flight() < old(self).spec_max_in_flight()),
            final(self).spec_in_flight() == old(self).spec_in_flight() + (if reserved {
                1nat
            } else {
                0nat
            }),
    {
        if self.in_flight < self.max_in_flight {
            self.in_flight = self.in_flight + 1;
            true
        } else {
            false
        }
    }

    /// Gives back the slot of a call that has ended, however it ended.
    pub fn release_slot(&mut self)
        requires
            old(self).wf(),
        ensures
            final(self).wf(),
            final(self)@ == old(self)@,
            final(self).spec_next_notify() == old(self).spec_next_notify(),
            final(self).spec_max_in_flight() == old(self).spec_max_in_flight(),
            final(self).spec_in_flight() == (if old(self).spec_in_flight() > 0 {
                (old(self).spec_in_flight() - 1) as nat
            } else {
                0
            }),
    {
        if self.in_flight > 0 {
            self.in_flight = self.in_flight - 1;
        }
    }

    /// Makes the name pending, in the hands of the caller.
    fn install_pending(&mut self, name: &String, now: u128)
        requires
            old(self).wf(),
        ensures
            final(self).wf(),
            final(self)@ == old(self)@.insert(
                name@,
                EntryView::Pending { notify: old(self).spec_next_notify(), started_at: now },
            ),
            final(self).spec_next_notify() == old(self).spec_next_notify().wrapping_add(1),
            final(self).spec_max_in_flight() == old(self).spec_max_in_flight(),
            final(self).spec_in_flight() == old(self).spec_in_flight(),
    {
        let entry = CacheEntry::Pending { notify: self.next_notify, started_at: now };
        self.insert(name, entry);
        self.next_notify = self.next_notify.wrapping_add(1);
    }

    /// Stores the outcome of a call of the resolver, and says what the caller
    /// is told and who is to be woken.
    pub fn apply_refresh(
        &mut self,
        name: &String,
        outcome: Result<ResolveAnswer, ResolverError>,
        stale_addrs: Option<Vec<IpAddr>>,
        now: u128,
        config: &ResolverConfig,
    ) -> (done: (Result<CacheResult, ResolverError>, Option<u64>))
        requires
            old(self).wf(),
            config.usable_at(now),
        ensures
            final(self).wf(),
            final(self)@ == old(self)@.insert(
                name@,
                refreshed_entry(outcome, addrs_view(stale_addrs), now, *config),
            ),
            final(self).spec_next_notify() == old(self).spec_next_notify(),
            final(self).spec_max_in_flight() == old(self).spec_max_in_flight(),
            final(self).spec_in_flight() == old(self).spec_in_flight(),
            refresh_answers(done.0, outcome, addrs_view(stale_addrs)),
            done.1 == waiters_of(old(self)@.get(name@)),
    {
        match outcome {
            Ok(answer) => {
                if answer.addrs.len() == 0 {
                    return self.commit_failure(
                        name,
                        ResolverError::EmptyAnswer,
                        stale_addrs,
                        now,
                        config,
                    );
                }
                let clamped = clamp_ttl(answer.ttl, config);
                let entry = CacheEntry::Resolved {
                    addrs: copy_addrs(&answer.addrs),
                    expiry: now + clamped,
                };
                let woken = self.insert(name, entry);
                (Ok(CacheResult { addrs: answer.addrs, source: AnswerSource::Fresh }), woken)
            },
            Err(err) => self.commit_failure(name, err, stale_addrs, now, config),
        }
    }

    /// Stores a failure of the resolver.
    fn commit_failure(
        &mut self,
        name: &String,
        err: ResolverError,
        stale_addrs: Option<Vec<IpAddr>>,
        now: u128,
        config: &ResolverConfig,
    ) -> (done: (Result<CacheResult, ResolverError>, Option<u64>))
        requires
            old(self).wf(),
            config.usable_at(now),
        ensures
            final(self).wf(),
            final(self)@ == old(self)@.insert(
                name@,
                failed_entry(err, addrs_view(stale_addrs), now, *config),
            ),
            final(self).spec_next_notify() == old(self).spec_next_notify(),
            final(self).spec_max_in_flight() == old(self).spec_max_in_flight(),
            final(self).spec_in_flight() == old(self).spec_in_flight(),
            failure_answers(done.0, err, addrs_view(stale_addrs)),
            done.1 == waiters_of(old(self)@.get(name@)),
    {
        match stale_addrs {
            Some(stale) => {
                let entry = CacheEntry::StaleAfterFailedRefresh {
                    stale_addrs: copy_addrs(&stale),
                    fail_grace_until: now + config.stale_while_error_grace,
                };
                let woken = self.insert(name, entry);
                (Ok(CacheResult { addrs: stale, source: AnswerSource::Stale }), woken)
            },
            None => {
                let entry = CacheEntry::Failed {
                    retry_after: now + config.negative_cache_retry,
                    last_reason: err.duplicate(),
                };
                let woken = self.insert(name, entry);
                (Err(err), woken)
            },
        }
    }

    /// Drops every entry that is of no use, and returns the waiters of the
    /// abandoned ones.
    fn drop_useless(&mut self, now: u128, abandon_after: u128) -> (woken: Vec<u64>)
        requires
            old(self).wf(),
        ensures
            final(self).wf(),
            final(self)@ == surviving(old(self)@, now, abandon_after),
            final(self).spec_next_notify() == old(self).spec_next_notify(),
            final(self).spec_max_in_flight() == old(self).spec_max_in_flight(),
            final(self).spec_in_flight() == old(self).spec_in_flight(),
            forall|notify: u64| #[trigger]
                woken@.contains(notify) <==> exists|name: Seq<char>| #[trigger]
                    reaped(old(self)@, name, notify, now, abandon_after),
    {
        let ghost before = self@;
        let mut woken: Vec<u64> = Vec::new();
        let mut i: usize = 0;
        while i < self.slots.len()
            invariant
                before == old(self)@,
                i <= self.slots@.len(),
                self.wf(),
                self.spec_next_notify() == old(self).spec_next_notify(),
                self.spec_max_in_flight() == old(self).spec_max_in_flight(),
                self.spec_in_flight() == old(self).spec_in_flight(),
                self@.submap_of(before),
                forall|j: int|
                    0 <= j < i ==> (#[trigger] self.slots@[j]).entry@.survives(now, abandon_after),
                forall|name: Seq<char>| #[trigger]
                    before.contains_key(name) && before[name].survives(now, abandon_after)
                        ==> self@.contains_key(name),
                forall|notify: u64| #[trigger]
                    woken@.contains(notify) <==> exists|name: Seq<char>| #[trigger]
                        reaped(before, name, notify, now, abandon_after) && !self@.contains_key(
                            name,
                        ),
            decreases self.slots@.len() - i,
        {
            let ghost here = self@;
            let ghost name = self.slots@[i as int].name@;
            let ghost entry = self.slots@[i as int].entry@;
            proof {
                lemma_entry_at(self.slots@, i as int);
                lemma_remove(self.slots@, i as int);
            }
            let abandoned = match &self.slots[i].entry {
                CacheEntry::Pending { notify, started_at } => {
                    if now > *started_at && now - *started_at > abandon_after {
                        Some(*notify)
                    } else {
                        None
                    }
                },
                _ => None,
            };
            let useless = match entry_deadline(&self.slots[i].entry) {
                Some(deadline) => deadline <= now,
                None => abandoned.is_some(),
            };
            if useless {
                let ghost woken_before = woken@;
                if let Some(notify) = abandoned {
                    woken.push(notify);
                }
                self.slots.remove(i);
                proof {
                    assert(self@ == here.remove(name));
                    assert forall|notify: u64| #[trigger]
                        woken@.contains(notify) implies exists|name: Seq<char>| #[trigger]
                        reaped(before, name, notify, now, abandon_after) && !self@.contains_key(
                            name,
                        ) by {
                        if woken_before.contains(notify) {
                            let other = choose|other: Seq<char>| #[trigger]
                                reaped(before, other, notify, now, abandon_after)
                                    && !here.contains_key(other);
                            assert(reaped(before, other, notify, now, abandon_after)
                                && !self@.contains_key(other));
                        } else {
                            assert(reaped(before, name, notify, now, abandon_after)
                                && !self@.contains_key(name));
                        }
                    }
                    assert forall|notify: u64|
                        (exists|name: Seq<char>| #[trigger]
                            reaped(before, name, notify, now, abandon_after)
                                && !self@.contains_key(name)) implies #[trigger] woken@.contains(
                        notify,
                    ) by {
                        let other = choose|other: Seq<char>| #[trigger]
                            reaped(before, other, notify, now, abandon_after)
                                && !self@.contains_key(other);
                        if other == name {
                            assert(abandoned == Some(notify));
                            assert(woken@.last() == notify);
                        } else {
                            assert(!here.contains_key(other));
                            assert(woken_before.contains(notify));
                            let at = choose|at: int|
                                0 <= at < woken_before.len() && woken_before[at] == notify;
                            assert(woken@[at] == notify);
                        }
                    }
                }
            } else {
                i = i + 1;
            }
        }
        proof {
            assert forall|name: Seq<char>| self@.contains_key(name) implies self@[name].survives(
                now,
                abandon_after,
            ) by {
                let j = index_of_name(self.slots@, name);
                lemma_entry_at(self.slots@, j);
            }
            assert(self@ =~= surviving(before, now, abandon_after));
            assert forall|notify: u64|
                (exists|name: Seq<char>| #[trigger]
                    reaped(before, name, notify, now, abandon_after)) implies #[trigger]
            woken@.contains(notify) by {
                let name = choose|name: Seq<char>| #[trigger]
                    reaped(before, name, notify, now, abandon_after);
                assert(!self@.contains_key(name));
            }
        }
        woken
    }

    /// The entry that is closest to its deadline. `None` if all are pending.
    fn closest(&self) -> (at: Option<usize>)
        requires
            self.wf(),
        ensures
            match at {
                Some(i) => {
                    &&& i < self.slots@.len()
                    &&& self.slots@[i as int].entry@.deadline() is Some
                    &&& forall|j: int|
                        0 <= j < self.slots@.len() && (
                        #[trigger] self.slots@[j]).entry@.deadline() is Some
                            ==> self.slots@[i as int].entry@.deadline()->0
                            <= self.slots@[j].entry@.deadline()->0
                },
                None => forall|j: int|
                    0 <= j < self.slots@.len() ==> (#[trigger] self.slots@[j]).entry@ is Pending,
            },
    {
        let mut best: Option<(usize, u128)> = None;
        let mut i: usize = 0;
        while i < self.slots.len()
            invariant
                i <= self.slots@.len(),
                match best {
                    Some((at, deadline)) => {
                        &&& at < i
                        &&& self.slots@[at as int].entry@.deadline() == Some(deadline)
                        &&& forall|j: int|
                            0 <= j < i && (#[trigger] self.slots@[j]).entry@.deadline() is Some
                                ==> deadline <= self.slots@[j].entry@.deadline()->0
                    },
                    None => forall|j: int|
                        0 <= j < i ==> (#[trigger] self.slots@[j]).entry@ is Pending,
                },
            decreases self.slots@.len() - i,
        {
            if let Some(deadline) = entry_deadline(&self.slots[i].entry) {
                let better = match best {
                    Some((_, so_far)) => deadline < so_far,
                    None => true,
                };
                if better {
                    best = Some((i, deadline));
                }
            }
            i = i + 1;
        }
        match best {
            Some((at, _)) => Some(at),
            None => None,
        }
    }

    /// Makes room for one more name.
    fn evict_locked(
        &mut self,
        now: u128,
        max_entries: usize,
        abandon_after: u128,
    ) -> (woken: Vec<u64>)
        requires
            old(self).wf(),
        ensures
            final(self).wf(),
            evicted(old(self)@, final(self)@, now, max_entries as nat, abandon_after),
            eviction_wakes(old(self)@, woken@, now, max_entries as nat, abandon_after),
            final(self).spec_next_notify() == old(self).spec_next_notify(),
            final(self).spec_max_in_flight() == old(self).spec_max_in_flight(),
            final(self).spec_in_flight() == old(self).spec_in_flight(),
    {
        proof {
            lemma_entry_map_len(self.slots@);
        }
        if self.slots.len() < max_entries {
            return Vec::new();
        }
        let woken = self.drop_useless(now, abandon_after);
        let ghost kept = self@;
        proof {
            lemma_entry_map_len(self.slots@);
        }
        let mut more = true;
        while more && self.slots.len() >= max_entries
            invariant
                self.wf(),
                self.spec_next_notify() == old(self).spec_next_notify(),
                self.spec_max_in_flight() == old(self).spec_max_in_flight(),
                self.spec_in_flight() == old(self).spec_in_flight(),
                self@.submap_of(kept),
                forall|name: Seq<char>| #[trigger]
                    kept.contains_key(name) && kept[name] is Pending ==> self@.contains_key(name),
                forall|gone: Seq<char>, stays: Seq<char>|
                    #![trigger kept.contains_key(gone), self@.contains_key(stays)]
                    kept.contains_key(gone) && !self@.contains_key(gone) && self@.contains_key(
                        stays,
                    ) && !(self@[stays] is Pending) ==> kept[gone].deadline()->0
                        <= self@[stays].deadline()->0,
                !more ==> forall|name: Seq<char>| #[trigger]
                    self@.contains_key(name) ==> self@[name] is Pending,
                kept.dom().finite(),
                self@.dom().finite(),
                self@.dom().len() == self.slots@.len(),
                self@.dom().len() < kept.dom().len() ==> self@.dom().len() + 1 >= max_entries,
            decreases self.slots@.len(), (if more { 1int } else { 0int }),
        {
            match self.closest() {
                Some(i) => {
                    let ghost here = self@;
                    let ghost name = self.slots@[i as int].name@;
                    proof {
                        lemma_entry_at(self.slots@, i as int);
                        lemma_remove(self.slots@, i as int);
                        assert forall|stays: Seq<char>|
                            here.contains_key(stays) && !(
                            #[trigger] here[stays] is Pending) implies here[name].deadline()->0
                            <= here[stays].deadline()->0 by {
                            let j = index_of_name(self.slots@, stays);
                            lemma_entry_at(self.slots@, j);
                        }
                    }
                    self.slots.remove(i);
                    proof {
                        assert(self@ == here.remove(name));
                        lemma_entry_map_len(self.slots@);
                    }
                },
                None => {
                    proof {
                        assert forall|name: Seq<char>| #[trigger]
                            self@.contains_key(name) implies self@[name] is Pending by {
                            let j = index_of_name(self.slots@, name);
                            lemma_entry_at(self.slots@, j);
                        }
                    }
                    more = false;
                },
            }
        }
        woken
    }

    /// One step of the lookup of a name. `round` counts the steps of this
    /// lookup that came before.
    pub fn get_or_resolve(
        &mut self,
        name: &String,
        round: u32,
        now: u128,
        config: &ResolverConfig,
    ) -> (next: Lookup)
        requires
            old(self).wf(),
            config.usable_at(now),
        ensures
            final(self).wf(),
            final(self).spec_max_in_flight() == old(self).spec_max_in_flight(),
            !(next is Resolve) ==> {
                &&& final(self)@ == old(self)@
                &&& final(self).spec_in_flight() == old(self).spec_in_flight()
                &&& final(self).spec_next_notify() == old(self).spec_next_notify()
            },
            ({
                let entry = old(self)@.get(name@);
                let pending = EntryView::Pending {
                    notify: old(self).spec_next_notify(),
                    started_at: now,
                };
                if round >= MAX_LOOKUP_ROUNDS {
                    next matches Lookup::Fail(ResolverError::Lookup(reason)) && reason@
                        == "cache state oscillation"@
                } else if !needs_resolver(entry, now, *config) {
                    served(next, entry->0)
                } else if old(self).spec_in_flight() >= old(self).spec_max_in_flight() {
                    next == Lookup::Fail(ResolverError::Overloaded(config.max_concurrent_resolves))
                } else {
                    &&& next matches Lookup::Resolve { stale_addrs, woken }
                    &&& addrs_view(stale_addrs) == fallback_of(entry)
                    &&& final(self).spec_in_flight() == old(self).spec_in_flight() + 1
                    &&& final(self).spec_next_notify() == old(
                        self,
                    ).spec_next_notify().wrapping_add(1)
                    &&& final(self)@.get(name@) == Some(pending)
                    &&& if entry is Some {
                        &&& final(self)@ == old(self)@.insert(name@, pending)
                        &&& woken@ == match waiters_of(entry) {
                            Some(notify) => seq![notify],
                            None => Seq::<u64>::empty(),
                        }
                    } else {
                        &&& evicted(
                            old(self)@,
                            final(self)@.remove(name@),
                            now,
                            config.max_cache_entries as nat,
                            abandon_after(*config),
                        )
                        &&& eviction_wakes(
                            old(self)@,
                            woken@,
                            now,
                            config.max_cache_entries as nat,
                            abandon_after(*config),
                        )
                    }
                }
            }),
    {
        if round >= MAX_LOOKUP_ROUNDS {
            return Lookup::Fail(ResolverError::Lookup("cache state oscillation".to_owned()));
        }
        let abandon_after: u128 = config.attempt_timeout + PENDING_ABANDON_MARGIN;
        let ghost entry = self@.get(name@);
        let mut stale_addrs: Option<Vec<IpAddr>> = None;
        let mut woken: Vec<u64> = Vec::new();
        match self.position(name) {
            Some(i) => {
                match &self.slots[i].entry {
                    CacheEntry::Resolved { addrs, expiry } => {
                        if now < *expiry {
                            return Lookup::Answer(
                                CacheResult {
                                    addrs: copy_addrs(addrs),
                                    source: AnswerSource::Cached,
                                },
                            );
                        }
                        stale_addrs = Some(copy_addrs(addrs));
                    },
                    CacheEntry::Pending { notify, started_at } => {
                        if now <= *started_at || now - *started_at <= abandon_after {
                            return Lookup::Wait { notify: *notify };
                        }
                        woken.push(*notify);
                    },
                    CacheEntry::StaleAfterFailedRefresh { stale_addrs, fail_grace_until } => {
                        if now < *fail_grace_until {
                            return Lookup::Answer(
                                CacheResult {
                                    addrs: copy_addrs(stale_addrs),
                                    source: AnswerSource::Stale,
                                },
                            );
                        }
                    },
                    CacheEntry::Failed { retry_after, last_reason } => {
                        if now < *retry_after {
                            return Lookup::Fail(last_reason.duplicate());
                        }
                    },
                }
                if !self.try_reserve_slot() {
                    return Lookup::Fail(ResolverError::Overloaded(config.max_concurrent_resolves));
                }
            },
            None => {
                if !self.try_reserve_slot() {
                    return Lookup::Fail(ResolverError::Overloaded(config.max_concurrent_resolves));
                }
                let ghost before = self@;
                woken = self.evict_locked(now, config.max_cache_entries, abandon_after);
                assert(!surviving(before, now, abandon_after).contains_key(name@));
                assert(!self@.dom().contains(name@));
            },
        }
        let ghost room = self@;
        self.install_pending(name, now);
        assert(entry is None ==> self@.remove(name@) =~= room);
        assert(entry is Some ==> woken@ =~= match waiters_of(entry) {
            Some(notify) => seq![notify],
            None => Seq::<u64>::empty(),
        });
        Lookup::Resolve { stale_addrs, woken }
    }
}

/// A cache has finitely many entries.
pub(crate) proof fn lemma_entries_are_finite(cache: Cache)
    requires
        cache.wf(),
    ensures
        cache@.dom().finite(),
{
    lemma_entry_map_len(cache.slots@);
}

/// Once a lookup has gone to the resolver, everybody else who asks for the
/// name waits for it, until it is given up for lost.
pub proof fn law_single_flight(notify: u64, started_at: u128, later: u128, config: ResolverConfig)
    requires
        config.usable_at(later),
    ensures
        needs_resolver(Some(EntryView::Pending { notify, started_at }), later, config) <==> later
            - started_at > config.attempt_timeout + PENDING_ABANDON_MARGIN,
{
}

/// An answer is used for its time to live, but not for less than the floor
/// nor for more than the ceiling.
pub proof fn law_answer_lives_for_its_clamped_ttl(
    answer: ResolveAnswer,
    stale: Option<Seq<IpAddr>>,
    now: u128,
    later: u128,
    config: ResolverConfig,
)
    requires
        config.usable_at(now),
        answer.addrs@.len() > 0,
    ensures
        config.cache_floor <= clamped_ttl(answer.ttl, config) <= config.cache_ceiling,
        config.cache_floor <= answer.ttl <= config.cache_ceiling ==> clamped_ttl(answer.ttl, config)
            == answer.ttl,
        ({
            let entry = refreshed_entry(Ok(answer), stale, now, config);
            &&& needs_resolver(Some(entry), later, config) <==> later - now >= clamped_ttl(
                answer.ttl,
                config,
            )
            &&& fallback_of(Some(entry)) == Some(answer.addrs@)
        }),
{
}

/// When a refresh fails, the last good answer serves for the grace period. If
/// the next refresh fails too, there is nothing left to serve: the name has
/// failed, and is not tried again until the retry delay is over.
pub proof fn law_failures_run_out_of_grace(
    err: ResolverError,
    next_err: ResolverError,
    addrs: Seq<IpAddr>,
    now: u128,
    later: u128,
    latest: u128,
    config: ResolverConfig,
)
    requires
        config.usable_at(now),
        config.usable_at(later),
    ensures
        ({
            let grace = failed_entry(err, Some(addrs), now, config);
            let failed = failed_entry(next_err, fallback_of(Some(grace)), later, config);
            &&& grace is Stale && grace->Stale_addrs == addrs
            &&& needs_resolver(Some(grace), later, config) <==> later - now
                >= config.stale_while_error_grace
            &&& failed is Failed && failed->reason == next_err
            &&& needs_resolver(Some(failed), latest, config) <==> latest - later
                >= config.negative_cache_retry
        }),
{
}

/// Eviction keeps the cache within its bound: with the new name there are at
/// most `max_entries` names, unless all the others are being resolved.
pub proof fn law_eviction_bounds_the_cache(
    before: EntryMap,
    after: EntryMap,
    name: Seq<char>,
    entry: EntryView,
    now: u128,
    max_entries: nat,
    abandon_after: u128,
)
    requires
        before.dom().finite(),
        evicted(before, after, now, max_entries, abandon_after),
    ensures
        after.insert(name, entry).dom().len() <= max_entries || forall|other: Seq<char>| #[trigger]
            after.contains_key(other) ==> after[other] is Pending,
{
    let kept = surviving(before, now, abandon_after);
    assert(after.dom().subset_of(before.dom())) by {
        assert forall|n: Seq<char>| after.dom().contains(n) implies before.dom().contains(n) by {
            if before.dom().len() >= max_entries {
                assert(kept.dom().contains(n));
            }
        }
    }
    vstd::set_lib::lemma_len_subset(after.dom(), before.dom());
    assert(after.insert(name, entry).dom() =~= after.dom().insert(name));
}

/// Eviction never drops a name that is being resolved: those who wait for it
/// would wait for ever. One whose resolver call was abandoned goes.
pub proof fn law_eviction_keeps_what_is_in_flight(
    before: EntryMap,
    after: EntryMap,
    name: Seq<char>,
    now: u128,
    max_entries: nat,
    abandon_after: u128,
)
    requires
        evicted(before, after, now, max_entries, abandon_after),
        before.contains_key(name),
        before[name] is Pending,
    ensures
        !before[name].abandoned(now, abandon_after) ==> after.contains_key(name) && after[name]
            == before[name],
        before[name].abandoned(now, abandon_after) && before.dom().len() >= max_entries
            ==> !after.contains_key(name),
{
    let kept = surviving(before, now, abandon_after);
    if before.dom().len() >= max_entries {
        if !before[name].abandoned(now, abandon_after) {
            assert(kept.contains_key(name));
            assert(after.dom().contains(name));
        } else {
            assert(!kept.dom().contains(name));
        }
    }
}

} // verus!
