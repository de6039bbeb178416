//! What the cache promises over several calls.

use vstd::prelude::*;

use super::cache::{AnswerSource, Cache, CacheResult, EntryView, Lookup};
use super::{order_by_family, ResolveAnswer, ResolverConfig, ResolverError};
use crate::addr::{IpAddr, SocketAddr};

verus! {

/// An answer of the resolver is handed on whole. Until its time to live is over,
/// taken within the bounds of the configuration, every lookup of the name gets all
/// its addresses in the same order, and nothing changes. After that the resolver is
/// to be asked again, unless too many calls are in flight, and the old addresses are
/// kept for the case that it fails.
pub proof fn law_an_answer_serves_whole_until_it_expires(
    cache: &mut Cache,
    name: &String,
    answer: ResolveAnswer,
    stale: Option<Vec<IpAddr>>,
    now: u128,
    config: &ResolverConfig,
    done: (Result<CacheResult, ResolverError>, Option<u64>),
    later_cache: &mut Cache,
    round: u32,
    later: u128,
    next: Lookup,
)
    requires
        cache.wf(),
        config.usable_at(now),
        answer.addrs@.len() > 0,
        call_ensures(Cache::apply_refresh, (cache, name, Ok(answer), stale, now, config), done),
        later_cache.wf(),
        config.usable_at(later),
        later_cache@.get(name@) == final(cache)@.get(name@),
        round < 4,
        call_ensures(Cache::get_or_resolve, (later_cache, name, round, later, config), next),
    ensures
        done.0 matches Ok(r) && r.addrs@ == answer.addrs@ && r.source == AnswerSource::Fresh,
        ({
            let ttl = if answer.ttl < config.cache_floor {
                config.cache_floor
            } else if answer.ttl > config.cache_ceiling {
                config.cache_ceiling
            } else {
                answer.ttl
            };
            if later < now + ttl {
                &&& next matches Lookup::Answer(r)
                &&& r.addrs@ == answer.addrs@
                &&& r.source == AnswerSource::Cached
                &&& final(later_cache)@ == old(later_cache)@
            } else if old(later_cache).spec_in_flight() < old(later_cache).spec_max_in_flight() {
                &&& next matches Lookup::Resolve { stale_addrs: Some(kept), .. }
                &&& kept@ == answer.addrs@
            } else {
                next == Lookup::Fail(ResolverError::Overloaded(config.max_concurrent_resolves))
            }
        }),
{
}

/// When a refresh fails, with an error or with no address, those who have the old
/// addresses get them, and so does every lookup of the name during the grace
/// period: all of them, in the same order. After it the resolver is to be asked
/// again, and there is nothing to fall back on.
pub proof fn law_the_old_answer_outlives_a_failed_refresh(
    cache: &mut Cache,
    name: &String,
    outcome: Result<ResolveAnswer, ResolverError>,
    stale: Vec<IpAddr>,
    now: u128,
    config: &ResolverConfig,
    done: (Result<CacheResult, ResolverError>, Option<u64>),
    later_cache: &mut Cache,
    round: u32,
    later: u128,
    next: Lookup,
)
    requires
        cache.wf(),
        config.usable_at(now),
        outcome matches Ok(answer) ==> answer.addrs@.len() == 0,
        call_ensures(Cache::apply_refresh, (cache, name, outcome, Some(stale), now, config), done),
        later_cache.wf(),
        config.usable_at(later),
        later_cache@.get(name@) == final(cache)@.get(name@),
        round < 4,
        call_ensures(Cache::get_or_resolve, (later_cache, name, round, later, config), next),
    ensures
        done.0 matches Ok(r) && r.addrs@ == stale@ && r.source == AnswerSource::Stale,
        if later < now + config.stale_while_error_grace {
            &&& next matches Lookup::Answer(r)
            &&& r.addrs@ == stale@
            &&& r.source == AnswerSource::Stale
            &&& final(later_cache)@ == old(later_cache)@
        } else if old(later_cache).spec_in_flight() < old(later_cache).spec_max_in_flight() {
            next matches Lookup::Resolve { stale_addrs: None, .. }
        } else {
            next == Lookup::Fail(ResolverError::Overloaded(config.max_concurrent_resolves))
        },
{
}

/// A failure with nothing to fall back on is reported as it came, and every lookup
/// of the name gets the same error until the retry delay is over. After it the
/// resolver is to be asked again.
pub proof fn law_a_failure_is_remembered_until_it_may_be_retried(
    cache: &mut Cache,
    name: &String,
    outcome: Result<ResolveAnswer, ResolverError>,
    now: u128,
    config: &ResolverConfig,
    done: (Result<CacheResult, ResolverError>, Option<u64>),
    later_cache: &mut Cache,
    round: u32,
    later: u128,
    next: Lookup,
)
    requires
        cache.wf(),
        config.usable_at(now),
        outcome matches Ok(answer) ==> answer.addrs@.len() == 0,
        call_ensures(Cache::apply_refresh, (cache, name, outcome, None, now, config), done),
        later_cache.wf(),
        config.usable_at(later),
        later_cache@.get(name@) == final(cache)@.get(name@),
        round < 4,
        call_ensures(Cache::get_or_resolve, (later_cache, name, round, later, config), next),
    ensures
        ({
            let error = match outcome {
                Ok(_) => ResolverError::EmptyAnswer,
                Err(e) => e,
            };
            &&& done.0 == Err::<CacheResult, ResolverError>(error)
            &&& if later < now + config.negative_cache_retry {
                &&& next == Lookup::Fail(error)
                &&& final(later_cache)@ == old(later_cache)@
            } else if old(later_cache).spec_in_flight() < old(later_cache).spec_max_in_flight() {
                next matches Lookup::Resolve { stale_addrs: None, .. }
            } else {
                next == Lookup::Fail(ResolverError::Overloaded(config.max_concurrent_resolves))
            }
        }),
{
}

/// A refresh concerns its own name: every other entry stays as it is, and so do the
/// calls in flight.
pub proof fn law_a_refresh_concerns_one_name(
    cache: &mut Cache,
    name: &String,
    outcome: Result<ResolveAnswer, ResolverError>,
    stale: Option<Vec<IpAddr>>,
    now: u128,
    config: &ResolverConfig,
    done: (Result<CacheResult, ResolverError>, Option<u64>),
    other: Seq<char>,
)
    requires
        cache.wf(),
        config.usable_at(now),
        other != name@,
        call_ensures(Cache::apply_refresh, (cache, name, outcome, stale, now, config), done),
    ensures
        final(cache)@.get(other) == old(cache)@.get(other),
        final(cache)@.contains_key(name@),
        !(final(cache)@[name@] is Pending),
        final(cache).spec_in_flight() == old(cache).spec_in_flight(),
        final(cache).spec_max_in_flight() == old(cache).spec_max_in_flight(),
{
}

/// While one lookup of a name asks the resolver, every other lookup of the name
/// waits, until the call is given up for lost: a second after its time is up. Those
/// who waited are woken by the refresh, and by whoever takes over a lost call.
pub proof fn law_one_call_at_a_time_per_name(
    cache: &mut Cache,
    name: &String,
    round: u32,
    now: u128,
    config: &ResolverConfig,
    stale_addrs: Option<Vec<IpAddr>>,
    woken: Vec<u64>,
    later_cache: &mut Cache,
    later_round: u32,
    later: u128,
    next: Lookup,
    end_cache: &mut Cache,
    outcome: Result<ResolveAnswer, ResolverError>,
    end_stale: Option<Vec<IpAddr>>,
    end: u128,
    done: (Result<CacheResult, ResolverError>, Option<u64>),
)
    requires
        cache.wf(),
        config.usable_at(now),
        call_ensures(
            Cache::get_or_resolve,
            (cache, name, round, now, config),
            Lookup::Resolve { stale_addrs, woken },
        ),
        later_cache.wf(),
        config.usable_at(later),
        later_cache@.get(name@) == final(cache)@.get(name@),
        later_round < 4,
        call_ensures(Cache::get_or_resolve, (later_cache, name, later_round, later, config), next),
        end_cache.wf(),
        config.usable_at(end),
        end_cache@.get(name@) == final(cache)@.get(name@),
        call_ensures(
            Cache::apply_refresh,
            (end_cache, name, outcome, end_stale, end, config),
            done,
        ),
    ensures
        round < 4,
        final(cache).spec_in_flight() == old(cache).spec_in_flight() + 1,
        final(cache).spec_in_flight() <= final(cache).spec_max_in_flight(),
        done.1 == Some(old(cache).spec_next_notify()),
        final(cache).spec_next_notify() == old(cache).spec_next_notify().wrapping_add(1),
        later - now <= config.attempt_timeout + 1_000_000_000 ==> {
            &&& next == (Lookup::Wait { notify: old(cache).spec_next_notify() })
            &&& final(later_cache)@ == old(later_cache)@
            &&& final(later_cache).spec_in_flight() == old(later_cache).spec_in_flight()
        },
        later - now > config.attempt_timeout + 1_000_000_000 && old(later_cache).spec_in_flight()
            < old(later_cache).spec_max_in_flight() ==> {
            &&& next matches Lookup::Resolve { stale_addrs: None, woken: again }
            &&& again@ == seq![old(cache).spec_next_notify()]
        },
{
}

/// Asking for a name that has an entry leaves all other entries as they are, also
/// when the resolver has to be asked.
pub proof fn law_a_known_name_displaces_nothing(
    cache: &mut Cache,
    name: &String,
    round: u32,
    now: u128,
    config: &ResolverConfig,
    next: Lookup,
    other: Seq<char>,
)
    requires
        cache.wf(),
        config.usable_at(now),
        cache@.contains_key(name@),
        other != name@,
        call_ensures(Cache::get_or_resolve, (cache, name, round, now, config), next),
    ensures
        final(cache)@.get(other) == old(cache)@.get(other),
        final(cache)@.contains_key(name@),
        next is Resolve || final(cache)@ == old(cache)@,
{
}

/// A name without an entry is asked of the resolver, unless too many calls are in
/// flight or the lookup has gone round too often; there is nothing to fall back on.
pub proof fn law_an_unknown_name_is_resolved(
    cache: &mut Cache,
    name: &String,
    round: u32,
    now: u128,
    config: &ResolverConfig,
    next: Lookup,
)
    requires
        cache.wf(),
        config.usable_at(now),
        !cache@.contains_key(name@),
        round < 4,
        call_ensures(Cache::get_or_resolve, (cache, name, round, now, config), next),
    ensures
        if old(cache).spec_in_flight() < old(cache).spec_max_in_flight() {
            &&& next matches Lookup::Resolve { stale_addrs: None, .. }
            &&& final(cache)@.get(name@) matches Some(EntryView::Pending { started_at, .. })
            &&& started_at == now
        } else {
            &&& next == Lookup::Fail(ResolverError::Overloaded(config.max_concurrent_resolves))
            &&& final(cache)@ == old(cache)@
            &&& final(cache).spec_in_flight() == old(cache).spec_in_flight()
        },
{
}

/// A lookup that has gone round four times gives up, and changes nothing.
pub proof fn law_a_lookup_goes_round_four_times(
    cache: &mut Cache,
    name: &String,
    round: u32,
    now: u128,
    config: &ResolverConfig,
    next: Lookup,
)
    requires
        cache.wf(),
        config.usable_at(now),
        round >= 4,
        call_ensures(Cache::get_or_resolve, (cache, name, round, now, config), next),
    ensures
        next matches Lookup::Fail(ResolverError::Lookup(reason)) && reason@
            == "cache state oscillation"@,
        final(cache)@ == old(cache)@,
        final(cache).spec_in_flight() == old(cache).spec_in_flight(),
{
}

/// While there is room, a new name takes nobody's place.
pub proof fn law_nothing_goes_while_there_is_room(
    cache: &mut Cache,
    name: &String,
    round: u32,
    now: u128,
    config: &ResolverConfig,
    next: Lookup,
    other: Seq<char>,
)
    requires
        cache.wf(),
        config.usable_at(now),
        cache@.dom().len() < config.max_cache_entries,
        other != name@,
        call_ensures(Cache::get_or_resolve, (cache, name, round, now, config), next),
    ensures
        final(cache)@.get(other) == old(cache)@.get(other),
        !old(cache)@.contains_key(name@) ==> (next matches Lookup::Resolve { woken, .. } ==> woken@
            == Seq::<u64>::empty()),
{
    if next is Resolve && !cache@.contains_key(name@) {
        assert(final(cache)@.remove(name@) == cache@);
        assert(final(cache)@.remove(name@).get(other) == cache@.get(other));
    }
}

/// The last instant at which an entry is of use, if it has one.
pub open spec fn of_use_until(entry: EntryView) -> Option<u128> {
    match entry {
        EntryView::Pending { .. } => None,
        EntryView::Resolved { expiry, .. } => Some(expiry),
        EntryView::Stale { until, .. } => Some(until),
        EntryView::Failed { retry_after, .. } => Some(retry_after),
    }
}

/// When a new name comes into a full cache, no entry is altered; what is of no use
/// any more goes, and calls in flight stay. An entry of use goes only if it is at
/// least as close to its end as every entry that stays, and no more of them go than
/// it takes to make room.
pub proof fn law_a_full_cache_drops_what_ends_first(
    cache: &mut Cache,
    name: &String,
    round: u32,
    now: u128,
    config: &ResolverConfig,
    stale_addrs: Option<Vec<IpAddr>>,
    woken: Vec<u64>,
    other: Seq<char>,
    stays: Seq<char>,
)
    requires
        cache.wf(),
        config.usable_at(now),
        !cache@.contains_key(name@),
        cache@.dom().len() >= config.max_cache_entries,
        other != name@,
        stays != name@,
        cache@.contains_key(other),
        call_ensures(
            Cache::get_or_resolve,
            (cache, name, round, now, config),
            Lookup::Resolve { stale_addrs, woken },
        ),
    ensures
        ({
            let before = old(cache)@;
            let after = final(cache)@;
            let entry = before[other];
            let lost = entry matches EntryView::Pending { started_at, .. } && now - started_at
                > config.attempt_timeout + 1_000_000_000;
            &&& after.contains_key(other) ==> after[other] == entry
            &&& after.contains_key(stays) ==> before.contains_key(stays) && after[stays]
                == before[stays]
            &&& entry is Pending ==> (after.contains_key(other) <==> !lost)
            &&& lost ==> woken@.contains(entry->notify)
            &&& of_use_until(entry) matches Some(until) ==> {
                &&& until <= now ==> !after.contains_key(other)
                &&& until > now && !after.contains_key(other) ==> {
                    &&& after.dom().len() >= config.max_cache_entries
                    &&& after.contains_key(stays) && of_use_until(before[stays]) is Some ==> until
                        <= of_use_until(before[stays])->0
                }
            }
        }),
{
    let before = cache@;
    let after = final(cache)@;
    let rest = after.remove(name@);
    let kept = super::cache::surviving(
        before,
        now,
        (config.attempt_timeout + 1_000_000_000) as u128,
    );
    assert(rest.contains_key(other) == after.contains_key(other));
    assert(rest.contains_key(stays) == after.contains_key(stays));
    assert(rest.submap_of(kept));
    if rest.contains_key(other) {
        assert(kept.contains_key(other));
        assert(rest[other] == kept[other]);
    }
    if rest.contains_key(stays) {
        assert(kept.contains_key(stays));
        assert(rest[stays] == kept[stays]);
    }
    assert(kept.contains_key(other) == before[other].survives(
        now,
        (config.attempt_timeout + 1_000_000_000) as u128,
    ));
    if before[other] is Pending && !kept.contains_key(other) {
        assert(super::cache::reaped(
            before,
            other,
            before[other]->notify,
            now,
            (config.attempt_timeout + 1_000_000_000) as u128,
        ));
    }
    if kept.contains_key(other) && !rest.contains_key(other) {
        lemma_sizes(*cache, before, kept, rest, after, name@, other);
    }
}

proof fn lemma_sizes(
    cache: Cache,
    before: super::cache::EntryMap,
    kept: super::cache::EntryMap,
    rest: super::cache::EntryMap,
    after: super::cache::EntryMap,
    name: Seq<char>,
    gone: Seq<char>,
)
    requires
        cache.wf(),
        before == cache@,
        kept.dom().subset_of(before.dom()),
        rest == after.remove(name),
        after.contains_key(name),
        rest.dom().subset_of(kept.dom()),
        kept.contains_key(gone),
        !rest.contains_key(gone),
    ensures
        rest.dom().len() < kept.dom().len(),
        after.dom().len() == rest.dom().len() + 1,
{
    super::cache::lemma_entries_are_finite(cache);
    vstd::set_lib::lemma_set_subset_finite(before.dom(), kept.dom());
    vstd::set_lib::lemma_set_subset_finite(kept.dom(), rest.dom());
    assert(rest.dom().insert(gone).subset_of(kept.dom()));
    vstd::set_lib::lemma_len_subset(rest.dom().insert(gone), kept.dom());
    assert(after.dom() =~= rest.dom().insert(name));
}

/// Giving a slot back lets one more call go ahead, and touches no entry.
pub proof fn law_a_slot_comes_back(cache: &mut Cache)
    requires
        cache.wf(),
        call_ensures(Cache::release_slot, (cache,), ()),
    ensures
        final(cache)@ == old(cache)@,
        old(cache).spec_in_flight() > 0 ==> final(cache).spec_in_flight() + 1 == old(cache).spec_in_flight(),
        old(cache).spec_in_flight() == 0 ==> final(cache).spec_in_flight() == 0,
        final(cache).spec_max_in_flight() == old(cache).spec_max_in_flight(),
{
}

/// A new cache knows no name and has nothing in flight.
pub proof fn law_a_new_cache_is_empty(
    most: usize,
    cache: Cache,
    name: &String,
    known: bool,
    len: usize,
)
    requires
        call_ensures(Cache::new, (most,), cache),
        call_ensures(Cache::contains, (&cache, name), known),
        call_ensures(Cache::len, (&cache,), len),
    ensures
        !known,
        len == 0,
        cache.spec_in_flight() == 0,
        cache.spec_max_in_flight() == most,
{
    assert(cache@.dom() =~= Set::<Seq<char>>::empty());
}

/// Every address is tried, with the port: those of the preferred family first, each
/// family in the order in which its addresses came.
pub proof fn law_the_preferred_family_comes_first(
    ips: &Vec<IpAddr>,
    port: u16,
    prefer_ipv6: bool,
    addrs: Vec<SocketAddr>,
)
    requires
        call_ensures(order_by_family, (ips, port, prefer_ipv6), addrs),
    ensures
        addrs@ == (ips@.filter(|ip: IpAddr| (ip is V6) == prefer_ipv6) + ips@.filter(
            |ip: IpAddr| (ip is V6) == !prefer_ipv6,
        )).map_values(
            |ip: IpAddr|
                match ip {
                    IpAddr::V4(ip) => SocketAddr::V4 { ip, port },
                    IpAddr::V6(ip) => SocketAddr::V6 { ip, port, flowinfo: 0, scope_id: 0 },
                },
        ),
{
    let first = ips@.filter(|ip: IpAddr| (ip is V6) == prefer_ipv6);
    let last = ips@.filter(|ip: IpAddr| (ip is V6) == !prefer_ipv6);
    assert(super::of_family(ips@, prefer_ipv6) =~= first);
    assert(super::of_family(ips@, !prefer_ipv6) =~= last);
}

} // verus!
