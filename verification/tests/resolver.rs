use portunus::addr::{IpAddr, SocketAddr};
use portunus::resolver::cache::{
    AnswerSource, Cache, CacheResult, Lookup, MAX_LOOKUP_ROUNDS, PENDING_ABANDON_MARGIN,
};
use portunus::resolver::{order_by_family, ResolveAnswer, ResolverConfig, ResolverError};

const SEC: u128 = 1_000_000_000;

fn config() -> ResolverConfig {
    ResolverConfig {
        cache_floor: 5 * SEC,
        cache_ceiling: 300 * SEC,
        stale_while_error_grace: 30 * SEC,
        negative_cache_retry: 3 * SEC,
        attempt_timeout: 2 * SEC,
        max_cache_entries: 1024,
        max_concurrent_resolves: 8,
    }
}

fn addr() -> IpAddr {
    IpAddr::V4(0x0a00_0005)
}

fn ok(ttl: u128) -> Result<ResolveAnswer, ResolverError> {
    Ok(ResolveAnswer { addrs: vec![addr()], ttl })
}

fn fail() -> Result<ResolveAnswer, ResolverError> {
    Err(ResolverError::Lookup("nxdomain".to_string()))
}

/// One lookup from beginning to end. Returns its outcome and whether the
/// resolver was asked.
fn lookup(
    cache: &mut Cache,
    name: &str,
    now: u128,
    cfg: &ResolverConfig,
    answer: Result<ResolveAnswer, ResolverError>,
) -> (Result<CacheResult, ResolverError>, bool) {
    let name = name.to_string();
    match cache.get_or_resolve(&name, 0, now, cfg) {
        Lookup::Answer(result) => (Ok(result), false),
        Lookup::Fail(error) => (Err(error), false),
        Lookup::Wait { .. } => panic!("nobody else asks"),
        Lookup::Resolve { stale_addrs, .. } => {
            let (done, _) = cache.apply_refresh(&name, answer, stale_addrs, now, cfg);
            cache.release_slot();
            (done, true)
        }
    }
}

#[test]
fn cold_then_hot_calls_resolver_once() {
    let (mut cache, cfg) = (Cache::new(8), config());
    let (first, asked) = lookup(&mut cache, "api.example.com", 0, &cfg, ok(60 * SEC));
    let first = first.unwrap();
    assert_eq!(first.addrs, vec![addr()]);
    assert_eq!(first.source, AnswerSource::Fresh);
    assert!(asked);
    let (second, asked) = lookup(&mut cache, "api.example.com", 0, &cfg, fail());
    let second = second.unwrap();
    assert_eq!(second.addrs, vec![addr()]);
    assert_eq!(second.source, AnswerSource::Cached);
    assert!(!asked);
}

#[test]
fn empty_resolver_answer_is_an_error() {
    let (mut cache, cfg) = (Cache::new(8), config());
    let empty = Ok(ResolveAnswer { addrs: vec![], ttl: 60 * SEC });
    let (result, _) = lookup(&mut cache, "nowhere.example", 0, &cfg, empty);
    assert!(matches!(result, Err(ResolverError::EmptyAnswer)));
}

#[test]
fn ttl_below_floor_is_clamped_up() {
    let (mut cache, cfg) = (Cache::new(8), config());
    let _ = lookup(&mut cache, "api.example.com", 0, &cfg, ok(0));
    let (r, asked) = lookup(&mut cache, "api.example.com", 4 * SEC, &cfg, fail());
    assert_eq!(r.unwrap().source, AnswerSource::Cached);
    assert!(!asked, "TTL=0 must clamp up to 5 s floor");
}

#[test]
fn ttl_above_ceiling_is_clamped_down() {
    let (mut cache, cfg) = (Cache::new(8), config());
    let _ = lookup(&mut cache, "api.example.com", 0, &cfg, ok(86_400 * SEC));
    let (_, asked) = lookup(&mut cache, "api.example.com", 301 * SEC, &cfg, ok(SEC));
    assert!(asked, "TTL=24h must clamp down to 5 min");
}

#[test]
fn ttl_inside_clamp_window_passes_through() {
    let (mut cache, cfg) = (Cache::new(8), config());
    let _ = lookup(&mut cache, "api.example.com", 0, &cfg, ok(30 * SEC));
    let (r, _) = lookup(&mut cache, "api.example.com", 29 * SEC, &cfg, fail());
    assert_eq!(r.unwrap().source, AnswerSource::Cached);
    let (_, asked) = lookup(&mut cache, "api.example.com", 31 * SEC, &cfg, ok(SEC));
    assert!(asked, "TTL=30s should expire at 30s exactly");
}

#[test]
fn single_flight_coalesces_concurrent_misses() {
    let (mut cache, cfg) = (Cache::new(8), config());
    let name = "api.example.com".to_string();
    assert!(matches!(cache.get_or_resolve(&name, 0, 0, &cfg), Lookup::Resolve { .. }));
    let mut waiting = Vec::new();
    for _ in 0..7 {
        match cache.get_or_resolve(&name, 0, 0, &cfg) {
            Lookup::Wait { notify } => waiting.push(notify),
            _ => panic!("the resolver is being asked"),
        }
    }
    let (done, woken) = cache.apply_refresh(&name, ok(60 * SEC), None, 0, &cfg);
    cache.release_slot();
    assert_eq!(done.unwrap().addrs, vec![addr()]);
    assert!(waiting.iter().all(|w| Some(*w) == woken));
    match cache.get_or_resolve(&name, 1, 0, &cfg) {
        Lookup::Answer(r) => assert_eq!(r.source, AnswerSource::Cached),
        _ => panic!("the answer is there"),
    }
}

#[test]
fn refresh_failure_serves_stale_within_grace() {
    let (mut cache, cfg) = (Cache::new(8), config());
    let name = "api.example.com";
    let (r1, _) = lookup(&mut cache, name, 0, &cfg, ok(10 * SEC));
    assert_eq!(r1.unwrap().source, AnswerSource::Fresh);
    let (r2, asked) = lookup(&mut cache, name, 11 * SEC, &cfg, fail());
    let r2 = r2.unwrap();
    assert_eq!(r2.source, AnswerSource::Stale);
    assert_eq!(r2.addrs, vec![addr()]);
    assert!(asked);
    let (r3, asked) = lookup(&mut cache, name, 21 * SEC, &cfg, fail());
    assert_eq!(r3.unwrap().source, AnswerSource::Stale);
    assert!(!asked, "in-grace lookups must not re-resolve");
    let (r4, asked) = lookup(&mut cache, name, 46 * SEC, &cfg, fail());
    assert!(matches!(r4, Err(ResolverError::Lookup(_))));
    assert!(asked, "post-grace lookup must re-attempt");
}

#[test]
fn cache_is_bounded_by_max_entries() {
    let mut cache = Cache::new(8);
    let cfg = ResolverConfig { max_cache_entries: 4, ..config() };
    for i in 0..50u32 {
        let name = format!("name{i}.example");
        let (r, _) = lookup(&mut cache, &name, 0, &cfg, ok(300 * SEC));
        assert_eq!(r.unwrap().addrs, vec![addr()]);
        let len = cache.len();
        assert!(len <= 4, "cache grew to {len} entries, exceeding the cap of 4");
    }
}

#[test]
fn eviction_never_drops_pending_entries() {
    let mut cache = Cache::new(8);
    let cfg = ResolverConfig { max_cache_entries: 1, ..config() };
    let pending = "pending.example".to_string();
    assert!(matches!(cache.get_or_resolve(&pending, 0, 0, &cfg), Lookup::Resolve { .. }));
    let _ = lookup(&mut cache, "live-a.example", 0, &cfg, ok(300 * SEC));
    let _ = lookup(&mut cache, "live-b.example", 0, &cfg, ok(300 * SEC));
    assert!(cache.contains(&pending), "live Pending entry must never be evicted");
}

#[test]
fn failed_state_negative_cache_blocks_retries() {
    let (mut cache, cfg) = (Cache::new(8), config());
    let name = "nowhere.example";
    let (r, asked) = lookup(&mut cache, name, 0, &cfg, fail());
    assert!(r.is_err() && asked);
    let (r, asked) = lookup(&mut cache, name, SEC, &cfg, ok(SEC));
    assert!(r.is_err());
    assert!(!asked, "Failed-state lookups within retry_after MUST NOT re-resolve");
    let (r, asked) = lookup(&mut cache, name, 2 * SEC, &cfg, ok(SEC));
    assert!(r.is_err() && !asked);
    let (r, asked) = lookup(&mut cache, name, 4 * SEC, &cfg, fail());
    assert!(r.is_err());
    assert!(asked, "post-retry_after lookup MUST re-attempt");
}

#[test]
fn abandoned_pending_is_reaped_and_does_not_poison_hostname() {
    let (mut cache, cfg) = (Cache::new(8), config());
    let name = "orphan.example".to_string();
    assert!(matches!(cache.get_or_resolve(&name, 0, 0, &cfg), Lookup::Resolve { .. }));
    // Whoever asked is gone and gives the slot back without an answer.
    cache.release_slot();
    assert!(matches!(cache.get_or_resolve(&name, 0, SEC, &cfg), Lookup::Wait { .. }));
    let later = cfg.attempt_timeout + PENDING_ABANDON_MARGIN + SEC;
    let (r, asked) = lookup(&mut cache, "orphan.example", later, &cfg, ok(60 * SEC));
    assert!(asked);
    assert_eq!(r.unwrap().source, AnswerSource::Fresh);
}

#[test]
fn max_concurrent_resolves_sheds_load_when_saturated() {
    let mut cache = Cache::new(1);
    let cfg = ResolverConfig { max_concurrent_resolves: 1, ..config() };
    let first = "first.example".to_string();
    assert!(matches!(cache.get_or_resolve(&first, 0, 0, &cfg), Lookup::Resolve { .. }));
    let (r, asked) = lookup(&mut cache, "second.example", 0, &cfg, ok(SEC));
    assert!(!asked);
    assert!(matches!(r, Err(ResolverError::Overloaded(1))));
    let _ = cache.apply_refresh(&first, ok(60 * SEC), None, 0, &cfg);
    cache.release_slot();
    let (r, _) = lookup(&mut cache, "second.example", 0, &cfg, ok(SEC));
    assert!(r.is_ok());
}

#[test]
fn a_lookup_does_not_wait_for_ever() {
    let (mut cache, cfg) = (Cache::new(8), config());
    let name = "slow.example".to_string();
    assert!(matches!(cache.get_or_resolve(&name, 0, 0, &cfg), Lookup::Resolve { .. }));
    assert!(matches!(cache.get_or_resolve(&name, 1, 0, &cfg), Lookup::Wait { .. }));
    assert!(matches!(
        cache.get_or_resolve(&name, MAX_LOOKUP_ROUNDS, 0, &cfg),
        Lookup::Fail(_)
    ));
}

#[test]
fn errors_can_be_told_twice() {
    assert!(matches!(ResolverError::EmptyAnswer.duplicate(), ResolverError::EmptyAnswer));
    match ResolverError::Lookup("nope".to_string()).duplicate() {
        ResolverError::Lookup(text) => assert_eq!(text, "nope"),
        other => panic!("{other:?}"),
    }
    assert!(matches!(ResolverError::Overloaded(3).duplicate(), ResolverError::Overloaded(3)));
}

#[test]
fn the_preferred_family_comes_first() {
    let ips = vec![IpAddr::V6(1), IpAddr::V4(2), IpAddr::V6(3), IpAddr::V4(4)];
    let v4 = |ip: u32| SocketAddr::V4 { ip, port: 80 };
    let v6 = |ip: u128| SocketAddr::V6 { ip, port: 80, flowinfo: 0, scope_id: 0 };
    assert_eq!(order_by_family(&ips, 80, false), vec![v4(2), v4(4), v6(1), v6(3)]);
    assert_eq!(order_by_family(&ips, 80, true), vec![v6(1), v6(3), v4(2), v4(4)]);
    assert!(order_by_family(&Vec::new(), 80, true).is_empty());
}

#[test]
fn evict_reaps_abandoned_pending_but_keeps_live_one() {
    let mut cache = Cache::new(8);
    let cfg = ResolverConfig { max_cache_entries: 1, ..config() };
    let stale = "stale.example".to_string();
    let live = "live.example".to_string();
    let filler = "filler.example".to_string();
    assert!(matches!(cache.get_or_resolve(&stale, 0, 0, &cfg), Lookup::Resolve { .. }));
    let later = cfg.attempt_timeout + PENDING_ABANDON_MARGIN + SEC;
    assert!(matches!(cache.get_or_resolve(&live, 0, later, &cfg), Lookup::Resolve { .. }));
    let _ = lookup(&mut cache, &filler, later, &cfg, ok(300 * SEC));
    assert!(cache.contains(&live), "live Pending must survive eviction");
    assert!(!cache.contains(&stale), "abandoned Pending must be reaped");
}
