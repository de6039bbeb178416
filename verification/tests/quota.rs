use portunus::quota::copy::{CopyStep, QuotaCopy, COPY_BUF_SIZE};
use portunus::quota::scope::QuotaScopeManager;
use portunus::quota::{ConsumeOutcome, QuotaState};

fn state(remaining: i64) -> QuotaState {
    QuotaState { monthly_bytes: 1_000, budget_remaining_bytes: remaining, exhausted: false }
}

#[test]
fn lookup_returns_installed_handle() {
    let mut m = QuotaScopeManager::new();
    m.install("alice", "edge-01", state(500));
    let h = m.lookup("alice").unwrap();
    assert_eq!(m.consume(h, 200), ConsumeOutcome::Granted);
    assert_eq!(m.remaining(h), 300);
}

#[test]
fn lookup_missing_returns_none() {
    let m = QuotaScopeManager::new();
    assert!(m.lookup("ghost").is_none());
}

#[test]
fn install_twice_updates_state_in_place_and_preserves_arc() {
    let mut m = QuotaScopeManager::new();
    let h1 = m.install("alice", "edge-01", state(100));
    let _ = m.consume(h1, 50);
    let h2 = m.install("alice", "edge-01", state(1_000));
    assert!(h1 == h2);
    assert_eq!(m.remaining(h1), 1_000);
    assert!(!m.is_exhausted(h1));
}

#[test]
fn remove_drops_handle_from_registry() {
    let mut m = QuotaScopeManager::new();
    m.install("alice", "edge-01", state(500));
    let removed = m.remove("alice");
    assert!(removed.is_some());
    assert!(m.lookup("alice").is_none());
    assert!(m.is_empty());
}

#[test]
fn handles_of_two_users_are_independent() {
    let mut m = QuotaScopeManager::new();
    let a = m.install("alice", "edge-01", state(100));
    let b = m.install("bob", "edge-01", state(200));
    assert!(a != b);
    assert_eq!(m.len(), 2);
    assert_eq!(m.consume(a, 100), ConsumeOutcome::Granted);
    assert_eq!(m.remaining(a), 0);
    assert_eq!(m.remaining(b), 200);
}

#[test]
fn a_removed_handle_still_works_for_those_who_hold_it() {
    let mut m = QuotaScopeManager::new();
    let a = m.install("alice", "edge-01", state(100));
    assert_eq!(m.remove("alice"), Some(a));
    assert_eq!(m.remove("alice"), None);
    assert_eq!(m.consume(a, 60), ConsumeOutcome::Granted);
    assert_eq!(m.remaining(a), 40);
    // The user comes back under a new handle.
    let again = m.install("alice", "edge-01", state(7));
    assert!(again != a);
    assert_eq!(m.remaining(again), 7);
}

#[test]
fn a_draw_that_is_not_covered_exhausts_the_quota() {
    let mut m = QuotaScopeManager::new();
    let a = m.install("alice", "edge-01", state(100));
    assert_eq!(m.consume(a, 101), ConsumeOutcome::Exhausted);
    assert!(m.is_exhausted(a));
    assert_eq!(m.consume(a, 1), ConsumeOutcome::Exhausted);
}

#[test]
fn restore_undoes_a_grant() {
    let mut m = QuotaScopeManager::new();
    let a = m.install("alice", "edge-01", state(100));
    let before = m.state(a);
    assert_eq!(m.consume(a, 30), ConsumeOutcome::Granted);
    m.restore(a, 30);
    assert_eq!(m.state(a), before);
}

#[test]
fn grants_never_exceed_the_budget() {
    let mut s = state(100);
    let mut granted: i64 = 0;
    for n in [40, 40, 40, 10, 20] {
        if s.consume(n) == ConsumeOutcome::Granted {
            granted += n;
        }
    }
    assert_eq!(granted, 80);
    assert!(s.exhausted);
}

#[test]
fn copy_one_dir_delivers_all_bytes_under_budget() {
    let mut m = QuotaScopeManager::new();
    let a = m.install("alice", "edge-01", state(10_000));
    let mut copy = QuotaCopy::new(a);
    assert_eq!(copy.before_read(&m), CopyStep::Read { len: COPY_BUF_SIZE });
    assert_eq!(copy.after_read(1_000, &mut m), CopyStep::Write { len: 1_000 });
    copy.after_write(1_000);
    assert_eq!(copy.before_read(&m), CopyStep::Read { len: COPY_BUF_SIZE });
    assert_eq!(copy.after_read(0, &mut m), CopyStep::Close);
    assert_eq!(copy.total(), 1_000);
    assert_eq!(m.remaining(a), 9_000);
    assert!(!m.is_exhausted(a));
}

#[test]
fn copy_one_dir_drops_chunk_that_straddles_budget() {
    let mut m = QuotaScopeManager::new();
    let a = m.install("alice", "edge-01", state(64));
    let copy = QuotaCopy::new(a);
    assert_eq!(copy.before_read(&m), CopyStep::Read { len: COPY_BUF_SIZE });
    assert_eq!(copy.after_read(200, &mut m), CopyStep::Close);
    assert_eq!(copy.total(), 0, "straddling chunk is dropped, not forwarded");
    assert!(m.is_exhausted(a));
    assert_eq!(m.remaining(a), 0);
}

#[test]
fn two_connections_sharing_handle_cannot_overshoot_budget() {
    const BUDGET: i64 = 100_000;
    const PUSH: usize = 256 * 1024;
    let mut m = QuotaScopeManager::new();
    let a = m.install("alice", "edge-01", state(BUDGET));
    let mut copies = [(QuotaCopy::new(a), PUSH, false), (QuotaCopy::new(a), PUSH, false)];
    // The two take turns until both have stopped.
    while copies.iter().any(|(_, _, stopped)| !stopped) {
        for (copy, left, stopped) in &mut copies {
            if *stopped {
                continue;
            }
            let step = match copy.before_read(&m) {
                CopyStep::Read { len } => {
                    let n = len.min(*left);
                    *left -= n;
                    copy.after_read(n, &mut m)
                }
                step => step,
            };
            match step {
                CopyStep::Write { len } => copy.after_write(len),
                _ => *stopped = true,
            }
        }
    }
    let aggregate = copies[0].0.total() + copies[1].0.total();
    assert!(
        aggregate <= u64::try_from(BUDGET).unwrap(),
        "aggregate delivery {aggregate} must not exceed the {BUDGET}-byte budget"
    );
    assert!(aggregate > 0, "some bytes must have been delivered");
    assert!(m.is_exhausted(a));
    assert_eq!(m.remaining(a), 0);
}

#[test]
fn copy_one_dir_returns_immediately_when_already_exhausted() {
    let mut m = QuotaScopeManager::new();
    let a = m.install("alice", "edge-01", QuotaState { exhausted: true, ..state(0) });
    let copy = QuotaCopy::new(a);
    assert_eq!(copy.before_read(&m), CopyStep::Close);
    assert_eq!(copy.total(), 0);
}

#[test]
fn users_do_not_share_a_quota() {
    let mut m = QuotaScopeManager::new();
    let a = m.install("alice", "edge-01", state(100));
    let b = m.install("bob", "edge-01", state(50));
    assert_ne!(a, b);
    assert_eq!(m.consume(a, 70), ConsumeOutcome::Granted);
    assert_eq!(m.state(b), state(50));
    assert_eq!(m.install("alice", "edge-01", state(10)), a);
    assert_eq!(m.len(), 2);
    assert_eq!(m.remove("carol"), None);
    assert_eq!(m.len(), 2);
    assert_eq!(m.remove("bob"), Some(b));
    assert_eq!(m.lookup("bob"), None);
    assert_eq!(m.lookup("alice"), Some(a));
    assert_eq!(m.len(), 1);
    assert!(!m.is_empty());
}
