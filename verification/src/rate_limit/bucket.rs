//! A token bucket that refills when it is looked at.

use tokio::time::Instant;
use vstd::prelude::*;

use crate::clock::{self, instant_now, micros_between};

verus! {

/// Microseconds in a second.
pub const MICROS_PER_SEC: u64 = 1_000_000;

/// What [`TokenBucket::acquire`] came to.
#[derive(Clone, Copy, Debug, PartialEq, Eq, Structural)]
pub enum Acquire {
    /// The tokens were taken.
    Granted,
    /// There were too few tokens. Those that were there are lost; after
    /// `deficit` microseconds enough have come in.
    Throttled { deficit: u64 },
}

/// A pool of tokens that fills at a constant rate up to a limit.
#[derive(Debug)]
pub struct TokenBucket {
    rate_per_sec: u64,
    burst: u64,
    tokens: u64,
    last_refill_micros: u64,
    epoch: Instant,
}

/// A token bucket as a mathematical value. Times count from the making of the
/// bucket.
pub struct BucketView {
    /// Tokens that come in per second.
    pub rate_per_sec: u64,
    /// How many tokens the pool holds at most.
    pub burst: u64,
    /// How many tokens the pool holds.
    pub tokens: u64,
    /// Up to when the tokens that came in are in the pool.
    pub last_refill_micros: u64,
}

impl BucketView {
    /// The rate and the limit are positive and the pool is within the limit.
    pub open spec fn wf(self) -> bool {
        &&& self.rate_per_sec > 0
        &&& self.burst > 0
        &&& self.tokens <= self.burst
    }

    /// How many whole tokens came in between the last refill and `now`.
    pub open spec fn accrued(self, now: u64) -> int {
        if now <= self.last_refill_micros {
            0
        } else {
            (now - self.last_refill_micros) * self.rate_per_sec / (MICROS_PER_SEC as int)
        }
    }

    /// The bucket after a refill at `now`. While not even one token has come in
    /// the time keeps accumulating.
    pub open spec fn refilled(self, now: u64) -> BucketView {
        let added = self.accrued(now);
        if added == 0 {
            self
        } else {
            BucketView {
                tokens: if self.tokens + added <= self.burst {
                    (self.tokens + added) as u64
                } else {
                    self.burst
                },
                last_refill_micros: now,
                ..self
            }
        }
    }

    /// The bucket with `n` tokens fewer.
    pub open spec fn debited(self, n: u64) -> BucketView {
        BucketView { tokens: (self.tokens - n) as u64, ..self }
    }

    /// How many microseconds it takes until `needed` more tokens have come in,
    /// rounded up.
    pub open spec fn deficit_micros(self, needed: int) -> int {
        let micros_tokens = if needed * MICROS_PER_SEC <= u64::MAX {
            needed * MICROS_PER_SEC
        } else {
            u64::MAX as int
        };
        (micros_tokens + self.rate_per_sec - 1) / (self.rate_per_sec as int)
    }

    /// What an attempt to take `n` tokens at `now` leaves and answers. A refusal
    /// leaves the pool at zero, so that the wait covers all `n` tokens.
    pub open spec fn acquired(self, n: u64, now: u64) -> (BucketView, Acquire) {
        let full = self.refilled(now);
        if n == 0 {
            (self, Acquire::Granted)
        } else if full.tokens >= n {
            (full.debited(n), Acquire::Granted)
        } else {
            (
                BucketView { tokens: 0, ..full },
                Acquire::Throttled { deficit: full.deficit_micros(n as int) as u64 },
            )
        }
    }
}

/// A new bucket that takes over what another one holds, as far as it has room.
pub open spec fn carried_over(prior: BucketView, rate_per_sec: u64, burst: u64) -> BucketView {
    BucketView {
        rate_per_sec,
        burst,
        tokens: if prior.tokens <= burst {
            prior.tokens
        } else {
            burst
        },
        last_refill_micros: 0,
    }
}

/// A number of microseconds as a count, or the largest count if the number is
/// larger.
pub open spec fn saturated(micros: u128) -> u64 {
    if micros <= u64::MAX {
        micros as u64
    } else {
        u64::MAX
    }
}

/// What a clock that was started at `epoch` shows at `now`, in microseconds.
pub open spec fn reading(epoch: Instant, now: Instant) -> u64 {
    saturated(clock::micros_from(epoch, now))
}

/// A number of microseconds as a count, or the largest count if the number is
/// larger.
pub fn saturated_micros(micros: u128) -> (count: u64)
    ensures
        count == saturated(micros),
{
    if micros <= u64::MAX as u128 {
        micros as u64
    } else {
        u64::MAX
    }
}

impl View for TokenBucket {
    type V = BucketView;

    closed spec fn view(&self) -> BucketView {
        BucketView {
            rate_per_sec: self.rate_per_sec,
            burst: self.burst,
            tokens: self.tokens,
            last_refill_micros: self.last_refill_micros,
        }
    }
}

impl TokenBucket {
    /// From when on the times of the bucket are counted.
    pub closed spec fn spec_epoch(&self) -> Instant {
        self.epoch
    }

    /// A bucket whose pool is full.
    pub fn new(rate_per_sec: u64, burst: u64) -> (bucket: TokenBucket)
        requires
            rate_per_sec > 0,
            burst > 0,
        ensures
            bucket@.wf(),
            bucket@ == (BucketView { rate_per_sec, burst, tokens: burst, last_refill_micros: 0 }),
    {
        TokenBucket {
            rate_per_sec,
            burst,
            tokens: burst,
            last_refill_micros: 0,
            epoch: instant_now(),
        }
    }

    /// A bucket that takes over what another one holds, as far as it has room.
    pub fn with_carryover(rate_per_sec: u64, burst: u64, prior: &TokenBucket) -> (bucket:
        TokenBucket)
        requires
            rate_per_sec > 0,
            burst > 0,
        ensures
            bucket@.wf(),
            bucket@ == carried_over(prior@, rate_per_sec, burst),
    {
        let tokens: u64 = if prior.tokens <= burst {
            prior.tokens
        } else {
            burst
        };
        TokenBucket { rate_per_sec, burst, tokens, last_refill_micros: 0, epoch: instant_now() }
    }

    pub fn rate_per_sec(&self) -> (rate: u64)
        ensures
            rate == self@.rate_per_sec,
    {
        self.rate_per_sec
    }

    pub fn burst(&self) -> (burst: u64)
        ensures
            burst == self@.burst,
    {
        self.burst
    }

    /// How many tokens the pool held at the last look.
    pub fn tokens_snapshot(&self) -> (tokens: u64)
        ensures
            tokens == self@.tokens,
    {
        self.tokens
    }

    /// Takes `n` tokens if the pool holds them now, else empties the pool and says
    /// how long to wait. The outcome is that of [`TokenBucket::acquire_at`] at
    /// what the clock of the bucket shows.
    pub fn acquire(&mut self, n: u64) -> (outcome: Acquire)
        requires
            old(self)@.wf(),
        ensures
            final(self)@.wf(),
            final(self).spec_epoch() == old(self).spec_epoch(),
            n == 0 ==> outcome == Acquire::Granted && final(self)@ == old(self)@,
            exists|now: Instant|
                (final(self)@, outcome) == old(self)@.acquired(
                    n,
                    #[trigger] reading(old(self).spec_epoch(), now),
                ),
    {
        if n == 0 {
            let ghost now = self.epoch;
            assert((self@, Acquire::Granted) == old(self)@.acquired(
                n,
                reading(old(self).spec_epoch(), now),
            ));
            return Acquire::Granted;
        }
        let now: u64 = self.now_micros();
        self.acquire_at(n, now)
    }

    /// Takes `n` tokens if the pool holds them at `now_micros`, else empties the
    /// pool and says how long to wait.
    pub fn acquire_at(&mut self, n: u64, now_micros: u64) -> (outcome: Acquire)
        requires
            old(self)@.wf(),
        ensures
            final(self)@.wf(),
            final(self).spec_epoch() == old(self).spec_epoch(),
            (final(self)@, outcome) == old(self)@.acquired(n, now_micros),
    {
        if n == 0 {
            return Acquire::Granted;
        }
        self.refill(now_micros);
        if self.tokens >= n {
            self.tokens = self.tokens - n;
            return Acquire::Granted;
        }
        self.tokens = 0;
        let micros_tokens: u64 = if n <= u64::MAX / MICROS_PER_SEC {
            n * MICROS_PER_SEC
        } else {
            u64::MAX
        };
        let rate: u64 = self.rate_per_sec;
        let rounded: u128 = micros_tokens as u128 + (rate as u128 - 1);
        let deficit: u128 = rounded / (rate as u128);
        proof {
            assert(deficit <= u64::MAX) by (nonlinear_arith)
                requires
                    rate >= 1,
                    micros_tokens <= u64::MAX,
                    rounded == micros_tokens + rate - 1,
                    deficit == rounded / (rate as u128),
            ;
        }
        Acquire::Throttled { deficit: deficit as u64 }
    }

    /// What the clock of the bucket shows: the microseconds from its epoch to the
    /// current instant. Which instant that is, is up to the clock.
    pub(crate) fn now_micros(&self) -> (micros: u64)
        ensures
            exists|now: Instant| micros == #[trigger] reading(self.spec_epoch(), now),
    {
        let now = instant_now();
        let micros: u64 = saturated_micros(micros_between(&self.epoch, &now));
        assert(micros == reading(self.spec_epoch(), now));
        micros
    }

    /// Puts the tokens that came in since the last refill into the pool.
    fn refill(&mut self, now_micros: u64)
        requires
            old(self)@.wf(),
        ensures
            final(self)@.wf(),
            final(self).spec_epoch() == old(self).spec_epoch(),
            final(self)@ == old(self)@.refilled(now_micros),
    {
        if now_micros <= self.last_refill_micros {
            return;
        }
        let elapsed: u128 = (now_micros - self.last_refill_micros) as u128;
        let rate: u128 = self.rate_per_sec as u128;
        assert(elapsed * rate <= u64::MAX * u64::MAX) by (nonlinear_arith)
            requires
                elapsed <= u64::MAX,
                rate <= u64::MAX,
        ;
        let added: u128 = elapsed * rate / (MICROS_PER_SEC as u128);
        if added == 0 {
            return;
        }
        self.last_refill_micros = now_micros;
        let room: u64 = self.burst - self.tokens;
        if added <= room as u128 {
            self.tokens = self.tokens + added as u64;
        } else {
            self.tokens = self.burst;
        }
    }
}

/// Who waits for the deficit gets the tokens at the next attempt, if nobody
/// else took any. This leaves out what the pool can never hold, and a wait that
/// is longer than a count of microseconds can say.
pub proof fn law_retry_after_the_deficit_succeeds(b: BucketView, n: u64, now: u64, later: u64)
    requires
        b.wf(),
        0 < n <= b.burst,
        b.last_refill_micros <= now,
        n * MICROS_PER_SEC <= u64::MAX,
        b.acquired(n, now).1 matches Acquire::Throttled { deficit } && now + deficit <= later,
    ensures
        b.acquired(n, now).0.acquired(n, later).1 == Acquire::Granted,
{
    let starved = b.refilled(now);
    let rate = b.rate_per_sec as int;
    let wait = starved.deficit_micros(n as int);
    let want = n * MICROS_PER_SEC;
    assert(wait * rate >= want && 0 < wait <= u64::MAX) by (nonlinear_arith)
        requires
            rate >= 1,
            0 < want <= u64::MAX,
            wait == (want + rate - 1) / rate,
    ;
    assert(b.acquired(n, now).1 == Acquire::Throttled { deficit: wait as u64 });
    let elapsed = later - starved.last_refill_micros;
    assert(elapsed >= wait);
    assert(elapsed * rate >= wait * rate) by (nonlinear_arith)
        requires
            elapsed >= wait,
            rate >= 1,
    ;
    assert(elapsed * rate / (MICROS_PER_SEC as int) >= n) by (nonlinear_arith)
        requires
            elapsed * rate >= n * MICROS_PER_SEC,
            MICROS_PER_SEC == 1_000_000,
    ;
    assert(b.acquired(n, now).0.accrued(later) >= n);
}

/// How many tokens a run of attempts takes in all. An attempt is a number of
/// tokens and an instant.
pub open spec fn granted_total(b: BucketView, attempts: Seq<(u64, u64)>) -> int
    decreases attempts.len(),
{
    if attempts.len() == 0 {
        0
    } else {
        let (n, now) = attempts[0];
        let (after, outcome) = b.acquired(n, now);
        (if outcome is Granted {
            n as int
        } else {
            0
        }) + granted_total(after, attempts.drop_first())
    }
}

/// However often and for however much somebody tries, no more tokens are given
/// out than the pool held at first and have come in since.
pub proof fn law_grants_are_within_the_rate(
    b: BucketView,
    attempts: Seq<(u64, u64)>,
    end: u64,
)
    requires
        b.wf(),
        b.last_refill_micros <= end,
        forall|i: int| 0 <= i < attempts.len() ==> (#[trigger] attempts[i]).1 <= end,
    ensures
        granted_total(b, attempts) * MICROS_PER_SEC <= b.tokens * MICROS_PER_SEC + (end
            - b.last_refill_micros) * b.rate_per_sec,
    decreases attempts.len(),
{
    let rate = b.rate_per_sec as int;
    if attempts.len() == 0 {
        assert((end - b.last_refill_micros) * rate >= 0) by (nonlinear_arith)
            requires
                end >= b.last_refill_micros,
                rate >= 0,
        ;
    } else {
        let (n, now) = attempts[0];
        let full = b.refilled(now);
        let (after, outcome) = b.acquired(n, now);
        assert forall|i: int| 0 <= i < attempts.drop_first().len() implies (
        #[trigger] attempts.drop_first()[i]).1 <= end by {
            assert(attempts.drop_first()[i] == attempts[i + 1]);
        }
        law_grants_are_within_the_rate(after, attempts.drop_first(), end);
        if n > 0 && b.accrued(now) != 0 {
            let gone = now - b.last_refill_micros;
            let added = b.accrued(now);
            assert(added * 1_000_000 <= gone * rate) by (nonlinear_arith)
                requires
                    added == gone * rate / 1_000_000,
            ;
            assert((end - now) * rate + gone * rate == (end - b.last_refill_micros) * rate)
                by (nonlinear_arith)
                requires
                    gone == now - b.last_refill_micros,
            ;
        }
    }
}

/// Taking over from another bucket never makes tokens.
pub proof fn law_carryover_mints_nothing(prior: BucketView, rate_per_sec: u64, burst: u64)
    requires
        prior.wf(),
        rate_per_sec > 0,
        burst > 0,
    ensures
        ({
            let next = carried_over(prior, rate_per_sec, burst);
            next.wf() && next.tokens <= prior.tokens
        }),
{
}

} // verus!
