//! A bandwidth limit: a bucket of bytes for each direction that has a cap.

use tokio::time::Instant;
use vstd::prelude::*;

use super::bucket::{Acquire, BucketView, TokenBucket};
use crate::types::BandwidthDirection;

verus! {

/// The bandwidth limit of one rule or of one owner.
#[derive(Debug)]
pub struct BandwidthLimiter {
    ingress: Option<TokenBucket>,
    egress: Option<TokenBucket>,
}

/// A bandwidth limit as a mathematical value.
pub struct LimiterView {
    pub ingress: Option<BucketView>,
    pub egress: Option<BucketView>,
}

impl LimiterView {
    /// The bucket of a direction. `None` is no cap.
    pub open spec fn bucket(self, direction: BandwidthDirection) -> Option<BucketView> {
        match direction {
            BandwidthDirection::In => self.ingress,
            BandwidthDirection::Out => self.egress,
        }
    }

    pub open spec fn wf(self) -> bool {
        &&& self.ingress matches Some(b) ==> b.wf()
        &&& self.egress matches Some(b) ==> b.wf()
    }

    /// The cap of a direction, in bytes per second.
    pub open spec fn rate(self, direction: BandwidthDirection) -> Option<u64> {
        match self.bucket(direction) {
            Some(b) => Some(b.rate_per_sec),
            None => None,
        }
    }

    /// The limit with the bucket of a direction replaced.
    pub open spec fn with_bucket(self, direction: BandwidthDirection, b: BucketView) -> LimiterView {
        match direction {
            BandwidthDirection::In => LimiterView { ingress: Some(b), ..self },
            BandwidthDirection::Out => LimiterView { egress: Some(b), ..self },
        }
    }

    /// What an attempt to move `n` bytes at `now` leaves and answers. Without a
    /// cap it is always granted.
    pub open spec fn acquired(self, direction: BandwidthDirection, n: u64, now: u64) -> (
        LimiterView,
        Acquire,
    ) {
        match self.bucket(direction) {
            Some(b) => (self.with_bucket(direction, b.acquired(n, now).0), b.acquired(n, now).1),
            None => (self, Acquire::Granted),
        }
    }
}

pub open spec fn bucket_view(bucket: Option<TokenBucket>) -> Option<BucketView> {
    match bucket {
        Some(b) => Some(b@),
        None => None,
    }
}

pub open spec fn bucket_epoch(bucket: Option<TokenBucket>) -> Option<Instant> {
    match bucket {
        Some(b) => Some(b.spec_epoch()),
        None => None,
    }
}

/// The clock shows `micros`: the time from its epoch to some instant. Where there
/// is no clock, that is 0.
pub open spec fn shows(epoch: Option<Instant>, micros: u64) -> bool {
    match epoch {
        Some(epoch) => exists|now: Instant|
            micros == #[trigger] super::bucket::reading(epoch, now),
        None => micros == 0,
    }
}

impl View for BandwidthLimiter {
    type V = LimiterView;

    closed spec fn view(&self) -> LimiterView {
        LimiterView { ingress: bucket_view(self.ingress), egress: bucket_view(self.egress) }
    }
}

impl BandwidthLimiter {
    /// From when on the times of a direction are counted, if it has a cap.
    pub closed spec fn spec_epoch(&self, direction: BandwidthDirection) -> Option<Instant> {
        match direction {
            BandwidthDirection::In => bucket_epoch(self.ingress),
            BandwidthDirection::Out => bucket_epoch(self.egress),
        }
    }

    pub fn new(ingress: Option<TokenBucket>, egress: Option<TokenBucket>) -> (limiter:
        BandwidthLimiter)
        ensures
            limiter@.ingress == bucket_view(ingress),
            limiter@.egress == bucket_view(egress),
            limiter.spec_epoch(BandwidthDirection::In) == bucket_epoch(ingress),
            limiter.spec_epoch(BandwidthDirection::Out) == bucket_epoch(egress),
    {
        BandwidthLimiter { ingress, egress }
    }

    /// Whether any direction has a cap.
    pub fn has_bandwidth_cap(&self) -> (capped: bool)
        ensures
            capped == (self@.ingress is Some || self@.egress is Some),
    {
        self.ingress.is_some() || self.egress.is_some()
    }

    /// The cap of a direction, in bytes per second.
    pub fn bandwidth_rate_per_sec(&self, direction: BandwidthDirection) -> (rate: Option<u64>)
        ensures
            rate == self@.rate(direction),
    {
        let bucket = match direction {
            BandwidthDirection::In => &self.ingress,
            BandwidthDirection::Out => &self.egress,
        };
        match bucket {
            Some(b) => Some(b.rate_per_sec()),
            None => None,
        }
    }

    /// What the clock shows by which the cap of a direction counts, which is that
    /// of its bucket. A direction without a cap has no clock, and the result is 0.
    pub(crate) fn now_micros(&self, direction: BandwidthDirection) -> (micros: u64)
        ensures
            self.spec_epoch(direction) is None <==> self@.bucket(direction) is None,
            shows(self.spec_epoch(direction), micros),
    {
        let bucket = match direction {
            BandwidthDirection::In => &self.ingress,
            BandwidthDirection::Out => &self.egress,
        };
        match bucket {
            Some(b) => {
                let micros: u64 = b.now_micros();
                proof {
                    let now = choose|now: Instant|
                        micros == #[trigger] super::bucket::reading(b.spec_epoch(), now);
                    assert(micros == super::bucket::reading(
                        self.spec_epoch(direction)->0,
                        now,
                    ));
                }
                micros
            },
            None => 0,
        }
    }

    /// Takes `n` bytes of a direction at `now_micros`, or says how long to wait.
    pub fn acquire_bandwidth(&mut self, direction: BandwidthDirection, n: u64, now_micros: u64) -> (
    outcome: Acquire)
        requires
            old(self)@.wf(),
        ensures
            final(self)@.wf(),
            (final(self)@, outcome) == old(self)@.acquired(direction, n, now_micros),
            forall|d: BandwidthDirection| #[trigger]
                final(self).spec_epoch(d) == old(self).spec_epoch(d),
    {
        match direction {
            BandwidthDirection::In => match &mut self.ingress {
                Some(b) => b.acquire_at(n, now_micros),
                None => Acquire::Granted,
            },
            BandwidthDirection::Out => match &mut self.egress {
                Some(b) => b.acquire_at(n, now_micros),
                None => Acquire::Granted,
            },
        }
    }
}

} // verus!
