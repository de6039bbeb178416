//! Looks after the targets of a rule: they are connected to in turn, to learn
//! whether they can be reached.

use vstd::prelude::*;

use crate::failover::HealthReport;

verus! {

/// For how many seconds a target may take to answer.
pub const PROBE_CONNECT_TIMEOUT_SECS: u64 = 5;

/// How many seconds lie between two probes: what was asked for, but at least
/// one.
pub fn probe_period_secs(interval_secs: u32) -> (secs: u64)
    ensures
        secs == (if interval_secs == 0 {
            1
        } else {
            interval_secs
        }),
{
    if interval_secs == 0 {
        1
    } else {
        interval_secs as u64
    }
}

/// What came of a probe.
#[derive(Clone, Copy, Debug, PartialEq, Eq, Structural)]
pub enum ProbeOutcome {
    Connected,
    Failed,
    TimedOut,
}

/// What a probe says of a target.
pub fn probe_one(target: usize, outcome: ProbeOutcome) -> (report: HealthReport)
    ensures
        report == (HealthReport { target, success: outcome == ProbeOutcome::Connected }),
{
    match outcome {
        ProbeOutcome::Connected => HealthReport { target, success: true },
        ProbeOutcome::Failed => HealthReport { target, success: false },
        ProbeOutcome::TimedOut => HealthReport { target, success: false },
    }
}

/// Whose turn it is.
#[derive(Clone, Copy, Debug, PartialEq, Eq, Structural)]
pub struct Prober {
    next_idx: usize,
}

impl Prober {
    /// How many probes were made.
    pub closed spec fn spec_made(self) -> usize {
        self.next_idx
    }

    pub fn new() -> (prober: Prober)
        ensures
            prober.spec_made() == 0,
    {
        Prober { next_idx: 0 }
    }

    /// The target to probe now, out of so many. `None` if there are none.
    pub fn tick(&mut self, targets: usize) -> (target: Option<usize>)
        ensures
            if targets == 0 {
                target is None && *final(self) == *old(self)
            } else {
                &&& target == Some((old(self).spec_made() % targets) as usize)
                &&& final(self).spec_made() == old(self).spec_made().wrapping_add(1)
            },
    {
        if targets == 0 {
            return None;
        }
        let idx: usize = self.next_idx % targets;
        self.next_idx = self.next_idx.wrapping_add(1);
        Some(idx)
    }
}

/// As many probes in a row as there are targets reach every target, as long as
/// the count of probes does not wrap around in between.
pub proof fn law_probes_go_round(made: int, targets: int, i: int)
    requires
        0 <= made,
        0 <= i < targets,
        made + targets <= usize::MAX,
    ensures
        exists|k: int| 0 <= k < targets && #[trigger] ((made + k) % targets) == i,
{
    let here = made % targets;
    vstd::arithmetic::div_mod::lemma_mod_bound(made, targets);
    vstd::arithmetic::div_mod::lemma_fundamental_div_mod(made, targets);
    let q = made / targets;
    let k = if i >= here {
        i - here
    } else {
        i - here + targets
    };
    let rounds = if i >= here {
        q
    } else {
        q + 1
    };
    assert(made + k == targets * rounds + i) by (nonlinear_arith)
        requires
            made == targets * q + here,
            (k == i - here && rounds == q) || (k == i - here + targets && rounds == q + 1),
    ;
    assert((made + k) % targets == i) by (nonlinear_arith)
        requires
            made + k == targets * rounds + i,
            0 <= i < targets,
    ;
}

/// Targets are probed in turn, one after the other, beginning with the first and over
/// again after the last. Without targets nothing is probed.
pub proof fn law_each_probe_goes_to_the_next_target(
    fresh: Prober,
    targets: usize,
    first: &mut Prober,
    first_target: Option<usize>,
    prober: &mut Prober,
    target: Option<usize>,
    next: &mut Prober,
    next_target: Option<usize>,
)
    requires
        call_ensures(Prober::new, (), fresh),
        *first == fresh,
        call_ensures(Prober::tick, (first, targets), first_target),
        call_ensures(Prober::tick, (prober, targets), target),
        *next == *final(prober),
        prober.spec_made() < usize::MAX,
        call_ensures(Prober::tick, (next, targets), next_target),
    ensures
        targets == 0 <==> target is None,
        targets == 0 ==> *final(prober) == *old(prober),
        targets > 0 ==> {
            &&& first_target == Some(0usize)
            &&& target->0 < targets
            &&& target->0 + 1 < targets ==> next_target == Some((target->0 + 1) as usize)
            &&& target->0 + 1 == targets ==> next_target == Some(0usize)
        },
{
    if targets > 0 {
        let made = prober.spec_made() as int;
        let t = targets as int;
        assert(0 <= made % t < t && (made % t + 1 < t ==> (made + 1) % t == made % t + 1) && (made
            % t + 1 == t ==> (made + 1) % t == 0)) by (nonlinear_arith)
            requires
                made >= 0,
                t > 0,
        ;
        assert(0int % t == 0) by (nonlinear_arith)
            requires
                t > 0,
        ;
    }
}

/// A probe reports its own target, as reached exactly if it was connected to. Probes
/// come at the interval that was asked for, at least one second apart.
pub proof fn law_a_probe_reports_its_target(
    target: usize,
    outcome: ProbeOutcome,
    report: HealthReport,
    interval_secs: u32,
    secs: u64,
)
    requires
        call_ensures(probe_one, (target, outcome), report),
        call_ensures(probe_period_secs, (interval_secs,), secs),
    ensures
        report.target == target,
        report.success <==> outcome == ProbeOutcome::Connected,
        interval_secs > 0 ==> secs == interval_secs,
        interval_secs == 0 ==> secs == 1,
{
}

} // verus!
