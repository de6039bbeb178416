//! Traffic quotas: how many bytes a user may still move.

pub mod copy;
pub mod scope;

use vstd::prelude::*;

verus! {

/// What is left of a quota.
#[derive(Clone, Copy, Debug, PartialEq, Eq, Structural)]
pub struct QuotaState {
    /// What the user may move in a month.
    pub monthly_bytes: i64,
    /// What is left of it.
    pub budget_remaining_bytes: i64,
    /// Nothing more may be moved.
    pub exhausted: bool,
}

/// What drawing on a quota came to.
#[derive(Clone, Copy, Debug, PartialEq, Eq, Structural)]
pub enum ConsumeOutcome {
    /// The bytes were covered and have been taken off.
    Granted,
    /// The bytes were not covered.
    Exhausted,
}

impl QuotaState {
    /// Draws `n` bytes. A draw that is not covered uses up what is left, and
    /// with it the quota.
    pub open spec fn consumed(self, n: i64) -> (QuotaState, ConsumeOutcome) {
        if self.exhausted {
            (self, ConsumeOutcome::Exhausted)
        } else if n <= self.budget_remaining_bytes {
            (
                QuotaState {
                    budget_remaining_bytes: (self.budget_remaining_bytes - n) as i64,
                    ..self
                },
                ConsumeOutcome::Granted,
            )
        } else {
            (
                QuotaState { budget_remaining_bytes: 0, exhausted: true, ..self },
                ConsumeOutcome::Exhausted,
            )
        }
    }

    /// Gives `n` bytes back.
    pub open spec fn restored(self, n: i64) -> QuotaState {
        QuotaState {
            budget_remaining_bytes: if self.budget_remaining_bytes + n <= i64::MAX {
                (self.budget_remaining_bytes + n) as i64
            } else {
                i64::MAX
            },
            ..self
        }
    }

    pub fn consume(&mut self, n: i64) -> (outcome: ConsumeOutcome)
        requires
            n >= 0,
        ensures
            (*final(self), outcome) == old(self).consumed(n),
    {
        if self.exhausted {
            ConsumeOutcome::Exhausted
        } else if n <= self.budget_remaining_bytes {
            self.budget_remaining_bytes = self.budget_remaining_bytes - n;
            ConsumeOutcome::Granted
        } else {
            self.budget_remaining_bytes = 0;
            self.exhausted = true;
            ConsumeOutcome::Exhausted
        }
    }

    pub fn restore(&mut self, n: i64)
        requires
            n >= 0,
        ensures
            *final(self) == old(self).restored(n),
    {
        if self.budget_remaining_bytes <= i64::MAX - n {
            self.budget_remaining_bytes = self.budget_remaining_bytes + n;
        } else {
            self.budget_remaining_bytes = i64::MAX;
        }
    }
}

/// A number of bytes as the quota counts them: `i64::MAX` stands for any number
/// past it.
pub open spec fn quota_bytes(n: nat) -> i64 {
    if n <= i64::MAX {
        n as i64
    } else {
        i64::MAX
    }
}

pub(crate) fn to_quota_bytes(n: u64) -> (bytes: i64)
    ensures
        bytes == quota_bytes(n as nat),
        bytes >= 0,
{
    if n <= i64::MAX as u64 {
        n as i64
    } else {
        i64::MAX
    }
}

/// How many bytes a run of draws is granted in all.
pub open spec fn granted_total(state: QuotaState, draws: Seq<i64>) -> int
    decreases draws.len(),
{
    if draws.len() == 0 {
        0
    } else {
        let (after, outcome) = state.consumed(draws[0]);
        (if outcome is Granted {
            draws[0] as int
        } else {
            0
        }) + granted_total(after, draws.drop_first())
    }
}

/// However many connections draw on a quota and in whatever order, together
/// they are granted no more than was left of it.
pub proof fn law_grants_never_exceed_the_budget(state: QuotaState, draws: Seq<i64>)
    requires
        forall|i: int| 0 <= i < draws.len() ==> #[trigger] draws[i] >= 0,
    ensures
        granted_total(state, draws) <= (if state.budget_remaining_bytes > 0 {
            state.budget_remaining_bytes as int
        } else {
            0
        }),
        state.exhausted ==> granted_total(state, draws) == 0,
    decreases draws.len(),
{
    if draws.len() > 0 {
        let after = state.consumed(draws[0]).0;
        assert forall|i: int| 0 <= i < draws.drop_first().len() implies #[trigger]
        draws.drop_first()[i] >= 0 by {
            assert(draws.drop_first()[i] == draws[i + 1]);
        }
        law_grants_never_exceed_the_budget(after, draws.drop_first());
    }
}

/// Giving back what was granted leaves the quota as it was.
pub proof fn law_restore_undoes_a_grant(state: QuotaState, n: i64)
    requires
        n >= 0,
        state.consumed(n).1 == ConsumeOutcome::Granted,
    ensures
        state.consumed(n).0.restored(n) == state,
{
}

/// A draw is granted exactly if the budget covers all of it and is not used up, and
/// then the budget is less by that much. The first draw that is not covered uses the
/// budget up for good.
pub proof fn law_a_draw_is_granted_if_it_is_covered(
    state: &mut QuotaState,
    n: i64,
    outcome: ConsumeOutcome,
    next: &mut QuotaState,
    m: i64,
    next_outcome: ConsumeOutcome,
)
    requires
        n >= 0,
        m >= 0,
        call_ensures(QuotaState::consume, (state, n), outcome),
        *next == *final(state),
        call_ensures(QuotaState::consume, (next, m), next_outcome),
    ensures
        outcome == ConsumeOutcome::Granted <==> !old(state).exhausted && n <= old(state).budget_remaining_bytes,
        outcome == ConsumeOutcome::Granted ==> {
            &&& final(state).budget_remaining_bytes == old(state).budget_remaining_bytes - n
            &&& !final(state).exhausted
        },
        outcome == ConsumeOutcome::Exhausted ==> {
            &&& final(state).exhausted
            &&& !old(state).exhausted ==> final(state).budget_remaining_bytes == 0
            &&& old(state).exhausted ==> *final(state) == *old(state)
            &&& next_outcome == ConsumeOutcome::Exhausted
            &&& *final(next) == *final(state)
        },
        final(state).monthly_bytes == old(state).monthly_bytes,
{
}

/// What is given back adds to the budget, up to the largest number, and revives
/// nothing that is used up.
pub proof fn law_what_is_given_back_adds_up(state: &mut QuotaState, n: i64)
    requires
        n >= 0,
        call_ensures(QuotaState::restore, (state, n), ()),
    ensures
        old(state).budget_remaining_bytes + n <= i64::MAX ==> final(state).budget_remaining_bytes
            == old(state).budget_remaining_bytes + n,
        old(state).budget_remaining_bytes + n > i64::MAX ==> final(state).budget_remaining_bytes
            == i64::MAX,
        final(state).exhausted == old(state).exhausted,
        final(state).monthly_bytes == old(state).monthly_bytes,
{
}

/// A number of bytes is drawn as it is, or as the largest number that can be.
pub proof fn law_bytes_are_drawn_as_they_are(n: nat)
    ensures
        n <= 0x7fff_ffff_ffff_ffff ==> quota_bytes(n) == n,
        n > 0x7fff_ffff_ffff_ffff ==> quota_bytes(n) == 0x7fff_ffff_ffff_ffff,
{
}

} // verus!
