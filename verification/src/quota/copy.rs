//! Copying under a quota: the bytes of a chunk are drawn before it is written,
//! so that what is delivered is always covered.

use vstd::prelude::*;

use super::scope::{QuotaHandle, QuotaScopeManager};
use super::{to_quota_bytes, ConsumeOutcome, QuotaState};

verus! {

/// How much is read at once.
pub const COPY_BUF_SIZE: usize = 65536;

/// What one direction of a copy has to do next.
#[derive(Clone, Copy, Debug, PartialEq, Eq, Structural)]
pub enum CopyStep {
    /// Read up to that many bytes.
    Read { len: usize },
    /// Write the bytes that were read.
    Write { len: usize },
    /// Shut the writing half down and stop.
    Close,
}

/// One direction of a copy under a quota.
#[derive(Clone, Copy, Debug, PartialEq, Eq, Structural)]
pub struct QuotaCopy {
    quota: QuotaHandle,
    total: u64,
}

impl QuotaCopy {
    pub closed spec fn spec_quota(self) -> QuotaHandle {
        self.quota
    }

    /// How many bytes were written.
    pub closed spec fn spec_total(self) -> u64 {
        self.total
    }

    pub fn new(quota: QuotaHandle) -> (copy: QuotaCopy)
        ensures
            copy.spec_quota() == quota,
            copy.spec_total() == 0,
    {
        QuotaCopy { quota, total: 0 }
    }

    /// How many bytes were written.
    pub fn total(&self) -> (total: u64)
        ensures
            total == self.spec_total(),
    {
        self.total
    }

    /// Before a read: nothing is read once the quota is used up.
    pub fn before_read(&self, quotas: &QuotaScopeManager) -> (step: CopyStep)
        requires
            quotas.wf(),
            quotas.issued(self.spec_quota()),
        ensures
            step == (if quotas.state_of(self.spec_quota()).exhausted {
                CopyStep::Close
            } else {
                CopyStep::Read { len: COPY_BUF_SIZE }
            }),
    {
        if quotas.is_exhausted(self.quota) {
            CopyStep::Close
        } else {
            CopyStep::Read { len: COPY_BUF_SIZE }
        }
    }

    /// After a read of `n` bytes: a chunk is only written if the quota covers
    /// all of it. No bytes is the end of the stream.
    pub fn after_read(&self, n: usize, quotas: &mut QuotaScopeManager) -> (step: CopyStep)
        requires
            old(quotas).wf(),
            old(quotas).issued(self.spec_quota()),
        ensures
            final(quotas).wf(),
            final(quotas).users() == old(quotas).users(),
            ({
                let before = old(quotas).state_of(self.spec_quota());
                let (after, outcome) = before.consumed(super::quota_bytes(n as nat));
                if n == 0 {
                    &&& step == CopyStep::Close
                    &&& final(quotas).states() == old(quotas).states()
                } else {
                    &&& final(quotas).states() =~= old(quotas).states().update(
                        self.spec_quota().id(),
                        after,
                    )
                    &&& step == match outcome {
                        ConsumeOutcome::Granted => CopyStep::Write { len: n },
                        ConsumeOutcome::Exhausted => CopyStep::Close,
                    }
                }
            }),
    {
        if n == 0 {
            return CopyStep::Close;
        }
        match quotas.consume(self.quota, to_quota_bytes(n as u64)) {
            ConsumeOutcome::Granted => CopyStep::Write { len: n },
            ConsumeOutcome::Exhausted => CopyStep::Close,
        }
    }

    /// After `n` bytes were written.
    pub fn after_write(&mut self, n: usize)
        ensures
            final(self).spec_quota() == old(self).spec_quota(),
            final(self).spec_total() == old(self).spec_total().saturating_add(n as u64),
    {
        self.total = self.total.saturating_add(n as u64);
    }
}

/// How far one copy has come.
#[verifier::ext_equal]
pub struct CopyProgress {
    /// What was read.
    pub read: Seq<u8>,
    /// What was written.
    pub written: Seq<u8>,
    /// The end of the stream was read.
    pub ended: bool,
    /// The quota stopped the copy.
    pub cut: bool,
}

impl CopyProgress {
    pub open spec fn begun() -> CopyProgress {
        CopyProgress { read: Seq::empty(), written: Seq::empty(), ended: false, cut: false }
    }
}

/// Copies that draw on the same quota.
#[verifier::ext_equal]
pub struct CopiesView {
    pub quota: QuotaState,
    pub copies: Seq<CopyProgress>,
}

impl CopiesView {
    /// That many copies that have just begun.
    pub open spec fn begun(quota: QuotaState, count: nat) -> CopiesView {
        CopiesView { quota, copies: Seq::new(count, |i: int| CopyProgress::begun()) }
    }

    /// Copy `c` has its turn, and its reader has `chunk` for it. This is what
    /// [`QuotaCopy::before_read`], [`QuotaCopy::after_read`] and the write come to.
    pub open spec fn turn(self, c: int, chunk: Seq<u8>) -> CopiesView {
        let copy = self.copies[c];
        if copy.ended || copy.cut {
            self
        } else if self.quota.exhausted {
            CopiesView { copies: self.copies.update(c, CopyProgress { cut: true, ..copy }), ..self }
        } else if chunk.len() == 0 {
            CopiesView {
                copies: self.copies.update(c, CopyProgress { ended: true, ..copy }),
                ..self
            }
        } else {
            let (quota, outcome) = self.quota.consumed(super::quota_bytes(chunk.len()));
            let after = match outcome {
                ConsumeOutcome::Granted => CopyProgress {
                    read: copy.read + chunk,
                    written: copy.written + chunk,
                    ..copy
                },
                ConsumeOutcome::Exhausted => CopyProgress {
                    read: copy.read + chunk,
                    cut: true,
                    ..copy
                },
            };
            CopiesView { quota, copies: self.copies.update(c, after) }
        }
    }

    /// After these turns, in this order.
    pub open spec fn after_turns(self, turns: Seq<(int, Seq<u8>)>) -> CopiesView
        decreases turns.len(),
    {
        if turns.len() == 0 {
            self
        } else {
            self.after_turns(turns.drop_last()).turn(turns.last().0, turns.last().1)
        }
    }
}

/// How many bytes the copies have written in all.
pub open spec fn written_total(copies: Seq<CopyProgress>) -> nat
    decreases copies.len(),
{
    if copies.len() == 0 {
        0
    } else {
        written_total(copies.drop_last()) + copies.last().written.len()
    }
}

proof fn lemma_written_total(copies: Seq<CopyProgress>, c: int, copy: CopyProgress)
    requires
        0 <= c < copies.len(),
    ensures
        written_total(copies.update(c, copy)) == written_total(copies) - copies[c].written.len()
            + copy.written.len(),
    decreases copies.len(),
{
    if c < copies.len() - 1 {
        lemma_written_total(copies.drop_last(), c, copy);
        assert(copies.update(c, copy).drop_last() =~= copies.drop_last().update(c, copy));
    } else {
        assert(copies.update(c, copy).drop_last() =~= copies.drop_last());
    }
}

proof fn lemma_nothing_written(count: nat)
    ensures
        written_total(Seq::new(count, |i: int| CopyProgress::begun())) == 0,
    decreases count,
{
    let copies = Seq::new(count, |i: int| CopyProgress::begun());
    if count > 0 {
        lemma_nothing_written((count - 1) as nat);
        assert(copies.drop_last() =~= Seq::new(
            (count - 1) as nat,
            |i: int| CopyProgress::begun(),
        ));
    }
}

/// However many copies share a quota, and however their turns interleave:
/// together they write no more than was left of it. Each writes a prefix of what
/// it read, and all of it unless the quota stopped it; then the quota is used up.
pub proof fn law_copies_stay_within_the_budget(
    quota: QuotaState,
    count: nat,
    turns: Seq<(int, Seq<u8>)>,
)
    requires
        quota.budget_remaining_bytes >= 0,
        quota.exhausted ==> quota.budget_remaining_bytes == 0,
        forall|k: int|
            0 <= k < turns.len() ==> 0 <= (#[trigger] turns[k]).0 < count && turns[k].1.len()
                <= COPY_BUF_SIZE,
    ensures
        ({
            let end = CopiesView::begun(quota, count).after_turns(turns);
            &&& end.copies.len() == count
            &&& written_total(end.copies) + end.quota.budget_remaining_bytes
                <= quota.budget_remaining_bytes
            &&& end.quota.budget_remaining_bytes >= 0
            &&& end.quota.exhausted ==> end.quota.budget_remaining_bytes == 0
            &&& forall|c: int|
                0 <= c < count ==> (#[trigger] end.copies[c]).written.is_prefix_of(
                    end.copies[c].read,
                )
            &&& forall|c: int|
                0 <= c < count && !(#[trigger] end.copies[c]).cut ==> end.copies[c].written
                    == end.copies[c].read
            &&& forall|c: int|
                0 <= c < count && (#[trigger] end.copies[c]).cut ==> end.quota.exhausted
        }),
    decreases turns.len(),
{
    let begun = CopiesView::begun(quota, count);
    if turns.len() == 0 {
        lemma_nothing_written(count);
    } else {
        let earlier = turns.drop_last();
        assert forall|k: int| 0 <= k < earlier.len() implies 0 <= (#[trigger] earlier[k]).0 < count
            && earlier[k].1.len() <= COPY_BUF_SIZE by {
            assert(earlier[k] == turns[k]);
        }
        law_copies_stay_within_the_budget(quota, count, earlier);
        let before = begun.after_turns(earlier);
        let (c, chunk) = turns.last();
        assert(0 <= turns[turns.len() - 1].0 < count);
        let end = before.turn(c, chunk);
        lemma_written_total(before.copies, c, end.copies[c]);
        assert(end.copies =~= before.copies.update(c, end.copies[c]));
        assert(end.copies[c].written.is_prefix_of(end.copies[c].read));
        assert forall|i: int| 0 <= i < count && i != c implies #[trigger] end.copies[i]
            == before.copies[i] by {}
    }
}

/// A copy stops before a read exactly if its quota is used up.
pub proof fn law_a_copy_reads_until_the_quota_is_used_up(
    copy: &QuotaCopy,
    quotas: &QuotaScopeManager,
    step: CopyStep,
)
    requires
        quotas.wf(),
        quotas.issued(copy.spec_quota()),
        call_ensures(QuotaCopy::before_read, (copy, quotas), step),
    ensures
        quotas.states()[copy.spec_quota().id()].exhausted ==> step == CopyStep::Close,
        !quotas.states()[copy.spec_quota().id()].exhausted ==> step == (CopyStep::Read {
            len: 65536,
        }),
{
}

/// What was read is written whole if the quota covers all of it, which it then pays
/// for; else nothing of it is. Draws are those of the quota, asked for as many bytes
/// as were read. The end of the stream draws nothing.
pub proof fn law_a_copy_pays_for_what_it_writes(
    copy: &QuotaCopy,
    n: usize,
    quotas: &mut QuotaScopeManager,
    step: CopyStep,
    alone: &mut QuotaScopeManager,
    outcome: ConsumeOutcome,
)
    requires
        quotas.wf(),
        quotas.issued(copy.spec_quota()),
        n <= i64::MAX,
        *alone == *quotas,
        call_ensures(QuotaScopeManager::consume, (alone, copy.spec_quota(), n as i64), outcome),
        call_ensures(QuotaCopy::after_read, (copy, n, quotas), step),
    ensures
        n == 0 ==> step == CopyStep::Close && final(quotas).states() == old(quotas).states(),
        n > 0 ==> final(quotas).states() == final(alone).states(),
        n > 0 && outcome == ConsumeOutcome::Granted ==> step == (CopyStep::Write { len: n }),
        n > 0 && outcome == ConsumeOutcome::Exhausted ==> step == CopyStep::Close,
        final(quotas).users() == old(quotas).users(),
{
}

/// The total of a copy is the sum of what was written, from nothing on.
pub proof fn law_a_copy_adds_up_what_it_wrote(
    quota: QuotaHandle,
    copy: &mut QuotaCopy,
    at_first: u64,
    n: usize,
    next: &mut QuotaCopy,
    m: usize,
    total: u64,
)
    requires
        call_ensures(QuotaCopy::new, (quota,), *copy),
        call_ensures(QuotaCopy::total, (&*copy,), at_first),
        call_ensures(QuotaCopy::after_write, (copy, n), ()),
        *next == *final(copy),
        call_ensures(QuotaCopy::after_write, (next, m), ()),
        call_ensures(QuotaCopy::total, (&*final(next),), total),
        n + m <= u64::MAX,
        n <= u64::MAX,
        m <= u64::MAX,
    ensures
        at_first == 0,
        total == n + m,
        final(next).spec_quota() == quota,
{
}

} // verus!
