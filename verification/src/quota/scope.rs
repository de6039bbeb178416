//! The quotas of the users.

use vstd::hash_map::StringHashMap;
use vstd::prelude::*;

use super::{ConsumeOutcome, QuotaState};

verus! {

/// Names a quota. Whoever holds one keeps drawing on the same quota, whatever
/// becomes of its entry.
#[derive(Clone, Copy, Debug, PartialEq, Eq, Structural)]
pub struct QuotaHandle {
    slot: usize,
}

impl QuotaHandle {
    pub closed spec fn id(self) -> int {
        self.slot as int
    }

    /// The handle with this number.
    pub closed spec fn numbered(id: nat) -> QuotaHandle {
        QuotaHandle { slot: id as usize }
    }
}

struct QuotaSlot {
    user_id: String,
    client_name: String,
    state: QuotaState,
}

/// Who has which quota, and what is left of it, as a mathematical value.
#[verifier::ext_equal]
pub struct ScopeView {
    /// The quota of each user that has one.
    pub users: Map<Seq<char>, QuotaHandle>,
    /// What is left of each quota that was ever installed, by the number of its
    /// handle.
    pub states: Seq<QuotaState>,
}

/// Something that is done to the quotas.
pub enum ScopeCall {
    Install { user: Seq<char>, state: QuotaState },
    Remove { user: Seq<char> },
    Consume { handle: QuotaHandle, n: i64 },
    Restore { handle: QuotaHandle, n: i64 },
}

impl ScopeView {
    pub open spec fn empty() -> ScopeView {
        ScopeView { users: Map::empty(), states: Seq::empty() }
    }

    /// Every user has a quota that was installed, and no two users have the same.
    pub open spec fn wf(self) -> bool {
        &&& forall|a: Seq<char>| #[trigger]
            self.users.contains_key(a) ==> 0 <= self.users[a].id() < self.states.len()
        &&& forall|a: Seq<char>, b: Seq<char>|
            #![trigger self.users.contains_key(a), self.users.contains_key(b)]
            self.users.contains_key(a) && self.users.contains_key(b) && a != b
                ==> self.users[a].id() != self.users[b].id()
    }

    /// What a call leaves. Installing refills the quota of a user that has one,
    /// and gives any other user a new one.
    pub open spec fn after(self, call: ScopeCall) -> ScopeView {
        match call {
            ScopeCall::Install { user, state } => if self.users.contains_key(user) {
                ScopeView { states: self.states.update(self.users[user].id(), state), ..self }
            } else {
                ScopeView {
                    users: self.users.insert(user, QuotaHandle::numbered(self.states.len())),
                    states: self.states.push(state),
                }
            },
            ScopeCall::Remove { user } => ScopeView { users: self.users.remove(user), ..self },
            ScopeCall::Consume { handle, n } => self.with_state(
                handle,
                self.states[handle.id()].consumed(n).0,
            ),
            ScopeCall::Restore { handle, n } => self.with_state(
                handle,
                self.states[handle.id()].restored(n),
            ),
        }
    }

    /// With something else left of a quota that was installed.
    pub open spec fn with_state(self, handle: QuotaHandle, state: QuotaState) -> ScopeView {
        if 0 <= handle.id() < self.states.len() {
            ScopeView { states: self.states.update(handle.id(), state), ..self }
        } else {
            self
        }
    }

    pub open spec fn after_all(self, calls: Seq<ScopeCall>) -> ScopeView
        decreases calls.len(),
    {
        if calls.len() == 0 {
            self
        } else {
            self.after_all(calls.drop_last()).after(calls.last())
        }
    }

    /// What is left of the quota of a user, if the user has one.
    pub open spec fn state_of(self, user: Seq<char>) -> Option<QuotaState> {
        if self.users.contains_key(user) {
            Some(self.states[self.users[user].id()])
        } else {
            None
        }
    }
}

/// What is left of the quota of a user after these calls: what the last install
/// gave, with what was drawn and given back through its handle since; nothing if
/// there was no install, or a removal since.
pub open spec fn left_of(calls: Seq<ScopeCall>, user: Seq<char>) -> Option<QuotaState>
    decreases calls.len(),
{
    if calls.len() == 0 {
        None
    } else {
        let earlier = left_of(calls.drop_last(), user);
        let users = ScopeView::empty().after_all(calls.drop_last()).users;
        match (calls.last(), earlier) {
            (ScopeCall::Install { user: u, state }, _) if u == user => Some(state),
            (ScopeCall::Remove { user: u }, _) if u == user => None,
            (ScopeCall::Consume { handle, n }, Some(state)) if users[user] == handle => Some(
                state.consumed(n).0,
            ),
            (ScopeCall::Restore { handle, n }, Some(state)) if users[user] == handle => Some(
                state.restored(n),
            ),
            _ => earlier,
        }
    }
}

/// The quotas, by user.
pub struct QuotaScopeManager {
    by_user: StringHashMap<QuotaHandle>,
    slots: Vec<QuotaSlot>,
}

impl QuotaScopeManager {
    /// The quota of each user that has one.
    pub closed spec fn users(&self) -> Map<Seq<char>, QuotaHandle> {
        self.by_user@
    }

    /// What is left of each quota that was ever installed, by the number of its
    /// handle.
    pub closed spec fn states(&self) -> Seq<QuotaState> {
        self.slots@.map_values(|slot: QuotaSlot| slot.state)
    }

    /// The user and the client for which each quota was installed.
    pub closed spec fn owners(&self) -> Seq<(Seq<char>, Seq<char>)> {
        self.slots@.map_values(|slot: QuotaSlot| (slot.user_id@, slot.client_name@))
    }

    /// Who has which quota, and what is left of it.
    pub open spec fn scope(&self) -> ScopeView {
        ScopeView { users: self.users(), states: self.states() }
    }

    /// The handle was given out here.
    pub open spec fn issued(&self, handle: QuotaHandle) -> bool {
        0 <= handle.id() < self.states().len()
    }

    /// What is left of a quota.
    pub open spec fn state_of(&self, handle: QuotaHandle) -> QuotaState {
        self.states()[handle.id()]
    }

    /// Every entry is the quota of its user.
    pub closed spec fn wf(&self) -> bool {
        &&& self.by_user@.dom().finite()
        &&& self.by_user@.dom().len() <= usize::MAX
        &&& forall|user: Seq<char>| #[trigger]
            self.by_user@.contains_key(user) ==> self.by_user@[user].slot < self.slots@.len()
                && self.slots@[self.by_user@[user].slot as int].user_id@ == user
    }

    pub fn new() -> (quotas: QuotaScopeManager)
        ensures
            quotas.wf(),
            quotas.users() =~= Map::<Seq<char>, QuotaHandle>::empty(),
            quotas.states() =~= Seq::<QuotaState>::empty(),
            quotas.owners() =~= Seq::<(Seq<char>, Seq<char>)>::empty(),
    {
        QuotaScopeManager { by_user: StringHashMap::new(), slots: Vec::new() }
    }

    /// The quota of a user.
    pub fn lookup(&self, user_id: &str) -> (handle: Option<QuotaHandle>)
        requires
            self.wf(),
        ensures
            handle == self.users().get(user_id@),
            handle matches Some(h) ==> self.issued(h),
    {
        match self.by_user.get(user_id) {
            Some(handle) => Some(*handle),
            None => None,
        }
    }

    /// Gives a user a quota. If the user has one already, it is refilled in
    /// place, so that all who hold its handle see the new budget.
    pub fn install(&mut self, user_id: &str, client_name: &str, state: QuotaState) -> (handle:
        QuotaHandle)
        requires
            old(self).wf(),
            old(self).users().contains_key(user_id@) || old(self).users().dom().len() < usize::MAX,
        ensures
            final(self).wf(),
            final(self).issued(handle),
            final(self).scope() =~= old(self).scope().after(
                ScopeCall::Install { user: user_id@, state },
            ),
            final(self).users()[user_id@] == handle,
            final(self).state_of(handle) == state,
            match old(self).users().get(user_id@) {
                Some(existing) => {
                    &&& handle == existing
                    &&& final(self).users() == old(self).users()
                    &&& final(self).states() =~= old(self).states().update(existing.id(), state)
                    &&& final(self).owners() =~= old(self).owners()
                },
                None => {
                    &&& handle.id() == old(self).states().len()
                    &&& final(self).users() =~= old(self).users().insert(user_id@, handle)
                    &&& final(self).states() =~= old(self).states().push(state)
                    &&& final(self).owners() =~= old(self).owners().push((user_id@, client_name@))
                },
            },
    {
        if let Some(handle) = self.lookup(user_id) {
            self.set_state(handle, state);
            return handle;
        }
        let handle = QuotaHandle { slot: self.slots.len() };
        self.slots.push(
            QuotaSlot { user_id: user_id.to_owned(), client_name: client_name.to_owned(), state },
        );
        self.by_user.insert(user_id.to_owned(), handle);
        handle
    }

    /// Replaces what is left of a quota.
    fn set_state(&mut self, handle: QuotaHandle, state: QuotaState)
        requires
            old(self).wf(),
            old(self).issued(handle),
        ensures
            final(self).wf(),
            final(self).users() == old(self).users(),
            final(self).states() =~= old(self).states().update(handle.id(), state),
            final(self).owners() =~= old(self).owners(),
    {
        let slot = QuotaSlot {
            user_id: self.slots[handle.slot].user_id.clone(),
            client_name: self.slots[handle.slot].client_name.clone(),
            state,
        };
        self.slots.set(handle.slot, slot);
    }

    /// Takes the quota off a user. Those who hold its handle go on with what is
    /// left.
    pub fn remove(&mut self, user_id: &str) -> (handle: Option<QuotaHandle>)
        requires
            old(self).wf(),
        ensures
            final(self).wf(),
            handle == old(self).users().get(user_id@),
            final(self).users() =~= old(self).users().remove(user_id@),
            final(self).states() == old(self).states(),
            final(self).scope() =~= old(self).scope().after(ScopeCall::Remove { user: user_id@ }),
            final(self).owners() == old(self).owners(),
    {
        let handle = self.lookup(user_id);
        self.by_user.remove(user_id);
        handle
    }

    /// How many users have a quota.
    pub fn len(&self) -> (len: usize)
        requires
            self.wf(),
        ensures
            self.users().dom().finite(),
            len == self.users().dom().len(),
    {
        self.by_user.len()
    }

    pub fn is_empty(&self) -> (empty: bool)
        requires
            self.wf(),
        ensures
            empty == (self.users() =~= Map::<Seq<char>, QuotaHandle>::empty()),
    {
        let empty = self.len() == 0;
        assert(self.users().dom().len() == 0 ==> self.users() =~= Map::<
            Seq<char>,
            QuotaHandle,
        >::empty());
        empty
    }

    /// What is left of a quota.
    pub fn state(&self, handle: QuotaHandle) -> (state: QuotaState)
        requires
            self.wf(),
            self.issued(handle),
        ensures
            state == self.state_of(handle),
    {
        self.slots[handle.slot].state
    }

    pub fn remaining(&self, handle: QuotaHandle) -> (bytes: i64)
        requires
            self.wf(),
            self.issued(handle),
        ensures
            bytes == self.state_of(handle).budget_remaining_bytes,
    {
        self.state(handle).budget_remaining_bytes
    }

    pub fn is_exhausted(&self, handle: QuotaHandle) -> (exhausted: bool)
        requires
            self.wf(),
            self.issued(handle),
        ensures
            exhausted == self.state_of(handle).exhausted,
    {
        self.state(handle).exhausted
    }

    /// Draws `n` bytes on a quota.
    pub fn consume(&mut self, handle: QuotaHandle, n: i64) -> (outcome: ConsumeOutcome)
        requires
            old(self).wf(),
            old(self).issued(handle),
            n >= 0,
        ensures
            final(self).wf(),
            final(self).users() == old(self).users(),
            final(self).owners() == old(self).owners(),
            final(self).states() =~= old(self).states().update(
                handle.id(),
                old(self).state_of(handle).consumed(n).0,
            ),
            final(self).scope() =~= old(self).scope().after(ScopeCall::Consume { handle, n }),
            outcome == old(self).state_of(handle).consumed(n).1,
    {
        let mut state = self.state(handle);
        let outcome = state.consume(n);
        self.set_state(handle, state);
        outcome
    }

    /// Gives `n` bytes back to a quota.
    pub fn restore(&mut self, handle: QuotaHandle, n: i64)
        requires
            old(self).wf(),
            old(self).issued(handle),
            n >= 0,
        ensures
            final(self).wf(),
            final(self).users() == old(self).users(),
            final(self).owners() == old(self).owners(),
            final(self).states() =~= old(self).states().update(
                handle.id(),
                old(self).state_of(handle).restored(n),
            ),
            final(self).scope() =~= old(self).scope().after(ScopeCall::Restore { handle, n }),
    {
        let mut state = self.state(handle);
        state.restore(n);
        self.set_state(handle, state);
    }
}

/// No two users share a quota, so that what is done to the one leaves the other
/// alone.
pub proof fn law_no_two_users_share_a_quota(
    quotas: QuotaScopeManager,
    a: Seq<char>,
    b: Seq<char>,
)
    requires
        quotas.wf(),
        quotas.users().contains_key(a),
        quotas.users().contains_key(b),
        a != b,
    ensures
        quotas.users()[a].id() != quotas.users()[b].id(),
{
}

proof fn lemma_reached(calls: Seq<ScopeCall>)
    requires
        calls.len() <= usize::MAX,
    ensures
        ScopeView::empty().after_all(calls).wf(),
        ScopeView::empty().after_all(calls).states.len() <= calls.len(),
        ScopeView::empty().after_all(calls).users.dom().finite(),
    decreases calls.len(),
{
    if calls.len() > 0 {
        lemma_reached(calls.drop_last());
        let before = ScopeView::empty().after_all(calls.drop_last());
        let after = ScopeView::empty().after_all(calls);
        assert(QuotaHandle::numbered(before.states.len()).id() == before.states.len());
        assert forall|a: Seq<char>, b: Seq<char>|
            #![trigger after.users.contains_key(a), after.users.contains_key(b)]
            after.users.contains_key(a) && after.users.contains_key(b) && a
                != b implies after.users[a].id() != after.users[b].id() by {
            if before.users.contains_key(a) && before.users.contains_key(b) {
                assert(before.users[a].id() != before.users[b].id());
            }
        }
    }
}

/// After any run of calls a user has a quota if and only if one was installed
/// and not removed since. What is left of it is what the last install gave, with
/// what was drawn and given back through its handle since: calls for other users
/// do not matter.
pub proof fn law_lookup_finds_the_last_install(calls: Seq<ScopeCall>, user: Seq<char>)
    requires
        calls.len() <= usize::MAX,
    ensures
        ScopeView::empty().after_all(calls).state_of(user) == left_of(calls, user),
    decreases calls.len(),
{
    if calls.len() > 0 {
        let before = ScopeView::empty().after_all(calls.drop_last());
        lemma_reached(calls.drop_last());
        law_lookup_finds_the_last_install(calls.drop_last(), user);
        match calls.last() {
            ScopeCall::Install { user: u, .. } => {
                if u != user && before.users.contains_key(u) && before.users.contains_key(user) {
                    assert(before.users[u].id() != before.users[user].id());
                }
            },
            ScopeCall::Consume { handle, .. } => {
                if before.users.contains_key(user) {
                    lemma_same_handle(before.users[user], handle);
                }
            },
            ScopeCall::Restore { handle, .. } => {
                if before.users.contains_key(user) {
                    lemma_same_handle(before.users[user], handle);
                }
            },
            ScopeCall::Remove { .. } => {},
        }
    }
}

proof fn lemma_same_handle(a: QuotaHandle, b: QuotaHandle)
    ensures
        a == b <==> a.id() == b.id(),
{
}

/// A user keeps its handle until it is removed: a new install refills the quota
/// behind the same handle, and calls for other users do not matter.
pub proof fn law_a_user_keeps_its_handle(scope: ScopeView, call: ScopeCall, user: Seq<char>)
    requires
        scope.users.contains_key(user),
        call != (ScopeCall::Remove { user }),
    ensures
        scope.after(call).users.contains_key(user),
        scope.after(call).users[user] == scope.users[user],
{
    match call {
        ScopeCall::Remove { user: u } => {
            assert(u != user);
        },
        _ => {},
    }
}

/// After any run of calls as many users are counted as have a quota. A new
/// install for a user that has one and the removal of a user that has none
/// change nothing in that.
pub proof fn law_users_are_counted_once(calls: Seq<ScopeCall>, user: Seq<char>, state: QuotaState)
    requires
        calls.len() <= usize::MAX,
    ensures
        ({
            let scope = ScopeView::empty().after_all(calls);
            let count = scope.users.dom().len();
            let installed = scope.after(ScopeCall::Install { user, state }).users.dom();
            let removed = scope.after(ScopeCall::Remove { user }).users.dom();
            &&& scope.users.dom() =~= Set::new(|u: Seq<char>| left_of(calls, u) is Some)
            &&& scope.users.dom().finite()
            &&& if scope.users.contains_key(user) {
                installed.len() == count && removed.len() == count - 1
            } else {
                installed.len() == count + 1 && removed.len() == count
            }
        }),
{
    let scope = ScopeView::empty().after_all(calls);
    lemma_reached(calls);
    assert forall|u: Seq<char>| scope.users.contains_key(u) <==> left_of(calls, u) is Some by {
        law_lookup_finds_the_last_install(calls, u);
    }
    assert(scope.after(ScopeCall::Remove { user }).users.dom() =~= scope.users.dom().remove(user));
    if !scope.users.contains_key(user) {
        assert(scope.after(ScopeCall::Install { user, state }).users.dom()
            =~= scope.users.dom().insert(user));
    }
}

/// Every quota draws, restores and reports for itself: a call on one handle is that
/// call on its state, and leaves every other quota as it is.
pub proof fn law_a_quota_is_its_own(
    quotas: &mut QuotaScopeManager,
    handle: QuotaHandle,
    n: i64,
    outcome: ConsumeOutcome,
    state: &mut QuotaState,
    alone: ConsumeOutcome,
    other: int,
)
    requires
        quotas.wf(),
        quotas.issued(handle),
        n >= 0,
        *state == quotas.states()[handle.id()],
        call_ensures(QuotaScopeManager::consume, (quotas, handle, n), outcome),
        call_ensures(QuotaState::consume, (state, n), alone),
    ensures
        outcome == alone,
        final(quotas).states()[handle.id()] == *final(state),
        final(quotas).states().len() == old(quotas).states().len(),
        0 <= other < old(quotas).states().len() && other != handle.id() ==> final(quotas).states()[other] == old(quotas).states()[other],
        final(quotas).users() == old(quotas).users(),
        final(quotas).owners() == old(quotas).owners(),
{
}

/// The same for what is given back.
pub proof fn law_a_refund_is_its_own(
    quotas: &mut QuotaScopeManager,
    handle: QuotaHandle,
    n: i64,
    state: &mut QuotaState,
    other: int,
)
    requires
        quotas.wf(),
        quotas.issued(handle),
        n >= 0,
        *state == quotas.states()[handle.id()],
        call_ensures(QuotaScopeManager::restore, (quotas, handle, n), ()),
        call_ensures(QuotaState::restore, (state, n), ()),
    ensures
        final(quotas).states()[handle.id()] == *final(state),
        final(quotas).states().len() == old(quotas).states().len(),
        0 <= other < old(quotas).states().len() && other != handle.id() ==> final(quotas).states()[other] == old(quotas).states()[other],
        final(quotas).users() == old(quotas).users(),
        final(quotas).owners() == old(quotas).owners(),
{
}

/// What was installed for a user is what is found for it, and what its handle shows.
/// A user that has a handle keeps it; other users keep their handles and states.
pub proof fn law_what_is_installed_is_found(
    quotas: &mut QuotaScopeManager,
    user: &str,
    client: &str,
    state: QuotaState,
    handle: QuotaHandle,
    found: Option<QuotaHandle>,
    shown: QuotaState,
    remaining: i64,
    exhausted: bool,
    other: &str,
    other_before: Option<QuotaHandle>,
    other_after: Option<QuotaHandle>,
)
    requires
        quotas.wf(),
        quotas.users().contains_key(user@) || quotas.users().dom().len() < usize::MAX,
        other@ != user@,
        call_ensures(QuotaScopeManager::lookup, (&*quotas, other), other_before),
        call_ensures(QuotaScopeManager::install, (quotas, user, client, state), handle),
        call_ensures(QuotaScopeManager::lookup, (&*final(quotas), user), found),
        call_ensures(QuotaScopeManager::state, (&*final(quotas), handle), shown),
        call_ensures(QuotaScopeManager::remaining, (&*final(quotas), handle), remaining),
        call_ensures(QuotaScopeManager::is_exhausted, (&*final(quotas), handle), exhausted),
        call_ensures(QuotaScopeManager::lookup, (&*final(quotas), other), other_after),
    ensures
        found == Some(handle),
        shown == state,
        remaining == state.budget_remaining_bytes,
        exhausted == state.exhausted,
        other_after == other_before,
        old(quotas).users().contains_key(user@) ==> handle == old(quotas).users()[user@],
        other_before matches Some(h) ==> h != handle && final(quotas).states()[h.id()] == old(quotas).states()[h.id()],
        forall|i: int|
            0 <= i < old(quotas).states().len() && i != handle.id() ==> #[trigger] final(quotas).states()[i] == old(quotas).states()[i],
{
    if other_before is Some && quotas.users().contains_key(user@) {
        law_no_two_users_share_a_quota(*quotas, user@, other@);
    }
}

/// A user that was removed is not found any more, and every other user is. What a
/// handle shows stays.
pub proof fn law_a_removed_user_is_gone(
    quotas: &mut QuotaScopeManager,
    user: &str,
    had: Option<QuotaHandle>,
    removed: Option<QuotaHandle>,
    found: Option<QuotaHandle>,
    other: &str,
    other_before: Option<QuotaHandle>,
    other_after: Option<QuotaHandle>,
)
    requires
        quotas.wf(),
        other@ != user@,
        call_ensures(QuotaScopeManager::lookup, (&*quotas, user), had),
        call_ensures(QuotaScopeManager::lookup, (&*quotas, other), other_before),
        call_ensures(QuotaScopeManager::remove, (quotas, user), removed),
        call_ensures(QuotaScopeManager::lookup, (&*final(quotas), user), found),
        call_ensures(QuotaScopeManager::lookup, (&*final(quotas), other), other_after),
    ensures
        removed == had,
        found is None,
        other_after == other_before,
        final(quotas).states() == old(quotas).states(),
{
}

/// New quotas hold nobody, and as many users are counted as can be found.
pub proof fn law_users_can_be_found_and_counted(
    quotas: QuotaScopeManager,
    user: &str,
    found: Option<QuotaHandle>,
    len: usize,
    empty: bool,
)
    requires
        call_ensures(QuotaScopeManager::new, (), quotas),
        call_ensures(QuotaScopeManager::lookup, (&quotas, user), found),
        call_ensures(QuotaScopeManager::len, (&quotas,), len),
        call_ensures(QuotaScopeManager::is_empty, (&quotas,), empty),
    ensures
        found is None,
        len == 0,
        empty,
{
    assert(quotas.users().dom() =~= Set::<Seq<char>>::empty());
}

} // verus!
