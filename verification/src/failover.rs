//! In which order the targets of a rule are tried.

use vstd::prelude::*;

verus! {

#[derive(Clone, Copy, Debug, PartialEq, Eq, Structural)]
pub enum Health {
    Healthy,
    Failed,
}

/// The first healthy target from place `from` on; past the end if there is none.
pub open spec fn first_healthy(health: Seq<Health>, from: int) -> int
    decreases health.len() - from,
{
    if from >= health.len() || health[from] == Health::Healthy {
        from
    } else {
        first_healthy(health, from + 1)
    }
}

/// The target that is tried first: the first healthy one, or the first of all if
/// none is healthy.
pub open spec fn preferred(health: Seq<Health>) -> int {
    let i = first_healthy(health, 0);
    if i < health.len() {
        i
    } else {
        0
    }
}

/// The order in which targets are tried: the preferred one, then the others from
/// first to last.
pub open spec fn dial_order_of(health: Seq<Health>) -> Seq<int> {
    let first = preferred(health);
    Seq::new(
        health.len(),
        |k: int|
            if k == 0 {
                first
            } else if k <= first {
                k - 1
            } else {
                k
            },
    )
}

pub fn dial_order(health: &Vec<Health>) -> (order: Vec<usize>)
    requires
        health@.len() > 0,
    ensures
        order@.map_values(|i: usize| i as int) =~= dial_order_of(health@),
{
    let mut first: usize = 0;
    while first < health.len() && health[first] != Health::Healthy
        invariant
            first <= health@.len(),
            first_healthy(health@, 0) == first_healthy(health@, first as int),
        decreases health@.len() - first,
    {
        first = first + 1;
    }
    if first == health.len() {
        first = 0;
    }
    let mut order: Vec<usize> = Vec::new();
    order.push(first);
    let mut i: usize = 0;
    while i < health.len()
        invariant
            health@.len() > 0,
            first < health@.len(),
            first == preferred(health@),
            i <= health@.len(),
            order@.len() == (if i <= first {
                i + 1
            } else {
                i as int
            }),
            forall|k: int| 0 <= k < order@.len() ==> #[trigger] order@[k] == dial_order_of(health@)[k],
        decreases health@.len() - i,
    {
        if i != first {
            order.push(i);
        }
        i = i + 1;
    }
    order
}

proof fn lemma_first_healthy(health: Seq<Health>, from: int)
    requires
        0 <= from <= health.len(),
    ensures
        from <= first_healthy(health, from) <= health.len(),
        forall|j: int|
            from <= j < first_healthy(health, from) ==> #[trigger] health[j] == Health::Failed,
        first_healthy(health, from) < health.len() ==> health[first_healthy(health, from)]
            == Health::Healthy,
    decreases health.len() - from,
{
    if from < health.len() && health[from] != Health::Healthy {
        lemma_first_healthy(health, from + 1);
    }
}

/// Every target is tried once: the order holds each of them, none of them twice.
/// A target that is tried first although it has failed is the first of all, and
/// then no target is healthy; a healthy one has no healthy target before it.
pub proof fn law_every_target_is_tried_once(health: Seq<Health>)
    requires
        health.len() > 0,
    ensures
        dial_order_of(health).len() == health.len(),
        forall|i: int|
            0 <= i < health.len() ==> #[trigger] dial_order_of(health).contains(i),
        forall|a: int, b: int|
            0 <= a < b < health.len() ==> #[trigger] dial_order_of(health)[a]
                != #[trigger] dial_order_of(health)[b],
        ({
            let first = dial_order_of(health)[0];
            if health[first] == Health::Healthy {
                forall|j: int| 0 <= j < first ==> #[trigger] health[j] == Health::Failed
            } else {
                &&& first == 0
                &&& forall|j: int| 0 <= j < health.len() ==> #[trigger] health[j] == Health::Failed
            }
        }),
{
    lemma_first_healthy(health, 0);
    let order = dial_order_of(health);
    let first = preferred(health);
    assert forall|i: int| 0 <= i < health.len() implies #[trigger] order.contains(i) by {
        let k = if i == first {
            0
        } else if i < first {
            i + 1
        } else {
            i
        };
        assert(order[k] == i);
    }
}

/// Goes through the targets of a rule in the order in which they are tried.
#[derive(Debug)]
pub struct TargetWalk {
    order: Vec<usize>,
    at: usize,
}

/// Where a walk is.
#[verifier::ext_equal]
pub struct WalkView {
    pub order: Seq<int>,
    pub at: nat,
}

impl WalkView {
    pub open spec fn wf(self) -> bool {
        self.at < self.order.len()
    }

    /// The target that is being tried.
    pub open spec fn current(self) -> int {
        self.order[self.at as int]
    }

    pub open spec fn exhausted(self) -> bool {
        self.at + 1 >= self.order.len()
    }

    pub open spec fn advanced(self) -> WalkView {
        if self.exhausted() {
            self
        } else {
            WalkView { at: self.at + 1, ..self }
        }
    }
}

impl View for TargetWalk {
    type V = WalkView;

    closed spec fn view(&self) -> WalkView {
        WalkView { order: self.order@.map_values(|i: usize| i as int), at: self.at as nat }
    }
}

impl TargetWalk {
    pub fn new(health: &Vec<Health>) -> (walk: TargetWalk)
        requires
            health@.len() > 0,
        ensures
            walk@ =~= (WalkView { order: dial_order_of(health@), at: 0 }),
            walk@.wf(),
    {
        TargetWalk { order: dial_order(health), at: 0 }
    }

    /// The target that is being tried.
    pub fn current(&self) -> (target: usize)
        requires
            self@.wf(),
        ensures
            target == self@.current(),
    {
        self.order[self.at]
    }

    /// Goes on to the next target. `None` if there is no other.
    pub fn advance(&mut self) -> (target: Option<usize>)
        requires
            old(self)@.wf(),
        ensures
            final(self)@ =~= old(self)@.advanced(),
            final(self)@.wf(),
            target is None <==> old(self)@.exhausted(),
            target matches Some(t) ==> t == final(self)@.current(),
    {
        if self.at < self.order.len() - 1 {
            self.at = self.at + 1;
            Some(self.order[self.at])
        } else {
            None
        }
    }
}

/// A target was reached, or it was not.
#[derive(Clone, Copy, Debug, PartialEq, Eq, Structural)]
pub struct HealthReport {
    pub target: usize,
    pub success: bool,
}

/// The order holds every target once. It starts with the first healthy one, or with
/// the first of all if none is healthy; the others follow from first to last.
pub proof fn law_healthy_first_then_in_order(health: &Vec<Health>, order: Vec<usize>)
    requires
        health@.len() > 0,
        call_ensures(dial_order, (health,), order),
    ensures
        order@.len() == health@.len(),
        forall|k: int| 0 <= k < order@.len() ==> #[trigger] order@[k] < health@.len(),
        forall|a: int, b: int| 1 <= a < b < order@.len() ==> #[trigger] order@[a] < #[trigger] order@[b],
        forall|k: int| 1 <= k < order@.len() ==> #[trigger] order@[k] != order@[0],
        health@[order@[0] as int] == Health::Failed ==> order@[0] == 0 && forall|j: int|
            0 <= j < health@.len() ==> #[trigger] health@[j] == Health::Failed,
        health@[order@[0] as int] == Health::Healthy ==> forall|j: int|
            0 <= j < order@[0] ==> #[trigger] health@[j] == Health::Failed,
{
    law_every_target_is_tried_once(health@);
    let seen = order@.map_values(|i: usize| i as int);
    let spec_order = dial_order_of(health@);
    lemma_first_healthy(health@, 0);
    assert forall|k: int| 0 <= k < order@.len() implies #[trigger] order@[k] == spec_order[k] by {
        assert(seen[k] == spec_order[k]);
    }
}

/// A walk tries the targets in that order, each when the one before it has failed,
/// and ends after the last.
pub proof fn law_a_walk_follows_the_order(
    health: &Vec<Health>,
    order: Vec<usize>,
    walk: TargetWalk,
    first: usize,
)
    requires
        health@.len() > 0,
        call_ensures(dial_order, (health,), order),
        call_ensures(TargetWalk::new, (health,), walk),
        call_ensures(TargetWalk::current, (&walk,), first),
    ensures
        first == order@[0],
        walk@.at == 0,
        walk@.order.len() == order@.len(),
        forall|k: int| 0 <= k < order@.len() ==> #[trigger] walk@.order[k] == order@[k],
{
    let seen = order@.map_values(|i: usize| i as int);
    assert forall|k: int| 0 <= k < order@.len() implies #[trigger] walk@.order[k] == order@[k] by {
        assert(seen[k] == dial_order_of(health@)[k]);
    }
}

/// One step of a walk goes to the next target of the order, and stays at the last.
pub proof fn law_a_walk_goes_on_by_one(walk: &mut TargetWalk, next: Option<usize>, now_at: usize)
    requires
        walk@.wf(),
        call_ensures(TargetWalk::advance, (walk,), next),
        call_ensures(TargetWalk::current, (&*final(walk),), now_at),
    ensures
        final(walk)@.order == old(walk)@.order,
        now_at == final(walk)@.order[final(walk)@.at as int],
        old(walk)@.at + 1 < old(walk)@.order.len() ==> {
            &&& next == Some(now_at)
            &&& final(walk)@.at == old(walk)@.at + 1
        },
        old(walk)@.at + 1 == old(walk)@.order.len() ==> {
            &&& next is None
            &&& final(walk)@.at == old(walk)@.at
        },
{
}

} // verus!
