//! The flows of one rule, by number.

use std::collections::HashMap;

use vstd::prelude::*;

use super::flow::{FlowView, UdpFlow};
use super::registry::FlowId;

verus! {

/// The flows of one rule.
#[derive(Debug)]
pub struct FlowTable {
    flows: HashMap<u64, UdpFlow>,
    next: u64,
}

impl View for FlowTable {
    type V = Map<FlowId, FlowView>;

    closed spec fn view(&self) -> Map<FlowId, FlowView> {
        Map::new(
            |id: FlowId| self.flows@.contains_key(id.0),
            |id: FlowId| self.flows@[id.0]@,
        )
    }
}

impl FlowTable {
    /// The number of the next flow.
    pub closed spec fn spec_next(&self) -> u64 {
        self.next
    }

    /// No flow has a number that is still to be given out.
    pub closed spec fn wf(&self) -> bool {
        forall|id: u64| #[trigger] self.flows@.contains_key(id) ==> id < self.next
    }

    pub fn new() -> (table: FlowTable)
        ensures
            table.wf(),
            table@ =~= Map::<FlowId, FlowView>::empty(),
            table.spec_next() == 0,
    {
        FlowTable { flows: HashMap::new(), next: 0 }
    }

    /// Takes a flow in and gives it a number.
    pub fn open(&mut self, flow: UdpFlow) -> (id: FlowId)
        requires
            old(self).wf(),
            old(self).spec_next() < u64::MAX,
        ensures
            final(self).wf(),
            id == FlowId(old(self).spec_next()),
            !old(self)@.contains_key(id),
            final(self)@ =~= old(self)@.insert(id, flow@),
            final(self).spec_next() == old(self).spec_next() + 1,
    {
        let id: u64 = self.next;
        self.flows.insert(id, flow);
        self.next = self.next + 1;
        FlowId(id)
    }

    /// Whether all numbers have been given out.
    pub fn is_full(&self) -> (full: bool)
        ensures
            full == (self.spec_next() == u64::MAX),
    {
        self.next == u64::MAX
    }

    pub fn get(&self, id: FlowId) -> (flow: Option<&UdpFlow>)
        ensures
            match flow {
                Some(flow) => self@.contains_key(id) && self@[id] == flow@,
                None => !self@.contains_key(id),
            },
    {
        self.flows.get(&id.0)
    }

    /// Takes a flow out, to put it back changed or to close it.
    pub fn take(&mut self, id: FlowId) -> (flow: Option<UdpFlow>)
        requires
            old(self).wf(),
        ensures
            final(self).wf(),
            final(self)@ =~= old(self)@.remove(id),
            final(self).spec_next() == old(self).spec_next(),
            match flow {
                Some(flow) => old(self)@.contains_key(id) && old(self)@[id] == flow@,
                None => !old(self)@.contains_key(id),
            },
    {
        self.flows.remove(&id.0)
    }

    /// Puts a flow back under the number that it had.
    pub fn put(&mut self, id: FlowId, flow: UdpFlow)
        requires
            old(self).wf(),
            id.0 < old(self).spec_next(),
        ensures
            final(self).wf(),
            final(self)@ =~= old(self)@.insert(id, flow@),
            final(self).spec_next() == old(self).spec_next(),
    {
        self.flows.insert(id.0, flow);
    }

    /// A flow in the table has a number that was given out.
    pub proof fn lemma_known(&self, id: FlowId)
        requires
            self.wf(),
            self@.contains_key(id),
        ensures
            id.0 < self.spec_next(),
    {
    }
}

/// A flow that is put into the table gets a number that no other has had, and is
/// found under it until it is taken out. No other flow changes.
pub proof fn law_a_flow_is_found_under_its_number(
    table: &mut FlowTable,
    flow: UdpFlow,
    id: FlowId,
    after: &mut FlowTable,
    taken: Option<UdpFlow>,
    other: FlowId,
)
    requires
        table.wf(),
        table.spec_next() < u64::MAX,
        other != id,
        call_ensures(FlowTable::open, (table, flow), id),
        *after == *final(table),
        call_ensures(FlowTable::take, (after, id), taken),
    ensures
        !old(table)@.contains_key(id),
        final(table)@.contains_key(id),
        final(table)@[id] == flow@,
        final(table)@.get(other) == old(table)@.get(other),
        taken matches Some(t) && t@ == flow@,
        final(after)@ == old(table)@,
        final(table).spec_next() > id.0,
        final(after).spec_next() == final(table).spec_next(),
{
    assert(final(after)@ =~= old(table)@);
}

} // verus!
