//! The life of a UDP rule: how it is started, what happens when one of its
//! tasks ends, and in which order everything is torn down.

use vstd::prelude::*;
use vstd::string::*;

use super::registry::{FlowId, FlowKey, Slot, UdpFlowRegistry};
use super::rule::{RuleView, UdpRule};
use crate::quota::scope::QuotaScopeManager;
use crate::sni::listener::Target;
use crate::stats::{RuleStats, RuleStatsView};
use crate::text::push_decimal;
use crate::types::{PortRange, RuleId};

verus! {

/// How many nanoseconds pass between two updates of the flow gauge.
pub const STATS_PUMP_PERIOD_NANOS: u64 = 1_000_000_000;

/// What a rule is started from.
pub struct UdpRuntimeConfig {
    pub rule_id: RuleId,
    pub listen_ports: PortRange,
    pub target: Target,
    pub target_ports: PortRange,
    pub prefer_ipv6: bool,
    pub rule_cap: usize,
    pub idle_window_nanos: u64,
    pub stats: RuleStats,
}

/// Why a rule was not started.
#[derive(Debug)]
pub enum UdpRuntimeStartError {
    /// This port could not be bound.
    BindFailed { port: u16, error: std::io::Error },
}

/// A listener that is to be run.
#[derive(Clone, Copy, Debug, PartialEq, Eq, Structural)]
pub struct ListenerPlan {
    pub listen_port: u16,
    pub target_port: u16,
}

/// Which task of a rule.
#[derive(Clone, Copy, Debug, PartialEq, Eq, Structural)]
pub enum Role {
    Listener(u16),
    Demux,
    Reaper,
    /// Keeps the gauge of live flows up to date.
    StatsPump,
}

/// Whether a rule is running, and if not, why it is going down.
#[derive(Clone, Copy, Debug, PartialEq, Eq, Structural)]
pub enum State {
    Running,
    ShuttingDownIntentional,
    ShuttingDownAfterFailure,
}

/// How a rule went down.
#[derive(Clone, Debug, PartialEq, Eq)]
pub enum ShutdownOutcome {
    /// No task ended before its turn.
    Clean,
    /// These tasks ended before their turn.
    UnexpectedExitsDuringDrain { roles: Vec<String>, count: usize },
}

/// How a task ended.
#[derive(Clone, Debug, PartialEq, Eq)]
pub enum TaskExit {
    /// It returned.
    Finished(Role),
    /// It was aborted or panicked; which task it was is not known.
    Died(String),
}

impl Role {
    pub open spec fn spec_label(self) -> Seq<char> {
        match self {
            Role::Listener(port) => "Listener("@ + crate::text::decimal(port as nat) + ")"@,
            Role::Demux => "Demux"@,
            Role::Reaper => "Reaper"@,
            Role::StatsPump => "StatsPump"@,
        }
    }

    pub fn label(self) -> (label: String)
        ensures
            label@ == self.spec_label(),
    {
        match self {
            Role::Listener(port) => {
                let mut label = "Listener(".to_owned();
                push_decimal(&mut label, port as u64);
                label.append(")");
                label
            },
            Role::Demux => "Demux".to_owned(),
            Role::Reaper => "Reaper".to_owned(),
            Role::StatsPump => "StatsPump".to_owned(),
        }
    }
}

/// The target port of a listen port: as far into the target range as the listen
/// port is into its own.
pub open spec fn spec_port_map(port: u16, listen: PortRange, target: PortRange) -> Option<u16> {
    let paired = target.first() + port - listen.first();
    if port >= listen.first() && paired <= target.last() {
        Some(paired as u16)
    } else {
        None
    }
}

pub fn port_map(port: u16, listen: &PortRange, target: &PortRange) -> (paired: Option<u16>)
    ensures
        paired == spec_port_map(port, *listen, *target),
{
    if port < listen.start() {
        return None;
    }
    let offset: u16 = port - listen.start();
    let room: u16 = target.end() - target.start();
    if offset <= room {
        Some(target.start() + offset)
    } else {
        None
    }
}

/// A range of ports is mapped to a window of the same offsets: a port and its
/// pair are equally far into their ranges, and no two ports share a pair.
pub proof fn law_ports_keep_their_offsets(a: u16, b: u16, listen: PortRange, target: PortRange)
    requires
        0 <= listen.first(),
        0 <= target.first(),
        target.last() <= u16::MAX,
    ensures
        spec_port_map(a, listen, target) matches Some(t) ==> t - target.first() == a
            - listen.first() && target.spec_contains(t as int),
        spec_port_map(a, listen, target) is Some && spec_port_map(a, listen, target)
            == spec_port_map(b, listen, target) ==> a == b,
        listen.spec_len() == target.spec_len() && listen.spec_contains(a as int)
            ==> spec_port_map(a, listen, target) is Some,
{
}

/// The listeners of a rule: the ports of both ranges pair by pair, as far as
/// both reach.
pub open spec fn planned(listen: PortRange, target: PortRange) -> Seq<ListenerPlan> {
    let count = if listen.spec_len() <= target.spec_len() {
        listen.spec_len()
    } else {
        target.spec_len()
    };
    Seq::new(
        count as nat,
        |i: int|
            ListenerPlan {
                listen_port: (listen.first() + i) as u16,
                target_port: (target.first() + i) as u16,
            },
    )
}

fn plan_listeners(listen: &PortRange, target: &PortRange) -> (listeners: Vec<ListenerPlan>)
    ensures
        listeners@ =~= planned(*listen, *target),
{
    let mut listeners: Vec<ListenerPlan> = Vec::new();
    let first: u16 = listen.start();
    let len: u32 = (listen.end() - first) as u32 + 1;
    let width: u32 = (target.end() - target.start()) as u32 + 1;
    let mut i: u32 = 0;
    while i < len
        invariant
            first == listen.first(),
            len == listen.spec_len(),
            width == target.spec_len(),
            i <= len,
            first + len <= 65536,
            target.first() + width <= 65536,
            target.first() >= 0,
            listeners@ =~= planned(*listen, *target).take(
                if i <= width {
                    i as int
                } else {
                    width as int
                },
            ),
        decreases len - i,
    {
        let port: u16 = first + i as u16;
        if let Some(target_port) = port_map(port, listen, target) {
            listeners.push(ListenerPlan { listen_port: port, target_port });
        }
        i = i + 1;
    }
    listeners
}

/// Which steps of the teardown have begun.
#[derive(Clone, Copy, Debug, PartialEq, Eq, Structural)]
pub struct RoleMarkers {
    pub stats_pump_cancelled: bool,
    pub listener_cancelled: bool,
    pub reaper_cancelled: bool,
    pub flows_drained: bool,
    pub demux_shutdown_sent: bool,
}

impl RoleMarkers {
    pub open spec fn none() -> RoleMarkers {
        RoleMarkers {
            stats_pump_cancelled: false,
            listener_cancelled: false,
            reaper_cancelled: false,
            flows_drained: false,
            demux_shutdown_sent: false,
        }
    }

    pub open spec fn cancelled(self, role: Role) -> bool {
        match role {
            Role::Listener(_) => self.listener_cancelled,
            Role::Reaper => self.reaper_cancelled,
            Role::Demux => self.demux_shutdown_sent,
            Role::StatsPump => self.stats_pump_cancelled,
        }
    }

    /// Whether the tasks of a role have been told to end.
    pub fn is_role_cancelled(&self, role: Role) -> (cancelled: bool)
        ensures
            cancelled == self.cancelled(role),
    {
        match role {
            Role::Listener(_) => self.listener_cancelled,
            Role::Reaper => self.reaper_cancelled,
            Role::Demux => self.demux_shutdown_sent,
            Role::StatsPump => self.stats_pump_cancelled,
        }
    }
}

impl Default for RoleMarkers {
    fn default() -> (markers: RoleMarkers)
        ensures
            markers == RoleMarkers::none(),
    {
        RoleMarkers {
            stats_pump_cancelled: false,
            listener_cancelled: false,
            reaper_cancelled: false,
            flows_drained: false,
            demux_shutdown_sent: false,
        }
    }
}

/// What is to be done next to take a rule down.
#[derive(Clone, Copy, Debug, PartialEq, Eq, Structural)]
pub enum SupervisorAction {
    /// Wait until a shutdown is asked for or a task ends, and report to
    /// [`Supervisor::shutdown_requested`] or [`Supervisor::task_exited`].
    AwaitEvent,
    /// Wait until a task ends, and report to [`Supervisor::task_exited`], or to
    /// [`Supervisor::tasks_gone`] if none is left.
    AwaitTask,
    CancelStatsPump,
    CancelListeners,
    CancelReaper,
    /// End the flows that are left, with [`UdpRule::drain`].
    DrainFlows,
    ShutdownDemux,
    /// The rule is down; [`Supervisor::outcome`] says how.
    Publish,
}

/// Watches over the tasks of a rule.
pub struct Supervisor {
    state: State,
    markers: RoleMarkers,
    unexpected: Vec<String>,
    listener_pending: usize,
    demux_pending: bool,
    reaper_pending: bool,
    stats_pump_pending: bool,
    gone: bool,
}

/// A supervisor as a mathematical value.
#[verifier::ext_equal]
pub struct SupervisorView {
    pub state: State,
    pub markers: RoleMarkers,
    /// The tasks that ended before their turn, in the order in which they did.
    pub unexpected: Seq<Seq<char>>,
    /// How many listeners have not ended.
    pub listener_pending: nat,
    pub demux_pending: bool,
    pub reaper_pending: bool,
    pub stats_pump_pending: bool,
    /// No task is left.
    pub gone: bool,
}

pub open spec fn exit_label(exit: TaskExit) -> Seq<char> {
    match exit {
        TaskExit::Finished(role) => role.spec_label(),
        TaskExit::Died(error) => "JoinError:"@ + error@,
    }
}

impl SupervisorView {
    /// A rule that has just been started.
    pub open spec fn started(listeners: nat) -> SupervisorView {
        SupervisorView {
            state: State::Running,
            markers: RoleMarkers::none(),
            unexpected: Seq::empty(),
            listener_pending: listeners,
            demux_pending: true,
            reaper_pending: true,
            stats_pump_pending: true,
            gone: false,
        }
    }

    /// After a task ended, as far as it is waited for.
    pub open spec fn counted_off(self, exit: TaskExit) -> SupervisorView {
        match exit {
            TaskExit::Finished(Role::Listener(_)) => SupervisorView {
                listener_pending: if self.listener_pending > 0 {
                    (self.listener_pending - 1) as nat
                } else {
                    0
                },
                ..self
            },
            TaskExit::Finished(Role::Demux) => SupervisorView { demux_pending: false, ..self },
            TaskExit::Finished(Role::Reaper) => SupervisorView { reaper_pending: false, ..self },
            TaskExit::Finished(Role::StatsPump) => SupervisorView {
                stats_pump_pending: false,
                ..self
            },
            TaskExit::Died(_) => self,
        }
    }

    /// Whether a task ended as it was told to.
    pub open spec fn expected(self, exit: TaskExit) -> bool {
        exit matches TaskExit::Finished(role) && self.markers.cancelled(role)
    }

    /// The tasks that ended before their turn, after one more task ended during
    /// the teardown.
    pub open spec fn classified(self, exit: TaskExit) -> SupervisorView {
        if self.expected(exit) {
            self
        } else {
            SupervisorView {
                unexpected: self.unexpected.push(
                    match exit {
                        TaskExit::Finished(role) => role.spec_label(),
                        TaskExit::Died(_) => "Unknown"@,
                    },
                ),
                ..self
            }
        }
    }

    /// After a task ended.
    pub open spec fn after_exit(self, exit: TaskExit) -> SupervisorView {
        if self.state == State::Running {
            SupervisorView { state: State::ShuttingDownAfterFailure, ..self.counted_off(exit) }
        } else {
            self.classified(exit).counted_off(exit)
        }
    }

    /// After these tasks ended, one after the other.
    pub open spec fn after_exits(self, exits: Seq<TaskExit>) -> SupervisorView
        decreases exits.len(),
    {
        if exits.len() == 0 {
            self
        } else {
            self.after_exits(exits.drop_last()).after_exit(exits.last())
        }
    }

    /// What is to be done next: the tasks are told to end role by role, and each
    /// role is waited for before the next one is told.
    pub open spec fn next_action(self) -> SupervisorAction {
        if self.state == State::Running {
            SupervisorAction::AwaitEvent
        } else if !self.markers.stats_pump_cancelled {
            SupervisorAction::CancelStatsPump
        } else if self.stats_pump_pending && !self.gone {
            SupervisorAction::AwaitTask
        } else if !self.markers.listener_cancelled {
            SupervisorAction::CancelListeners
        } else if self.listener_pending > 0 && !self.gone {
            SupervisorAction::AwaitTask
        } else if !self.markers.reaper_cancelled {
            SupervisorAction::CancelReaper
        } else if self.reaper_pending && !self.gone {
            SupervisorAction::AwaitTask
        } else if !self.markers.flows_drained {
            SupervisorAction::DrainFlows
        } else if !self.markers.demux_shutdown_sent {
            SupervisorAction::ShutdownDemux
        } else if !self.gone {
            SupervisorAction::AwaitTask
        } else {
            SupervisorAction::Publish
        }
    }

    /// The steps that have begun, once the next action is taken.
    pub open spec fn next_markers(self) -> RoleMarkers {
        let m = self.markers;
        match self.next_action() {
            SupervisorAction::CancelStatsPump => RoleMarkers { stats_pump_cancelled: true, ..m },
            SupervisorAction::CancelListeners => RoleMarkers { listener_cancelled: true, ..m },
            SupervisorAction::CancelReaper => RoleMarkers { reaper_cancelled: true, ..m },
            SupervisorAction::DrainFlows => RoleMarkers { flows_drained: true, ..m },
            SupervisorAction::ShutdownDemux => RoleMarkers { demux_shutdown_sent: true, ..m },
            _ => m,
        }
    }

    pub open spec fn after_next(self) -> SupervisorView {
        SupervisorView { markers: self.next_markers(), ..self }
    }

    /// No step has begun before the one in front of it was done.
    pub open spec fn in_order(self) -> bool {
        let m = self.markers;
        &&& m.stats_pump_cancelled ==> self.state != State::Running
        &&& m.listener_cancelled ==> m.stats_pump_cancelled && (!self.stats_pump_pending
            || self.gone)
        &&& m.reaper_cancelled ==> m.listener_cancelled && (self.listener_pending == 0 || self.gone)
        &&& m.flows_drained ==> m.reaper_cancelled && (!self.reaper_pending || self.gone)
        &&& m.demux_shutdown_sent ==> m.flows_drained
    }
}

impl View for Supervisor {
    type V = SupervisorView;

    closed spec fn view(&self) -> SupervisorView {
        SupervisorView {
            state: self.state,
            markers: self.markers,
            unexpected: self.unexpected@.map_values(|s: String| s@),
            listener_pending: self.listener_pending as nat,
            demux_pending: self.demux_pending,
            reaper_pending: self.reaper_pending,
            stats_pump_pending: self.stats_pump_pending,
            gone: self.gone,
        }
    }
}

impl Supervisor {
    /// Watches over a rule that has just been started.
    pub fn new(listeners: usize) -> (supervisor: Supervisor)
        ensures
            supervisor@ =~= SupervisorView::started(listeners as nat),
    {
        Supervisor {
            state: State::Running,
            markers: RoleMarkers::default(),
            unexpected: Vec::new(),
            listener_pending: listeners,
            demux_pending: true,
            reaper_pending: true,
            stats_pump_pending: true,
            gone: false,
        }
    }

    pub fn state(&self) -> (state: State)
        ensures
            state == self@.state,
    {
        self.state
    }

    /// A shutdown was asked for, or nobody is left to ask for one.
    pub fn shutdown_requested(&mut self)
        ensures
            final(self)@ =~= (SupervisorView {
                state: if old(self)@.state == State::Running {
                    State::ShuttingDownIntentional
                } else {
                    old(self)@.state
                },
                ..old(self)@
            }),
    {
        if self.state == State::Running {
            self.state = State::ShuttingDownIntentional;
        }
    }

    /// A task ended. While the rule is running no task may: then the rule is to
    /// be cancelled as a whole, and the result is the failure to report.
    pub fn task_exited(&mut self, exit: &TaskExit) -> (failure: Option<String>)
        ensures
            final(self)@ =~= old(self)@.after_exit(*exit),
            failure is Some <==> old(self)@.state == State::Running,
            failure matches Some(text) ==> text@ == "unexpected_task_exit:"@ + exit_label(*exit),
    {
        if self.state == State::Running {
            self.decrement_pending(exit);
            self.state = State::ShuttingDownAfterFailure;
            let mut failure = "unexpected_task_exit:".to_owned();
            match exit {
                TaskExit::Finished(role) => {
                    failure.append(role.label().as_str());
                },
                TaskExit::Died(error) => {
                    failure.append("JoinError:");
                    failure.append(error.as_str());
                },
            }
            assert(failure@ =~= "unexpected_task_exit:"@ + exit_label(*exit));
            Some(failure)
        } else {
            self.classify_drain_result(exit);
            self.decrement_pending(exit);
            None
        }
    }

    /// There is no task left to wait for.
    pub fn tasks_gone(&mut self)
        ensures
            final(self)@ =~= (SupervisorView { gone: true, ..old(self)@ }),
    {
        self.gone = true;
    }

    /// The next step of the teardown. It counts as begun.
    pub fn next(&mut self) -> (action: SupervisorAction)
        ensures
            action == old(self)@.next_action(),
            final(self)@ =~= old(self)@.after_next(),
    {
        if self.state == State::Running {
            return SupervisorAction::AwaitEvent;
        }
        if !self.markers.stats_pump_cancelled {
            self.markers.stats_pump_cancelled = true;
            return SupervisorAction::CancelStatsPump;
        }
        if self.stats_pump_pending && !self.gone {
            return SupervisorAction::AwaitTask;
        }
        if !self.markers.listener_cancelled {
            self.markers.listener_cancelled = true;
            return SupervisorAction::CancelListeners;
        }
        if self.listener_pending > 0 && !self.gone {
            return SupervisorAction::AwaitTask;
        }
        if !self.markers.reaper_cancelled {
            self.markers.reaper_cancelled = true;
            return SupervisorAction::CancelReaper;
        }
        if self.reaper_pending && !self.gone {
            return SupervisorAction::AwaitTask;
        }
        if !self.markers.flows_drained {
            self.markers.flows_drained = true;
            return SupervisorAction::DrainFlows;
        }
        if !self.markers.demux_shutdown_sent {
            self.markers.demux_shutdown_sent = true;
            return SupervisorAction::ShutdownDemux;
        }
        if !self.gone {
            return SupervisorAction::AwaitTask;
        }
        SupervisorAction::Publish
    }

    /// One task less to wait for.
    fn decrement_pending(&mut self, exit: &TaskExit)
        ensures
            final(self)@ =~= old(self)@.counted_off(*exit),
    {
        if let TaskExit::Finished(role) = exit {
            match role {
                Role::Listener(_) => {
                    if self.listener_pending > 0 {
                        self.listener_pending = self.listener_pending - 1;
                    }
                },
                Role::Demux => {
                    self.demux_pending = false;
                },
                Role::Reaper => {
                    self.reaper_pending = false;
                },
                Role::StatsPump => {
                    self.stats_pump_pending = false;
                },
            }
        }
    }

    /// Notes a task that ended before its turn.
    fn classify_drain_result(&mut self, exit: &TaskExit)
        ensures
            final(self)@ =~= old(self)@.classified(*exit),
    {
        match exit {
            TaskExit::Finished(role) => {
                if !self.markers.is_role_cancelled(*role) {
                    self.record_unexpected(role.label());
                }
            },
            TaskExit::Died(_) => {
                self.record_unexpected("Unknown".to_owned());
            },
        }
    }

    fn record_unexpected(&mut self, role: String)
        ensures
            final(self)@ =~= (SupervisorView {
                unexpected: old(self)@.unexpected.push(role@),
                ..old(self)@
            }),
    {
        self.unexpected.push(role);
    }

    /// How the rule went down.
    pub fn outcome(&self) -> (outcome: ShutdownOutcome)
        ensures
            self@.unexpected.len() == 0 ==> outcome is Clean,
            self@.unexpected.len() > 0 ==> {
                &&& outcome matches ShutdownOutcome::UnexpectedExitsDuringDrain { roles, count }
                &&& roles@.map_values(|s: String| s@) =~= self@.unexpected
                &&& count == self@.unexpected.len()
            },
    {
        if self.unexpected.len() == 0 {
            return ShutdownOutcome::Clean;
        }
        let mut roles: Vec<String> = Vec::new();
        let mut i: usize = 0;
        while i < self.unexpected.len()
            invariant
                i <= self.unexpected@.len(),
                roles@.len() == i,
                forall|j: int| 0 <= j < i ==> (#[trigger] roles@[j])@ == self.unexpected@[j]@,
            decreases self.unexpected@.len() - i,
        {
            roles.push(self.unexpected[i].clone());
            i = i + 1;
        }
        ShutdownOutcome::UnexpectedExitsDuringDrain { roles, count: self.unexpected.len() }
    }
}

/// The steps of the teardown begin in order, whatever happens: a rule starts in
/// order, and no exit, no request and no step breaks the order.
pub proof fn law_teardown_is_ordered(view: SupervisorView, exit: TaskExit, listeners: nat)
    requires
        view.in_order(),
    ensures
        SupervisorView::started(listeners).in_order(),
        view.after_exit(exit).in_order(),
        view.after_next().in_order(),
        (SupervisorView { gone: true, ..view }).in_order(),
        view.state == State::Running ==> (SupervisorView {
            state: State::ShuttingDownIntentional,
            ..view
        }).in_order(),
{
}

/// A failure is reported at most once. It is reported for the first task that
/// ends while the rule is running, and after that the rule is not running any
/// more, whatever tasks end.
pub proof fn law_failure_is_reported_once(
    view: SupervisorView,
    first: TaskExit,
    later: Seq<TaskExit>,
)
    ensures
        view.after_exit(first).after_exits(later).state != State::Running,
        view.state != State::Running ==> view.after_exits(later).state == view.state,
    decreases later.len(),
{
    if later.len() > 0 {
        law_failure_is_reported_once(view, first, later.drop_last());
    }
}

/// A rule goes down cleanly if every task ends only after it was told to.
pub proof fn law_expected_exits_are_clean(view: SupervisorView, exits: Seq<TaskExit>)
    requires
        view.state != State::Running,
        forall|i: int| 0 <= i < exits.len() ==> view.expected(#[trigger] exits[i]),
    ensures
        view.after_exits(exits).unexpected == view.unexpected,
        view.after_exits(exits).markers == view.markers,
        view.after_exits(exits).state == view.state,
    decreases exits.len(),
{
    if exits.len() > 0 {
        assert forall|i: int| 0 <= i < exits.drop_last().len() implies view.expected(
            #[trigger] exits.drop_last()[i],
        ) by {
            assert(exits.drop_last()[i] == exits[i]);
        }
        law_expected_exits_are_clean(view, exits.drop_last());
        assert(view.expected(exits[exits.len() - 1]));
    }
}

/// Once no task is left, a rule that goes down is down after at most five more
/// steps.
pub proof fn law_teardown_finishes(view: SupervisorView)
    requires
        view.state != State::Running,
        view.gone,
    ensures
        view.after_next().after_next().after_next().after_next().after_next().next_action()
            == SupervisorAction::Publish,
{
}

impl RuleView {
    /// A flow that some slot leads to.
    pub open spec fn reachable(self, id: FlowId) -> bool {
        exists|key: FlowKey|
            #![trigger self.slots.contains_key(key)]
            self.slots.contains_key(key) && self.slots[key] == Slot::Live(id)
    }

    /// After every flow was ended and every slot freed.
    pub open spec fn all_ended(self) -> RuleView {
        RuleView {
            slots: Map::empty(),
            flows: Map::new(
                |id: FlowId| self.flows.contains_key(id),
                |id: FlowId|
                    if self.reachable(id) {
                        self.flows[id].after_cancel()
                    } else {
                        self.flows[id]
                    },
            ),
            ..self
        }
    }

    /// After a rule was emptied: no flow is left, and none is on the gauge.
    pub open spec fn drained(self) -> RuleView {
        RuleView {
            stats: RuleStatsView { active_flows: 0, ..self.stats },
            ..self.all_ended()
        }
    }

    /// After the gauge of live flows was brought up to date.
    pub open spec fn gauged(self) -> RuleView {
        RuleView {
            stats: RuleStatsView {
                active_flows: if self.slots.dom().len() <= u32::MAX {
                    self.slots.dom().len() as u32
                } else {
                    u32::MAX
                },
                ..self.stats
            },
            ..self
        }
    }
}

impl UdpRule {
    /// Ends all flows and frees all slots. Nothing is left on the gauge.
    pub fn drain(&mut self, quotas: &QuotaScopeManager)
        requires
            old(self).wf(*quotas),
        ensures
            final(self).wf(*quotas),
            final(self)@ =~= old(self)@.drained(),
    {
        self.end_all(quotas);
        let ghost ended = self@;
        self.stats.set_active_flows(0);
        assert(self@.flows == ended.flows);
    }

    /// Ends all flows and frees all slots.
    pub(crate) fn end_all(&mut self, quotas: &QuotaScopeManager)
        requires
            old(self).wf(*quotas),
        ensures
            final(self).wf(*quotas),
            final(self)@ =~= old(self)@.all_ended(),
    {
        let flows = self.registry.drain();
        let ghost before = old(self)@;
        let mut i: usize = 0;
        while i < flows.len()
            invariant
                before == old(self)@,
                i <= flows@.len(),
                super::registry::lists_live(flows@, before.slots),
                before.wf(*quotas),
                self.flows.wf(),
                self.registry.wf(),
                self@.slots == Map::<FlowKey, Slot>::empty(),
                self@ =~= (RuleView { slots: self@.slots, flows: self@.flows, ..before }),
                self@.flows.dom() =~= before.flows.dom(),
                forall|id: FlowId| #[trigger]
                    before.flows.contains_key(id) ==> self@.flows[id] == (if exists|j: int|
                        0 <= j < i && (#[trigger] flows@[j]).1 == id {
                        before.flows[id].after_cancel()
                    } else {
                        before.flows[id]
                    }),
            decreases flows@.len() - i,
        {
            let id: FlowId = flows[i].1;
            proof {
                self.flows.lemma_known(id);
            }
            if let Some(mut flow) = self.flows.take(id) {
                flow.cancel();
                self.flows.put(id, flow);
            }
            i = i + 1;
        }
        proof {
            assert forall|id: FlowId| before.flows.contains_key(id) implies before.reachable(id)
                == (exists|j: int| 0 <= j < flows@.len() && (#[trigger] flows@[j]).1 == id) by {
                if before.reachable(id) {
                    let key = choose|key: FlowKey|
                        #![trigger before.slots.contains_key(key)]
                        before.slots.contains_key(key) && before.slots[key] == Slot::Live(id);
                    assert(flows@.contains((key, id)));
                }
            }
        }
    }

    /// Brings the gauge of live flows up to date.
    pub fn pump_stats(&mut self, quotas: &QuotaScopeManager)
        requires
            old(self).wf(*quotas),
        ensures
            final(self).wf(*quotas),
            final(self)@ =~= old(self)@.gauged(),
    {
        let len: usize = self.registry.len();
        let gauge: u32 = if len <= u32::MAX as usize {
            len as u32
        } else {
            u32::MAX
        };
        self.stats.set_active_flows(gauge);
        assert(self@.flows == old(self)@.flows);
    }
}

/// A UDP rule that was started.
pub struct UdpRuleRuntime {
    pub rule_id: RuleId,
    pub target: Target,
    pub prefer_ipv6: bool,
    pub idle_window_nanos: u64,
    pub rule: UdpRule,
    pub listeners: Vec<ListenerPlan>,
    pub supervisor: Supervisor,
}

impl UdpRuleRuntime {
    /// Which source has which slot.
    pub fn registry(&self) -> (registry: &UdpFlowRegistry)
        ensures
            *registry == self.rule.registry,
    {
        &self.rule.registry
    }

    /// The port to bind once `bound` ports of the range are bound. `None` if
    /// these are all.
    pub fn next_bind(listen: &PortRange, bound: u32) -> (port: Option<u16>)
        ensures
            port == (if bound < listen.spec_len() {
                Some((listen.first() + bound) as u16)
            } else {
                None
            }),
    {
        let first: u16 = listen.start();
        let len: u32 = (listen.end() - first) as u32 + 1;
        if bound < len {
            Some(first + bound as u16)
        } else {
            None
        }
    }

    /// Starts a rule whose ports were bound, all of them or up to the one that
    /// failed.
    pub fn start(cfg: UdpRuntimeConfig, failed: Option<(u16, std::io::Error)>) -> (started: Result<
        UdpRuleRuntime,
        UdpRuntimeStartError,
    >)
        ensures
            match failed {
                Some((port, error)) => started == Err::<UdpRuleRuntime, UdpRuntimeStartError>(
                    UdpRuntimeStartError::BindFailed { port, error },
                ),
                None => {
                    &&& started matches Ok(runtime)
                    &&& runtime.rule_id == cfg.rule_id
                    &&& runtime.target == cfg.target
                    &&& runtime.prefer_ipv6 == cfg.prefer_ipv6
                    &&& runtime.idle_window_nanos == cfg.idle_window_nanos
                    &&& runtime.rule.registry.wf()
                    &&& runtime.rule.flows.wf()
                    &&& runtime.rule@ =~= RuleView::fresh(cfg.rule_cap as nat, cfg.stats@)
                    &&& runtime.listeners@ =~= planned(cfg.listen_ports, cfg.target_ports)
                    &&& runtime.supervisor@ =~= SupervisorView::started(runtime.listeners@.len())
                },
            },
    {
        match failed {
            Some((port, error)) => Err(UdpRuntimeStartError::BindFailed { port, error }),
            None => {
                let listeners = plan_listeners(&cfg.listen_ports, &cfg.target_ports);
                Ok(
                    UdpRuleRuntime {
                        rule_id: cfg.rule_id,
                        target: cfg.target,
                        prefer_ipv6: cfg.prefer_ipv6,
                        idle_window_nanos: cfg.idle_window_nanos,
                        rule: UdpRule::new(cfg.rule_cap, cfg.stats),
                        supervisor: Supervisor::new(listeners.len()),
                        listeners,
                    },
                )
            },
        }
    }
}

/// A listen port is paired with the target port at the same distance from the start
/// of its range, if there is one.
pub proof fn law_a_port_is_paired_with_the_one_at_its_distance(
    port: u16,
    listen: &PortRange,
    target: &PortRange,
    paired: Option<u16>,
)
    requires
        call_ensures(port_map, (port, listen, target), paired),
        0 <= target.first(),
        target.last() <= 65535,
    ensures
        ({
            let at = target.first() + port - listen.first();
            &&& paired is Some <==> port >= listen.first() && at <= target.last()
            &&& paired matches Some(t) ==> t == at
        }),
{
}

/// The ports of a rule are bound one after the other, from first to last.
pub proof fn law_ports_are_bound_in_order(listen: &PortRange, bound: u32, port: Option<u16>)
    requires
        call_ensures(UdpRuleRuntime::next_bind, (listen, bound), port),
        0 <= listen.first(),
        listen.last() <= 65535,
    ensures
        listen.first() + bound <= listen.last() ==> (port matches Some(p) && p == listen.first()
            + bound),
        listen.first() + bound > listen.last() ==> port is None,
{
}

/// A rule starts exactly if no port failed to bind; else the port that did is named.
/// It starts without flows, under its cap, and with one listener for each port that has
/// a partner: the i-th listen port is paired with the i-th target port.
pub proof fn law_a_rule_starts_with_a_listener_per_port(
    cfg: UdpRuntimeConfig,
    failed: Option<(u16, std::io::Error)>,
    started: Result<UdpRuleRuntime, UdpRuntimeStartError>,
    i: int,
)
    requires
        call_ensures(UdpRuleRuntime::start, (cfg, failed), started),
        0 <= cfg.listen_ports.first() <= cfg.listen_ports.last() <= 65535,
        0 <= cfg.target_ports.first() <= cfg.target_ports.last() <= 65535,
    ensures
        started is Ok <==> failed is None,
        started matches Err(UdpRuntimeStartError::BindFailed { port, error }) ==> failed == Some(
            (port, error),
        ),
        started matches Ok(runtime) ==> {
            let (listen, target) = (cfg.listen_ports, cfg.target_ports);
            &&& runtime.rule_id == cfg.rule_id
            &&& runtime.target == cfg.target
            &&& runtime.prefer_ipv6 == cfg.prefer_ipv6
            &&& runtime.idle_window_nanos == cfg.idle_window_nanos
            &&& runtime.rule@.cap == cfg.rule_cap
            &&& runtime.rule@.stats == cfg.stats@
            &&& runtime.rule@.slots == Map::<FlowKey, Slot>::empty()
            &&& runtime.rule@.flows == Map::<FlowId, super::flow::FlowView>::empty()
            &&& runtime.rule@.dropped_overflow == 0
            &&& listen.last() - listen.first() <= target.last() - target.first()
                ==> runtime.listeners@.len() == listen.last() - listen.first() + 1
            &&& listen.last() - listen.first() > target.last() - target.first()
                ==> runtime.listeners@.len() == target.last() - target.first() + 1
            &&& 0 <= i < runtime.listeners@.len() ==> runtime.listeners@[i].listen_port
                == listen.first() + i && runtime.listeners@[i].target_port == target.first() + i
            &&& runtime.supervisor@.state == State::Running
            &&& runtime.supervisor@.listener_pending == runtime.listeners@.len()
        },
{
}

/// A supervisor starts running, with all tasks to wait for and nothing cancelled.
pub proof fn law_a_supervisor_starts_running(
    listeners: usize,
    supervisor: Supervisor,
    state: State,
    outcome: ShutdownOutcome,
)
    requires
        call_ensures(Supervisor::new, (listeners,), supervisor),
        call_ensures(Supervisor::state, (&supervisor,), state),
        call_ensures(Supervisor::outcome, (&supervisor,), outcome),
    ensures
        state == State::Running,
        outcome is Clean,
        supervisor@ == (SupervisorView {
            state: State::Running,
            markers: RoleMarkers {
                stats_pump_cancelled: false,
                listener_cancelled: false,
                reaper_cancelled: false,
                flows_drained: false,
                demux_shutdown_sent: false,
            },
            unexpected: Seq::empty(),
            listener_pending: listeners as nat,
            demux_pending: true,
            reaper_pending: true,
            stats_pump_pending: true,
            gone: false,
        }),
{
}

/// A rule is taken down in order: the statistics first, then the listeners, the
/// reaper, the flows and the demultiplexer; each of the first three is waited for
/// before the next is touched, unless no task is left. The outcome is told when no
/// task is left. A rule that runs is left alone.
pub proof fn law_the_teardown_takes_one_step_after_the_other(
    supervisor: &mut Supervisor,
    action: SupervisorAction,
)
    requires
        call_ensures(Supervisor::next, (supervisor,), action),
    ensures
        ({
            let v = old(supervisor)@;
            let w = final(supervisor)@;
            let m = v.markers;
            let down = v.state != State::Running;
            let pump_done = m.stats_pump_cancelled && (!v.stats_pump_pending || v.gone);
            let listeners_done = m.listener_cancelled && (v.listener_pending == 0 || v.gone);
            let reaper_done = m.reaper_cancelled && (!v.reaper_pending || v.gone);
            &&& !down <==> action == SupervisorAction::AwaitEvent
            &&& action == SupervisorAction::CancelStatsPump <==> down && !m.stats_pump_cancelled
            &&& action == SupervisorAction::CancelListeners <==> down && pump_done
                && !m.listener_cancelled
            &&& action == SupervisorAction::CancelReaper <==> down && pump_done && listeners_done
                && !m.reaper_cancelled
            &&& action == SupervisorAction::DrainFlows <==> down && pump_done && listeners_done
                && reaper_done && !m.flows_drained
            &&& action == SupervisorAction::ShutdownDemux <==> down && pump_done && listeners_done
                && reaper_done && m.flows_drained && !m.demux_shutdown_sent
            &&& action == SupervisorAction::Publish <==> down && pump_done && listeners_done
                && reaper_done && m.flows_drained && m.demux_shutdown_sent && v.gone
            &&& w.markers == (RoleMarkers {
                stats_pump_cancelled: m.stats_pump_cancelled || action
                    == SupervisorAction::CancelStatsPump,
                listener_cancelled: m.listener_cancelled || action
                    == SupervisorAction::CancelListeners,
                reaper_cancelled: m.reaper_cancelled || action == SupervisorAction::CancelReaper,
                flows_drained: m.flows_drained || action == SupervisorAction::DrainFlows,
                demux_shutdown_sent: m.demux_shutdown_sent || action
                    == SupervisorAction::ShutdownDemux,
            })
            &&& w == (SupervisorView { markers: w.markers, ..v })
        }),
{
}

/// A task that ends while the rule runs is a failure: it is told once, with the name
/// of the task, and the rule goes down. Later, a task that was told to end is
/// expected; any other is kept on record. Every task that ended is waited for no more.
pub proof fn law_a_task_that_ends_by_itself_is_a_failure(
    supervisor: &mut Supervisor,
    exit: &TaskExit,
    failure: Option<String>,
    label: String,
)
    requires
        call_ensures(Supervisor::task_exited, (supervisor, exit), failure),
        *exit matches TaskExit::Finished(role) ==> call_ensures(Role::label, (role,), label),
    ensures
        ({
            let v = old(supervisor)@;
            let w = final(supervisor)@;
            let running = v.state == State::Running;
            let told = match *exit {
                TaskExit::Finished(Role::Listener(_)) => v.markers.listener_cancelled,
                TaskExit::Finished(Role::Demux) => v.markers.demux_shutdown_sent,
                TaskExit::Finished(Role::Reaper) => v.markers.reaper_cancelled,
                TaskExit::Finished(Role::StatsPump) => v.markers.stats_pump_cancelled,
                TaskExit::Died(_) => false,
            };
            &&& running <==> failure is Some
            &&& running ==> w.state == State::ShuttingDownAfterFailure
            &&& !running ==> w.state == v.state
            &&& *exit is Finished && running ==> failure->0@ == "unexpected_task_exit:"@ + label@
            &&& *exit matches TaskExit::Died(error) ==> (running ==> failure->0@
                == "unexpected_task_exit:"@ + ("JoinError:"@ + error@))
            &&& running || told ==> w.unexpected == v.unexpected
            &&& !running && !told && *exit is Finished ==> w.unexpected == v.unexpected.push(label@)
            &&& !running && *exit is Died ==> w.unexpected == v.unexpected.push("Unknown"@)
            &&& w.listener_pending == (if *exit matches TaskExit::Finished(Role::Listener(_))
                && v.listener_pending > 0 {
                v.listener_pending - 1
            } else {
                v.listener_pending as int
            })
            &&& w.demux_pending == (v.demux_pending && *exit != TaskExit::Finished(Role::Demux))
            &&& w.reaper_pending == (v.reaper_pending && *exit != TaskExit::Finished(Role::Reaper))
            &&& w.stats_pump_pending == (v.stats_pump_pending && *exit != TaskExit::Finished(
                Role::StatsPump,
            ))
            &&& w.markers == v.markers
            &&& w.gone == v.gone
        }),
{
}

/// A request to go down counts only while the rule runs. That no task is left is kept
/// in mind. The outcome is clean exactly if nothing unexpected is on record, and else
/// lists it.
pub proof fn law_the_outcome_lists_what_was_unexpected(
    asked: &mut Supervisor,
    alone: &mut Supervisor,
    supervisor: &Supervisor,
    outcome: ShutdownOutcome,
    markers: &RoleMarkers,
    role: Role,
    cancelled: bool,
)
    requires
        call_ensures(Supervisor::shutdown_requested, (asked,), ()),
        call_ensures(Supervisor::tasks_gone, (alone,), ()),
        call_ensures(Supervisor::outcome, (supervisor,), outcome),
        call_ensures(RoleMarkers::is_role_cancelled, (markers, role), cancelled),
    ensures
        old(asked)@.state == State::Running ==> final(asked)@ == (SupervisorView {
            state: State::ShuttingDownIntentional,
            ..old(asked)@
        }),
        old(asked)@.state != State::Running ==> final(asked)@ == old(asked)@,
        final(alone)@ == (SupervisorView { gone: true, ..old(alone)@ }),
        outcome is Clean <==> supervisor@.unexpected.len() == 0,
        outcome matches ShutdownOutcome::UnexpectedExitsDuringDrain { roles, count } ==> {
            &&& count == supervisor@.unexpected.len()
            &&& roles@.len() == count
            &&& forall|i: int| 0 <= i < count ==> (#[trigger] roles@[i])@ == supervisor@.unexpected[i]
        },
        cancelled == (match role {
            Role::Listener(_) => markers.listener_cancelled,
            Role::Demux => markers.demux_shutdown_sent,
            Role::Reaper => markers.reaper_cancelled,
            Role::StatsPump => markers.stats_pump_cancelled,
        }),
{
    if let ShutdownOutcome::UnexpectedExitsDuringDrain { roles, count } = outcome {
        let seen = roles@.map_values(|s: String| s@);
        assert(seen.len() == roles@.len());
        assert forall|i: int| 0 <= i < count implies (#[trigger] roles@[i])@
            == supervisor@.unexpected[i] by {
            assert(seen[i] == supervisor@.unexpected[i]);
        }
    }
}

/// A task is named by its role, a listener with its port.
pub proof fn law_tasks_are_named_by_their_roles(role: Role, label: String)
    requires
        call_ensures(Role::label, (role,), label),
    ensures
        role matches Role::Listener(port) ==> label@ == "Listener("@ + crate::text::decimal(
            port as nat,
        ) + ")"@,
        role == Role::Demux ==> label@ == "Demux"@,
        role == Role::Reaper ==> label@ == "Reaper"@,
        role == Role::StatsPump ==> label@ == "StatsPump"@,
{
}

} // verus!
