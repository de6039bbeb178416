//! TCP rules with several targets, and the life of a rule with several targets.

use vstd::prelude::*;
use vstd::string::*;

use crate::addr::SocketAddr;
use crate::failover::{Health, HealthReport, TargetWalk, WalkView};
use crate::proxy_protocol::{encode, ProxyProtocolVersion};
use crate::rate_limit::gate::LayeredAcquire;
use crate::rate_limit::limiter::BandwidthLimiter;
use crate::rate_limit::stats::RateLimitStatsAccumulator;
use crate::stats::{ErrorCounters, RuleStats, RuleStatsView};
use crate::text::push_decimal;
use crate::types::{PortRange, RuleId};

verus! {

/// How many milliseconds to wait before accepting again after that failed.
pub const ACCEPT_BACKOFF_MS: u64 = 50;

/// What is told of a rule.
#[derive(Clone, Debug, PartialEq, Eq)]
pub enum RuleStatusEvent {
    Activated { rule_id: RuleId },
    Failed { rule_id: RuleId, reason: String },
    Removed { rule_id: RuleId },
}

/// How far a rule is.
#[derive(Clone, Copy, Debug, PartialEq, Eq, Structural)]
pub enum Phase {
    Starting,
    Active,
    Over,
}

/// What happens to a rule.
#[derive(Clone, Debug, PartialEq, Eq)]
pub enum LifecycleEvent {
    /// This port could not be bound, for this reason.
    BindFailed { port: u16, reason: String },
    /// All ports were bound.
    Bound,
    /// Nobody hears that the rule is active.
    Unheard,
    /// The rule was cancelled, and all its connections and flows are done.
    Stopped,
}

/// Which of the things that are told of a rule.
#[derive(Clone, Copy, Debug, PartialEq, Eq, Structural)]
pub enum Report {
    Activated,
    Failed,
    Removed,
}

/// Why a rule failed: a rule with several ports also says which one.
pub open spec fn bind_failure_reason(range: PortRange, port: u16, reason: Seq<char>) -> Seq<char> {
    if range.spec_len() == 1 {
        reason
    } else {
        reason + ":"@ + crate::text::decimal(port as nat)
    }
}

impl Phase {
    pub open spec fn after(self, event: LifecycleEvent) -> Phase {
        match (self, event) {
            (Phase::Starting, LifecycleEvent::BindFailed { .. }) => Phase::Over,
            (Phase::Starting, LifecycleEvent::Bound) => Phase::Active,
            (Phase::Active, LifecycleEvent::Unheard) => Phase::Over,
            (Phase::Active, LifecycleEvent::Stopped) => Phase::Over,
            _ => self,
        }
    }

    /// What is told when `event` happens in this phase.
    pub open spec fn report(self, event: LifecycleEvent) -> Option<Report> {
        match (self, event) {
            (Phase::Starting, LifecycleEvent::BindFailed { .. }) => Some(Report::Failed),
            (Phase::Starting, LifecycleEvent::Bound) => Some(Report::Activated),
            (Phase::Active, LifecycleEvent::Stopped) => Some(Report::Removed),
            _ => None,
        }
    }

    pub open spec fn after_all(self, events: Seq<LifecycleEvent>) -> Phase
        decreases events.len(),
    {
        if events.len() == 0 {
            self
        } else {
            self.after_all(events.drop_last()).after(events.last())
        }
    }

    /// All that is told while these events happen.
    pub open spec fn reports(self, events: Seq<LifecycleEvent>) -> Seq<Report>
        decreases events.len(),
    {
        if events.len() == 0 {
            Seq::empty()
        } else {
            let earlier = self.reports(events.drop_last());
            match self.after_all(events.drop_last()).report(events.last()) {
                Some(report) => earlier.push(report),
                None => earlier,
            }
        }
    }
}

/// `told` tells this of `rule_id`.
pub open spec fn tells(told: RuleStatusEvent, report: Report, rule_id: RuleId) -> bool {
    match (told, report) {
        (RuleStatusEvent::Activated { rule_id: id }, Report::Activated) => id == rule_id,
        (RuleStatusEvent::Failed { rule_id: id, .. }, Report::Failed) => id == rule_id,
        (RuleStatusEvent::Removed { rule_id: id }, Report::Removed) => id == rule_id,
        _ => false,
    }
}

/// The life of a rule.
#[derive(Debug)]
pub struct RuleLifecycle {
    pub rule_id: RuleId,
    pub listen_range: PortRange,
    pub phase: Phase,
}

impl RuleLifecycle {
    pub fn new(rule_id: RuleId, listen_range: PortRange) -> (life: RuleLifecycle)
        ensures
            life == (RuleLifecycle { rule_id, listen_range, phase: Phase::Starting }),
    {
        RuleLifecycle { rule_id, listen_range, phase: Phase::Starting }
    }

    /// Something happened to the rule. Returns what is to be told of it, if
    /// anything. Once the rule is over, nothing is to be done any more.
    pub fn step(&mut self, event: LifecycleEvent, stats: &mut RuleStats) -> (told: Option<
        RuleStatusEvent,
    >)
        ensures
            *final(self) == (RuleLifecycle { phase: old(self).phase.after(event), ..*old(self) }),
            match old(self).phase.report(event) {
                Some(report) => told is Some && tells(told->0, report, old(self).rule_id),
                None => told is None,
            },
            told matches Some(RuleStatusEvent::Failed { reason: text, .. }) ==> {
                &&& event matches LifecycleEvent::BindFailed { port, reason }
                &&& text@ == bind_failure_reason(old(self).listen_range, port, reason@)
            },
            final(stats)@ =~= (if old(self).phase.report(event) == Some(Report::Failed) {
                let errors = old(stats)@.errors;
                RuleStatsView {
                    errors: ErrorCounters {
                        port_in_use: errors.port_in_use.wrapping_add(1),
                        ..errors
                    },
                    ..old(stats)@
                }
            } else {
                old(stats)@
            }),
    {
        match (self.phase, event) {
            (Phase::Starting, LifecycleEvent::BindFailed { port, reason }) => {
                stats.errors.inc_port_in_use();
                self.phase = Phase::Over;
                let mut text = reason;
                if self.listen_range.len() != 1 {
                    text.append(":");
                    push_decimal(&mut text, port as u64);
                }
                Some(RuleStatusEvent::Failed { rule_id: self.rule_id, reason: text })
            },
            (Phase::Starting, LifecycleEvent::Bound) => {
                self.phase = Phase::Active;
                Some(RuleStatusEvent::Activated { rule_id: self.rule_id })
            },
            (Phase::Active, LifecycleEvent::Unheard) => {
                self.phase = Phase::Over;
                None
            },
            (Phase::Active, LifecycleEvent::Stopped) => {
                self.phase = Phase::Over;
                Some(RuleStatusEvent::Removed { rule_id: self.rule_id })
            },
            _ => None,
        }
    }
}

/// Whatever happens to a rule, it is told at most once that it was activated or
/// that it failed, and at most once that it was removed; that only after it was
/// activated.
pub proof fn law_a_rule_is_reported_once(events: Seq<LifecycleEvent>)
    ensures
        ({
            let told = Phase::Starting.reports(events);
            ||| told == Seq::<Report>::empty()
            ||| told == seq![Report::Failed]
            ||| told == seq![Report::Activated]
            ||| told == seq![Report::Activated, Report::Removed]
        }),
{
    lemma_reports(events);
}

proof fn lemma_reports(events: Seq<LifecycleEvent>)
    ensures
        ({
            let told = Phase::Starting.reports(events);
            match Phase::Starting.after_all(events) {
                Phase::Starting => told == Seq::<Report>::empty(),
                Phase::Active => told == seq![Report::Activated],
                Phase::Over => {
                    ||| told == seq![Report::Failed]
                    ||| told == seq![Report::Activated]
                    ||| told == seq![Report::Activated, Report::Removed]
                },
            }
        }),
    decreases events.len(),
{
    if events.len() > 0 {
        lemma_reports(events.drop_last());
    }
}

/// A connection came in and the rate limits were asked about it. Whether it is
/// to be served; if not, it is closed at once.
pub fn accept(
    outcome: LayeredAcquire,
    stats: &mut RuleStats,
    owner_stats: &mut Option<RateLimitStatsAccumulator>,
    rule_stats: &mut Option<RateLimitStatsAccumulator>,
) -> (serve: bool)
    ensures
        serve == (outcome == LayeredAcquire::Granted),
        final(stats)@ =~= (RuleStatsView {
            connections_total: if serve {
                old(stats)@.connections_total.wrapping_add(1)
            } else {
                old(stats)@.connections_total
            },
            ..old(stats)@
        }),
        crate::rate_limit::copy::stats_view(*final(owner_stats))
            =~= crate::rate_limit::gate::reject_counted(
            crate::rate_limit::copy::stats_view(*old(owner_stats)),
            outcome.owner_refusal(),
        ),
        crate::rate_limit::copy::stats_view(*final(rule_stats))
            =~= crate::rate_limit::gate::reject_counted(
            crate::rate_limit::copy::stats_view(*old(rule_stats)),
            outcome.rule_refusal(),
        ),
{
    if outcome.settle(owner_stats, rule_stats) {
        stats.inc_connection();
        true
    } else {
        false
    }
}

/// What is to be done next to reach a target.
#[derive(Debug)]
pub enum DialStep {
    /// Connect to this target, and report to [`Dial::connected`].
    Connect(usize),
    /// Send this header ahead, and report to [`Dial::prelude_written`].
    WritePrelude(Vec<u8>),
    /// The connection goes to this target.
    Serve(usize),
    /// No target could be reached; close the connection.
    GiveUp,
}

/// What came of one step: what a target's health is to be told, if anything, and
/// what is to be done next.
#[derive(Debug)]
pub struct DialTurn {
    pub report: Option<HealthReport>,
    pub step: DialStep,
}

/// A connection for which a target is sought.
#[derive(Debug)]
pub struct Dial {
    walk: TargetWalk,
    peer: SocketAddr,
    local: SocketAddr,
}

/// A search for a target as a mathematical value.
#[verifier::ext_equal]
pub struct DialView {
    pub walk: WalkView,
    pub peer: SocketAddr,
    pub local: SocketAddr,
}

impl DialView {
    /// The target that is being tried failed: it is reported as failed, and the
    /// next one is tried, if there is one.
    pub open spec fn failed(self, after: DialView, turn: DialTurn) -> bool {
        &&& after =~= (DialView { walk: self.walk.advanced(), ..self })
        &&& turn.report == Some(
            HealthReport { target: self.walk.current() as usize, success: false },
        )
        &&& turn.step == (if self.walk.exhausted() {
            DialStep::GiveUp
        } else {
            DialStep::Connect(after.walk.current() as usize)
        })
    }

    /// The target that is being tried is the one.
    pub open spec fn succeeded(self, after: DialView, turn: DialTurn) -> bool {
        &&& after =~= self
        &&& turn.report == Some(HealthReport { target: self.walk.current() as usize, success: true })
        &&& turn.step == DialStep::Serve(self.walk.current() as usize)
    }
}

impl View for Dial {
    type V = DialView;

    closed spec fn view(&self) -> DialView {
        DialView { walk: self.walk@, peer: self.peer, local: self.local }
    }
}

impl Dial {
    /// Seeks a target for a connection from `peer` that came in at `local`. The
    /// result is the target to try first.
    pub fn start(health: &Vec<Health>, peer: SocketAddr, local: SocketAddr) -> (started: (
        Dial,
        usize,
    ))
        requires
            health@.len() > 0,
        ensures
            started.0@ =~= (DialView {
                walk: WalkView { order: crate::failover::dial_order_of(health@), at: 0 },
                peer,
                local,
            }),
            started.0@.walk.wf(),
            started.1 == started.0@.walk.current(),
    {
        let walk = TargetWalk::new(health);
        let first: usize = walk.current();
        (Dial { walk, peer, local }, first)
    }

    fn fail(&mut self) -> (turn: DialTurn)
        requires
            old(self)@.walk.wf(),
        ensures
            final(self)@.walk.wf(),
            old(self)@.failed(final(self)@, turn),
    {
        let target: usize = self.walk.current();
        let report = Some(HealthReport { target, success: false });
        match self.walk.advance() {
            Some(target) => DialTurn { report, step: DialStep::Connect(target) },
            None => DialTurn { report, step: DialStep::GiveUp },
        }
    }

    fn succeed(&self) -> (turn: DialTurn)
        requires
            self@.walk.wf(),
        ensures
            self@.succeeded(self@, turn),
    {
        let target: usize = self.walk.current();
        DialTurn {
            report: Some(HealthReport { target, success: true }),
            step: DialStep::Serve(target),
        }
    }

    /// The target was connected to, or it could not be. `header` is the kind of
    /// header that it wants ahead of the connection, if any. A header that
    /// cannot be made counts as a failure of the target.
    pub fn connected(&mut self, connected: bool, header: Option<ProxyProtocolVersion>) -> (turn:
        DialTurn)
        requires
            old(self)@.walk.wf(),
        ensures
            final(self)@.walk.wf(),
            ({
                let (peer, local) = (old(self)@.peer, old(self)@.local);
                if !connected {
                    old(self)@.failed(final(self)@, turn)
                } else if header is None {
                    old(self)@.succeeded(final(self)@, turn)
                } else if !crate::proxy_protocol::same_family(peer, local) {
                    old(self)@.failed(final(self)@, turn)
                } else {
                    &&& final(self)@ =~= old(self)@
                    &&& turn.report is None
                    &&& turn.step matches DialStep::WritePrelude(bytes)
                    &&& bytes@ == crate::proxy_protocol::prelude_bytes(header->0, peer, local)
                }
            }),
    {
        if !connected {
            return self.fail();
        }
        match header {
            None => self.succeed(),
            Some(version) => match encode(version, self.peer, self.local) {
                Ok(bytes) => DialTurn { report: None, step: DialStep::WritePrelude(bytes) },
                Err(_) => self.fail(),
            },
        }
    }

    /// The header was sent, or it could not be.
    pub fn prelude_written(&mut self, written: bool) -> (turn: DialTurn)
        requires
            old(self)@.walk.wf(),
        ensures
            final(self)@.walk.wf(),
            if written {
                old(self)@.succeeded(final(self)@, turn)
            } else {
                old(self)@.failed(final(self)@, turn)
            },
    {
        if written {
            self.succeed()
        } else {
            self.fail()
        }
    }
}

/// The walk after so many targets failed.
pub open spec fn walk_after(walk: WalkView, failures: nat) -> WalkView
    decreases failures,
{
    if failures == 0 {
        walk
    } else {
        walk_after(walk, (failures - 1) as nat).advanced()
    }
}

/// A connection is given up only when every target has failed: after fewer
/// failures there is another target, and it is one that was not tried yet.
pub proof fn law_every_target_fails_before_giving_up(health: Seq<Health>, failures: nat)
    requires
        failures < health.len(),
    ensures
        ({
            let order = crate::failover::dial_order_of(health);
            let walk = walk_after(WalkView { order, at: 0 }, failures);
            &&& walk.current() == order[failures as int]
            &&& walk.exhausted() == (failures + 1 == health.len())
            &&& forall|k: int| 0 <= k < failures ==> #[trigger] order[k] != walk.current()
        }),
{
    let order = crate::failover::dial_order_of(health);
    lemma_walk_after(order, failures);
    crate::failover::law_every_target_is_tried_once(health);
}

proof fn lemma_walk_after(order: Seq<int>, failures: nat)
    requires
        failures < order.len(),
    ensures
        walk_after(WalkView { order, at: 0 }, failures) == (WalkView { order, at: failures }),
    decreases failures,
{
    if failures > 0 {
        lemma_walk_after(order, (failures - 1) as nat);
    }
}

/// Whether the bytes of a connection have to be paced: where the rule or its
/// owner has a cap in any direction.
pub fn needs_pacing(rule: &Option<BandwidthLimiter>, owner: &Option<BandwidthLimiter>) -> (paced:
    bool)
    ensures
        paced == ({
            ||| rule matches Some(l) && (l@.ingress is Some || l@.egress is Some)
            ||| owner matches Some(l) && (l@.ingress is Some || l@.egress is Some)
        }),
{
    if let Some(limiter) = rule {
        if limiter.has_bandwidth_cap() {
            return true;
        }
    }
    if let Some(limiter) = owner {
        return limiter.has_bandwidth_cap();
    }
    false
}

/// The bytes with which a target is to be credited.
#[derive(Clone, Copy, Debug, PartialEq, Eq, Structural)]
pub struct TargetCredit {
    pub target: usize,
    pub bytes_in: u64,
    pub bytes_out: u64,
}

/// A connection that is being served. Bytes can be counted while they pass, or
/// all at once when the connection ends.
#[derive(Clone, Copy, Debug, PartialEq, Eq, Structural)]
pub struct TcpConnection {
    pub listen_port: u16,
    pub target: usize,
    /// The bytes from the client that were counted so far.
    pub live_in: u64,
    /// The bytes to the client that were counted so far.
    pub live_out: u64,
}

impl TcpConnection {
    /// A connection on `listen_port` that goes to `target`.
    pub fn open(stats: &mut RuleStats, listen_port: u16, target: usize) -> (conn: TcpConnection)
        ensures
            final(stats)@ =~= old(stats)@.after_open(listen_port),
            conn == (TcpConnection { listen_port, target, live_in: 0, live_out: 0 }),
    {
        stats.inc_active(listen_port);
        TcpConnection { listen_port, target, live_in: 0, live_out: 0 }
    }

    /// Counts bytes from the client that have passed.
    pub fn passed_in(&mut self, stats: &mut RuleStats, n: u64)
        ensures
            final(stats)@ =~= old(stats)@.after_in(old(self).listen_port, n),
            *final(self) == (TcpConnection {
                live_in: old(self).live_in.wrapping_add(n),
                ..*old(self)
            }),
    {
        stats.record_in(self.listen_port, n);
        self.live_in = self.live_in.wrapping_add(n);
    }

    /// Counts bytes to the client that have passed.
    pub fn passed_out(&mut self, stats: &mut RuleStats, n: u64)
        ensures
            final(stats)@ =~= old(stats)@.after_out(old(self).listen_port, n),
            *final(self) == (TcpConnection {
                live_out: old(self).live_out.wrapping_add(n),
                ..*old(self)
            }),
    {
        stats.record_out(self.listen_port, n);
        self.live_out = self.live_out.wrapping_add(n);
    }

    /// What its target is credited with when the connection ends. `copied` is
    /// how many bytes passed each way, or `None` if the connection broke.
    pub open spec fn credit(self, copied: Option<(u64, u64)>) -> TargetCredit {
        match copied {
            Some((bytes_in, bytes_out)) => TargetCredit {
                target: self.target,
                bytes_in,
                bytes_out,
            },
            None => TargetCredit {
                target: self.target,
                bytes_in: self.live_in,
                bytes_out: self.live_out,
            },
        }
    }

    /// The counters of the rule when the connection ends: what was not counted
    /// while it passed is counted now.
    pub open spec fn settled(self, stats: RuleStatsView, copied: Option<(u64, u64)>) -> RuleStatsView {
        match copied {
            Some((bytes_in, bytes_out)) => stats.after_in(
                self.listen_port,
                bytes_in.saturating_sub(self.live_in),
            ).after_out(self.listen_port, bytes_out.saturating_sub(self.live_out)).after_close(
                self.listen_port,
            ),
            None => stats.after_close(self.listen_port),
        }
    }

    /// The connection ended. Returns what its target is to be credited with.
    pub fn close(self, stats: &mut RuleStats, copied: Option<(u64, u64)>) -> (credit: TargetCredit)
        ensures
            final(stats)@ =~= self.settled(old(stats)@, copied),
            credit == self.credit(copied),
    {
        let credit = match copied {
            Some((bytes_in, bytes_out)) => {
                stats.record_in(self.listen_port, bytes_in.saturating_sub(self.live_in));
                stats.record_out(self.listen_port, bytes_out.saturating_sub(self.live_out));
                TargetCredit { target: self.target, bytes_in, bytes_out }
            },
            None => TargetCredit {
                target: self.target,
                bytes_in: self.live_in,
                bytes_out: self.live_out,
            },
        };
        stats.dec_active(self.listen_port);
        credit
    }
}

/// Since `before`, nothing but the connection was counted.
pub open spec fn in_step(before: RuleStatsView, now: RuleStatsView, conn: TcpConnection) -> bool {
    &&& now.bytes_in == before.bytes_in.wrapping_add(conn.live_in)
    &&& now.bytes_out == before.bytes_out.wrapping_add(conn.live_out)
    &&& now.active_connections == before.active_connections.wrapping_add(1)
}

/// The totals of a rule and those of its targets agree, whether a connection
/// ends well or breaks: from its beginning to its end, the rule's totals grow by
/// what the target is credited with.
pub proof fn law_rule_and_target_agree(
    before: RuleStatsView,
    now: RuleStatsView,
    conn: TcpConnection,
    n: u64,
    copied: Option<(u64, u64)>,
)
    requires
        in_step(before, now, conn),
        copied matches Some((bytes_in, bytes_out)) ==> bytes_in >= conn.live_in && bytes_out
            >= conn.live_out,
    ensures
        in_step(
            before,
            before.after_open(conn.listen_port),
            TcpConnection { live_in: 0, live_out: 0, ..conn },
        ),
        in_step(
            before,
            now.after_in(conn.listen_port, n),
            TcpConnection { live_in: conn.live_in.wrapping_add(n), ..conn },
        ),
        in_step(
            before,
            now.after_out(conn.listen_port, n),
            TcpConnection { live_out: conn.live_out.wrapping_add(n), ..conn },
        ),
        ({
            let end = conn.settled(now, copied);
            let credit = conn.credit(copied);
            &&& end.bytes_in == before.bytes_in.wrapping_add(credit.bytes_in)
            &&& end.bytes_out == before.bytes_out.wrapping_add(credit.bytes_out)
            &&& end.active_connections == before.active_connections
        }),
{
}

/// The first target to connect to is the first of the order, and it is the one that
/// is being tried.
pub proof fn law_a_search_starts_with_the_preferred_target(
    health: &Vec<Health>,
    peer: SocketAddr,
    local: SocketAddr,
    order: Vec<usize>,
    started: (Dial, usize),
)
    requires
        health@.len() > 0,
        call_ensures(crate::failover::dial_order, (health,), order),
        call_ensures(Dial::start, (health, peer, local), started),
    ensures
        started.1 == order@[0],
        started.0@.walk.at == 0,
        started.0@.walk.order.len() == health@.len(),
        started.0@.walk.order[0] == started.1,
        forall|k: int| 0 <= k < order@.len() ==> #[trigger] started.0@.walk.order[k] == order@[k],
        started.0@.peer == peer,
        started.0@.local == local,
{
    let seen = order@.map_values(|i: usize| i as int);
    assert forall|k: int| 0 <= k < order@.len() implies #[trigger] started.0@.walk.order[k]
        == order@[k] by {
        assert(seen[k] == crate::failover::dial_order_of(health@)[k]);
    }
}

/// The report on the first connection names the target that was given out first,
/// whether it failed or not.
pub proof fn law_the_first_report_names_the_first_target(
    health: &Vec<Health>,
    peer: SocketAddr,
    local: SocketAddr,
    first: usize,
    dial: &mut Dial,
    connected: bool,
    header: Option<ProxyProtocolVersion>,
    turn: DialTurn,
)
    requires
        health@.len() > 0,
        call_ensures(Dial::start, (health, peer, local), (*dial, first)),
        call_ensures(Dial::connected, (dial, connected, header), turn),
    ensures
        turn.report matches Some(report) ==> report.target == first,
        turn.step matches DialStep::Serve(target) ==> target == first,
        !connected ==> turn.report == Some(HealthReport { target: first, success: false }),
        connected && header is None ==> turn.report == Some(
            HealthReport { target: first, success: true },
        ) && turn.step == DialStep::Serve(first),
{
}

/// Every later report names the target that the step before told to connect to,
/// for failures as for successes, and whether it comes at once or after a header was
/// sent.
pub proof fn law_reports_name_the_target_that_was_dialled(
    dial: &mut Dial,
    connected: bool,
    header: Option<ProxyProtocolVersion>,
    told: DialTurn,
    next: &mut Dial,
    next_connected: bool,
    next_header: Option<ProxyProtocolVersion>,
    turn: DialTurn,
    last: &mut Dial,
    written: bool,
    end: DialTurn,
)
    requires
        dial@.walk.wf(),
        call_ensures(Dial::connected, (dial, connected, header), told),
        *next == *final(dial),
        call_ensures(Dial::connected, (next, next_connected, next_header), turn),
        *last == *final(next),
        call_ensures(Dial::prelude_written, (last, written), end),
    ensures
        told.step matches DialStep::Connect(target) ==> {
            &&& turn.report matches Some(report) ==> report == (HealthReport {
                target,
                success: turn.step is Serve,
            })
            &&& turn.step matches DialStep::Serve(served) ==> served == target
            &&& !next_connected ==> turn.report == Some(HealthReport { target, success: false })
            &&& turn.step is WritePrelude ==> {
                &&& turn.report is None
                &&& end.report == Some(HealthReport { target, success: written })
                &&& written ==> end.step == DialStep::Serve(target)
            }
        },
        told.step is WritePrelude ==> told.report is None,
{
}

/// A target whose header could not be sent counts as failed, and the next target is
/// named in the next report.
pub proof fn law_a_failed_header_goes_on_to_the_next_target(
    dial: &mut Dial,
    told: DialTurn,
    next: &mut Dial,
    connected: bool,
    header: Option<ProxyProtocolVersion>,
    turn: DialTurn,
)
    requires
        dial@.walk.wf(),
        call_ensures(Dial::prelude_written, (dial, false), told),
        *next == *final(dial),
        call_ensures(Dial::connected, (next, connected, header), turn),
    ensures
        told.report matches Some(report) && report.target == old(dial)@.walk.order[old(dial)@.walk.at as int] as usize && !report.success,
        told.step is Connect || told.step is GiveUp,
        told.step matches DialStep::Connect(target) ==> (turn.report matches Some(report)
            ==> report.target == target),
{
}

/// A target that fails is reported as failed, and the search goes on with the next
/// of the order; it is given up after the last, and not before. A target that is
/// reached ends the search.
pub proof fn law_a_failure_goes_on_to_the_next_target(
    dial: &mut Dial,
    connected: bool,
    header: Option<ProxyProtocolVersion>,
    turn: DialTurn,
)
    requires
        dial@.walk.wf(),
        call_ensures(Dial::connected, (dial, connected, header), turn),
    ensures
        ({
            let before = old(dial)@.walk;
            let after = final(dial)@.walk;
            let here = before.order[before.at as int] as usize;
            let failed = turn.report matches Some(report) && !report.success;
            &&& after.order == before.order
            &&& final(dial)@.peer == old(dial)@.peer
            &&& final(dial)@.local == old(dial)@.local
            &&& turn.report matches Some(report) ==> report.target == here
            &&& !connected ==> failed
            &&& failed && before.at + 1 < before.order.len() ==> {
                &&& after.at == before.at + 1
                &&& turn.step == DialStep::Connect(before.order[(before.at + 1) as int] as usize)
            }
            &&& failed && before.at + 1 == before.order.len() ==> {
                &&& after.at == before.at
                &&& turn.step == DialStep::GiveUp
            }
            &&& !failed ==> after.at == before.at && (turn.step is Serve || turn.step is WritePrelude)
            &&& turn.step is Serve <==> connected && header is None
            &&& turn.step matches DialStep::Serve(target) ==> target == here && turn.report == Some(
                HealthReport { target: here, success: true },
            )
            &&& turn.step is WritePrelude ==> turn.report is None
        }),
{
}

/// The header that goes ahead is the one of the connection's own two ends; one that
/// cannot be made counts as a failure of the target.
pub proof fn law_the_header_is_that_of_the_connection(
    dial: &mut Dial,
    version: ProxyProtocolVersion,
    turn: DialTurn,
    made: Result<Vec<u8>, crate::proxy_protocol::PreludeError>,
)
    requires
        dial@.walk.wf(),
        call_ensures(encode, (version, dial@.peer, dial@.local), made),
        call_ensures(Dial::connected, (dial, true, Some(version)), turn),
    ensures
        made matches Ok(bytes) ==> (turn.step matches DialStep::WritePrelude(sent) && sent@
            == bytes@),
        made is Err ==> (turn.report matches Some(report) && !report.success),
{
}

/// A rule that could not bind a port has failed and says why, once; one that could
/// is active; one that is stopped, or that nobody hears, is over. In every other
/// case nothing is told and nothing changes.
pub proof fn law_a_rule_tells_what_happened_to_it(
    life: &mut RuleLifecycle,
    event: LifecycleEvent,
    stats: &mut RuleStats,
    told: Option<RuleStatusEvent>,
)
    requires
        call_ensures(RuleLifecycle::step, (life, event, stats), told),
    ensures
        final(life).rule_id == old(life).rule_id,
        final(life).listen_range == old(life).listen_range,
        ({
            let starting = old(life).phase == Phase::Starting;
            let active = old(life).phase == Phase::Active;
            let id = old(life).rule_id;
            match event {
                LifecycleEvent::BindFailed { port, reason } if starting => {
                    &&& final(life).phase == Phase::Over
                    &&& told matches Some(RuleStatusEvent::Failed { rule_id, reason: text })
                    &&& rule_id == id
                    &&& old(life).listen_range.first() == old(life).listen_range.last() ==> text@
                        == reason@
                    &&& old(life).listen_range.first() < old(life).listen_range.last() ==> text@
                        == reason@ + ":"@ + crate::text::decimal(port as nat)
                    &&& final(stats)@.errors.port_in_use == old(stats)@.errors.port_in_use.wrapping_add(1)
                    &&& final(stats)@ == (RuleStatsView {
                        errors: ErrorCounters {
                            port_in_use: final(stats)@.errors.port_in_use,
                            ..old(stats)@.errors
                        },
                        ..old(stats)@
                    })
                },
                LifecycleEvent::Bound if starting => {
                    &&& final(life).phase == Phase::Active
                    &&& told matches Some(RuleStatusEvent::Activated { rule_id })
                    &&& rule_id == id
                    &&& final(stats)@ == old(stats)@
                },
                LifecycleEvent::Stopped if active => {
                    &&& final(life).phase == Phase::Over
                    &&& told matches Some(RuleStatusEvent::Removed { rule_id })
                    &&& rule_id == id
                    &&& final(stats)@ == old(stats)@
                },
                LifecycleEvent::Unheard if active => {
                    &&& final(life).phase == Phase::Over
                    &&& told is None
                    &&& final(stats)@ == old(stats)@
                },
                _ => {
                    &&& final(life).phase == old(life).phase
                    &&& told is None
                    &&& final(stats)@ == old(stats)@
                },
            }
        }),
{
}

/// A connection that is let in is counted once, one that is refused is not.
pub proof fn law_connections_that_are_let_in_are_counted(
    outcome: LayeredAcquire,
    stats: &mut RuleStats,
    owner_stats: &mut Option<RateLimitStatsAccumulator>,
    rule_stats: &mut Option<RateLimitStatsAccumulator>,
    serve: bool,
    owner_alone: &mut Option<RateLimitStatsAccumulator>,
    rule_alone: &mut Option<RateLimitStatsAccumulator>,
    admitted: bool,
)
    requires
        *owner_alone == *owner_stats,
        *rule_alone == *rule_stats,
        call_ensures(LayeredAcquire::settle, (outcome, owner_alone, rule_alone), admitted),
        call_ensures(accept, (outcome, stats, owner_stats, rule_stats), serve),
    ensures
        serve <==> outcome == LayeredAcquire::Granted,
        serve == admitted,
        serve ==> final(stats)@.connections_total == old(stats)@.connections_total.wrapping_add(1),
        !serve ==> final(stats)@.connections_total == old(stats)@.connections_total,
        final(stats)@ == (RuleStatsView {
            connections_total: final(stats)@.connections_total,
            ..old(stats)@
        }),
        crate::rate_limit::copy::stats_view(*final(owner_stats))
            == crate::rate_limit::copy::stats_view(*final(owner_alone)),
        crate::rate_limit::copy::stats_view(*final(rule_stats))
            == crate::rate_limit::copy::stats_view(*final(rule_alone)),
{
}

/// Bytes are paced exactly if the rule or its owner has a limit for one direction.
pub proof fn law_pacing_follows_the_limits(
    rule: &Option<BandwidthLimiter>,
    owner: &Option<BandwidthLimiter>,
    paced: bool,
    rule_capped: bool,
    owner_capped: bool,
)
    requires
        call_ensures(needs_pacing, (rule, owner), paced),
        *rule is None ==> !rule_capped,
        *owner is None ==> !owner_capped,
        *rule matches Some(l) ==> call_ensures(
            BandwidthLimiter::has_bandwidth_cap,
            (&l,),
            rule_capped,
        ),
        *owner matches Some(l) ==> call_ensures(
            BandwidthLimiter::has_bandwidth_cap,
            (&l,),
            owner_capped,
        ),
    ensures
        paced <==> rule_capped || owner_capped,
{
}

/// From its beginning to its end a connection is counted as active on its port, and
/// its bytes are counted once in the totals and on the port: those that passed while
/// it lasted, and at the end those that were not counted yet. Its target is credited
/// with all of them, also where the connection broke.
pub proof fn law_a_connection_is_counted_from_beginning_to_end(
    stats: &mut RuleStats,
    port: u16,
    target: usize,
    conn: &mut TcpConnection,
    in_stats: &mut RuleStats,
    n_in: u64,
    next: &mut TcpConnection,
    out_stats: &mut RuleStats,
    n_out: u64,
    end_stats: &mut RuleStats,
    copied: Option<(u64, u64)>,
    credit: TargetCredit,
)
    requires
        call_ensures(TcpConnection::open, (stats, port, target), *conn),
        *in_stats == *final(stats),
        call_ensures(TcpConnection::passed_in, (conn, in_stats, n_in), ()),
        *next == *final(conn),
        *out_stats == *final(in_stats),
        call_ensures(TcpConnection::passed_out, (next, out_stats, n_out), ()),
        *end_stats == *final(out_stats),
        copied matches Some((i, o)) ==> i >= n_in && o >= n_out,
        call_ensures(TcpConnection::close, (*final(next), end_stats, copied), credit),
        stats@.per_port.contains_key(port),
    ensures
        ({
            let before = old(stats)@;
            let opened = final(stats)@;
            let during = final(out_stats)@;
            let end = final(end_stats)@;
            let (bytes_in, bytes_out) = match copied {
                Some((i, o)) => (i, o),
                None => (n_in, n_out),
            };
            &&& credit == (TargetCredit { target, bytes_in, bytes_out })
            &&& opened.active_connections == before.active_connections.wrapping_add(1)
            &&& opened.per_port[port].active_connections
                == before.per_port[port].active_connections.wrapping_add(1)
            &&& during.bytes_in == before.bytes_in.wrapping_add(n_in)
            &&& during.bytes_out == before.bytes_out.wrapping_add(n_out)
            &&& during.per_port[port].bytes_in == before.per_port[port].bytes_in.wrapping_add(n_in)
            &&& during.per_port[port].bytes_out == before.per_port[port].bytes_out.wrapping_add(
                n_out,
            )
            &&& end.bytes_in == before.bytes_in.wrapping_add(bytes_in)
            &&& end.bytes_out == before.bytes_out.wrapping_add(bytes_out)
            &&& end.active_connections == before.active_connections
            &&& end.per_port.dom() == before.per_port.dom()
            &&& end.per_port[port].bytes_in == before.per_port[port].bytes_in.wrapping_add(bytes_in)
            &&& end.per_port[port].bytes_out == before.per_port[port].bytes_out.wrapping_add(
                bytes_out,
            )
            &&& end.per_port[port].active_connections == before.per_port[port].active_connections
            &&& end.per_port[port].datagrams_in == before.per_port[port].datagrams_in
            &&& end.per_port[port].datagrams_out == before.per_port[port].datagrams_out
            &&& forall|p: u16|
                p != port && before.per_port.contains_key(p) ==> #[trigger] end.per_port[p]
                    == before.per_port[p]
            &&& end == (RuleStatsView {
                bytes_in: end.bytes_in,
                bytes_out: end.bytes_out,
                per_port: end.per_port,
                ..before
            })
        }),
{
}

} // verus!
