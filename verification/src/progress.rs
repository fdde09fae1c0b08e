//! Traces progress of protocol execution
//!
//! Provides [`Tracer`] trait that can be used to trace progress of ongoing MPC protocol
//! execution. For instance, it can be implemented to report progress to the end user.
//!
//! Out of box, there's [`PerfProfiler`] which can be used to bechmark a protocol.

use crate::bytes::bytes_eq;
use vstd::prelude::*;
use vstd::string::StringSliceAdditionalSpecFns;

verus! {

/// Traces progress of protocol execution
///
/// See [module level documentation](self) for more details
pub trait Tracer {
    /// Traces occurred event
    ///
    /// What a tracer does with an event is its own: an implementation states it, and the
    /// other methods are stated over what this one does.
    fn trace_event(&mut self, event: Event);

    /// Traces [`Event::ProtocolBegins`] event
    ///
    /// The tracer is left as its [`trace_event`](Tracer::trace_event) leaves it when it is
    /// given that event.
    fn protocol_begins(&mut self)
        ensures
            exists|r: &mut Self|
                &*r == &*old(self) && &*final(r) == &*final(self) && call_ensures(
                    Self::trace_event,
                    (r, Event::ProtocolBegins),
                    (),
                ),
    {
        self.trace_event(Event::ProtocolBegins)
    }

    /// Traces [`Event::RoundBegins`] event
    ///
    /// The tracer is left as its [`trace_event`](Tracer::trace_event) leaves it when it is
    /// given that event.
    fn round_begins(&mut self)
        ensures
            exists|r: &mut Self|
                &*r == &*old(self) && &*final(r) == &*final(self) && call_ensures(
                    Self::trace_event,
                    (r, (Event::RoundBegins { name: None })),
                    (),
                ),
    {
        self.trace_event(Event::RoundBegins { name: None })
    }

    /// Traces [`Event::RoundBegins`] event
    ///
    /// The tracer is left as its [`trace_event`](Tracer::trace_event) leaves it when it is
    /// given that event.
    fn named_round_begins(&mut self, round_name: &'static str)
        ensures
            exists|r: &mut Self|
                &*r == &*old(self) && &*final(r) == &*final(self) && call_ensures(
                    Self::trace_event,
                    (r, (Event::RoundBegins { name: Some(round_name) })),
                    (),
                ),
    {
        self.trace_event(Event::RoundBegins { name: Some(round_name) })
    }

    /// Traces [`Event::Stage`] event
    ///
    /// The tracer is left as its [`trace_event`](Tracer::trace_event) leaves it when it is
    /// given that event.
    fn stage(&mut self, stage: &'static str)
        ensures
            exists|r: &mut Self|
                &*r == &*old(self) && &*final(r) == &*final(self) && call_ensures(
                    Self::trace_event,
                    (r, (Event::Stage { name: stage })),
                    (),
                ),
    {
        self.trace_event(Event::Stage { name: stage })
    }

    /// Traces [`Event::ReceiveMsgs`] event
    ///
    /// The tracer is left as its [`trace_event`](Tracer::trace_event) leaves it when it is
    /// given that event.
    fn receive_msgs(&mut self)
        ensures
            exists|r: &mut Self|
                &*r == &*old(self) && &*final(r) == &*final(self) && call_ensures(
                    Self::trace_event,
                    (r, Event::ReceiveMsgs),
                    (),
                ),
    {
        self.trace_event(Event::ReceiveMsgs)
    }

    /// Traces [`Event::MsgsReceived`] event
    ///
    /// The tracer is left as its [`trace_event`](Tracer::trace_event) leaves it when it is
    /// given that event.
    fn msgs_received(&mut self)
        ensures
            exists|r: &mut Self|
                &*r == &*old(self) && &*final(r) == &*final(self) && call_ensures(
                    Self::trace_event,
                    (r, Event::MsgsReceived),
                    (),
                ),
    {
        self.trace_event(Event::MsgsReceived)
    }

    /// Traces [`Event::SendMsg`] event
    ///
    /// The tracer is left as its [`trace_event`](Tracer::trace_event) leaves it when it is
    /// given that event.
    fn send_msg(&mut self)
        ensures
            exists|r: &mut Self|
                &*r == &*old(self) && &*final(r) == &*final(self) && call_ensures(
                    Self::trace_event,
                    (r, Event::SendMsg),
                    (),
                ),
    {
        self.trace_event(Event::SendMsg)
    }

    /// Traces [`Event::MsgSent`] event
    ///
    /// The tracer is left as its [`trace_event`](Tracer::trace_event) leaves it when it is
    /// given that event.
    fn msg_sent(&mut self)
        ensures
            exists|r: &mut Self|
                &*r == &*old(self) && &*final(r) == &*final(self) && call_ensures(
                    Self::trace_event,
                    (r, Event::MsgSent),
                    (),
                ),
    {
        self.trace_event(Event::MsgSent)
    }

    /// Traces [`Event::ProtocolEnds`] event
    ///
    /// The tracer is left as its [`trace_event`](Tracer::trace_event) leaves it when it is
    /// given that event.
    fn protocol_ends(&mut self)
        ensures
            exists|r: &mut Self|
                &*r == &*old(self) && &*final(r) == &*final(self) && call_ensures(
                    Self::trace_event,
                    (r, Event::ProtocolEnds),
                    (),
                ),
    {
        self.trace_event(Event::ProtocolEnds)
    }
}

/// Event occurred during the protocol execution
#[derive(Debug, PartialEq, Eq, Copy, Clone)]
#[allow(inconsistent_fields)]
pub enum Event {
    /// Protocol begins
    ///
    /// This event is always emitted before any other events
    ProtocolBegins,
    /// Round begins
    RoundBegins {
        /// Optional name of the round
        name: Option<&'static str>,
    },
    /// Stage begins
    Stage {
        /// Name of the stage
        name: &'static str,
    },
    /// Protocol waits for some messages to be received
    ReceiveMsgs,
    /// Protocol received messages, round continues
    MsgsReceived,
    /// Protocol starts sending a message
    SendMsg,
    /// Protocol sent a message, round continues
    MsgSent,
    /// Protocol completed
    ProtocolEnds,
}

/// Performance of specific stage (part of [`PerfReport`])
#[derive(Debug, Clone, Copy)]
pub struct StageDuration {
    /// Stage name
    pub name: &'static str,
    /// Duration of the stage, in nanoseconds
    pub duration: u128,
}

/// Performance of specific round (part of [`PerfReport`])
#[derive(Debug)]
pub struct RoundDuration {
    /// Round name (if provided)
    pub round_name: Option<&'static str>,
    /// Stages of the round
    pub stages: Vec<StageDuration>,
    /// Total duration of pure computation performed during the round, in nanoseconds
    pub computation: u128,
    /// Total time we spent during this round on sending messages, in nanoseconds
    pub sending: u128,
    /// Total time we spent during this round on receiving messages, in nanoseconds
    pub receiving: u128,
}

/// Performance report generated by [`PerfProfiler`]
#[derive(Debug)]
pub struct PerfReport {
    /// Duration of setup phase (time after protocol began and before first round started), in
    /// nanoseconds
    pub setup: u128,
    /// Stages of setup phase
    pub setup_stages: Vec<StageDuration>,
    /// Performance report for each round
    pub rounds: Vec<RoundDuration>,
    display_io: bool,
}

/// Why the profiler could not follow the protocol
#[derive(Debug, Clone, Copy)]
pub enum ErrorReason {
    /// protocol has never began
    ProtocolNeverBegan,
    /// tracing stage or sending/receiving message but round never began
    RoundNeverBegan,
    /// stage is ongoing, but it can't be finished with that event
    CantFinishStage { event: Event },
}

/// Protocol profiling resulted into error
#[derive(Debug, Clone, Copy)]
pub struct ProfileError(pub ErrorReason);

/// What a round of the report holds.
pub struct RoundModel {
    pub round_name: Option<&'static str>,
    pub stages: Seq<StageDuration>,
    pub computation: u128,
    pub sending: u128,
    pub receiving: u128,
}

/// What a report holds.
pub struct ReportModel {
    pub setup: u128,
    pub setup_stages: Seq<StageDuration>,
    pub rounds: Seq<RoundModel>,
    pub display_io: bool,
}

/// What a profiler holds.
pub struct ProfilerModel {
    /// When the last event was traced.
    pub last_timestamp: Option<u128>,
    /// The stage that is going on, as its index among the stages of the last round, or of the
    /// setup while there is no round.
    pub ongoing_stage: Option<usize>,
    /// When the protocol began.
    pub protocol_began: Option<u128>,
    /// The measurements.
    pub report: ReportModel,
    /// The first event that the profiler could not follow, and why.
    pub error: Option<ProfileError>,
}

impl View for RoundDuration {
    type V = RoundModel;

    open spec fn view(&self) -> RoundModel {
        RoundModel {
            round_name: self.round_name,
            stages: self.stages@,
            computation: self.computation,
            sending: self.sending,
            receiving: self.receiving,
        }
    }
}

/// The models of a list of rounds.
pub open spec fn round_models(rounds: Seq<RoundDuration>) -> Seq<RoundModel> {
    Seq::new(rounds.len(), |k: int| rounds[k]@)
}

impl View for PerfReport {
    type V = ReportModel;

    closed spec fn view(&self) -> ReportModel {
        ReportModel {
            setup: self.setup,
            setup_stages: self.setup_stages@,
            rounds: round_models(self.rounds@),
            display_io: self.display_io,
        }
    }
}

/// Whether an event ends the stage that is going on.
pub open spec fn finishes_stage(event: Event) -> bool {
    event is RoundBegins || event is Stage || event is ReceiveMsgs || event is SendMsg
        || event is ProtocolEnds
}

/// Whether an event belongs to a round: it can only be traced once a round began. The end of
/// the protocol belongs to none: a protocol may have no round.
pub open spec fn needs_round(event: Event) -> bool {
    event is ReceiveMsgs || event is MsgsReceived || event is SendMsg || event is MsgSent
}

/// The time from `last` to `now`: zero if `now` is not later.
pub open spec fn elapsed(now: u128, last: u128) -> u128 {
    if now >= last {
        (now - last) as u128
    } else {
        0
    }
}

/// The index of the first stage named `name`, if there is one.
pub open spec fn stage_position(stages: Seq<StageDuration>, name: &'static str) -> Option<int> {
    if exists|k: int| 0 <= k < stages.len() && stages[k].name.spec_bytes() == name.spec_bytes() {
        Some(
            choose|k: int|
                0 <= k < stages.len() && stages[k].name.spec_bytes() == name.spec_bytes()
                    && forall|j: int|
                    0 <= j < k ==> stages[j].name.spec_bytes() != name.spec_bytes(),
        )
    } else {
        None
    }
}

/// The stages once a stage named `name` starts: a new stage of no duration is added at the
/// end unless there is one of that name.
pub open spec fn stages_with(stages: Seq<StageDuration>, name: &'static str) -> Seq<
    StageDuration,
> {
    if stage_position(stages, name) is Some {
        stages
    } else {
        stages.push(StageDuration { name, duration: 0 })
    }
}

/// The index of the stage named `name` once it started.
pub open spec fn started_stage(stages: Seq<StageDuration>, name: &'static str) -> int {
    match stage_position(stages, name) {
        Some(k) => k,
        None => stages.len() as int,
    }
}

/// The stages after `d` was added to the duration of the `k`-th, if there is such a stage.
pub open spec fn stages_add(stages: Seq<StageDuration>, k: int, d: u128) -> Seq<StageDuration> {
    if 0 <= k < stages.len() {
        stages.update(
            k,
            StageDuration { name: stages[k].name, duration: stages[k].duration.saturating_add(d) },
        )
    } else {
        stages
    }
}

impl ProfilerModel {
    /// The stages among which the ongoing stage is counted: those of the last round, or of
    /// the setup while there is no round.
    pub open spec fn current_stages(self) -> Seq<StageDuration> {
        if self.report.rounds.len() > 0 {
            self.report.rounds.last().stages
        } else {
            self.report.setup_stages
        }
    }

    /// This model with other stages in place of the current ones.
    pub open spec fn with_current_stages(self, stages: Seq<StageDuration>) -> ProfilerModel {
        if self.report.rounds.len() > 0 {
            let last = self.report.rounds.last();
            ProfilerModel {
                report: ReportModel {
                    rounds: self.report.rounds.update(
                        self.report.rounds.len() - 1,
                        RoundModel { stages, ..last },
                    ),
                    ..self.report
                },
                ..self
            }
        } else {
            ProfilerModel { report: ReportModel { setup_stages: stages, ..self.report }, ..self }
        }
    }

    /// This model with `d` added to the computation of the last round, or to the setup while
    /// there is no round.
    pub open spec fn add_computation(self, d: u128) -> ProfilerModel {
        if self.report.rounds.len() > 0 {
            let last = self.report.rounds.last();
            ProfilerModel {
                report: ReportModel {
                    rounds: self.report.rounds.update(
                        self.report.rounds.len() - 1,
                        RoundModel { computation: last.computation.saturating_add(d), ..last },
                    ),
                    ..self.report
                },
                ..self
            }
        } else {
            ProfilerModel {
                report: ReportModel { setup: self.report.setup.saturating_add(d), ..self.report },
                ..self
            }
        }
    }

    /// This model with `d` added to the sending time of the last round.
    pub open spec fn add_sending(self, d: u128) -> ProfilerModel
        recommends
            self.report.rounds.len() > 0,
    {
        let last = self.report.rounds.last();
        ProfilerModel {
            report: ReportModel {
                rounds: self.report.rounds.update(
                    self.report.rounds.len() - 1,
                    RoundModel { sending: last.sending.saturating_add(d), ..last },
                ),
                ..self.report
            },
            ..self
        }
    }

    /// This model with `d` added to the receiving time of the last round.
    pub open spec fn add_receiving(self, d: u128) -> ProfilerModel
        recommends
            self.report.rounds.len() > 0,
    {
        let last = self.report.rounds.last();
        ProfilerModel {
            report: ReportModel {
                rounds: self.report.rounds.update(
                    self.report.rounds.len() - 1,
                    RoundModel { receiving: last.receiving.saturating_add(d), ..last },
                ),
                ..self.report
            },
            ..self
        }
    }

    /// Why `event` cannot be traced, if it cannot: a stage is going on that the event does not
    /// end, the protocol has not begun, or the event belongs to a round and none began.
    pub open spec fn refusal(self, event: Event) -> Option<ErrorReason> {
        if self.ongoing_stage is Some && !finishes_stage(event) {
            Some(ErrorReason::CantFinishStage { event })
        } else if !(event is ProtocolBegins) && self.last_timestamp is None {
            Some(ErrorReason::ProtocolNeverBegan)
        } else if needs_round(event) && self.report.rounds.len() == 0 {
            Some(ErrorReason::RoundNeverBegan)
        } else {
            None
        }
    }

    /// The time from the last event to `now`: zero if there was no event.
    pub open spec fn since_last(self, now: u128) -> u128 {
        match self.last_timestamp {
            Some(last) => elapsed(now, last),
            None => 0,
        }
    }

    /// The profiler once the stage that is going on, if one is, ended at the time `now`: the
    /// time since the last event is added to that stage.
    pub open spec fn close_stage(self, now: u128) -> ProfilerModel {
        match self.ongoing_stage {
            Some(k) => ProfilerModel {
                ongoing_stage: None,
                ..self.with_current_stages(
                    stages_add(self.current_stages(), k as int, self.since_last(now)),
                )
            },
            None => self,
        }
    }

    /// The profiler after an event that it can follow, traced at the time `now`: the time
    /// since the last event is added to the stage that was going on, if one was, and to the
    /// part of the round (or of the setup) that the event ends.
    pub open spec fn follow(self, event: Event, now: u128) -> ProfilerModel
        recommends
            self.refusal(event) is None,
    {
        let d = self.since_last(now);
        let closed = self.close_stage(now);
        let next = match event {
            Event::ProtocolBegins => ProfilerModel { protocol_began: Some(now), ..closed },
            Event::RoundBegins { name } => {
                let counted = closed.add_computation(d);
                ProfilerModel {
                    report: ReportModel {
                        rounds: counted.report.rounds.push(
                            RoundModel {
                                round_name: name,
                                stages: Seq::empty(),
                                computation: 0,
                                sending: 0,
                                receiving: 0,
                            },
                        ),
                        ..counted.report
                    },
                    ..counted
                }
            },
            Event::Stage { name } => {
                let counted = closed.add_computation(d);
                ProfilerModel {
                    ongoing_stage: Some(started_stage(counted.current_stages(), name) as usize),
                    ..counted.with_current_stages(stages_with(counted.current_stages(), name))
                }
            },
            Event::ReceiveMsgs => closed.add_computation(d),
            Event::MsgsReceived => closed.add_receiving(d),
            Event::SendMsg => closed.add_computation(d),
            Event::MsgSent => closed.add_sending(d),
            Event::ProtocolEnds => closed.add_computation(d),
        };
        ProfilerModel { last_timestamp: Some(now), ..next }
    }

    /// The profiler after `event` is traced at the time `now`. Once the profiler could not
    /// follow an event it follows no other. An event that it cannot follow is recorded as its
    /// error; it still ends the stage that is going on, if it is one that ends stages, and
    /// nothing else changes.
    pub open spec fn trace(self, event: Event, now: u128) -> ProfilerModel {
        if self.error is Some {
            self
        } else {
            match self.refusal(event) {
                Some(reason) => {
                    let kept = if finishes_stage(event) {
                        self.close_stage(now)
                    } else {
                        self
                    };
                    ProfilerModel { error: Some(ProfileError(reason)), ..kept }
                },
                None => self.follow(event, now),
            }
        }
    }
}

/// The profiler that has traced nothing.
pub open spec fn fresh_profiler() -> ProfilerModel {
    ProfilerModel {
        last_timestamp: None,
        ongoing_stage: None,
        protocol_began: None,
        report: ReportModel {
            setup: 0,
            setup_stages: Seq::empty(),
            rounds: Seq::empty(),
            display_io: true,
        },
        error: None,
    }
}

#[verifier::external_type_specification]
#[verifier::external_body]
pub struct ExInstant(std::time::Instant);

/// `std::time::Instant::now`: the current reading of the monotonic clock. Nothing is claimed
/// of it.
#[verifier::external_body]
fn instant_now() -> std::time::Instant {
    std::time::Instant::now()
}

/// `std::time::Instant::elapsed`, as the number of nanoseconds that `Duration::as_nanos`
/// gives: the time since `epoch`. Nothing is claimed of it.
#[verifier::external_body]
fn nanos_since(epoch: &std::time::Instant) -> u128 {
    epoch.elapsed().as_nanos()
}

/// Profiles performance of the protocol
///
/// Implements [`Tracer`] trait so it can be embedded into protocol execution. `PerfProfiler`
/// keeps track of time passed between each step of protocol. After protocol is completed, you
/// can obtain a [`PerfReport`] via [`.get_report()`](PerfProfiler::get_report) method that
/// contains all the measurements.
///
/// Times are counted in nanoseconds since the profiler was made.
pub struct PerfProfiler {
    epoch: std::time::Instant,
    last_timestamp: Option<u128>,
    ongoing_stage: Option<usize>,
    protocol_began: Option<u128>,
    report: PerfReport,
    error: Option<ProfileError>,
}

impl View for PerfProfiler {
    type V = ProfilerModel;

    closed spec fn view(&self) -> ProfilerModel {
        ProfilerModel {
            last_timestamp: self.last_timestamp,
            ongoing_stage: self.ongoing_stage,
            protocol_began: self.protocol_began,
            report: self.report@,
            error: self.error,
        }
    }
}

/// Whether two names are the same.
fn same_name(a: &'static str, b: &'static str) -> (r: bool)
    ensures
        r == (a.spec_bytes() == b.spec_bytes()),
{
    bytes_eq(a.as_bytes(), b.as_bytes())
}

/// Finds the stage named `name` or adds it, and gives its index.
fn start_stage(stages: &mut Vec<StageDuration>, name: &'static str) -> (r: usize)
    ensures
        final(stages)@ == stages_with(old(stages)@, name),
        r == started_stage(old(stages)@, name),
        r < final(stages)@.len(),
{
    let mut k: usize = 0;
    while k < stages.len()
        invariant
            k <= stages@.len(),
            stages@ == old(stages)@,
            forall|j: int| 0 <= j < k ==> stages@[j].name.spec_bytes() != name.spec_bytes(),
        decreases stages@.len() - k,
    {
        if same_name(stages[k].name, name) {
            proof {
                let found = stage_position(stages@, name);
                assert(found is Some);
                let c = found->Some_0;
                assert(c == k) by {
                    if c < k {
                        assert(stages@[c].name.spec_bytes() != name.spec_bytes());
                    }
                    if k < c {
                        assert(stages@[k as int].name.spec_bytes() != name.spec_bytes());
                    }
                }
            }
            return k;
        }
        k += 1;
    }
    stages.push(StageDuration { name, duration: 0 });
    stages.len() - 1
}

/// Adds `d` to the duration of the `k`-th stage, if there is such a stage.
fn add_to_stage(stages: &mut Vec<StageDuration>, k: usize, d: u128)
    ensures
        final(stages)@ == stages_add(old(stages)@, k as int, d),
{
    if k < stages.len() {
        let stage = stages[k];
        stages[k] = StageDuration { name: stage.name, duration: stage.duration.saturating_add(d) };
    }
}

impl PerfProfiler {
    /// Constructs new [`PerfProfiler`]
    pub fn new() -> (r: Self)
        ensures
            r@ == fresh_profiler(),
    {
        let r = Self {
            epoch: instant_now(),
            last_timestamp: None,
            ongoing_stage: None,
            protocol_began: None,
            report: PerfReport {
                setup: 0,
                setup_stages: Vec::new(),
                rounds: Vec::new(),
                display_io: true,
            },
            error: None,
        };
        assert(r@.report.rounds =~= Seq::<RoundModel>::empty());
        r
    }

    /// Obtains a report
    ///
    /// Returns error if protocol behaved unexpectedly
    pub fn get_report(&self) -> (r: Result<PerfReport, ProfileError>)
        ensures
            match r {
                Ok(report) => self@.error is None && report@ == self@.report,
                Err(e) => self@.error == Some(e),
            },
    {
        match self.error {
            Some(err) => Err(err),
            None => Ok(self.report.duplicate()),
        }
    }

    fn event_can_finish_ongoing_stage(event: &Event) -> (r: bool)
        ensures
            r == finishes_stage(*event),
    {
        match event {
            Event::RoundBegins { .. } => true,
            Event::Stage { .. } => true,
            Event::ReceiveMsgs => true,
            Event::SendMsg => true,
            Event::ProtocolEnds => true,
            _ => false,
        }
    }

    fn event_needs_round(event: &Event) -> (r: bool)
        ensures
            r == needs_round(*event),
    {
        match event {
            Event::ReceiveMsgs => true,
            Event::MsgsReceived => true,
            Event::SendMsg => true,
            Event::MsgSent => true,
            _ => false,
        }
    }

    /// Why `event` cannot be traced, if it cannot.
    fn refusal(&self, event: &Event) -> (r: Option<ErrorReason>)
        ensures
            r == self@.refusal(*event),
    {
        if self.ongoing_stage.is_some() && !Self::event_can_finish_ongoing_stage(event) {
            return Some(ErrorReason::CantFinishStage { event: *event });
        }
        let begins = match event {
            Event::ProtocolBegins => true,
            _ => false,
        };
        if !begins && self.last_timestamp.is_none() {
            return Some(ErrorReason::ProtocolNeverBegan);
        }
        if Self::event_needs_round(event) && self.report.rounds.len() == 0 {
            return Some(ErrorReason::RoundNeverBegan);
        }
        None
    }

    /// Traces `event` as of the time `now`, in nanoseconds since the profiler was made.
    ///
    /// The first event that the profiler cannot follow is kept as its error, and from then on
    /// nothing is traced.
    pub fn trace_event_at(&mut self, event: Event, now: u128)
        ensures
            final(self)@ == old(self)@.trace(event, now),
    {
        if self.error.is_some() {
            return ;
        }
        let refusal = self.refusal(&event);
        let d: u128 = match self.last_timestamp {
            Some(last) => if now >= last {
                now - last
            } else {
                0
            },
            None => 0,
        };
        let ghost start = self@;
        let n: usize = self.report.rounds.len();

        // The stage that was going on ends here, also where the event is refused for another
        // reason.
        if refusal.is_none() || Self::event_can_finish_ongoing_stage(&event) {
            let ongoing = self.ongoing_stage;
            self.ongoing_stage = None;
            match ongoing {
                Some(k) => {
                    if n > 0 {
                        add_to_stage(&mut self.report.rounds[n - 1].stages, k, d);
                    } else {
                        add_to_stage(&mut self.report.setup_stages, k, d);
                    }
                },
                None => {},
            }
            proof {
                let expected = start.close_stage(now);
                assert(self@.report.rounds =~= expected.report.rounds);
                assert(self@ == expected);
            }
        }
        match refusal {
            Some(reason) => {
                self.error = Some(ProfileError(reason));
                return ;
            },
            None => {},
        }
        let ghost closed = self@;
        let mut stage_i: Option<usize> = None;
        match event {
            Event::ProtocolBegins => {
                self.protocol_began = Some(now);
            },
            Event::RoundBegins { name } => {
                if n > 0 {
                    let c = self.report.rounds[n - 1].computation;
                    self.report.rounds[n - 1].computation = c.saturating_add(d);
                } else {
                    self.report.setup = self.report.setup.saturating_add(d);
                }
                let ghost counted = self@;
                proof {
                    assert(counted.report.rounds =~= closed.add_computation(d).report.rounds);
                }
                self.report.rounds.push(
                    RoundDuration {
                        round_name: name,
                        stages: Vec::new(),
                        computation: 0,
                        sending: 0,
                        receiving: 0,
                    },
                );
                proof {
                    assert(self@.report.rounds =~= counted.report.rounds.push(
                        RoundModel {
                            round_name: name,
                            stages: Seq::empty(),
                            computation: 0,
                            sending: 0,
                            receiving: 0,
                        },
                    ));
                }
            },
            Event::Stage { name } => {
                if n > 0 {
                    let c = self.report.rounds[n - 1].computation;
                    self.report.rounds[n - 1].computation = c.saturating_add(d);
                    let ghost counted = self@;
                    proof {
                        assert(counted.report.rounds =~= closed.add_computation(d).report.rounds);
                    }
                    let k = start_stage(&mut self.report.rounds[n - 1].stages, name);
                    stage_i = Some(k);
                    proof {
                        assert(self@.report.rounds =~= counted.with_current_stages(
                            stages_with(counted.current_stages(), name),
                        ).report.rounds);
                    }
                } else {
                    self.report.setup = self.report.setup.saturating_add(d);
                    let k = start_stage(&mut self.report.setup_stages, name);
                    stage_i = Some(k);
                    proof {
                        assert(self@.report.rounds =~= closed.report.rounds);
                    }
                }
            },
            Event::ReceiveMsgs => {
                let c = self.report.rounds[n - 1].computation;
                self.report.rounds[n - 1].computation = c.saturating_add(d);
                proof {
                    assert(self@.report.rounds =~= closed.add_computation(d).report.rounds);
                }
            },
            Event::MsgsReceived => {
                let c = self.report.rounds[n - 1].receiving;
                self.report.rounds[n - 1].receiving = c.saturating_add(d);
                proof {
                    assert(self@.report.rounds =~= closed.add_receiving(d).report.rounds);
                }
            },
            Event::SendMsg => {
                let c = self.report.rounds[n - 1].computation;
                self.report.rounds[n - 1].computation = c.saturating_add(d);
                proof {
                    assert(self@.report.rounds =~= closed.add_computation(d).report.rounds);
                }
            },
            Event::MsgSent => {
                let c = self.report.rounds[n - 1].sending;
                self.report.rounds[n - 1].sending = c.saturating_add(d);
                proof {
                    assert(self@.report.rounds =~= closed.add_sending(d).report.rounds);
                }
            },
            Event::ProtocolEnds => {
                if n > 0 {
                    let c = self.report.rounds[n - 1].computation;
                    self.report.rounds[n - 1].computation = c.saturating_add(d);
                } else {
                    self.report.setup = self.report.setup.saturating_add(d);
                }
                proof {
                    assert(self@.report.rounds =~= closed.add_computation(d).report.rounds);
                }
            },
        }
        self.last_timestamp = Some(now);
        self.ongoing_stage = stage_i;
    }
}

impl Tracer for PerfProfiler {
    /// Reads the clock and traces the event as of that time.
    fn trace_event(&mut self, event: Event)
        ensures
            exists|now: u128| final(self)@ == old(self)@.trace(event, now),
    {
        let now = nanos_since(&self.epoch);
        self.trace_event_at(event, now);
    }
}

impl<T: Tracer> Tracer for Option<T> {
    /// A tracer that is there traces the event, and is left as its `trace_event` leaves it;
    /// where there is none, nothing happens.
    fn trace_event(&mut self, event: Event)
        ensures
            match (*old(self), *final(self)) {
                (Some(before), Some(after)) => exists|r: &mut T|
                    *r == before && *final(r) == after && call_ensures(
                        T::trace_event,
                        (r, event),
                        (),
                    ),
                (None, None) => true,
                _ => false,
            },
    {
        match self {
            Some(tracer) => tracer.trace_event(event),
            None => {
                // no-op
            },
        }
    }
}

impl Default for PerfProfiler {
    fn default() -> (r: Self)
        ensures
            r@ == fresh_profiler(),
    {
        Self::new()
    }
}

impl RoundDuration {
    /// A copy of the round.
    pub fn duplicate(&self) -> (r: RoundDuration)
        ensures
            r@ == self@,
    {
        let stages = self.stages.clone();
        assert(stages@ =~= self.stages@);
        RoundDuration {
            round_name: self.round_name,
            stages,
            computation: self.computation,
            sending: self.sending,
            receiving: self.receiving,
        }
    }
}

impl PerfReport {
    /// Whether the report shows the time spent on sending and receiving.
    pub closed spec fn shows_io(self) -> bool {
        self.display_io
    }

    /// A copy of the report.
    pub fn duplicate(&self) -> (r: PerfReport)
        ensures
            r@ == self@,
    {
        let setup_stages = self.setup_stages.clone();
        assert(setup_stages@ =~= self.setup_stages@);
        let mut rounds: Vec<RoundDuration> = Vec::new();
        let mut k: usize = 0;
        while k < self.rounds.len()
            invariant
                k <= self.rounds@.len(),
                rounds@.len() == k,
                forall|j: int| 0 <= j < k ==> rounds@[j]@ == self.rounds@[j]@,
            decreases self.rounds@.len() - k,
        {
            rounds.push(self.rounds[k].duplicate());
            k += 1;
        }
        assert(round_models(rounds@) =~= round_models(self.rounds@));
        PerfReport { setup: self.setup, setup_stages, rounds, display_io: self.display_io }
    }

    /// Sets whether the report shows the time spent on sending and receiving
    pub fn display_io(self, display: bool) -> (r: Self)
        ensures
            r@ == (ReportModel { display_io: display, ..self@ }),
            r.shows_io() == display,
    {
        let mut r = self;
        r.display_io = display;
        r
    }

    /// Whether the report shows the time spent on sending and receiving.
    pub fn displays_io(&self) -> (r: bool)
        ensures
            r == self.shows_io(),
    {
        self.display_io
    }
}

/// The profiler after it traced `events`, the `k`-th at the time `times[k]`.
pub open spec fn traced(events: Seq<Event>, times: Seq<u128>) -> ProfilerModel
    decreases events.len(),
{
    if events.len() == 0 {
        fresh_profiler()
    } else {
        traced(events.drop_last(), times.drop_last()).trace(events.last(), times.last())
    }
}

/// Whether a round began before the `k`-th event.
pub open spec fn round_began(events: Seq<Event>, k: int) -> bool {
    exists|j: int| 0 <= j < k && (#[trigger] events[j]) is RoundBegins
}

/// The grammar of a protocol's events: the protocol begins before anything else happens, a
/// stage is ended by the event that follows it, and what belongs to a round happens after a
/// round began.
pub open spec fn well_traced(events: Seq<Event>) -> bool {
    &&& events.len() > 0 ==> events[0] is ProtocolBegins
    &&& forall|k: int|
        0 <= k < events.len() - 1 && (#[trigger] events[k]) is Stage ==> finishes_stage(
            events[k + 1],
        )
    &&& forall|k: int|
        0 <= k < events.len() && needs_round(#[trigger] events[k]) ==> round_began(events, k)
}

/// The profiler follows the events of a protocol if and only if they keep to the grammar:
/// it ends without an error exactly on the sequences of events that are well traced,
/// whatever the times are. While it follows, it has a time of the last event once there was
/// an event, it counts a stage as going on exactly after a stage began, and it has a round
/// once one began.
pub proof fn lemma_profiler_follows_grammar(events: Seq<Event>, times: Seq<u128>)
    requires
        events.len() == times.len(),
    ensures
        traced(events, times).error is None <==> well_traced(events),
        traced(events, times).error is None ==> {
            &&& traced(events, times).last_timestamp is Some <==> events.len() > 0
            &&& traced(events, times).ongoing_stage is Some <==> events.len() > 0
                && events.last() is Stage
            &&& traced(events, times).report.rounds.len() > 0 <==> round_began(
                events,
                events.len() as int,
            )
        },
    decreases events.len(),
{
    if events.len() > 0 {
        let n = events.len() as int;
        let head = events.drop_last();
        let before = traced(head, times.drop_last());
        let event = events.last();
        lemma_profiler_follows_grammar(head, times.drop_last());
        assert(forall|k: int| 0 <= k < n - 1 ==> head[k] == events[k]);
        // A round that began before an event of the head began before it in the whole.
        assert forall|k: int| 0 <= k <= n - 1 implies (round_began(head, k) <==> round_began(
            events,
            k,
        )) by {
            if round_began(head, k) {
                let j = choose|j: int| 0 <= j < k && (#[trigger] head[j]) is RoundBegins;
                assert(events[j] is RoundBegins);
            }
            if round_began(events, k) {
                let j = choose|j: int| 0 <= j < k && (#[trigger] events[j]) is RoundBegins;
                assert(head[j] is RoundBegins);
            }
        }
        if well_traced(events) {
            assert(well_traced(head)) by {
                assert forall|k: int|
                    0 <= k < head.len() - 1 && (#[trigger] head[k]) is Stage implies finishes_stage(
                    head[k + 1],
                ) by {
                    assert(events[k] is Stage);
                }
                assert forall|k: int|
                    0 <= k < head.len() && needs_round(#[trigger] head[k]) implies round_began(
                    head,
                    k,
                ) by {
                    assert(needs_round(events[k]));
                }
            }
            assert(before.error is None);
            if n >= 2 && head.last() is Stage {
                assert(events[n - 2] is Stage);
                assert(finishes_stage(events[n - 2 + 1]));
            }
            if n == 1 {
                assert(events[0] is ProtocolBegins);
            }
            if needs_round(event) {
                assert(needs_round(events[n - 1]));
                assert(round_began(events, n - 1));
            }
            assert(before.refusal(event) is None);
        }
        if before.error is None && before.refusal(event) is None {
            assert(well_traced(events)) by {
                if n == 1 {
                    assert(event is ProtocolBegins);
                }
                assert forall|k: int|
                    0 <= k < events.len() - 1 && (#[trigger] events[k]) is Stage implies finishes_stage(
                    events[k + 1],
                ) by {
                    if k < n - 2 {
                        assert(head[k] is Stage);
                        assert(finishes_stage(head[k + 1]));
                    } else {
                        assert(head.last() is Stage);
                    }
                }
                assert forall|k: int|
                    0 <= k < events.len() && needs_round(#[trigger] events[k]) implies round_began(
                    events,
                    k,
                ) by {
                    if k < n - 1 {
                        assert(needs_round(head[k]));
                    }
                }
            }
            let after = before.follow(event, times.last());
            // A round began before the end if and only if one began before the last event or
            // the last event begins one.
            assert(round_began(events, n) <==> round_began(events, n - 1) || event
                is RoundBegins) by {
                if round_began(events, n) {
                    let j = choose|j: int| 0 <= j < n && (#[trigger] events[j]) is RoundBegins;
                    if j < n - 1 {
                        assert(round_began(events, n - 1));
                    }
                }
                if round_began(events, n - 1) {
                    let j = choose|j: int|
                        0 <= j < n - 1 && (#[trigger] events[j]) is RoundBegins;
                    assert(0 <= j < n && events[j] is RoundBegins);
                }
                if event is RoundBegins {
                    assert(events[n - 1] is RoundBegins);
                }
            }
        }
    } else {
        assert(!round_began(events, 0));
    }
}

} // verus!
