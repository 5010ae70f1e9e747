//! The decisions of the log-ingestion loop.
//!
//! The loop owns one parser of the player log and one assembler of match
//! replays. Reading the file, waiting and storing are done by the caller;
//! what to do next is decided here, one step at a time: the caller reports
//! what happened as an [`Event`] and gets back the next state and the
//! [`Action`] to perform.
//!
//! Two things set the loop going: a notification that the log file was
//! replaced, and a timer tick. A notification that is pending is handled
//! before a tick that is due.

use vstd::prelude::*;

verus! {

/// The seconds between two ticks.
pub const TICK_SECONDS: u64 = 1;

/// What sets the loop going.
#[derive(Debug, Clone, Copy, PartialEq, Eq, Structural)]
pub enum Trigger {
    /// The watched log file was replaced.
    Rotation,
    /// The timer fired.
    Tick,
}

/// What the watcher does with what the file system reports.
#[derive(Debug, Clone, Copy, PartialEq, Eq, Structural)]
pub enum WatcherAction {
    /// Send a rotation notification to the loop.
    Notify,
    /// Log the watch error and go on watching.
    LogError,
}

/// Where the loop stands between two steps.
#[derive(Debug, Clone, Copy, PartialEq, Eq, Structural)]
pub enum Phase {
    /// Waiting for a trigger.
    Idle,
    /// Waiting for the parser to be constructed, after a rotation.
    RebuildingAfterRotation,
    /// Waiting for the parser to be constructed, on a tick that found none.
    RebuildingOnTick,
    /// Waiting for the parser to say whether it has an event.
    Polling,
    /// Waiting for the assembler to take the event.
    Feeding,
    /// Waiting for the assembler to build the replay.
    Building,
    /// Waiting for the store to take the replay.
    Writing,
}

/// What the caller reports.
#[derive(Debug, Clone, Copy, PartialEq, Eq, Structural)]
pub enum Event {
    /// A rotation notification was received.
    Rotated,
    /// The timer fired.
    Ticked,
    /// The parser was constructed.
    ParserReady,
    /// The parser could not be constructed.
    ParserFailed,
    /// The parser handed out an event.
    EventRead,
    /// The parser has no event at present.
    NothingToRead,
    /// The assembler took the event and the match goes on.
    EventTaken,
    /// The assembler took the event and has reached the end of a match.
    BoundaryReached,
    /// The assembler built the replay.
    ReplayBuilt,
    /// The assembler could not build the replay.
    BuildFailed,
    /// The store took the replay.
    ReplayStored,
    /// The store refused the replay.
    StoreFailed,
}

/// What the caller is to do next.
#[derive(Debug, Clone, Copy, PartialEq, Eq, Structural)]
pub enum Action {
    /// Wait for the next trigger.
    AwaitTrigger,
    /// Drop the parser and construct one from the log file.
    RebuildParser,
    /// Ask the parser for its next event, without blocking.
    PollParser,
    /// Give the event just read to the assembler.
    FeedAssembler,
    /// Ask the assembler for the replay.
    BuildReplay,
    /// Hand the replay just built to the store.
    WriteReplay,
}

/// What went wrong in the step, for the log.
#[derive(Debug, Clone, Copy, PartialEq, Eq, Structural)]
pub enum Fault {
    /// The parser could not be constructed; the loop goes on without one.
    ParserUnavailable,
    /// The replay could not be built; the match is dropped.
    ReplayNotBuilt,
    /// The replay could not be stored; it is dropped.
    ReplayNotStored,
    /// The event does not answer the action that was asked for; it was
    /// ignored.
    OutOfTurn,
}

/// The state of the loop.
///
/// `assembler` numbers the assemblers that the loop has had: when it
/// changes, the caller replaces its assembler with a fresh one.
#[derive(Debug, Clone, Copy, PartialEq, Eq, Structural)]
pub struct Ingestion {
    pub phase: Phase,
    pub parser_live: bool,
    pub assembler: u64,
}

/// The outcome of a step.
#[derive(Debug, Clone, Copy, PartialEq, Eq, Structural)]
pub struct Step {
    /// The state after the step.
    pub state: Ingestion,
    /// What to do next.
    pub action: Action,
    /// Whether the assembler is to be replaced with a fresh one first.
    pub fresh_assembler: bool,
    /// What to log, if anything.
    pub fault: Option<Fault>,
}

/// The number of the assembler after `assembler`.
pub open spec fn following(assembler: u64) -> u64 {
    if assembler == u64::MAX {
        0
    } else {
        (assembler + 1) as u64
    }
}

/// The action that a phase waits on.
pub open spec fn awaited(phase: Phase) -> Action {
    match phase {
        Phase::Idle => Action::AwaitTrigger,
        Phase::RebuildingAfterRotation => Action::RebuildParser,
        Phase::RebuildingOnTick => Action::RebuildParser,
        Phase::Polling => Action::PollParser,
        Phase::Feeding => Action::FeedAssembler,
        Phase::Building => Action::BuildReplay,
        Phase::Writing => Action::WriteReplay,
    }
}

/// The event answers the action that the phase waits on.
pub open spec fn in_turn(phase: Phase, event: Event) -> bool {
    match phase {
        Phase::Idle => event == Event::Rotated || event == Event::Ticked,
        Phase::RebuildingAfterRotation | Phase::RebuildingOnTick => event == Event::ParserReady
            || event == Event::ParserFailed,
        Phase::Polling => event == Event::EventRead || event == Event::NothingToRead,
        Phase::Feeding => event == Event::EventTaken || event == Event::BoundaryReached,
        Phase::Building => event == Event::ReplayBuilt || event == Event::BuildFailed,
        Phase::Writing => event == Event::ReplayStored || event == Event::StoreFailed,
    }
}

/// The loop moves on: to `phase`, with the parser and the assembler as they
/// are, and nothing to log.
pub open spec fn moves_to(state: Ingestion, phase: Phase) -> Step {
    Step {
        state: Ingestion { phase, ..state },
        action: awaited(phase),
        fresh_assembler: false,
        fault: None,
    }
}

/// The step that the loop takes from `state` on `event`.
pub open spec fn step_of(state: Ingestion, event: Event) -> Step {
    match (state.phase, event) {
        // A rotation drops the parser, whether or not a new one can be
        // had, and always starts a new assembler.
        (Phase::Idle, Event::Rotated) => Step {
            state: Ingestion {
                phase: Phase::RebuildingAfterRotation,
                parser_live: false,
                assembler: following(state.assembler),
            },
            action: Action::RebuildParser,
            fresh_assembler: true,
            fault: None,
        },
        // A tick drains the parser; without one it tries to get one.
        (Phase::Idle, Event::Ticked) => if state.parser_live {
            moves_to(state, Phase::Polling)
        } else {
            moves_to(state, Phase::RebuildingOnTick)
        },
        (Phase::RebuildingAfterRotation, Event::ParserReady) => moves_to(
            Ingestion { parser_live: true, ..state },
            Phase::Idle,
        ),
        (Phase::RebuildingOnTick, Event::ParserReady) => moves_to(
            Ingestion { parser_live: true, ..state },
            Phase::Polling,
        ),
        (Phase::RebuildingAfterRotation, Event::ParserFailed)
        | (Phase::RebuildingOnTick, Event::ParserFailed) => Step {
            fault: Some(Fault::ParserUnavailable),
            ..moves_to(Ingestion { parser_live: false, ..state }, Phase::Idle)
        },
        (Phase::Polling, Event::EventRead) => moves_to(state, Phase::Feeding),
        (Phase::Polling, Event::NothingToRead) => moves_to(state, Phase::Idle),
        (Phase::Feeding, Event::EventTaken) => moves_to(state, Phase::Polling),
        (Phase::Feeding, Event::BoundaryReached) => moves_to(state, Phase::Building),
        // Built or not, the assembler has done its match: the next event
        // goes to a fresh one.
        (Phase::Building, Event::ReplayBuilt) => Step {
            fresh_assembler: true,
            ..moves_to(
                Ingestion { assembler: following(state.assembler), ..state },
                Phase::Writing,
            )
        },
        (Phase::Building, Event::BuildFailed) => Step {
            fresh_assembler: true,
            fault: Some(Fault::ReplayNotBuilt),
            ..moves_to(
                Ingestion { assembler: following(state.assembler), ..state },
                Phase::Polling,
            )
        },
        (Phase::Writing, Event::ReplayStored) => moves_to(state, Phase::Polling),
        (Phase::Writing, Event::StoreFailed) => Step {
            fault: Some(Fault::ReplayNotStored),
            ..moves_to(state, Phase::Polling)
        },
        _ => Step { fault: Some(Fault::OutOfTurn), ..moves_to(state, state.phase) },
    }
}

/// Which trigger the loop handles next: a pending rotation notification
/// before a tick that is due, and none where neither is there.
pub open spec fn trigger_of(rotation_pending: bool, tick_due: bool) -> Option<Trigger> {
    if rotation_pending {
        Some(Trigger::Rotation)
    } else if tick_due {
        Some(Trigger::Tick)
    } else {
        None
    }
}

/// Chooses the trigger to handle next.
pub fn next_trigger(rotation_pending: bool, tick_due: bool) -> (trigger: Option<Trigger>)
    ensures
        trigger == trigger_of(rotation_pending, tick_due),
{
    if rotation_pending {
        Some(Trigger::Rotation)
    } else if tick_due {
        Some(Trigger::Tick)
    } else {
        None
    }
}

/// What the watcher does with a report of the file system: a notification
/// is passed on, an error is logged, and in both cases it goes on watching.
pub fn on_watch_report(is_error: bool) -> (action: WatcherAction)
    ensures
        action == if is_error {
            WatcherAction::LogError
        } else {
            WatcherAction::Notify
        },
{
    if is_error {
        WatcherAction::LogError
    } else {
        WatcherAction::Notify
    }
}

impl Trigger {
    /// The event that reports this trigger to the loop.
    pub fn event(self) -> (event: Event)
        ensures
            event == match self {
                Trigger::Rotation => Event::Rotated,
                Trigger::Tick => Event::Ticked,
            },
    {
        match self {
            Trigger::Rotation => Event::Rotated,
            Trigger::Tick => Event::Ticked,
        }
    }
}

impl Ingestion {
    /// The loop at its start: the parser was constructed, the first
    /// assembler is in place, and the loop waits for a trigger.
    pub fn start() -> (state: Self)
        ensures
            state == (Ingestion { phase: Phase::Idle, parser_live: true, assembler: 0 }),
    {
        Ingestion { phase: Phase::Idle, parser_live: true, assembler: 0 }
    }

    /// The action that the loop is waiting on.
    pub fn pending(&self) -> (action: Action)
        ensures
            action == awaited(self.phase),
    {
        match self.phase {
            Phase::Idle => Action::AwaitTrigger,
            Phase::RebuildingAfterRotation => Action::RebuildParser,
            Phase::RebuildingOnTick => Action::RebuildParser,
            Phase::Polling => Action::PollParser,
            Phase::Feeding => Action::FeedAssembler,
            Phase::Building => Action::BuildReplay,
            Phase::Writing => Action::WriteReplay,
        }
    }

    /// Whether `event` answers the action that the loop is waiting on.
    pub fn expects(&self, event: Event) -> (expected: bool)
        ensures
            expected == in_turn(self.phase, event),
    {
        match self.phase {
            Phase::Idle => event == Event::Rotated || event == Event::Ticked,
            Phase::RebuildingAfterRotation | Phase::RebuildingOnTick => event
                == Event::ParserReady || event == Event::ParserFailed,
            Phase::Polling => event == Event::EventRead || event == Event::NothingToRead,
            Phase::Feeding => event == Event::EventTaken || event == Event::BoundaryReached,
            Phase::Building => event == Event::ReplayBuilt || event == Event::BuildFailed,
            Phase::Writing => event == Event::ReplayStored || event == Event::StoreFailed,
        }
    }

    fn goes_to(self, phase: Phase) -> (step: Step)
        ensures
            step == moves_to(self, phase),
    {
        let state = Ingestion { phase, parser_live: self.parser_live, assembler: self.assembler };
        Step { state, action: state.pending(), fresh_assembler: false, fault: None }
    }

    fn with_next_assembler(self) -> (state: Self)
        ensures
            state == (Ingestion { assembler: following(self.assembler), ..self }),
    {
        Ingestion {
            phase: self.phase,
            parser_live: self.parser_live,
            assembler: self.assembler.wrapping_add(1),
        }
    }

    fn with_parser(self, parser_live: bool) -> (state: Self)
        ensures
            state == (Ingestion { parser_live, ..self }),
    {
        Ingestion { phase: self.phase, parser_live, assembler: self.assembler }
    }

    /// Takes one step: what the loop does on `event`.
    ///
    /// An event that does not answer the pending action changes nothing: the
    /// same action is asked for again, and the step says `OutOfTurn`.
    pub fn step(self, event: Event) -> (step: Step)
        ensures
            step == step_of(self, event),
    {
        if !self.expects(event) {
            let same = self.goes_to(self.phase);
            return Step {
                state: same.state,
                action: same.action,
                fresh_assembler: false,
                fault: Some(Fault::OutOfTurn),
            };
        }
        match self.phase {
            Phase::Idle => {
                if event == Event::Rotated {
                    let state = self.with_parser(false).with_next_assembler();
                    let moved = state.goes_to(Phase::RebuildingAfterRotation);
                    Step {
                        state: moved.state,
                        action: moved.action,
                        fresh_assembler: true,
                        fault: None,
                    }
                } else if self.parser_live {
                    self.goes_to(Phase::Polling)
                } else {
                    self.goes_to(Phase::RebuildingOnTick)
                }
            },
            Phase::RebuildingAfterRotation | Phase::RebuildingOnTick => {
                if event == Event::ParserReady {
                    if self.phase == Phase::RebuildingOnTick {
                        self.with_parser(true).goes_to(Phase::Polling)
                    } else {
                        self.with_parser(true).goes_to(Phase::Idle)
                    }
                } else {
                    let moved = self.with_parser(false).goes_to(Phase::Idle);
                    Step {
                        state: moved.state,
                        action: moved.action,
                        fresh_assembler: false,
                        fault: Some(Fault::ParserUnavailable),
                    }
                }
            },
            Phase::Polling => {
                if event == Event::EventRead {
                    self.goes_to(Phase::Feeding)
                } else {
                    self.goes_to(Phase::Idle)
                }
            },
            Phase::Feeding => {
                if event == Event::BoundaryReached {
                    self.goes_to(Phase::Building)
                } else {
                    self.goes_to(Phase::Polling)
                }
            },
            Phase::Building => {
                if event == Event::ReplayBuilt {
                    let moved = self.with_next_assembler().goes_to(Phase::Writing);
                    Step {
                        state: moved.state,
                        action: moved.action,
                        fresh_assembler: true,
                        fault: None,
                    }
                } else {
                    let moved = self.with_next_assembler().goes_to(Phase::Polling);
                    Step {
                        state: moved.state,
                        action: moved.action,
                        fresh_assembler: true,
                        fault: Some(Fault::ReplayNotBuilt),
                    }
                }
            },
            Phase::Writing => {
                let moved = self.goes_to(Phase::Polling);
                if event == Event::ReplayStored {
                    moved
                } else {
                    Step {
                        state: moved.state,
                        action: moved.action,
                        fresh_assembler: false,
                        fault: Some(Fault::ReplayNotStored),
                    }
                }
            },
        }
    }
}

/// The step answers an event that was in turn.
pub open spec fn accepted(step: Step) -> bool {
    step.fault != Some(Fault::OutOfTurn)
}

/// Every step asks for the action that its new state waits on, and an event
/// out of turn leaves the state as it was.
pub proof fn law_step_asks_what_the_state_awaits(state: Ingestion, event: Event)
    ensures
        step_of(state, event).action == awaited(step_of(state, event).state.phase),
        accepted(step_of(state, event)) <==> in_turn(state.phase, event),
        !in_turn(state.phase, event) ==> step_of(state, event).state == state,
{
}

/// An event read from the parser is fed to the assembler once: the
/// assembler is fed on an event that was read, and on nothing else.
pub proof fn law_every_event_is_fed_once(state: Ingestion, event: Event)
    ensures
        accepted(step_of(state, event)) && step_of(state, event).action == Action::FeedAssembler
            <==> state.phase == Phase::Polling && event == Event::EventRead,
{
}

/// A replay is built when the assembler reports the end of a match, and
/// only then.
pub proof fn law_every_boundary_is_built_once(state: Ingestion, event: Event)
    ensures
        accepted(step_of(state, event)) && step_of(state, event).action == Action::BuildReplay
            <==> state.phase == Phase::Feeding && event == Event::BoundaryReached,
{
}

/// A replay is handed to the store when it was built, and only then: one
/// write for every replay built, none for a build that failed, and none
/// again for a write that failed.
pub proof fn law_every_replay_is_written_once(state: Ingestion, event: Event)
    ensures
        accepted(step_of(state, event)) && step_of(state, event).action == Action::WriteReplay
            <==> state.phase == Phase::Building && event == Event::ReplayBuilt,
        state.phase == Phase::Writing && in_turn(state.phase, event) ==> step_of(
            state,
            event,
        ).action == Action::PollParser,
{
}

/// The assembler is replaced exactly when a rotation is taken up or a build
/// has ended, well or not; the step says so, and the new assembler is never
/// the one before.
pub proof fn law_assembler_serves_one_match(state: Ingestion, event: Event)
    ensures
        step_of(state, event).fresh_assembler <==> step_of(state, event).state.assembler
            != state.assembler,
        step_of(state, event).fresh_assembler <==> (state.phase == Phase::Idle && event
            == Event::Rotated) || (state.phase == Phase::Building && (event == Event::ReplayBuilt
            || event == Event::BuildFailed)),
{
}

/// The parser is replaced only between triggers: while a tick is being
/// drained no step asks for a new parser.
pub proof fn law_no_rebuild_inside_a_drain(state: Ingestion, event: Event)
    requires
        state.phase == Phase::Polling || state.phase == Phase::Feeding || state.phase
            == Phase::Building || state.phase == Phase::Writing,
    ensures
        step_of(state, event).action != Action::RebuildParser,
        step_of(state, event).state.parser_live == state.parser_live,
{
}

/// A rotation that finds no log file does not stop the loop: it waits for
/// the next trigger without a parser, and the next tick or rotation that
/// finds the file brings it back to reading.
pub proof fn law_failed_rebuild_recovers(state: Ingestion)
    requires
        state.phase == Phase::Idle,
    ensures
        ({
            let rotated = step_of(state, Event::Rotated);
            let failed = step_of(rotated.state, Event::ParserFailed);
            let ticked = step_of(failed.state, Event::Ticked);
            let rotated_again = step_of(failed.state, Event::Rotated);
            let ready_on_rotation = step_of(rotated_again.state, Event::ParserReady);
            &&& rotated.action == Action::RebuildParser
            &&& failed.action == Action::AwaitTrigger
            &&& failed.fault == Some(Fault::ParserUnavailable)
            &&& !failed.state.parser_live
            &&& ticked.action == Action::RebuildParser
            &&& step_of(ticked.state, Event::ParserReady).action == Action::PollParser
            &&& step_of(ticked.state, Event::ParserReady).state.parser_live
            &&& step_of(ticked.state, Event::ParserFailed).action == Action::AwaitTrigger
            &&& rotated_again.action == Action::RebuildParser
            &&& ready_on_rotation.state.parser_live
            &&& step_of(ready_on_rotation.state, Event::Ticked).action == Action::PollParser
        }),
{
}

} // verus!
