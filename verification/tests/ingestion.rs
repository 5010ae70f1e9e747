use arenabuddy::ingest::{
    next_trigger, on_watch_report, Action, Event, Fault, Ingestion, Phase, Step, Trigger,
    WatcherAction,
};

fn run(mut state: Ingestion, events: &[Event]) -> Vec<Step> {
    let mut steps = Vec::new();
    for event in events {
        let step = state.step(*event);
        state = step.state;
        steps.push(step);
    }
    steps
}

#[test]
fn three_boundaries_give_three_writes_from_three_assemblers() {
    let match_events = [
        Event::EventRead,
        Event::EventTaken,
        Event::EventRead,
        Event::BoundaryReached,
        Event::ReplayBuilt,
        Event::ReplayStored,
    ];
    let mut events = vec![Event::Ticked];
    for _ in 0..3 {
        events.extend_from_slice(&match_events);
    }
    events.push(Event::NothingToRead);
    let start = Ingestion::start();
    let steps = run(start, &events);

    let writes = steps.iter().filter(|s| s.action == Action::WriteReplay).count();
    assert_eq!(writes, 3);

    // the assembler that built each replay
    let mut builders = Vec::new();
    let mut state = start;
    for (event, step) in events.iter().zip(&steps) {
        if *event == Event::ReplayBuilt {
            builders.push(state.assembler);
            assert!(step.fresh_assembler);
        }
        state = step.state;
    }
    assert_eq!(builders, vec![0, 1, 2]);
    assert_eq!(state, Ingestion { phase: Phase::Idle, parser_live: true, assembler: 3 });
    assert!(steps.iter().all(|s| s.fault.is_none()));
    assert_eq!(steps.last().unwrap().action, Action::AwaitTrigger);
}

#[test]
fn events_are_fed_in_the_order_read() {
    let steps = run(
        Ingestion::start(),
        &[Event::Ticked, Event::EventRead, Event::EventTaken, Event::EventRead, Event::EventTaken],
    );
    let actions: Vec<Action> = steps.iter().map(|s| s.action).collect();
    assert_eq!(
        actions,
        vec![
            Action::PollParser,
            Action::FeedAssembler,
            Action::PollParser,
            Action::FeedAssembler,
            Action::PollParser,
        ]
    );
    assert!(steps.iter().all(|s| !s.fresh_assembler && s.state.assembler == 0));
}

#[test]
fn rotation_while_the_file_is_missing_does_not_stop_the_loop() {
    let steps = run(
        Ingestion::start(),
        &[
            Event::Rotated,
            Event::ParserFailed,
            Event::Ticked,
            Event::ParserFailed,
            Event::Ticked,
            Event::ParserReady,
            Event::EventRead,
        ],
    );
    let actions: Vec<Action> = steps.iter().map(|s| s.action).collect();
    assert_eq!(
        actions,
        vec![
            Action::RebuildParser,
            Action::AwaitTrigger,
            Action::RebuildParser,
            Action::AwaitTrigger,
            Action::RebuildParser,
            Action::PollParser,
            Action::FeedAssembler,
        ]
    );
    assert_eq!(steps[1].fault, Some(Fault::ParserUnavailable));
    assert!(!steps[1].state.parser_live);
    assert_eq!(steps[3].fault, Some(Fault::ParserUnavailable));
    assert!(steps[5].state.parser_live);
    assert_eq!(steps[5].fault, None);
}

#[test]
fn rotation_recovers_on_the_next_rotation() {
    let steps = run(
        Ingestion::start(),
        &[Event::Rotated, Event::ParserFailed, Event::Rotated, Event::ParserReady, Event::Ticked],
    );
    assert_eq!(steps[2].action, Action::RebuildParser);
    assert_eq!(steps[3].action, Action::AwaitTrigger);
    assert!(steps[3].state.parser_live);
    assert_eq!(steps[4].action, Action::PollParser);
}

#[test]
fn rotation_always_starts_a_fresh_assembler() {
    let start = Ingestion::start();
    let rotated = start.step(Event::Rotated);
    assert!(rotated.fresh_assembler);
    assert_eq!(rotated.state.assembler, 1);
    assert!(!rotated.state.parser_live);
    assert_eq!(rotated.state.phase, Phase::RebuildingAfterRotation);
    let ready = rotated.state.step(Event::ParserReady);
    assert!(!ready.fresh_assembler);
    assert_eq!(ready.state, Ingestion { phase: Phase::Idle, parser_live: true, assembler: 1 });
}

#[test]
fn failed_build_and_failed_write_are_dropped() {
    let steps = run(
        Ingestion::start(),
        &[
            Event::Ticked,
            Event::EventRead,
            Event::BoundaryReached,
            Event::BuildFailed,
            Event::EventRead,
            Event::BoundaryReached,
            Event::ReplayBuilt,
            Event::StoreFailed,
            Event::NothingToRead,
        ],
    );
    assert_eq!(steps[3].fault, Some(Fault::ReplayNotBuilt));
    assert_eq!(steps[3].action, Action::PollParser);
    assert!(steps[3].fresh_assembler);
    assert_eq!(steps[6].action, Action::WriteReplay);
    assert_eq!(steps[7].fault, Some(Fault::ReplayNotStored));
    assert_eq!(steps[7].action, Action::PollParser);
    assert!(!steps[7].fresh_assembler);
    assert_eq!(steps.iter().filter(|s| s.action == Action::WriteReplay).count(), 1);
    assert_eq!(steps[8].state, Ingestion { phase: Phase::Idle, parser_live: true, assembler: 2 });
}

#[test]
fn event_out_of_turn_changes_nothing() {
    let start = Ingestion::start();
    assert!(start.expects(Event::Ticked));
    assert!(!start.expects(Event::ReplayBuilt));
    let step = start.step(Event::ReplayBuilt);
    assert_eq!(step.state, start);
    assert_eq!(step.action, Action::AwaitTrigger);
    assert_eq!(step.fault, Some(Fault::OutOfTurn));
    assert!(!step.fresh_assembler);

    let writing = Ingestion { phase: Phase::Writing, parser_live: true, assembler: 4 };
    assert_eq!(writing.pending(), Action::WriteReplay);
    let step = writing.step(Event::Rotated);
    assert_eq!(step.state, writing);
    assert_eq!(step.action, Action::WriteReplay);
    assert_eq!(step.fault, Some(Fault::OutOfTurn));
}

#[test]
fn assembler_number_wraps() {
    let building = Ingestion { phase: Phase::Building, parser_live: true, assembler: u64::MAX };
    let step = building.step(Event::ReplayBuilt);
    assert_eq!(step.state.assembler, 0);
    assert!(step.fresh_assembler);
}

#[test]
fn rotation_is_handled_before_a_tick() {
    assert_eq!(next_trigger(true, true), Some(Trigger::Rotation));
    assert_eq!(next_trigger(true, false), Some(Trigger::Rotation));
    assert_eq!(next_trigger(false, true), Some(Trigger::Tick));
    assert_eq!(next_trigger(false, false), None);
    assert_eq!(Trigger::Rotation.event(), Event::Rotated);
    assert_eq!(Trigger::Tick.event(), Event::Ticked);
}

#[test]
fn watcher_goes_on_after_an_error() {
    assert_eq!(on_watch_report(false), WatcherAction::Notify);
    assert_eq!(on_watch_report(true), WatcherAction::LogError);
}
