use i3toolwait::config::{Config, Program, ProgramEntry, Script, Signal};
use i3toolwait::i3ipc::MessageType;
use i3toolwait::json::Json;
use i3toolwait::startup::{
    run_command, Action, Event, Note, ResponseError, Sequencer, Stage, Step,
};

fn rule(run: Option<&str>) -> ProgramEntry {
    ProgramEntry::Program(Program {
        match_: Script::new("t".to_string()),
        cmd: "nop".to_string(),
        run: run.map(str::to_string),
    })
}

fn pause(run: Option<&str>, timeout: u64) -> ProgramEntry {
    ProgramEntry::Signal(Signal { run: run.map(str::to_string), timeout })
}

fn config(programs: Vec<ProgramEntry>) -> Config {
    Config { timeout: 3000, init: Script::new(String::new()), programs, cmd: None }
}

fn json(text: &str) -> Json {
    Json::parse(text.as_bytes()).unwrap()
}

fn reply(text: &str) -> Event {
    Event::Reply(json(text))
}

fn send(command: &str) -> Action {
    Action::Send { kind: MessageType::Command, payload: command.as_bytes().to_vec() }
}

fn step(action: Action, note: Note) -> Result<Step, ResponseError> {
    Ok(Step { action, note })
}

const VERSION: &str = "{\"major\":1,\"human_readable\":\"1.9\"}";
const FINE: &str = "[{\"success\":true}]";

fn started(config: &Config) -> (Sequencer, Step) {
    let mut sequencer = Sequencer::new();
    assert_eq!(
        sequencer.run(config, Event::Start),
        step(Action::Send { kind: MessageType::Version, payload: vec![] }, Note::Nothing)
    );
    assert_eq!(sequencer.stage, Stage::Version);
    let first = sequencer.run(config, reply(VERSION)).unwrap();
    assert_eq!(first.note, Note::Version(Json::Text("1.9".to_string())));
    (sequencer, first)
}

#[test]
fn run_command_finds_the_results_that_failed() {
    assert_eq!(run_command(&json("[]")), Ok(vec![]));
    assert_eq!(run_command(&json(FINE)), Ok(vec![]));
    assert_eq!(
        run_command(&json(
            "[{\"success\":false,\"error\":\"x\"},{\"success\":true},{\"success\":false}]"
        )),
        Ok(vec![0, 2])
    );
}

#[test]
fn run_command_looks_at_booleans_only() {
    assert_eq!(
        run_command(&json("[{\"success\":\"no\"},{\"success\":0},{\"success\":null}]")),
        Ok(vec![])
    );
}

#[test]
fn run_command_refuses_a_reply_of_another_shape() {
    assert_eq!(run_command(&json("{\"success\":true}")), Err(ResponseError::NotAnArray));
    assert_eq!(run_command(&json("null")), Err(ResponseError::NotAnArray));
    assert_eq!(
        run_command(&json("[{\"success\":false},{\"error\":\"x\"},{}]")),
        Err(ResponseError::NoSuccess(1))
    );
    assert_eq!(run_command(&json("[true]")), Err(ResponseError::NoSuccess(0)));
}

#[test]
fn the_sequence_asks_for_the_version_first() {
    let config = config(vec![]);
    let (sequencer, first) = started(&config);
    assert_eq!(first.action, Action::Finish);
    assert_eq!(sequencer.stage, Stage::Finished);
}

#[test]
fn a_version_without_a_name_is_refused() {
    let config = config(vec![rule(Some("exec foot"))]);
    let mut sequencer = Sequencer::new();
    sequencer.run(&config, Event::Start).unwrap();
    assert_eq!(sequencer.run(&config, reply("{\"major\":1}")), Err(ResponseError::NoVersion));
    assert_eq!(sequencer.stage, Stage::Version);
    assert_eq!(sequencer.run(&config, reply("[]")), Err(ResponseError::NoVersion));
    assert_eq!(sequencer.stage, Stage::Version);
}

#[test]
fn the_commands_are_sent_in_the_order_of_the_configuration() {
    let config = config(vec![
        rule(None),
        rule(Some("exec kitty")),
        rule(None),
        pause(Some("exec foot"), 250),
        pause(None, 100),
        rule(Some("exec firefox")),
        rule(None),
    ]);
    let (mut sequencer, first) = started(&config);
    assert_eq!(first.action, send("exec kitty"));
    assert_eq!(sequencer.stage, Stage::Command(1));

    assert_eq!(
        sequencer.run(&config, reply("[{\"success\":false}]")),
        step(send("exec foot"), Note::Failures(vec![0]))
    );
    assert_eq!(sequencer.stage, Stage::SignalCommand(3));

    assert_eq!(
        sequencer.run(&config, reply(FINE)),
        step(Action::AwaitSignal { timeout: 250 }, Note::Failures(vec![]))
    );
    assert_eq!(sequencer.stage, Stage::Waiting(3));

    assert_eq!(
        sequencer.run(&config, Event::Signal),
        step(Action::AwaitSignal { timeout: 100 }, Note::Nothing)
    );
    assert_eq!(sequencer.stage, Stage::Waiting(4));

    assert_eq!(
        sequencer.run(&config, Event::Timeout),
        step(send("exec firefox"), Note::SignalTimeout(4))
    );
    assert_eq!(sequencer.stage, Stage::Command(5));

    assert_eq!(
        sequencer.run(&config, reply(FINE)),
        step(Action::Finish, Note::Failures(vec![]))
    );
    assert_eq!(sequencer.stage, Stage::Finished);
}

#[test]
fn a_signal_that_does_not_come_is_noted_and_the_sequence_goes_on() {
    let config = config(vec![pause(None, 100), rule(Some("exec foot"))]);
    let (mut sequencer, first) = started(&config);
    assert_eq!(first.action, Action::AwaitSignal { timeout: 100 });
    assert_eq!(
        sequencer.run(&config, Event::Timeout),
        step(send("exec foot"), Note::SignalTimeout(0))
    );
}

#[test]
fn a_failed_command_does_not_stop_the_sequence() {
    let config = config(vec![rule(Some("exec a")), rule(Some("exec b"))]);
    let (mut sequencer, _) = started(&config);
    assert_eq!(
        sequencer.run(&config, reply("[{\"success\":false},{\"success\":false}]")),
        step(send("exec b"), Note::Failures(vec![0, 1]))
    );
}

#[test]
fn a_reply_of_another_shape_leaves_the_sequence_where_it_is() {
    let config = config(vec![rule(Some("exec a")), pause(Some("exec b"), 5)]);
    let (mut sequencer, _) = started(&config);
    assert_eq!(sequencer.run(&config, reply("{}")), Err(ResponseError::NotAnArray));
    assert_eq!(sequencer.stage, Stage::Command(0));
    assert_eq!(sequencer.run(&config, reply(FINE)).unwrap().action, send("exec b"));
    assert_eq!(sequencer.run(&config, reply("[{}]")), Err(ResponseError::NoSuccess(0)));
    assert_eq!(sequencer.stage, Stage::SignalCommand(1));
}

#[test]
fn an_event_out_of_turn_changes_nothing() {
    let config = config(vec![rule(Some("exec a")), pause(None, 5)]);
    let mut sequencer = Sequencer::new();
    for event in [Event::Signal, Event::Timeout, reply(FINE)] {
        assert_eq!(sequencer.run(&config, event), step(Action::Ignore, Note::Nothing));
        assert_eq!(sequencer.stage, Stage::Idle);
    }
    let (mut sequencer, _) = started(&config);
    for event in [Event::Start, Event::Signal, Event::Timeout] {
        assert_eq!(sequencer.run(&config, event), step(Action::Ignore, Note::Nothing));
        assert_eq!(sequencer.stage, Stage::Command(0));
    }
    sequencer.run(&config, reply(FINE)).unwrap();
    for event in [Event::Start, reply(FINE)] {
        assert_eq!(sequencer.run(&config, event), step(Action::Ignore, Note::Nothing));
        assert_eq!(sequencer.stage, Stage::Waiting(1));
    }
    sequencer.run(&config, Event::Signal).unwrap();
    for event in [Event::Start, Event::Signal, Event::Timeout, reply(FINE)] {
        assert_eq!(sequencer.run(&config, event), step(Action::Ignore, Note::Nothing));
        assert_eq!(sequencer.stage, Stage::Finished);
    }
}
