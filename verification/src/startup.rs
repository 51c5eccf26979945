//! The startup sequence: the commands that the configuration asks to run
//! before its windows appear, and the pauses between them.
//!
//! The sequence is a state machine. Its driver performs each action and
//! reports what happened; the machine decides what comes next.

use vstd::prelude::*;
use vstd::string::*;
use crate::config::{entries_view, Config, ProgramEntry, ProgramEntryView};
use crate::i3ipc::MessageType;
use crate::json::{keys_of, last_place_of, lemma_last_with_key, Json, JsonValue};

verus! {

/// A reply to a command that does not have the shape of one.
#[derive(Clone, Copy, Debug, PartialEq, Eq, Structural)]
pub enum ResponseError {
    /// The reply is no array.
    NotAnArray,
    /// The entry at this place of the array has no member `success`.
    NoSuccess(usize),
    /// The reply to the version request has no member `human_readable`.
    NoVersion,
}

/// Whether a result of a command reports that the command failed.
pub open spec fn reports_failure(result: JsonValue) -> bool {
    result.member("success"@) == Some(JsonValue::Bool(false))
}

/// The places of the results that report a failure.
pub open spec fn failures(results: Seq<JsonValue>) -> Seq<usize>
    decreases results.len(),
{
    if results.len() == 0 {
        Seq::empty()
    } else if reports_failure(results.last()) {
        failures(results.drop_last()).push((results.len() - 1) as usize)
    } else {
        failures(results.drop_last())
    }
}

/// What the reply to a command says: the places of the results that report
/// a failure, or why the reply cannot be read. A reply can be read where it
/// is an array and each of its entries has a member `success`.
pub open spec fn command_report(reply: JsonValue) -> Result<Seq<usize>, ResponseError> {
    match reply {
        JsonValue::Array(results) => {
            if exists|i: int| 0 <= i < results.len() && missing_success(results, i) {
                Err(
                    ResponseError::NoSuccess(
                        (choose|i: int|
                            0 <= i < results.len() && missing_success(results, i) && forall|j: int|
                                0 <= j < i ==> !missing_success(results, j)) as usize,
                    ),
                )
            } else {
                Ok(failures(results))
            }
        },
        _ => Err(ResponseError::NotAnArray),
    }
}

/// Whether the entry at place `i` has no member `success`.
pub open spec fn missing_success(results: Seq<JsonValue>, i: int) -> bool {
    results[i].member("success"@) is None
}

/// Reads the reply to a command.
pub fn run_command(reply: &Json) -> (r: Result<Vec<usize>, ResponseError>)
    ensures
        match r {
            Ok(failed) => command_report(reply@) == Ok::<Seq<usize>, ResponseError>(failed@),
            Err(error) => command_report(reply@) == Err::<Seq<usize>, ResponseError>(error),
        },
{
    match reply {
        Json::Array(results) => {
            let ghost all = reply@->Array_0;
            let mut failed: Vec<usize> = Vec::new();
            let mut i: usize = 0;
            assert(all.take(0) =~= Seq::empty());
            while i < results.len()
                invariant
                    i <= results@.len(),
                    reply@ == JsonValue::Array(all),
                    all.len() == results@.len(),
                    forall|j: int| 0 <= j < results@.len() ==> #[trigger] all[j] == results@[j]@,
                    forall|j: int| 0 <= j < i ==> !missing_success(all, j),
                    failed@ == failures(all.take(i as int)),
                decreases results@.len() - i,
            {
                proof {
                    let prefix = all.take(i as int + 1);
                    assert(prefix.drop_last() == all.take(i as int));
                    assert(prefix.last() == all[i as int]);
                }
                match results[i].get("success") {
                    None => {
                        proof {
                            let first = choose|k: int|
                                0 <= k < all.len() && missing_success(all, k) && forall|j: int|
                                    0 <= j < k ==> !missing_success(all, j);
                            assert(missing_success(all, i as int));
                            assert(first == i) by {
                                if first < i {
                                    assert(!missing_success(all, first));
                                }
                                if first > i {
                                    assert(!missing_success(all, i as int));
                                }
                            }
                        }
                        return Err(ResponseError::NoSuccess(i));
                    },
                    Some(success) => {
                        match success {
                            Json::Bool(ok) => {
                                if !*ok {
                                    failed.push(i);
                                }
                            },
                            _ => {},
                        }
                    },
                }
                i = i + 1;
            }
            assert(all.take(i as int) == all);
            Ok(failed)
        },
        _ => Err(ResponseError::NotAnArray),
    }
}

/// Where the startup sequence stands.
#[derive(Clone, Copy, Debug, PartialEq, Eq, Structural)]
pub enum Stage {
    /// Nothing has been sent yet.
    Idle,
    /// The version of the window manager has been asked for.
    Version,
    /// The command of the rule at this place has been sent.
    Command(usize),
    /// The command of the pause at this place has been sent.
    SignalCommand(usize),
    /// The sequence waits for the signal of the pause at this place.
    Waiting(usize),
    /// Every entry has been gone through.
    Finished,
}

/// What the driver of the sequence has to do next.
#[derive(Debug, PartialEq, Eq)]
pub enum Action {
    /// Send the request and hand back the reply.
    Send { kind: MessageType, payload: Vec<u8> },
    /// Wait for the signal, this many milliseconds at most, and report
    /// which of the two came first.
    AwaitSignal { timeout: u64 },
    /// The sequence is over.
    Finish,
    /// The event was not the one that the sequence waits for: nothing has
    /// changed, and the action asked for before still stands.
    Ignore,
}

/// The mathematical value of an [`Action`].
pub ghost enum ActionView {
    Send { kind: MessageType, payload: Seq<u8> },
    AwaitSignal { timeout: u64 },
    Finish,
    Ignore,
}

impl View for Action {
    type V = ActionView;

    open spec fn view(&self) -> ActionView {
        match self {
            Action::Send { kind, payload } => ActionView::Send { kind: *kind, payload: payload@ },
            Action::AwaitSignal { timeout } => ActionView::AwaitSignal { timeout: *timeout },
            Action::Finish => ActionView::Finish,
            Action::Ignore => ActionView::Ignore,
        }
    }
}

/// What the driver reports to the sequence.
#[derive(Debug, PartialEq, Eq)]
pub enum Event {
    /// The sequence may begin.
    Start,
    /// The reply to the request sent last.
    Reply(Json),
    /// The signal arrived in time.
    Signal,
    /// The time to wait for the signal ran out.
    Timeout,
}

/// What is worth a line in the log after a step.
#[derive(Debug, PartialEq, Eq)]
pub enum Note {
    Nothing,
    /// The window manager's own name for its version.
    Version(Json),
    /// The places of the results of the command that report a failure.
    Failures(Vec<usize>),
    /// The signal of the pause at this place did not arrive in time.
    SignalTimeout(usize),
}

/// The mathematical value of a [`Note`].
pub ghost enum NoteView {
    Nothing,
    Version(JsonValue),
    Failures(Seq<usize>),
    SignalTimeout(usize),
}

impl View for Note {
    type V = NoteView;

    open spec fn view(&self) -> NoteView {
        match self {
            Note::Nothing => NoteView::Nothing,
            Note::Version(version) => NoteView::Version(version@),
            Note::Failures(failed) => NoteView::Failures(failed@),
            Note::SignalTimeout(place) => NoteView::SignalTimeout(*place),
        }
    }
}

/// The request that runs a command: its text as bytes.
pub open spec fn command_request(command: Seq<char>) -> ActionView {
    ActionView::Send { kind: MessageType::Command, payload: vstd::utf8::encode_utf8(command) }
}

/// What the sequence does on reaching the entry at place `from`: entries
/// that ask for nothing are passed over, and the first one that asks for a
/// command or a pause decides.
pub open spec fn settle(programs: Seq<ProgramEntryView>, from: int) -> (Stage, ActionView)
    decreases programs.len() - from,
{
    if from < 0 || from >= programs.len() {
        (Stage::Finished, ActionView::Finish)
    } else {
        match programs[from] {
            ProgramEntryView::Program(program) => match program.run {
                Some(command) => (Stage::Command(from as usize), command_request(command)),
                None => settle(programs, from + 1),
            },
            ProgramEntryView::Signal(signal) => match signal.run {
                Some(command) => (Stage::SignalCommand(from as usize), command_request(command)),
                None => (
                    Stage::Waiting(from as usize),
                    ActionView::AwaitSignal { timeout: signal.timeout },
                ),
            },
        }
    }
}

/// The outcome of a step: the stage reached, the action asked for and the
/// note for the log; or the reason why a reply cannot be read, in which
/// case the stage stays.
pub open spec fn step(programs: Seq<ProgramEntryView>, stage: Stage, event: Event) -> Result<
    (Stage, ActionView, NoteView),
    ResponseError,
> {
    match (stage, event) {
        (Stage::Idle, Event::Start) => Ok(
            (
                Stage::Version,
                ActionView::Send { kind: MessageType::Version, payload: Seq::empty() },
                NoteView::Nothing,
            ),
        ),
        (Stage::Version, Event::Reply(reply)) => match reply@.member("human_readable"@) {
            Some(version) => Ok(
                (settle(programs, 0).0, settle(programs, 0).1, NoteView::Version(version)),
            ),
            None => Err(ResponseError::NoVersion),
        },
        (Stage::Command(place), Event::Reply(reply)) => match command_report(reply@) {
            Ok(failed) => Ok(
                (
                    settle(programs, place + 1).0,
                    settle(programs, place + 1).1,
                    NoteView::Failures(failed),
                ),
            ),
            Err(error) => Err(error),
        },
        (Stage::SignalCommand(place), Event::Reply(reply)) => match command_report(reply@) {
            Ok(failed) => Ok(
                (
                    Stage::Waiting(place),
                    ActionView::AwaitSignal { timeout: pause_timeout(programs, place as int) },
                    NoteView::Failures(failed),
                ),
            ),
            Err(error) => Err(error),
        },
        (Stage::Waiting(place), Event::Signal) => Ok(
            (settle(programs, place + 1).0, settle(programs, place + 1).1, NoteView::Nothing),
        ),
        (Stage::Waiting(place), Event::Timeout) => Ok(
            (
                settle(programs, place + 1).0,
                settle(programs, place + 1).1,
                NoteView::SignalTimeout(place),
            ),
        ),
        _ => Ok((stage, ActionView::Ignore, NoteView::Nothing)),
    }
}

/// The time that the pause at `place` waits; nothing where the entry there
/// is no pause.
pub open spec fn pause_timeout(programs: Seq<ProgramEntryView>, place: int) -> u64 {
    if 0 <= place < programs.len() && programs[place] is Signal {
        programs[place]->Signal_0.timeout
    } else {
        0
    }
}

/// Whether a sequence can stand at `stage`: the place of a stage holds an
/// entry of the kind that the stage is about.
pub open spec fn in_reach(programs: Seq<ProgramEntryView>, stage: Stage) -> bool {
    match stage {
        Stage::Command(place) => place < programs.len() && programs[place as int] is Program,
        Stage::SignalCommand(place) => place < programs.len() && programs[place as int] is Signal,
        Stage::Waiting(place) => place < programs.len() && programs[place as int] is Signal,
        _ => true,
    }
}

/// Whether `event` is what the sequence waits for at `stage`.
pub open spec fn in_turn(stage: Stage, event: Event) -> bool {
    match stage {
        Stage::Idle => event is Start,
        Stage::Version => event is Reply,
        Stage::Command(_) => event is Reply,
        Stage::SignalCommand(_) => event is Reply,
        Stage::Waiting(_) => event is Signal || event is Timeout,
        Stage::Finished => false,
    }
}

/// A bound on the number of steps that a sequence at `stage` still takes:
/// two for each entry from its place on, and two for the beginning.
pub open spec fn steps_left(programs: Seq<ProgramEntryView>, stage: Stage) -> int {
    match stage {
        Stage::Idle => 2 * (programs.len() as int) + 2,
        Stage::Version => 2 * (programs.len() as int) + 1,
        Stage::Command(place) => 2 * (programs.len() - place) - 1,
        Stage::SignalCommand(place) => 2 * (programs.len() - place),
        Stage::Waiting(place) => 2 * (programs.len() - place) - 1,
        Stage::Finished => 0,
    }
}

/// Going on from a place leads to an entry at or behind that place, or to
/// the end; and the sequence waits only for the signal of a pause, and as
/// long as that pause says.
pub proof fn lemma_settle(programs: Seq<ProgramEntryView>, from: int)
    requires
        0 <= from,
        programs.len() <= usize::MAX,
    ensures
        in_reach(programs, settle(programs, from).0),
        0 <= steps_left(programs, settle(programs, from).0),
        from <= programs.len() ==> steps_left(programs, settle(programs, from).0) <= 2 * (
        programs.len() - from),
        settle(programs, from).0 is Finished <==> settle(programs, from).1 is Finish,
        !(settle(programs, from).1 is Ignore),
        settle(programs, from).1 matches ActionView::AwaitSignal { timeout } ==> settle(
            programs,
            from,
        ).0 matches Stage::Waiting(place) && timeout == programs[place as int]->Signal_0.timeout,
    decreases programs.len() - from,
{
    if from < programs.len() {
        if programs[from] matches ProgramEntryView::Program(program) && program.run is None {
            lemma_settle(programs, from + 1);
        }
    }
}

/// The sequence ends. Each step that answers what the sequence waits for
/// brings it nearer to its end by the measure of [`steps_left`], which is
/// zero at the end and nowhere else. So a sequence over `n` entries is over
/// after `2 * n + 2` such steps at most, whatever the replies say and
/// whether the signals come or not.
pub proof fn lemma_sequence_ends(programs: Seq<ProgramEntryView>, stage: Stage, event: Event)
    requires
        programs.len() <= usize::MAX,
        in_reach(programs, stage),
        in_turn(stage, event),
        step(programs, stage, event) is Ok,
    ensures
        in_reach(programs, step(programs, stage, event)->Ok_0.0),
        0 <= steps_left(programs, step(programs, stage, event)->Ok_0.0) < steps_left(
            programs,
            stage,
        ),
        steps_left(programs, stage) > 0,
        step(programs, stage, event)->Ok_0.1 is Finish <==> step(
            programs,
            stage,
            event,
        )->Ok_0.0 is Finished,
        !(step(programs, stage, event)->Ok_0.1 is Ignore),
{
    match stage {
        Stage::Version => {
            lemma_settle(programs, 0);
        },
        Stage::Command(place) => {
            lemma_settle(programs, place + 1);
        },
        Stage::Waiting(place) => {
            lemma_settle(programs, place + 1);
        },
        _ => {},
    }
}

/// A signal that does not come is no failure: the wait ends with a note,
/// and the sequence goes on with the entry behind the pause as if the
/// signal had come.
pub proof fn lemma_timeout_goes_on(programs: Seq<ProgramEntryView>, place: usize)
    ensures
        step(programs, Stage::Waiting(place), Event::Timeout) == Ok::<
            (Stage, ActionView, NoteView),
            ResponseError,
        >(
            (
                settle(programs, place + 1).0,
                settle(programs, place + 1).1,
                NoteView::SignalTimeout(place),
            ),
        ),
        step(programs, Stage::Waiting(place), Event::Timeout)->Ok_0.0 == step(
            programs,
            Stage::Waiting(place),
            Event::Signal,
        )->Ok_0.0,
        step(programs, Stage::Waiting(place), Event::Timeout)->Ok_0.1 == step(
            programs,
            Stage::Waiting(place),
            Event::Signal,
        )->Ok_0.1,
{
}

/// The sequence waits for signals only at pauses, at each pause once, and
/// no longer than the pause says: a step that asks to wait leads to the
/// stage of a pause, with the time of that pause, and the pause stands
/// behind the place that the sequence came from.
pub proof fn lemma_waits_are_those_of_pauses(
    programs: Seq<ProgramEntryView>,
    stage: Stage,
    event: Event,
)
    requires
        programs.len() <= usize::MAX,
        in_reach(programs, stage),
        step(programs, stage, event) matches Ok(next) && next.1 is AwaitSignal,
    ensures
        step(programs, stage, event)->Ok_0.0 matches Stage::Waiting(place) && programs[place as int]
            is Signal && step(programs, stage, event)->Ok_0.1 == (ActionView::AwaitSignal {
            timeout: programs[place as int]->Signal_0.timeout,
        }),
{
    match stage {
        Stage::Version => {
            lemma_settle(programs, 0);
        },
        Stage::Command(place) => {
            lemma_settle(programs, place + 1);
        },
        Stage::Waiting(place) => {
            lemma_settle(programs, place + 1);
        },
        _ => {},
    }
}

/// The startup sequence of a configuration.
#[derive(Debug, PartialEq, Eq)]
pub struct Sequencer {
    pub stage: Stage,
}

/// What a step of the sequence gives its driver.
#[derive(Debug, PartialEq, Eq)]
pub struct Step {
    pub action: Action,
    pub note: Note,
}

impl Sequencer {
    /// A sequence that has not begun.
    pub fn new() -> (sequencer: Sequencer)
        ensures
            sequencer.stage == Stage::Idle,
    {
        Sequencer { stage: Stage::Idle }
    }

    /// Goes on from the entry at place `from`.
    fn settle(&mut self, config: &Config, from: usize) -> (action: Action)
        ensures
            (final(self).stage, action@) == settle(config@.programs, from as int),
    {
        let mut i: usize = from;
        while i < config.programs.len()
            invariant
                settle(config@.programs, from as int) == settle(config@.programs, i as int),
            decreases config.programs@.len() - i,
        {
            assert(config@.programs[i as int] == config.programs@[i as int]@);
            match &config.programs[i] {
                ProgramEntry::Program(program) => match &program.run {
                    Some(command) => {
                        self.stage = Stage::Command(i);
                        return Action::Send {
                            kind: MessageType::Command,
                            payload: command.as_str().as_bytes_vec(),
                        };
                    },
                    None => {},
                },
                ProgramEntry::Signal(signal) => match &signal.run {
                    Some(command) => {
                        self.stage = Stage::SignalCommand(i);
                        return Action::Send {
                            kind: MessageType::Command,
                            payload: command.as_str().as_bytes_vec(),
                        };
                    },
                    None => {
                        self.stage = Stage::Waiting(i);
                        return Action::AwaitSignal { timeout: signal.timeout };
                    },
                },
            }
            i = i + 1;
        }
        self.stage = Stage::Finished;
        Action::Finish
    }

    /// Goes on from the entry that follows the one at `place`.
    fn settle_after(&mut self, config: &Config, place: usize) -> (action: Action)
        ensures
            (final(self).stage, action@) == settle(config@.programs, place + 1),
    {
        if place < config.programs.len() {
            self.settle(config, place + 1)
        } else {
            self.stage = Stage::Finished;
            Action::Finish
        }
    }

    /// One step of the sequence: takes what the driver reports and says
    /// what to do next.
    ///
    /// The sequence first asks for the version of the window manager. Then
    /// it goes through the entries in their order: the command of a rule is
    /// sent and its reply read; a pause sends its command, if it has one,
    /// and then waits for the signal. A signal that does not come in time
    /// is noted, and the sequence goes on.
    pub fn run(&mut self, config: &Config, event: Event) -> (r: Result<Step, ResponseError>)
        ensures
            match r {
                Ok(next) => step(config@.programs, old(self).stage, event) == Ok::<
                    (Stage, ActionView, NoteView),
                    ResponseError,
                >((final(self).stage, next.action@, next.note@)),
                Err(error) => final(self).stage == old(self).stage && step(
                    config@.programs,
                    old(self).stage,
                    event,
                ) == Err::<(Stage, ActionView, NoteView), ResponseError>(error),
            },
    {
        match (self.stage, event) {
            (Stage::Idle, Event::Start) => {
                self.stage = Stage::Version;
                Ok(
                    Step {
                        action: Action::Send { kind: MessageType::Version, payload: Vec::new() },
                        note: Note::Nothing,
                    },
                )
            },
            (Stage::Version, Event::Reply(reply)) => {
                match take_member(reply, "human_readable") {
                    Some(version) => {
                        let action = self.settle(config, 0);
                        Ok(Step { action, note: Note::Version(version) })
                    },
                    None => Err(ResponseError::NoVersion),
                }
            },
            (Stage::Command(place), Event::Reply(reply)) => {
                match run_command(&reply) {
                    Ok(failed) => {
                        let action = self.settle_after(config, place);
                        Ok(Step { action, note: Note::Failures(failed) })
                    },
                    Err(error) => Err(error),
                }
            },
            (Stage::SignalCommand(place), Event::Reply(reply)) => {
                match run_command(&reply) {
                    Ok(failed) => {
                        let timeout = Sequencer::pause_timeout(config, place);
                        self.stage = Stage::Waiting(place);
                        Ok(
                            Step {
                                action: Action::AwaitSignal { timeout },
                                note: Note::Failures(failed),
                            },
                        )
                    },
                    Err(error) => Err(error),
                }
            },
            (Stage::Waiting(place), Event::Signal) => {
                let action = self.settle_after(config, place);
                Ok(Step { action, note: Note::Nothing })
            },
            (Stage::Waiting(place), Event::Timeout) => {
                let action = self.settle_after(config, place);
                Ok(Step { action, note: Note::SignalTimeout(place) })
            },
            _ => Ok(Step { action: Action::Ignore, note: Note::Nothing }),
        }
    }

    /// The time that the pause at `place` waits.
    fn pause_timeout(config: &Config, place: usize) -> (timeout: u64)
        ensures
            timeout == pause_timeout(config@.programs, place as int),
    {
        if place < config.programs.len() {
            assert(config@.programs[place as int] == config.programs@[place as int]@);
            match &config.programs[place] {
                ProgramEntry::Signal(signal) => signal.timeout,
                _ => 0,
            }
        } else {
            0
        }
    }
}

/// Takes the member `key` out of an object.
fn take_member(json: Json, key: &str) -> (r: Option<Json>)
    ensures
        match r {
            Some(found) => json@.member(key@) == Some(found@),
            None => json@.member(key@) is None,
        },
{
    match json {
        Json::Object(mut members) => {
            let ghost all = json@->Object_0;
            match last_place_of(&members, key) {
                Some(place) => {
                    proof {
                        assert(all[place as int] == (
                            members@[place as int].0@,
                            members@[place as int].1@,
                        ));
                        assert forall|j: int| place < j < all.len() implies keys_of(all)[j]
                            != key@ by {
                            assert(all[j].0 == members@[j].0@);
                        }
                        lemma_last_with_key(all, key@, place as int);
                    }
                    Some(members.swap_remove(place).1)
                },
                None => {
                    proof {
                        assert forall|j: int| 0 <= j < all.len() implies all[j].0 != key@ by {
                            assert(all[j].0 == members@[j].0@);
                        }
                        lemma_last_with_key(all, key@, 0);
                    }
                    None
                },
            }
        },
        _ => None,
    }
}

} // verus!
