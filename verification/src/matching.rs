//! The registry of pending rules and the engine that matches window events
//! against it.
//!
//! The engine is a state machine. For each window it asks its caller to
//! evaluate one rule after the other, takes the verdict on what comes back,
//! and answers the window once a rule has matched or none is left.

use vstd::prelude::*;
use vstd::string::*;
use vstd::utf8::*;
use crate::config::{entries_view, Config, Program, ProgramEntry, ProgramEntryView, ProgramView};
use crate::i3ipc::{messages_view, MessageType};
use crate::lisp::Evaluation;

verus! {

/// `strfmt::FmtError`, the refusal of a template. Nothing is known of what
/// one holds.
#[verifier::external_type_specification]
#[verifier::external_body]
pub struct ExFmtError(strfmt::FmtError);

/// What `strfmt::strfmt` makes of `template` when the one variable `key`
/// holds `value`: the formatted text, or `None` where it refuses the
/// template.
pub uninterp spec fn formatted(template: Seq<char>, key: Seq<char>, value: Seq<char>) -> Option<
    Seq<char>,
>;

/// Calls `strfmt::strfmt` with a map of one entry, `key` to `value`. The
/// contract names the outcome: it depends on the three strings alone.
#[verifier::external_body]
fn strfmt_one(template: &str, key: &str, value: &str) -> (r: Result<String, strfmt::FmtError>)
    ensures
        match r {
            Ok(text) => formatted(template@, key@, value@) == Some(text@),
            Err(_) => formatted(template@, key@, value@) is None,
        },
{
    let mut vars = std::collections::HashMap::with_capacity(1);
    vars.insert(key.to_string(), value.to_string());
    strfmt::strfmt(template, &vars)
}

/// What `Display` prints for a `strfmt::FmtError`.
#[verifier::external_body]
fn fmt_error_text(error: &strfmt::FmtError) -> String {
    error.to_string()
}

/// A command template that could not be filled in.
#[derive(Debug, PartialEq, Eq)]
pub struct TemplateError {
    pub message: String,
}

/// What the evaluation of a rule means for the rule.
#[derive(Debug, PartialEq, Eq)]
pub enum Trial {
    /// The rule does not match.
    NoMatch,
    /// The evaluation failed, with this message; the rule does not match.
    Failed(String),
    /// The rule matches, and this is its command.
    Matched(String),
}

/// The mathematical value of a [`Trial`].
pub ghost enum TrialView {
    NoMatch,
    Failed(Seq<char>),
    Matched(Seq<char>),
}

impl View for Trial {
    type V = TrialView;

    open spec fn view(&self) -> TrialView {
        match self {
            Trial::NoMatch => TrialView::NoMatch,
            Trial::Failed(message) => TrialView::Failed(message@),
            Trial::Matched(command) => TrialView::Matched(command@),
        }
    }
}

/// The rules that still wait for their window, in the order of the
/// configuration.
#[derive(Debug, PartialEq, Eq)]
pub struct ProgramRegistry {
    pub entries: Vec<ProgramEntry>,
}

impl View for ProgramRegistry {
    type V = Seq<ProgramEntryView>;

    open spec fn view(&self) -> Seq<ProgramEntryView> {
        entries_view(self.entries@)
    }
}

/// What the engine answers to one window event.
#[derive(Debug, PartialEq, Eq)]
pub struct Reaction {
    /// The messages to send to the window manager: none, or one command.
    pub messages: Vec<(MessageType, Vec<u8>)>,
    /// The place that the matched rule had in the registry.
    pub matched: Option<usize>,
    /// Whether this event took the last entry out of the registry.
    pub completed: bool,
    /// The rules whose evaluation failed, each with its place in the
    /// registry and the message of the failure, for the log.
    pub failed: Vec<(usize, String)>,
}

/// The mathematical value of a [`Reaction`].
pub ghost struct ReactionView {
    pub messages: Seq<(MessageType, Seq<u8>)>,
    pub matched: Option<usize>,
    pub completed: bool,
    pub failed: Seq<(usize, Seq<char>)>,
}

/// The mathematical value of a list of failures.
pub open spec fn failures_view(failed: Seq<(usize, String)>) -> Seq<(usize, Seq<char>)> {
    failed.map_values(|failure: (usize, String)| (failure.0, failure.1@))
}

impl View for Reaction {
    type V = ReactionView;

    open spec fn view(&self) -> ReactionView {
        ReactionView {
            messages: messages_view(self.messages@),
            matched: self.matched,
            completed: self.completed,
            failed: failures_view(self.failed@),
        }
    }
}

/// The name of the placeholder that stands for the result of a rule in its
/// command template.
pub open spec fn result_key() -> Seq<char> {
    "result"@
}

/// What follows from the evaluation of a rule. A failed evaluation and the
/// value `F` are no match. Any other value is a match, and the command is
/// what the template gives for the printed value; a template that cannot
/// be filled in is an error.
pub open spec fn verdict(program: ProgramView, evaluation: Evaluation) -> Result<TrialView, ()> {
    match evaluation {
        Evaluation::Failed { message } => Ok(TrialView::Failed(message@)),
        Evaluation::Returned { is_false, text } => if is_false {
            Ok(TrialView::NoMatch)
        } else {
            match formatted(program.cmd, result_key(), text@) {
                Some(command) => Ok(TrialView::Matched(command)),
                None => Err(()),
            }
        },
    }
}

/// Decides from the evaluation of a rule whether the rule matched, and
/// fills in its command.
pub fn judge(program: &Program, evaluation: Evaluation) -> (r: Result<Trial, TemplateError>)
    ensures
        match r {
            Ok(trial) => verdict(program@, evaluation) == Ok::<TrialView, ()>(trial@),
            Err(_) => verdict(program@, evaluation) is Err,
        },
{
    match evaluation {
        Evaluation::Failed { message } => Ok(Trial::Failed(message)),
        Evaluation::Returned { is_false, text } => {
            if is_false {
                Ok(Trial::NoMatch)
            } else {
                match strfmt_one(program.cmd.as_str(), "result", text.as_str()) {
                    Ok(command) => Ok(Trial::Matched(command)),
                    Err(error) => Err(TemplateError { message: fmt_error_text(&error) }),
                }
            }
        },
    }
}

/// How one window event may change the registry: it stays as it is and
/// nothing is sent, or one rule leaves it, the others stay in their order,
/// one command is sent, and the event completes the work exactly if the
/// registry is then empty.
pub open spec fn consumed(
    before: Seq<ProgramEntryView>,
    after: Seq<ProgramEntryView>,
    reaction: ReactionView,
) -> bool {
    match reaction.matched {
        None => {
            &&& after == before
            &&& reaction.messages.len() == 0
            &&& !reaction.completed
        },
        Some(index) => {
            &&& index < before.len()
            &&& before[index as int] is Program
            &&& after == before.remove(index as int)
            &&& reaction.messages.len() == 1
            &&& reaction.messages[0].0 == MessageType::Command
            &&& reaction.completed == (after.len() == 0)
        },
    }
}

/// An event matches at most one rule: what it sends is at most one message,
/// and a rule leaves the registry exactly if a message is sent. The rules
/// that stay keep their order: each stands where it stood, or one place
/// further to the front if it stood behind the matched rule.
pub proof fn lemma_consumed_keeps_order(
    before: Seq<ProgramEntryView>,
    after: Seq<ProgramEntryView>,
    reaction: ReactionView,
)
    requires
        consumed(before, after, reaction),
    ensures
        reaction.messages.len() <= 1,
        after.len() + reaction.messages.len() == before.len(),
        match reaction.matched {
            None => after == before,
            Some(index) => forall|j: int|
                0 <= j < after.len() ==> #[trigger] after[j] == before[if j < index {
                    j
                } else {
                    j + 1
                }],
        },
{
}

/// Only a rule is ever matched: a pause stays in the registry, and a
/// registry that holds no rule sends nothing.
pub proof fn lemma_pauses_never_match(
    before: Seq<ProgramEntryView>,
    after: Seq<ProgramEntryView>,
    reaction: ReactionView,
)
    requires
        consumed(before, after, reaction),
    ensures
        reaction.matched matches Some(index) ==> before[index as int] is Program,
        (forall|i: int| 0 <= i < before.len() ==> before[i] is Signal) ==> reaction.matched is None
            && after == before,
{
}

/// Whether `states` and `reactions` record a run of events: each event
/// takes the registry from one state to the next.
pub open spec fn is_run(states: Seq<Seq<ProgramEntryView>>, reactions: Seq<ReactionView>) -> bool {
    &&& states.len() == reactions.len() + 1
    &&& forall|k: int|
        0 <= k < reactions.len() ==> consumed(states[k], states[k + 1], #[trigger] reactions[k])
}

/// An event completes the work only by taking the last entry out of the
/// registry.
pub proof fn lemma_completed_empties(
    before: Seq<ProgramEntryView>,
    after: Seq<ProgramEntryView>,
    reaction: ReactionView,
)
    requires
        consumed(before, after, reaction),
    ensures
        reaction.completed <==> before.len() == 1 && after.len() == 0,
        before.len() == 0 ==> after.len() == 0 && reaction.matched is None,
{
}

/// In a run of events at most one completes the work: once the registry is
/// empty it stays empty, and no later event matches.
pub proof fn lemma_completed_once(
    states: Seq<Seq<ProgramEntryView>>,
    reactions: Seq<ReactionView>,
    i: int,
    j: int,
)
    requires
        is_run(states, reactions),
        0 <= i < j < reactions.len(),
    ensures
        !(reactions[i].completed && reactions[j].completed),
{
    if reactions[i].completed {
        lemma_stays_empty(states, reactions, i + 1, j);
        lemma_completed_empties(states[j], states[j + 1], reactions[j]);
    }
}

/// A registry that is empty in a run stays empty.
proof fn lemma_stays_empty(
    states: Seq<Seq<ProgramEntryView>>,
    reactions: Seq<ReactionView>,
    from: int,
    to: int,
)
    requires
        is_run(states, reactions),
        0 <= from <= to < states.len(),
        states[from].len() == 0,
    ensures
        states[to].len() == 0,
    decreases to - from,
{
    if from < to {
        lemma_completed_empties(states[from], states[from + 1], reactions[from]);
        lemma_stays_empty(states, reactions, from + 1, to);
    }
}

/// The first place from `from` on that holds a rule.
pub open spec fn next_rule(entries: Seq<ProgramEntryView>, from: int) -> Option<int>
    decreases entries.len() - from,
{
    if from < 0 || from >= entries.len() {
        None
    } else if entries[from] is Program {
        Some(from)
    } else {
        next_rule(entries, from + 1)
    }
}

/// `next_rule` finds a rule, and it is the first one: before it, from
/// `from` on, stand pauses only; and where it finds none, there is none.
pub proof fn lemma_next_rule(entries: Seq<ProgramEntryView>, from: int)
    requires
        0 <= from,
    ensures
        match next_rule(entries, from) {
            Some(place) => from <= place < entries.len() && entries[place] is Program && forall|
                i: int,
            | from <= i < place ==> entries[i] is Signal,
            None => forall|i: int| from <= i < entries.len() ==> entries[i] is Signal,
        },
    decreases entries.len() - from,
{
    if from < entries.len() && !(entries[from] is Program) {
        lemma_next_rule(entries, from + 1);
    }
}

impl ProgramRegistry {
    /// The registry at startup: a copy of the configuration's programs.
    pub fn new(config: &Config) -> (registry: ProgramRegistry)
        ensures
            registry@ == config@.programs,
    {
        let mut entries: Vec<ProgramEntry> = Vec::new();
        let mut i: usize = 0;
        while i < config.programs.len()
            invariant
                i <= config.programs@.len(),
                entries@.len() == i,
                forall|j: int| 0 <= j < i ==> (#[trigger] entries@[j])@ == config.programs@[j]@,
            decreases config.programs@.len() - i,
        {
            entries.push(config.programs[i].duplicate());
            i = i + 1;
        }
        let registry = ProgramRegistry { entries };
        assert(registry@ =~= config@.programs);
        registry
    }

    /// The number of entries that are left.
    pub fn len(&self) -> (len: usize)
        ensures
            len == self@.len(),
    {
        self.entries.len()
    }

    /// Whether no entry is left.
    pub fn is_empty(&self) -> (empty: bool)
        ensures
            empty == (self@.len() == 0),
    {
        self.entries.len() == 0
    }

    /// The first place from `from` on that holds a rule.
    pub fn next_rule(&self, from: usize) -> (place: Option<usize>)
        ensures
            match place {
                Some(found) => next_rule(self@, from as int) == Some(found as int),
                None => next_rule(self@, from as int) is None,
            },
    {
        let mut i: usize = from;
        while i < self.entries.len()
            invariant
                from <= i,
                next_rule(self@, from as int) == next_rule(self@, i as int),
            decreases self.entries@.len() - i,
        {
            assert(self@[i as int] == self.entries@[i as int]@);
            match &self.entries[i] {
                ProgramEntry::Program(_) => {
                    return Some(i);
                },
                ProgramEntry::Signal(_) => {},
            }
            i = i + 1;
        }
        None
    }
}

/// Carries out the verdict on the rule at `place`. A rule that matched
/// leaves the registry, and the reaction holds its command and the
/// failures noted so far. A rule that failed is noted. Else, and where
/// `place` is none of the registry, nothing changes.
pub fn settle_trial(
    programs: &mut ProgramRegistry,
    place: usize,
    trial: Trial,
    failed: &mut Vec<(usize, String)>,
) -> (done: Option<Reaction>)
    ensures
        if place >= old(programs)@.len() {
            &&& done is None
            &&& final(programs)@ == old(programs)@
            &&& failures_view(final(failed)@) == failures_view(old(failed)@)
        } else {
            match trial@ {
                TrialView::Matched(command) => {
                    &&& final(programs)@ == old(programs)@.remove(place as int)
                    &&& failures_view(final(failed)@) == Seq::<(usize, Seq<char>)>::empty()
                    &&& done matches Some(reaction) && reaction@ == (ReactionView {
                        messages: seq![(MessageType::Command, encode_utf8(command))],
                        matched: Some(place),
                        completed: old(programs)@.len() == 1,
                        failed: failures_view(old(failed)@),
                    })
                },
                TrialView::Failed(message) => {
                    &&& done is None
                    &&& final(programs)@ == old(programs)@
                    &&& failures_view(final(failed)@) == failures_view(old(failed)@).push(
                        (place, message),
                    )
                },
                TrialView::NoMatch => {
                    &&& done is None
                    &&& final(programs)@ == old(programs)@
                    &&& failures_view(final(failed)@) == failures_view(old(failed)@)
                },
            }
        },
{
    if place >= programs.entries.len() {
        return None;
    }
    match trial {
        Trial::Matched(command) => {
            let ghost before = programs@;
            programs.entries.remove(place);
            assert(programs@ =~= before.remove(place as int));
            let mut messages: Vec<(MessageType, Vec<u8>)> = Vec::new();
            messages.push((MessageType::Command, command.as_str().as_bytes_vec()));
            let mut noted: Vec<(usize, String)> = Vec::new();
            core::mem::swap(&mut noted, failed);
            let completed = programs.entries.len() == 0;
            let reaction = Reaction { messages, matched: Some(place), completed, failed: noted };
            assert(reaction@.messages =~= seq![(MessageType::Command, encode_utf8(command@))]);
            assert(failures_view(failed@) =~= Seq::empty());
            Some(reaction)
        },
        Trial::Failed(message) => {
            let ghost before = failed@;
            failed.push((place, message));
            assert(failures_view(failed@) =~= failures_view(before).push((place, message@)));
            None
        },
        Trial::NoMatch => None,
    }
}

/// What the caller reports to the matcher.
#[derive(Debug, PartialEq, Eq)]
pub enum Finding {
    /// A window has appeared.
    Window,
    /// What came of evaluating the rule that was asked for.
    Evaluation(Evaluation),
}

/// What the matcher asks of its caller.
#[derive(Debug, PartialEq, Eq)]
pub enum Ask {
    /// Evaluate the rule at this place of the registry against the window,
    /// after the expressions of the configuration's `init`, and report
    /// what came of it.
    Evaluate { place: usize },
    /// The window is dealt with: this is the answer to it.
    Done(Reaction),
    /// No evaluation was asked for: nothing has changed.
    Ignored,
}

/// The mathematical value of an [`Ask`].
pub ghost enum AskView {
    Evaluate { place: usize },
    Done(ReactionView),
    Ignored,
}

impl View for Ask {
    type V = AskView;

    open spec fn view(&self) -> AskView {
        match self {
            Ask::Evaluate { place } => AskView::Evaluate { place: *place },
            Ask::Done(reaction) => AskView::Done(reaction@),
            Ask::Ignored => AskView::Ignored,
        }
    }
}

/// The engine that matches windows against the rules that wait: the
/// configuration, the registry, and where the search for the window at hand
/// stands.
#[derive(Debug, PartialEq, Eq)]
pub struct WindowMatcher {
    pub config: Config,
    pub programs: ProgramRegistry,
    /// The place of the rule whose evaluation was asked for.
    pub scanning: Option<usize>,
    /// The rules whose evaluation failed for the window at hand.
    pub failed: Vec<(usize, String)>,
    /// Whether a window has taken the last entry out of the registry.
    pub completed: bool,
}

/// The mathematical value of a [`WindowMatcher`], without its
/// configuration.
pub ghost struct MatcherView {
    pub programs: Seq<ProgramEntryView>,
    pub scanning: Option<usize>,
    pub failed: Seq<(usize, Seq<char>)>,
    pub completed: bool,
}

impl View for WindowMatcher {
    type V = MatcherView;

    open spec fn view(&self) -> MatcherView {
        MatcherView {
            programs: self.programs@,
            scanning: self.scanning,
            failed: failures_view(self.failed@),
            completed: self.completed,
        }
    }
}

impl MatcherView {
    /// The matcher with no search under way.
    pub open spec fn at_rest(self) -> MatcherView {
        MatcherView { scanning: None, failed: Seq::empty(), ..self }
    }

    /// The search goes on at `from`: the next rule is to be evaluated, or,
    /// where none is left, the window matched nothing.
    pub open spec fn proceed(self, from: int) -> (MatcherView, AskView) {
        match next_rule(self.programs, from) {
            Some(place) => (
                MatcherView { scanning: Some(place as usize), ..self },
                AskView::Evaluate { place: place as usize },
            ),
            None => (
                self.at_rest(),
                AskView::Done(
                    ReactionView {
                        messages: Seq::empty(),
                        matched: None,
                        completed: false,
                        failed: self.failed,
                    },
                ),
            ),
        }
    }

    /// The verdict on the rule at `place` is carried out: a rule that
    /// matched leaves and ends the search, the others are passed over.
    pub open spec fn settled(self, place: usize, trial: TrialView) -> (MatcherView, AskView) {
        match trial {
            TrialView::Matched(command) => (
                MatcherView {
                    programs: self.programs.remove(place as int),
                    completed: self.completed || self.programs.len() == 1,
                    ..self.at_rest()
                },
                AskView::Done(
                    ReactionView {
                        messages: seq![(MessageType::Command, encode_utf8(command))],
                        matched: Some(place),
                        completed: self.programs.len() == 1,
                        failed: self.failed,
                    },
                ),
            ),
            TrialView::Failed(message) => (MatcherView {
                failed: self.failed.push((place, message)),
                ..self
            }).proceed(place + 1),
            TrialView::NoMatch => self.proceed(place + 1),
        }
    }

    /// Whether the evaluation of a rule was asked for.
    pub open spec fn expects_evaluation(self) -> bool {
        &&& self.scanning matches Some(place)
        &&& place < self.programs.len()
        &&& self.programs[place as int] is Program
    }

    /// One step of the matcher. A window starts the search at the front of
    /// the registry. An evaluation that was asked for gets its verdict,
    /// which is carried out; a template that cannot be filled in ends the
    /// search with an error, `Err` of the matcher at rest. An evaluation
    /// that was not asked for changes nothing.
    pub open spec fn step(self, finding: Finding) -> Result<(MatcherView, AskView), MatcherView> {
        match finding {
            Finding::Window => Ok(self.at_rest().proceed(0)),
            Finding::Evaluation(evaluation) => if self.expects_evaluation() {
                let place = self.scanning->0;
                match verdict(self.programs[place as int]->Program_0, evaluation) {
                    Ok(trial) => Ok(self.settled(place, trial)),
                    Err(_) => Err(self.at_rest()),
                }
            } else {
                Ok((self, AskView::Ignored))
            },
        }
    }
}

impl MatcherView {
    /// The answer to a window: the outcome of the whole search from
    /// `from` on, where `evaluations` says what the evaluation of the rule
    /// at each place gives. Pauses are passed over, and so are rules that
    /// fail or give `F`; the first rule that matches leaves the registry;
    /// a template that cannot be filled in is an error.
    pub open spec fn search(self, from: int, evaluations: spec_fn(int) -> Evaluation) -> Result<
        (MatcherView, ReactionView),
        MatcherView,
    >
        decreases self.programs.len() - from,
    {
        if from < 0 || from >= self.programs.len() {
            Ok(
                (
                    self.at_rest(),
                    ReactionView {
                        messages: Seq::empty(),
                        matched: None,
                        completed: false,
                        failed: self.failed,
                    },
                ),
            )
        } else {
            match self.programs[from] {
                ProgramEntryView::Signal(_) => self.search(from + 1, evaluations),
                ProgramEntryView::Program(program) => match verdict(program, evaluations(from)) {
                    Err(_) => Err(self.at_rest()),
                    Ok(TrialView::NoMatch) => self.search(from + 1, evaluations),
                    Ok(TrialView::Failed(message)) => (MatcherView {
                        failed: self.failed.push((from as usize, message)),
                        ..self
                    }).search(from + 1, evaluations),
                    Ok(TrialView::Matched(command)) => Ok(
                        (
                            MatcherView {
                                programs: self.programs.remove(from),
                                completed: self.completed || self.programs.len() == 1,
                                ..self.at_rest()
                            },
                            ReactionView {
                                messages: seq![(MessageType::Command, encode_utf8(command))],
                                matched: Some(from as usize),
                                completed: self.programs.len() == 1,
                                failed: self.failed,
                            },
                        ),
                    ),
                },
            }
        }
    }
}

/// The search does not depend on the rule that was asked about last.
pub proof fn lemma_search_ignores_scanning(
    matcher: MatcherView,
    scanning: Option<usize>,
    from: int,
    evaluations: spec_fn(int) -> Evaluation,
)
    ensures
        (MatcherView { scanning, ..matcher }).search(from, evaluations) == matcher.search(
            from,
            evaluations,
        ),
    decreases matcher.programs.len() - from,
{
    let other = MatcherView { scanning, ..matcher };
    assert(other.at_rest() == matcher.at_rest());
    if 0 <= from < matcher.programs.len() {
        match matcher.programs[from] {
            ProgramEntryView::Signal(_) => {
                lemma_search_ignores_scanning(matcher, scanning, from + 1, evaluations);
            },
            ProgramEntryView::Program(program) => {
                match verdict(program, evaluations(from)) {
                    Ok(TrialView::NoMatch) => {
                        lemma_search_ignores_scanning(matcher, scanning, from + 1, evaluations);
                    },
                    Ok(TrialView::Failed(message)) => {
                        let noted = MatcherView {
                            failed: matcher.failed.push((from as usize, message)),
                            ..matcher
                        };
                        lemma_search_ignores_scanning(noted, scanning, from + 1, evaluations);
                        assert((MatcherView { scanning, ..noted }) == (MatcherView {
                            failed: other.failed.push((from as usize, message)),
                            ..other
                        }));
                    },
                    _ => {},
                }
            },
        }
    }
}

/// Going on at `from` asks about the rule at which the search from `from`
/// goes on, or gives the answer of that search where no rule is left.
pub proof fn lemma_proceed_follows_search(
    matcher: MatcherView,
    from: int,
    evaluations: spec_fn(int) -> Evaluation,
)
    requires
        0 <= from,
        matcher.programs.len() <= usize::MAX,
    ensures
        match matcher.proceed(from) {
            (after, AskView::Evaluate { place }) => after.expects_evaluation() && after.scanning
                == Some(place) && from <= place && after.search(place as int, evaluations)
                == matcher.search(from, evaluations),
            (after, AskView::Done(reaction)) => matcher.search(from, evaluations) == Ok::<
                (MatcherView, ReactionView),
                MatcherView,
            >((after, reaction)),
            (after, AskView::Ignored) => false,
        },
    decreases matcher.programs.len() - from,
{
    if from < matcher.programs.len() {
        match matcher.programs[from] {
            ProgramEntryView::Signal(_) => {
                lemma_proceed_follows_search(matcher, from + 1, evaluations);
            },
            ProgramEntryView::Program(_) => {
                lemma_search_ignores_scanning(matcher, Some(from as usize), from, evaluations);
            },
        }
    }
}

/// The steps of the matcher carry out the search. A window starts the
/// search at the front. When the rule that was asked about is reported as
/// `evaluations` says, the step gives the answer of the search, or asks
/// about the rule at which the search goes on.
pub proof fn lemma_step_follows_search(
    matcher: MatcherView,
    finding: Finding,
    evaluations: spec_fn(int) -> Evaluation,
)
    requires
        matcher.programs.len() <= usize::MAX,
        finding matches Finding::Evaluation(evaluation) ==> matcher.expects_evaluation()
            && evaluation == evaluations(matcher.scanning->0 as int),
    ensures
        ({
            let whole = match finding {
                Finding::Window => matcher.at_rest().search(0, evaluations),
                Finding::Evaluation(_) => matcher.search(matcher.scanning->0 as int, evaluations),
            };
            match matcher.step(finding) {
                Ok((after, AskView::Evaluate { place })) => after.expects_evaluation()
                    && after.scanning == Some(place) && after.search(place as int, evaluations)
                    == whole,
                Ok((after, AskView::Done(reaction))) => whole == Ok::<
                    (MatcherView, ReactionView),
                    MatcherView,
                >((after, reaction)),
                Ok((after, AskView::Ignored)) => false,
                Err(after) => whole == Err::<(MatcherView, ReactionView), MatcherView>(after),
            }
        }),
{
    match finding {
        Finding::Window => {
            lemma_proceed_follows_search(matcher.at_rest(), 0, evaluations);
        },
        Finding::Evaluation(evaluation) => {
            let place = matcher.scanning->0;
            let program = matcher.programs[place as int]->Program_0;
            match verdict(program, evaluation) {
                Ok(TrialView::NoMatch) => {
                    lemma_proceed_follows_search(matcher, place + 1, evaluations);
                },
                Ok(TrialView::Failed(message)) => {
                    let noted = MatcherView {
                        failed: matcher.failed.push((place, message)),
                        ..matcher
                    };
                    lemma_proceed_follows_search(noted, place + 1, evaluations);
                },
                _ => {},
            }
        },
    }
}

/// Whether the rule at `place` matches where its evaluation gives what
/// `evaluations` says: it is a rule, and the verdict on it is a match.
pub open spec fn matches_at(
    programs: Seq<ProgramEntryView>,
    place: int,
    evaluations: spec_fn(int) -> Evaluation,
) -> bool {
    &&& 0 <= place < programs.len()
    &&& programs[place] is Program
    &&& verdict(programs[place]->Program_0, evaluations(place)) matches Ok(TrialView::Matched(_))
}

/// Whether the rule at `place` ends the search with an error.
pub open spec fn refused_at(
    programs: Seq<ProgramEntryView>,
    place: int,
    evaluations: spec_fn(int) -> Evaluation,
) -> bool {
    &&& 0 <= place < programs.len()
    &&& programs[place] is Program
    &&& verdict(programs[place]->Program_0, evaluations(place)) is Err
}

/// The first rule that matches is the one that leaves: where the rule at
/// `place` matches and no rule before it, from `from` on, matches or is
/// refused, the search takes the rule at `place` out of the registry, all
/// others stay in their order, and the answer is the one command that the
/// template of that rule gives for the printed result of its evaluation.
pub proof fn lemma_first_match_wins(
    matcher: MatcherView,
    from: int,
    place: int,
    evaluations: spec_fn(int) -> Evaluation,
)
    requires
        0 <= from <= place,
        matcher.programs.len() <= usize::MAX,
        matches_at(matcher.programs, place, evaluations),
        forall|i: int|
            from <= i < place ==> !matches_at(matcher.programs, i, evaluations) && !refused_at(
                matcher.programs,
                i,
                evaluations,
            ),
    ensures
        matcher.search(from, evaluations) matches Ok((after, reaction)) && {
            &&& after.programs == matcher.programs.remove(place)
            &&& after.scanning is None
            &&& reaction.matched == Some(place as usize)
            &&& reaction.completed == (matcher.programs.len() == 1)
            &&& after.completed == (matcher.completed || reaction.completed)
            &&& reaction.messages == seq![
                (
                    MessageType::Command,
                    encode_utf8(
                        formatted(
                            matcher.programs[place]->Program_0.cmd,
                            result_key(),
                            evaluations(place)->Returned_text@,
                        )->0,
                    ),
                ),
            ]
        },
    decreases place - from,
{
    if from < place {
        assert(!matches_at(matcher.programs, from, evaluations));
        assert(!refused_at(matcher.programs, from, evaluations));
        match matcher.programs[from] {
            ProgramEntryView::Signal(_) => {
                lemma_first_match_wins(matcher, from + 1, place, evaluations);
            },
            ProgramEntryView::Program(program) => {
                match verdict(program, evaluations(from)) {
                    Ok(TrialView::Failed(message)) => {
                        let noted = MatcherView {
                            failed: matcher.failed.push((from as usize, message)),
                            ..matcher
                        };
                        lemma_first_match_wins(noted, from + 1, place, evaluations);
                    },
                    _ => {
                        lemma_first_match_wins(matcher, from + 1, place, evaluations);
                    },
                }
            },
        }
    }
}

/// Where no rule matches, nothing happens: where no rule from `from` on
/// matches or is refused, the search leaves the registry as it is and the
/// answer is empty.
pub proof fn lemma_no_match_changes_nothing(
    matcher: MatcherView,
    from: int,
    evaluations: spec_fn(int) -> Evaluation,
)
    requires
        0 <= from,
        forall|i: int|
            from <= i < matcher.programs.len() ==> !matches_at(matcher.programs, i, evaluations)
                && !refused_at(matcher.programs, i, evaluations),
    ensures
        matcher.search(from, evaluations) matches Ok((after, reaction)) && {
            &&& after.programs == matcher.programs
            &&& after.completed == matcher.completed
            &&& after.scanning is None
            &&& reaction.matched is None
            &&& reaction.messages.len() == 0
            &&& !reaction.completed
        },
    decreases matcher.programs.len() - from,
{
    if from < matcher.programs.len() {
        assert(!matches_at(matcher.programs, from, evaluations));
        assert(!refused_at(matcher.programs, from, evaluations));
        match matcher.programs[from] {
            ProgramEntryView::Signal(_) => {
                lemma_no_match_changes_nothing(matcher, from + 1, evaluations);
            },
            ProgramEntryView::Program(program) => {
                match verdict(program, evaluations(from)) {
                    Ok(TrialView::Failed(message)) => {
                        let noted = MatcherView {
                            failed: matcher.failed.push((from as usize, message)),
                            ..matcher
                        };
                        lemma_no_match_changes_nothing(noted, from + 1, evaluations);
                    },
                    _ => {
                        lemma_no_match_changes_nothing(matcher, from + 1, evaluations);
                    },
                }
            },
        }
    }
}

/// A step changes the registry only where it ends the search with a
/// match, and then as [`consumed`] says; an error changes nothing of it.
pub proof fn lemma_step_consumes(matcher: MatcherView, finding: Finding)
    ensures
        match matcher.step(finding) {
            Ok((after, AskView::Done(reaction))) => consumed(
                matcher.programs,
                after.programs,
                reaction,
            ),
            Ok((after, _)) => after.programs == matcher.programs,
            Err(after) => after.programs == matcher.programs,
        },
{
    match finding {
        Finding::Window => {
            lemma_next_rule(matcher.programs, 0);
        },
        Finding::Evaluation(evaluation) => {
            if matcher.expects_evaluation() {
                lemma_next_rule(matcher.programs, matcher.scanning->0 + 1);
            }
        },
    }
}

/// A step asks for the evaluation of a rule only, and of the first one
/// that stands behind the rule evaluated last, or, for a new window, the
/// first of the registry.
pub proof fn lemma_step_asks_in_order(matcher: MatcherView, finding: Finding)
    requires
        matcher.programs.len() <= usize::MAX,
    ensures
        matcher.step(finding) matches Ok((after, AskView::Evaluate { place })) ==> {
            &&& after.expects_evaluation()
            &&& after.scanning == Some(place)
            &&& next_rule(
                matcher.programs,
                if finding is Window {
                    0
                } else {
                    matcher.scanning->0 + 1
                },
            ) == Some(place as int)
        },
{
    match finding {
        Finding::Window => {
            lemma_next_rule(matcher.programs, 0);
        },
        Finding::Evaluation(evaluation) => {
            if matcher.expects_evaluation() {
                lemma_next_rule(matcher.programs, matcher.scanning->0 + 1);
            }
        },
    }
}

impl WindowMatcher {
    /// The matcher at startup: every program of the configuration waits.
    pub fn new(config: Config) -> (matcher: WindowMatcher)
        ensures
            matcher.config == config,
            matcher@ == (MatcherView {
                programs: config@.programs,
                scanning: None,
                failed: Seq::empty(),
                completed: false,
            }),
    {
        let programs = ProgramRegistry::new(&config);
        let matcher = WindowMatcher {
            config,
            programs,
            scanning: None,
            failed: Vec::new(),
            completed: false,
        };
        assert(matcher@.failed =~= Seq::empty());
        matcher
    }

    /// The rule at `place`, where a rule stands there.
    pub fn rule(&self, place: usize) -> (rule: Option<&Program>)
        ensures
            match rule {
                Some(program) => place < self@.programs.len() && self@.programs[place as int]
                    == ProgramEntryView::Program(program@),
                None => !(place < self@.programs.len() && self@.programs[place as int] is Program),
            },
    {
        if place < self.programs.entries.len() {
            assert(self@.programs[place as int] == self.programs.entries@[place as int]@);
            match &self.programs.entries[place] {
                ProgramEntry::Program(program) => Some(program),
                ProgramEntry::Signal(_) => None,
            }
        } else {
            None
        }
    }

    /// What is to be evaluated for the rule at `place`, in this order: the
    /// `init` of the configuration, then the `match_` of the rule.
    pub fn scripts(&self, place: usize) -> (scripts: Option<Vec<String>>)
        ensures
            match scripts {
                Some(sources) => place < self@.programs.len() && self@.programs[place as int]
                    is Program && sources@.map_values(|source: String| source@) == seq![
                    self.config@.init,
                    self@.programs[place as int]->Program_0.match_,
                ],
                None => !(place < self@.programs.len() && self@.programs[place as int] is Program),
            },
    {
        match self.rule(place) {
            Some(program) => {
                let mut sources: Vec<String> = Vec::new();
                sources.push(self.config.init.source.clone());
                sources.push(program.match_.source.clone());
                assert(sources@.map_values(|source: String| source@) =~= seq![
                    self.config@.init,
                    program@.match_,
                ]);
                Some(sources)
            },
            None => None,
        }
    }

    /// Puts the search to rest.
    fn rest(&mut self)
        ensures
            final(self)@ == old(self)@.at_rest(),
            final(self).config == old(self).config,
    {
        self.scanning = None;
        self.failed = Vec::new();
        assert(failures_view(self.failed@) =~= Seq::empty());
    }

    /// Goes on with the search at `from`.
    fn proceed(&mut self, from: usize) -> (ask: Ask)
        ensures
            (final(self)@, ask@) == old(self)@.proceed(from as int),
            final(self).config == old(self).config,
    {
        match self.programs.next_rule(from) {
            Some(place) => {
                self.scanning = Some(place);
                Ask::Evaluate { place }
            },
            None => {
                let mut failed: Vec<(usize, String)> = Vec::new();
                core::mem::swap(&mut failed, &mut self.failed);
                self.scanning = None;
                let reaction = Reaction {
                    messages: Vec::new(),
                    matched: None,
                    completed: false,
                    failed,
                };
                assert(reaction@.messages =~= Seq::empty());
                assert(failures_view(self.failed@) =~= Seq::empty());
                Ask::Done(reaction)
            },
        }
    }
}

/// One step of matching a window against the rules that wait.
///
/// A window starts a search through the registry, in its order; entries
/// that are no rules are passed over. The matcher asks for the evaluation
/// of one rule at a time, and the caller runs the interpreter and reports
/// what came of it. The first rule whose evaluation gives a value other
/// than `F` is taken out of the registry and its command, with the printed
/// value filled in, is the answer. A rule whose evaluation fails does not
/// match; the failure is noted. Where no rule matches, the answer is
/// empty. A template that cannot be filled in ends the search with an
/// error and leaves the registry as it was.
pub fn new_window_cb(matcher: &mut WindowMatcher, finding: Finding) -> (r: Result<
    Ask,
    TemplateError,
>)
    ensures
        final(matcher).config == old(matcher).config,
        match old(matcher)@.step(finding) {
            Ok((after, ask)) => final(matcher)@ == after && (r matches Ok(given) && given@ == ask),
            Err(after) => final(matcher)@ == after && r is Err,
        },
{
    match finding {
        Finding::Window => {
            matcher.rest();
            Ok(matcher.proceed(0))
        },
        Finding::Evaluation(evaluation) => {
            let place = match matcher.scanning {
                Some(place) => place,
                None => {
                    return Ok(Ask::Ignored);
                },
            };
            if place >= matcher.programs.entries.len() {
                return Ok(Ask::Ignored);
            }
            assert(matcher@.programs[place as int] == matcher.programs.entries@[place as int]@);
            let judged = match &matcher.programs.entries[place] {
                ProgramEntry::Program(program) => judge(program, evaluation),
                ProgramEntry::Signal(_) => {
                    return Ok(Ask::Ignored);
                },
            };
            match judged {
                Err(error) => {
                    matcher.rest();
                    Err(error)
                },
                Ok(trial) => {
                    match settle_trial(&mut matcher.programs, place, trial, &mut matcher.failed) {
                        Some(reaction) => {
                            matcher.scanning = None;
                            if reaction.completed {
                                matcher.completed = true;
                            }
                            Ok(Ask::Done(reaction))
                        },
                        None => Ok(matcher.proceed(place + 1)),
                    }
                },
            }
        },
    }
}

/// What is left to do once the startup sequence and the event loop are
/// over.
#[derive(Debug, PartialEq, Eq)]
pub struct Closing {
    /// The number of entries that are still in the registry. More than
    /// none is worth a warning and no failure.
    pub unconsumed: usize,
    /// The last message to send: the command of the configuration, if it
    /// has one, whether or not every rule found its window.
    pub message: Option<(MessageType, Vec<u8>)>,
}

/// The last message of a configuration: its command, if it has one.
pub open spec fn last_message(command: Option<Seq<char>>) -> Option<(MessageType, Seq<u8>)> {
    match command {
        Some(text) => Some((MessageType::Command, encode_utf8(text))),
        None => None,
    }
}

impl WindowMatcher {
    /// What is left to do once the startup sequence and the event loop
    /// are over.
    pub fn finish(&self) -> (closing: Closing)
        ensures
            closing.unconsumed == self.programs@.len(),
            (match closing.message {
                Some(message) => Some((message.0, message.1@)),
                None => None,
            }) == last_message(self.config@.cmd),
    {
        let message = match &self.config.cmd {
            Some(command) => Some((MessageType::Command, command.as_str().as_bytes_vec())),
            None => None,
        };
        Closing { unconsumed: self.programs.len(), message }
    }
}


} // verus!
