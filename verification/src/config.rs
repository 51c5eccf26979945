//! The configuration of the agent: what to wait for and what to run.

use vstd::prelude::*;
use vstd::string::*;

verus! {

/// The mathematical value of an optional string.
pub open spec fn optional_text(text: Option<String>) -> Option<Seq<char>> {
    match text {
        Some(s) => Some(s@),
        None => None,
    }
}

/// A program in the rule language, held as its source text.
#[derive(Clone, Debug, PartialEq, Eq)]
pub struct Script {
    pub source: String,
}

impl View for Script {
    type V = Seq<char>;

    open spec fn view(&self) -> Seq<char> {
        self.source@
    }
}

impl Script {
    /// The program with the given source text.
    pub fn new(source: String) -> (script: Script)
        ensures
            script@ == source@,
    {
        Script { source }
    }

    /// A copy of the program.
    pub fn duplicate(&self) -> (copy: Script)
        ensures
            copy@ == self@,
    {
        Script { source: self.source.clone() }
    }
}

/// The lines, each followed by a line feed.
pub open spec fn joined_lines(lines: Seq<Seq<char>>) -> Seq<char>
    decreases lines.len(),
{
    if lines.len() == 0 {
        Seq::empty()
    } else {
        joined_lines(lines.drop_last()) + lines.last() + seq!['\n']
    }
}

/// The text of a `begin` block around expressions: `(begin`, a line feed,
/// each expression on a line of its own, and `)`.
pub open spec fn begin_text(lines: Seq<Seq<char>>) -> Seq<char> {
    "(begin\n"@ + joined_lines(lines) + ")"@
}

/// Writes a `begin` block around printed expressions.
pub fn begin_block(lines: &Vec<String>) -> (text: String)
    ensures
        text@ == begin_text(lines@.map_values(|line: String| line@)),
{
    let ghost all = lines@.map_values(|line: String| line@);
    let mut text = String::from_str("(begin\n");
    let mut i: usize = 0;
    proof {
        reveal_strlit("\n");
        assert(text@ =~= "(begin\n"@ + joined_lines(all.take(0)));
    }
    while i < lines.len()
        invariant
            i <= lines@.len(),
            all == lines@.map_values(|line: String| line@),
            "\n"@ == seq!['\n'],
            text@ == "(begin\n"@ + joined_lines(all.take(i as int)),
        decreases lines@.len() - i,
    {
        proof {
            let next = all.take(i as int + 1);
            assert(next.drop_last() == all.take(i as int));
            assert(next.last() == lines@[i as int]@);
        }
        text.append(lines[i].as_str());
        text.append("\n");
        assert(text@ =~= "(begin\n"@ + joined_lines(all.take(i as int + 1)));
        i = i + 1;
    }
    assert(all.take(i as int) == all);
    text.append(")");
    text
}

/// A rule that waits for a window: when `match_` holds of a window event,
/// `cmd` is sent. `run` is sent before, at startup.
#[derive(Clone, Debug, PartialEq, Eq)]
pub struct Program {
    pub match_: Script,
    pub cmd: String,
    pub run: Option<String>,
}

/// The mathematical value of a [`Program`].
pub ghost struct ProgramView {
    pub match_: Seq<char>,
    pub cmd: Seq<char>,
    pub run: Option<Seq<char>>,
}

impl View for Program {
    type V = ProgramView;

    open spec fn view(&self) -> ProgramView {
        ProgramView { match_: self.match_@, cmd: self.cmd@, run: optional_text(self.run) }
    }
}

/// A pause in the startup sequence: after `run` is sent, the sequence
/// waits for a signal, `timeout` milliseconds at most.
#[derive(Clone, Debug, PartialEq, Eq)]
pub struct Signal {
    pub run: Option<String>,
    pub timeout: u64,
}

/// The mathematical value of a [`Signal`].
pub ghost struct SignalView {
    pub run: Option<Seq<char>>,
    pub timeout: u64,
}

impl View for Signal {
    type V = SignalView;

    open spec fn view(&self) -> SignalView {
        SignalView { run: optional_text(self.run), timeout: self.timeout }
    }
}

impl Signal {
    /// The time to wait for a signal where the configuration gives none,
    /// in milliseconds.
    pub fn default_timeout() -> (timeout: u64)
        ensures
            timeout == 500,
    {
        500
    }
}

/// An entry of the configuration's list of programs.
#[derive(Clone, Debug, PartialEq, Eq)]
pub enum ProgramEntry {
    Program(Program),
    Signal(Signal),
}

/// The mathematical value of a [`ProgramEntry`].
pub ghost enum ProgramEntryView {
    Program(ProgramView),
    Signal(SignalView),
}

impl View for ProgramEntry {
    type V = ProgramEntryView;

    open spec fn view(&self) -> ProgramEntryView {
        match self {
            ProgramEntry::Program(program) => ProgramEntryView::Program(program@),
            ProgramEntry::Signal(signal) => ProgramEntryView::Signal(signal@),
        }
    }
}

/// The mathematical value of a list of entries.
pub open spec fn entries_view(entries: Seq<ProgramEntry>) -> Seq<ProgramEntryView> {
    entries.map_values(|entry: ProgramEntry| entry@)
}

/// Copies an optional string.
pub fn duplicate_text(text: &Option<String>) -> (copy: Option<String>)
    ensures
        optional_text(copy) == optional_text(*text),
{
    match text {
        Some(s) => Some(s.clone()),
        None => None,
    }
}

impl ProgramEntry {
    /// A copy of the entry.
    pub fn duplicate(&self) -> (copy: ProgramEntry)
        ensures
            copy@ == self@,
    {
        match self {
            ProgramEntry::Program(program) => ProgramEntry::Program(
                Program {
                    match_: program.match_.duplicate(),
                    cmd: program.cmd.clone(),
                    run: duplicate_text(&program.run),
                },
            ),
            ProgramEntry::Signal(signal) => ProgramEntry::Signal(
                Signal { run: duplicate_text(&signal.run), timeout: signal.timeout },
            ),
        }
    }
}

/// The whole configuration.
#[derive(Clone, Debug, PartialEq, Eq)]
pub struct Config {
    /// How long the agent listens for windows, in milliseconds.
    pub timeout: u64,
    /// Expressions that are evaluated before the `match_` of each rule.
    pub init: Script,
    pub programs: Vec<ProgramEntry>,
    /// A command to send when all else is done.
    pub cmd: Option<String>,
}

/// The mathematical value of a [`Config`].
pub ghost struct ConfigView {
    pub timeout: u64,
    pub init: Seq<char>,
    pub programs: Seq<ProgramEntryView>,
    pub cmd: Option<Seq<char>>,
}

impl View for Config {
    type V = ConfigView;

    open spec fn view(&self) -> ConfigView {
        ConfigView {
            timeout: self.timeout,
            init: self.init@,
            programs: entries_view(self.programs@),
            cmd: optional_text(self.cmd),
        }
    }
}

impl Config {
    /// The time to listen for windows where the configuration gives none,
    /// in milliseconds.
    pub fn default_timeout() -> (timeout: u64)
        ensures
            timeout == 3000,
    {
        3000
    }

    /// The `init` of a configuration that gives none: no expression.
    pub fn default_init() -> (init: Script)
        ensures
            init@ == Seq::<char>::empty(),
    {
        Script { source: String::new() }
    }

    /// The programs of a configuration that gives none.
    pub fn default_programs() -> (programs: Vec<ProgramEntry>)
        ensures
            programs@.len() == 0,
    {
        Vec::new()
    }
}

impl Default for Config {
    /// The configuration of an empty file.
    fn default() -> (config: Config)
        ensures
            config@ == (ConfigView {
                timeout: 3000,
                init: Seq::empty(),
                programs: Seq::empty(),
                cmd: None,
            }),
    {
        let config = Config {
            timeout: Config::default_timeout(),
            init: Config::default_init(),
            programs: Config::default_programs(),
            cmd: None,
        };
        assert(config@.programs =~= Seq::empty());
        config
    }
}

} // verus!
