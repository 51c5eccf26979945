//! Finding the socket of the window manager.
//!
//! The path comes from the environment where it is set there. Else the
//! window managers are asked for it in turn, each by a call of its program.
//! The caller reads the environment and runs the programs; the decisions
//! are taken here.

use vstd::prelude::*;
use vstd::string::*;
use crate::text::{lossy_text, utf8_lossy};

verus! {

/// The number of characters of `text` before its trailing line feeds.
pub open spec fn trimmed_len(text: Seq<char>) -> int
    decreases text.len(),
{
    if text.len() > 0 && text.last() == '\n' {
        trimmed_len(text.drop_last())
    } else {
        text.len() as int
    }
}

/// The text without its trailing line feeds.
pub open spec fn trim_line_feeds(text: Seq<char>) -> Seq<char> {
    text.take(trimmed_len(text))
}

/// What is left of a text without its trailing line feeds is a front part
/// of it that does not end in a line feed, and only line feeds were cut.
pub proof fn lemma_trimmed_len(text: Seq<char>)
    ensures
        0 <= trimmed_len(text) <= text.len(),
        trimmed_len(text) > 0 ==> text[trimmed_len(text) - 1] != '\n',
        forall|i: int| trimmed_len(text) <= i < text.len() ==> text[i] == '\n',
    decreases text.len(),
{
    if text.len() > 0 && text.last() == '\n' {
        let front = text.drop_last();
        lemma_trimmed_len(front);
        assert forall|i: int| trimmed_len(text) <= i < text.len() implies text[i] == '\n' by {
            if i < front.len() {
                assert(front[i] == text[i]);
            }
        }
        if trimmed_len(text) > 0 {
            assert(front[trimmed_len(text) - 1] == text[trimmed_len(text) - 1]);
        }
    }
}

/// The path that a window manager printed: its output as text, without the
/// trailing line feeds.
pub fn path_from_output(stdout: &[u8]) -> (path: String)
    ensures
        path@ == trim_line_feeds(lossy_text(stdout@)),
{
    let text = utf8_lossy(stdout);
    let mut end: usize = text.as_str().unicode_len();
    assert(text@.take(end as int) == text@);
    while end > 0 && text.as_str().get_char(end - 1) == '\n'
        invariant
            end <= text@.len(),
            trimmed_len(text@) == trimmed_len(text@.take(end as int)),
        decreases end,
    {
        proof {
            let front = text@.take(end as int);
            assert(front.last() == text@[end - 1]);
            assert(front.drop_last() == text@.take(end - 1));
        }
        end = end - 1;
    }
    proof {
        let front = text@.take(end as int);
        if end > 0 {
            assert(front.last() == text@[end - 1]);
        }
        assert(text@.take(text@.len() as int) == text@);
    }
    String::from_str(text.as_str().substring_char(0, end))
}

/// The programs that are asked for the path, in this order, and the flag
/// that makes them print it.
pub open spec fn candidates() -> Seq<Seq<char>> {
    seq!["i3"@, "sway"@]
}

/// The flag that makes a window manager print the path of its socket.
pub open spec fn path_flag() -> Seq<char> {
    "--get-socketpath"@
}

/// Where the search stands.
#[derive(Clone, Copy, Debug, PartialEq, Eq, Structural)]
pub enum Search {
    /// The environment has not been looked at.
    Environment,
    /// The candidate at this place has been asked.
    Asked(usize),
    /// The search is over.
    Over,
}

/// What the caller found out.
#[derive(Debug, PartialEq, Eq)]
pub enum Finding {
    /// The values of `I3SOCK` and `SWAYSOCK`, where they are set.
    Environment { i3sock: Option<String>, swaysock: Option<String> },
    /// The program ran: whether it reported success, and what it printed.
    Output { success: bool, stdout: Vec<u8> },
    /// The program could not be run.
    NotRun,
}

/// What the caller is to do next.
#[derive(Debug, PartialEq, Eq)]
pub enum Next {
    /// The path of the socket.
    Found(String),
    /// Run the program with the flag and report its output.
    Ask { program: &'static str, flag: &'static str },
    /// No socket can be found.
    Failed,
}

/// The mathematical value of a [`Next`].
pub ghost enum NextView {
    Found(Seq<char>),
    Ask { program: Seq<char>, flag: Seq<char> },
    Failed,
}

impl View for Next {
    type V = NextView;

    open spec fn view(&self) -> NextView {
        match self {
            Next::Found(path) => NextView::Found(path@),
            Next::Ask { program, flag } => NextView::Ask { program: program@, flag: flag@ },
            Next::Failed => NextView::Failed,
        }
    }
}

/// The step that asks the candidate at `place`, or gives up where there is
/// none.
pub open spec fn ask(place: int) -> (Search, NextView) {
    if 0 <= place < candidates().len() {
        (
            Search::Asked(place as usize),
            NextView::Ask { program: candidates()[place], flag: path_flag() },
        )
    } else {
        (Search::Over, NextView::Failed)
    }
}

/// One step of the search.
///
/// `I3SOCK` counts before `SWAYSOCK`, and both before any program. A
/// program that reports success gives the path; after one that does not,
/// the next is asked. A program that cannot be run ends the search, and so
/// does a finding that was not asked for.
pub open spec fn search_step(search: Search, finding: Finding) -> (Search, NextView) {
    match (search, finding) {
        (Search::Environment, Finding::Environment { i3sock, swaysock }) => match i3sock {
            Some(path) => (Search::Over, NextView::Found(path@)),
            None => match swaysock {
                Some(path) => (Search::Over, NextView::Found(path@)),
                None => ask(0),
            },
        },
        (Search::Asked(place), Finding::Output { success, stdout }) => if success {
            (Search::Over, NextView::Found(trim_line_feeds(lossy_text(stdout@))))
        } else {
            ask(place + 1)
        },
        _ => (Search::Over, NextView::Failed),
    }
}

/// Asks the candidate at `place`.
fn ask_candidate(place: usize) -> (r: (Search, Next))
    ensures
        (r.0, r.1@) == ask(place as int),
{
    if place == 0 {
        (Search::Asked(0), Next::Ask { program: "i3", flag: "--get-socketpath" })
    } else if place == 1 {
        (Search::Asked(1), Next::Ask { program: "sway", flag: "--get-socketpath" })
    } else {
        (Search::Over, Next::Failed)
    }
}

/// One step of the search for the socket: takes what the caller found out
/// and says what to do next.
pub fn get_socket_path(search: &mut Search, finding: Finding) -> (next: Next)
    ensures
        (*final(search), next@) == search_step(*old(search), finding),
{
    let (stage, next) = match (*search, finding) {
        (Search::Environment, Finding::Environment { i3sock, swaysock }) => match i3sock {
            Some(path) => (Search::Over, Next::Found(path)),
            None => match swaysock {
                Some(path) => (Search::Over, Next::Found(path)),
                None => ask_candidate(0),
            },
        },
        (Search::Asked(place), Finding::Output { success, stdout }) => {
            if success {
                (Search::Over, Next::Found(path_from_output(stdout.as_slice())))
            } else if place < 2 {
                ask_candidate(place + 1)
            } else {
                (Search::Over, Next::Failed)
            }
        },
        _ => (Search::Over, Next::Failed),
    };
    *search = stage;
    next
}

} // verus!
