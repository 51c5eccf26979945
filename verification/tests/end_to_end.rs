use i3toolwait::config::{Config, Program, ProgramEntry, Script};
use i3toolwait::i3ipc::{
    encode_message, CallbackError, Connection, MessageType, Progress, Subscriber,
};
use i3toolwait::json::Json;
use i3toolwait::lisp;
use i3toolwait::lisp::{parse_program, Environment, Evaluation};
use i3toolwait::matching::{new_window_cb, Ask, Finding, WindowMatcher};

fn firefox_config() -> Config {
    Config {
        timeout: 3000,
        init: Script::new(String::new()),
        programs: vec![ProgramEntry::Program(Program {
            match_: Script::new("(== (load \"container.app_id\") \"firefox\")".to_string()),
            cmd: "move window to workspace 2".to_string(),
            run: None,
        })],
        cmd: None,
    }
}

/// Runs the interpreter as the caller of the library does.
fn evaluate(environment: Environment, scripts: &[String]) -> Evaluation {
    let env = std::rc::Rc::new(std::cell::RefCell::new(environment.bindings()));
    let clauses = scripts.iter().flat_map(|script| parse_program(script));
    match rust_lisp::interpreter::eval_block(env, clauses) {
        Ok(value) => Evaluation::Returned {
            is_false: value == rust_lisp::model::Value::False,
            text: value.to_string(),
        },
        Err(error) => Evaluation::Failed { message: error.to_string() },
    }
}

/// The receiver of window events, with a count of the completion signals.
struct Agent {
    matcher: WindowMatcher,
    matched: Option<usize>,
    signals: usize,
}

impl Subscriber for Agent {
    fn notify(
        &mut self,
        _kind: MessageType,
        event: &Json,
    ) -> Result<Vec<(MessageType, Vec<u8>)>, CallbackError> {
        let mut finding = Finding::Window;
        loop {
            let ask = new_window_cb(&mut self.matcher, finding)
                .map_err(|error| CallbackError { message: error.message })?;
            match ask {
                Ask::Evaluate { place } => {
                    let scripts = self.matcher.scripts(place).unwrap();
                    finding = Finding::Evaluation(evaluate(lisp::env(event), &scripts));
                }
                Ask::Done(reaction) => {
                    self.matched = reaction.matched;
                    if reaction.completed {
                        self.signals += 1;
                    }
                    return Ok(reaction.messages);
                }
                Ask::Ignored => return Ok(Vec::new()),
            }
        }
    }
}

fn subscribed() -> Connection {
    let mut connection = Connection::connect("/run/user/1000/sway-ipc.sock");
    assert_eq!(connection.subscribe(&[MessageType::SubWindow]), Ok(false));
    assert_eq!(
        connection.take_outgoing(),
        encode_message(&MessageType::Subscribe, b"[\"window\"]")
    );
    connection.feed(&encode_message(&MessageType::Subscribe, b"{\"success\":true}"));
    assert_eq!(connection.subscribe(&[MessageType::SubWindow]), Ok(true));
    assert!(connection.is_subscribed(MessageType::SubWindow));
    connection
}

const WINDOW_NEW: &[u8] = b"{\"change\":\"new\",\"container\":{\"app_id\":\"firefox\"}}";

#[test]
fn one_rule_fires_once() {
    let mut connection = subscribed();
    let mut agent =
        Agent { matcher: WindowMatcher::new(firefox_config()), matched: None, signals: 0 };
    assert!(connection.may_stop());

    connection.feed(&encode_message(&MessageType::SubWindow, WINDOW_NEW));
    assert_eq!(connection.run(&mut agent), Ok(Progress::Continue));
    assert_eq!(agent.matched, Some(0));
    assert_eq!(agent.signals, 1);
    assert!(agent.matcher.completed);
    assert!(agent.matcher.programs.is_empty());
    // The command is still to be exchanged: the loop may not stop here.
    assert!(!connection.may_stop());
    assert_eq!(connection.run(&mut agent), Ok(Progress::NeedInput));
    assert_eq!(
        connection.take_outgoing(),
        encode_message(&MessageType::Command, b"move window to workspace 2")
    );
    assert!(!connection.may_stop());
    connection.feed(&encode_message(&MessageType::Command, b"[{\"success\":true}]"));
    assert_eq!(connection.run(&mut agent), Ok(Progress::Continue));
    assert_eq!(connection.run(&mut agent), Ok(Progress::NeedInput));
    assert!(!connection.has_outgoing());
    assert!(connection.may_stop());

    // A second window of the same kind finds no rule.
    connection.feed(&encode_message(&MessageType::SubWindow, WINDOW_NEW));
    assert_eq!(connection.run(&mut agent), Ok(Progress::Continue));
    assert_eq!(agent.matched, None);
    assert_eq!(agent.signals, 1);
    assert_eq!(connection.run(&mut agent), Ok(Progress::NeedInput));
    assert!(!connection.has_outgoing());
}
