use i3toolwait::i3ipc::{
    encode_message, CallbackError, Connection, ConnectionError, MessageType, Progress,
    ProtocolError, Subscriber,
};
use i3toolwait::json::Json;

/// A subscriber that answers each event with the messages it was given and
/// keeps what it was told.
struct Recorder {
    answer: Vec<(MessageType, Vec<u8>)>,
    fail: bool,
    seen: Vec<(MessageType, Json)>,
}

impl Recorder {
    fn answering(answer: Vec<(MessageType, Vec<u8>)>) -> Recorder {
        Recorder { answer, fail: false, seen: Vec::new() }
    }
}

impl Subscriber for Recorder {
    fn notify(
        &mut self,
        kind: MessageType,
        event: &Json,
    ) -> Result<Vec<(MessageType, Vec<u8>)>, CallbackError> {
        let copy = Json::parse(format!("{}", render(event)).as_bytes()).unwrap();
        self.seen.push((kind, copy));
        if self.fail {
            Err(CallbackError { message: "no".to_string() })
        } else {
            Ok(self.answer.clone())
        }
    }
}

/// Enough of a JSON printer for the events of these tests.
fn render(json: &Json) -> String {
    match json {
        Json::Null => "null".to_string(),
        Json::Bool(b) => format!("{}", b),
        Json::PosInt(n) => format!("{}", n),
        Json::NegInt(n) => format!("{}", n),
        Json::Float(bits) => format!("{}", f32::from_bits(*bits)),
        Json::Text(s) => format!("{:?}", s),
        Json::Array(items) => {
            let parts: Vec<String> = items.iter().map(render).collect();
            format!("[{}]", parts.join(","))
        }
        Json::Object(members) => {
            let parts: Vec<String> =
                members.iter().map(|(k, v)| format!("{:?}:{}", k, render(v))).collect();
            format!("{{{}}}", parts.join(","))
        }
    }
}

fn subscribed_to(events: &[MessageType]) -> Connection {
    let mut connection = Connection::connect("/tmp/sock");
    connection.feed(&encode_message(&MessageType::Subscribe, b"{\"success\":true}"));
    assert_eq!(connection.subscribe(events), Ok(true));
    connection.take_outgoing();
    connection
}

#[test]
fn connect_starts_empty() {
    let connection = Connection::connect("/tmp/sock");
    assert_eq!(connection.endpoint(), "/tmp/sock");
    assert!(!connection.has_outgoing());
    assert!(!connection.is_awaiting());
    assert!(!connection.is_subscribed(MessageType::SubWindow));
}

#[test]
fn communicate_sends_once_and_waits_for_the_reply() {
    let mut connection = Connection::connect("/tmp/sock");
    assert_eq!(connection.communicate(&MessageType::Version, b""), Ok(None));
    assert!(connection.is_awaiting());
    assert_eq!(connection.take_outgoing(), encode_message(&MessageType::Version, b""));
    // Polling again does not send again.
    assert_eq!(connection.communicate(&MessageType::Version, b""), Ok(None));
    assert!(!connection.has_outgoing());
    let reply = encode_message(&MessageType::Version, b"{\"human_readable\":\"1.9\"}");
    connection.feed(&reply[..10]);
    assert_eq!(connection.communicate(&MessageType::Version, b""), Ok(None));
    connection.feed(&reply[10..]);
    assert_eq!(
        connection.communicate(&MessageType::Version, b""),
        Ok(Some((
            MessageType::Version,
            Json::Object(vec![("human_readable".to_string(), Json::Text("1.9".to_string()))])
        )))
    );
    assert!(!connection.is_awaiting());
}

#[test]
fn communicate_takes_whatever_frame_comes_next_as_the_reply() {
    let mut connection = Connection::connect("/tmp/sock");
    connection.feed(&encode_message(&MessageType::SubTick, b"{\"first\":true}"));
    assert_eq!(
        connection.communicate(&MessageType::Command, b"nop"),
        Ok(Some((
            MessageType::SubTick,
            Json::Object(vec![("first".to_string(), Json::Bool(true))])
        )))
    );
    assert_eq!(connection.take_outgoing(), encode_message(&MessageType::Command, b"nop"));
}

#[test]
fn communicate_refuses_a_reply_that_is_no_json() {
    let mut connection = Connection::connect("/tmp/sock");
    connection.feed(&encode_message(&MessageType::Command, b"{oops"));
    match connection.communicate(&MessageType::Command, b"nop") {
        Err(ConnectionError::Json(_)) => {}
        other => panic!("{:?}", other),
    }
    assert!(!connection.is_awaiting());
}

#[test]
fn communicate_reports_a_broken_stream() {
    let mut connection = Connection::connect("/tmp/sock");
    connection.feed(b"i3-ipx\x00\x00\x00\x00\x00\x00\x00\x00");
    assert_eq!(
        connection.communicate(&MessageType::Command, b"nop"),
        Err(ConnectionError::Protocol(ProtocolError::BadMagic))
    );
    assert!(connection.is_awaiting());
}

#[test]
fn subscribe_notes_the_events_after_the_answer() {
    let mut connection = Connection::connect("/tmp/sock");
    let events = [MessageType::SubWindow, MessageType::SubTick];
    assert_eq!(connection.subscribe(&events), Ok(false));
    assert!(!connection.is_subscribed(MessageType::SubWindow));
    assert_eq!(
        connection.take_outgoing(),
        encode_message(&MessageType::Subscribe, b"[\"window\",\"tick\"]")
    );
    connection.feed(&encode_message(&MessageType::Subscribe, b"{\"success\":true}"));
    assert_eq!(connection.subscribe(&events), Ok(true));
    assert!(connection.is_subscribed(MessageType::SubWindow));
    assert!(connection.is_subscribed(MessageType::SubTick));
    assert!(!connection.is_subscribed(MessageType::SubMode));
}

#[test]
fn clone_is_a_new_connection_to_the_same_endpoint() {
    let mut connection = subscribed_to(&[MessageType::SubWindow]);
    connection.send_message(&MessageType::Command, b"nop");
    connection.feed(b"i3-");
    let second = connection.clone();
    assert_eq!(second.endpoint(), "/tmp/sock");
    assert_eq!(second, Connection::connect("/tmp/sock"));
    assert!(!second.is_subscribed(MessageType::SubWindow));
    assert!(!second.has_outgoing());
}

#[test]
fn run_drops_frames_that_are_no_events() {
    let mut connection = subscribed_to(&[MessageType::SubWindow]);
    let mut recorder =
        Recorder::answering(vec![(MessageType::Command, b"never".to_vec())]);
    // Not even their payload is looked at.
    connection.feed(&encode_message(&MessageType::Command, b"not json"));
    connection.feed(&encode_message(&MessageType::Tree, b"{}"));
    assert_eq!(connection.run(&mut recorder), Ok(Progress::Continue));
    assert_eq!(connection.run(&mut recorder), Ok(Progress::Continue));
    assert_eq!(connection.run(&mut recorder), Ok(Progress::NeedInput));
    assert!(recorder.seen.is_empty());
    assert!(!connection.has_outgoing());
}

#[test]
fn run_passes_over_events_that_were_not_subscribed_to() {
    let mut connection = subscribed_to(&[MessageType::SubWindow]);
    let mut recorder =
        Recorder::answering(vec![(MessageType::Command, b"never".to_vec())]);
    connection.feed(&encode_message(&MessageType::SubMode, b"{\"change\":\"default\"}"));
    assert_eq!(connection.run(&mut recorder), Ok(Progress::Continue));
    assert_eq!(connection.run(&mut recorder), Ok(Progress::NeedInput));
    assert!(recorder.seen.is_empty());
    assert!(!connection.has_outgoing());
}

#[test]
fn run_refuses_an_event_that_is_no_json() {
    let mut connection = subscribed_to(&[MessageType::SubWindow]);
    let mut recorder = Recorder::answering(vec![]);
    connection.feed(&encode_message(&MessageType::SubMode, b"{"));
    match connection.run(&mut recorder) {
        Err(ConnectionError::Json(_)) => {}
        other => panic!("{:?}", other),
    }
}

#[test]
fn run_exchanges_the_answers_one_after_the_other() {
    let mut connection = subscribed_to(&[MessageType::SubWindow]);
    let mut recorder = Recorder::answering(vec![
        (MessageType::Command, b"first".to_vec()),
        (MessageType::Command, b"second".to_vec()),
    ]);
    connection.feed(&encode_message(&MessageType::SubWindow, b"{\"change\":\"new\"}"));
    // A second event is already there; it has to wait.
    connection.feed(&encode_message(&MessageType::SubWindow, b"{\"change\":\"close\"}"));
    assert_eq!(connection.run(&mut recorder), Ok(Progress::Continue));
    assert_eq!(recorder.seen.len(), 1);

    // The reply to the first command is whatever frame comes next: here the
    // second event, which is thereby used up.
    assert_eq!(connection.run(&mut recorder), Ok(Progress::Continue));
    assert_eq!(connection.take_outgoing(), encode_message(&MessageType::Command, b"first"));
    assert_eq!(recorder.seen.len(), 1);

    assert_eq!(connection.run(&mut recorder), Ok(Progress::NeedInput));
    assert_eq!(connection.take_outgoing(), encode_message(&MessageType::Command, b"second"));
    connection.feed(&encode_message(&MessageType::Command, b"[{\"success\":true}]"));
    assert_eq!(connection.run(&mut recorder), Ok(Progress::Continue));
    assert_eq!(connection.run(&mut recorder), Ok(Progress::NeedInput));
    assert_eq!(recorder.seen.len(), 1);
    assert_eq!(
        recorder.seen[0],
        (
            MessageType::SubWindow,
            Json::Object(vec![("change".to_string(), Json::Text("new".to_string()))])
        )
    );
}

#[test]
fn run_reports_a_subscriber_that_fails() {
    let mut connection = subscribed_to(&[MessageType::SubWindow]);
    let mut recorder = Recorder::answering(vec![]);
    recorder.fail = true;
    connection.feed(&encode_message(&MessageType::SubWindow, b"{}"));
    assert_eq!(
        connection.run(&mut recorder),
        Err(ConnectionError::Callback(CallbackError { message: "no".to_string() }))
    );
}

#[test]
fn run_reports_a_broken_stream() {
    let mut connection = subscribed_to(&[MessageType::SubWindow]);
    let mut recorder = Recorder::answering(vec![]);
    connection.feed(b"i3-ipc\x02\x00\x00\x00\x0d\x00\x00\x00{}");
    assert_eq!(
        connection.run(&mut recorder),
        Err(ConnectionError::Protocol(ProtocolError::UnknownKind(13)))
    );
}

#[test]
fn call_callback_asks_only_for_subscribed_kinds() {
    let connection = subscribed_to(&[MessageType::SubWindow]);
    let mut recorder =
        Recorder::answering(vec![(MessageType::Command, b"go".to_vec())]);
    assert_eq!(
        connection.call_callback(&MessageType::SubTick, &Json::Null, &mut recorder),
        Ok(vec![])
    );
    assert!(recorder.seen.is_empty());
    assert_eq!(
        connection.call_callback(&MessageType::SubWindow, &Json::Null, &mut recorder),
        Ok(vec![(MessageType::Command, b"go".to_vec())])
    );
    assert_eq!(recorder.seen, vec![(MessageType::SubWindow, Json::Null)]);
}

#[test]
fn take_answer_queues_the_messages_behind_those_that_wait() {
    let mut connection = Connection::connect("/tmp/sock");
    assert_eq!(
        connection.take_answer(Ok(vec![(MessageType::Command, b"one".to_vec())])),
        Ok(Progress::Continue)
    );
    assert_eq!(
        connection.take_answer(Ok(vec![(MessageType::Command, b"two".to_vec())])),
        Ok(Progress::Continue)
    );
    assert!(!connection.may_stop());
    let mut recorder = Recorder::answering(vec![]);
    assert_eq!(connection.run(&mut recorder), Ok(Progress::NeedInput));
    assert_eq!(connection.take_outgoing(), encode_message(&MessageType::Command, b"one"));
    connection.feed(&encode_message(&MessageType::Command, b"[]"));
    assert_eq!(connection.run(&mut recorder), Ok(Progress::Continue));
    assert_eq!(connection.run(&mut recorder), Ok(Progress::NeedInput));
    assert_eq!(connection.take_outgoing(), encode_message(&MessageType::Command, b"two"));
    connection.feed(&encode_message(&MessageType::Command, b"[]"));
    assert_eq!(connection.run(&mut recorder), Ok(Progress::Continue));
    assert!(connection.may_stop());
}

#[test]
fn take_answer_hands_on_the_error_of_the_subscriber() {
    let mut connection = Connection::connect("/tmp/sock");
    assert_eq!(
        connection.take_answer(Err(CallbackError { message: "no".to_string() })),
        Err(ConnectionError::Callback(CallbackError { message: "no".to_string() }))
    );
    assert_eq!(connection, Connection::connect("/tmp/sock"));
    assert_eq!(connection.take_answer(Ok(vec![])), Ok(Progress::Continue));
    assert_eq!(connection, Connection::connect("/tmp/sock"));
}

#[test]
fn one_command_answered_is_one_frame_written() {
    let mut connection = subscribed_to(&[MessageType::SubWindow]);
    let mut recorder = Recorder::answering(vec![(
        MessageType::Command,
        b"move window to workspace 2".to_vec(),
    )]);
    connection.feed(&encode_message(&MessageType::SubWindow, b"{\"change\":\"new\"}"));
    assert_eq!(connection.run(&mut recorder), Ok(Progress::Continue));
    assert_eq!(connection.run(&mut recorder), Ok(Progress::NeedInput));
    let mut frame = b"i3-ipc".to_vec();
    frame.extend_from_slice(&[26, 0, 0, 0, 0, 0, 0, 0]);
    frame.extend_from_slice(b"move window to workspace 2");
    assert_eq!(connection.take_outgoing(), frame);
    connection.feed(&encode_message(&MessageType::Command, b"[{\"success\":true}]"));
    assert_eq!(connection.run(&mut recorder), Ok(Progress::Continue));

    // An event that is answered with nothing writes nothing.
    recorder.answer = vec![];
    connection.feed(&encode_message(&MessageType::SubWindow, b"{\"change\":\"close\"}"));
    assert_eq!(connection.run(&mut recorder), Ok(Progress::Continue));
    assert_eq!(connection.run(&mut recorder), Ok(Progress::NeedInput));
    assert!(!connection.has_outgoing());
    assert_eq!(recorder.seen.len(), 2);
}
