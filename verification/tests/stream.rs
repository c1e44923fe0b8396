use omegawhisper::stream::{
    close_stream_message, heard, process_message, read_message, stream_step, text_to_type, Action,
    Event, Incoming, Progress, Stage, TranscriptionEvent,
};

const FINAL: &str = r#"{"type":"Results","channel":{"alternatives":[{"transcript":"hello \"you\""},{"transcript":"other"}]},"is_final":true}"#;

#[test]
fn a_result_is_read() {
    let e = read_message(FINAL).unwrap();
    assert_eq!(e.text, "hello \"you\"");
    assert!(e.is_final);
}

#[test]
fn a_result_that_is_not_final_says_so() {
    for end in ["", ",\"is_final\":false", ",\"is_final\":\"true\"", ",\"is_final\":1"] {
        let message = format!(
            "{{\"type\":\"Results\",\"channel\":{{\"alternatives\":[{{\"transcript\":\"a\"}}]}}{end}}}"
        );
        let e = read_message(&message).unwrap();
        assert_eq!(e.text, "a");
        assert!(!e.is_final, "{message}");
    }
}

#[test]
fn messages_without_a_transcript_say_nothing() {
    let silent = [
        "",
        "not json at all",
        "[]",
        "3",
        r#"{"type":"Metadata","channel":{"alternatives":[{"transcript":"a"}]}}"#,
        r#"{"channel":{"alternatives":[{"transcript":"a"}]}}"#,
        r#"{"type":"Results"}"#,
        r#"{"type":"Results","channel":{"alternatives":[]}}"#,
        r#"{"type":"Results","channel":{"alternatives":{"0":{"transcript":"a"}}}}"#,
        r#"{"type":"Results","channel":{"alternatives":[{"transcript":""}]}}"#,
        r#"{"type":"Results","channel":{"alternatives":[{"transcript":7}]}}"#,
        r#"{"type":["Results"],"channel":{"alternatives":[{"transcript":"a"}]}}"#,
        r#"{"type":"Results","channel":{"alternatives":[{"transcript":"a"}]}} x"#,
    ];
    for message in silent {
        assert!(read_message(message).is_none(), "{message}");
    }
}

#[test]
fn the_parts_of_a_message_decide() {
    assert!(heard(Some("Results"), Some(""), Some(true)).is_none());
    assert!(heard(Some("results"), Some("a"), Some(true)).is_none());
    assert!(heard(None, Some("a"), Some(true)).is_none());
    assert!(heard(Some("Results"), None, Some(true)).is_none());
    let e = heard(Some("Results"), Some("a"), Some(true)).unwrap();
    assert_eq!((e.text.as_str(), e.is_final), ("a", true));
    assert!(!heard(Some("Results"), Some("a"), None).unwrap().is_final);
}

#[test]
fn only_final_text_is_typed() {
    let event = |is_final| Some(TranscriptionEvent { text: "hi".to_string(), is_final });
    assert_eq!(text_to_type(&event(true), true), Some("hi ".to_string()));
    assert_eq!(text_to_type(&event(true), false), None);
    assert_eq!(text_to_type(&event(false), true), None);
    assert_eq!(text_to_type(&None, true), None);
}

#[test]
fn what_is_read_decides_the_course() {
    let r = process_message(Incoming::Text(FINAL.to_string()), true);
    assert_eq!(r.progress, Progress::Message);
    assert_eq!(r.to_type, Some("hello \"you\" ".to_string()));
    assert_eq!(r.shown.unwrap().text, "hello \"you\"");
    let r = process_message(Incoming::Text("junk".to_string()), true);
    assert_eq!(r.progress, Progress::Message);
    assert!(r.shown.is_none() && r.to_type.is_none());
    assert_eq!(process_message(Incoming::Close, true).progress, Progress::Closed);
    assert_eq!(process_message(Incoming::Broken, true).progress, Progress::Closed);
    assert_eq!(process_message(Incoming::Nothing, true).progress, Progress::Silence);
    assert_eq!(process_message(Incoming::Other, true).progress, Progress::Message);
}

fn run(events: Vec<Event>) -> (Stage, Vec<Action>) {
    let mut stage = Stage::Flag;
    let mut done = Vec::new();
    for event in events {
        let (then, action) = stream_step(stage, event).expect("not what was waited for");
        stage = then;
        done.push(action);
    }
    (stage, done)
}

#[test]
fn sound_is_sent_and_messages_are_read_in_turn() {
    let (stage, done) = run(vec![
        Event::Recording,
        Event::Samples(vec![1, -1]),
        Event::Sent,
        Event::Samples(vec![256]),
        Event::Sent,
        Event::Empty,
        Event::Read(Progress::Silence),
        Event::Recording,
    ]);
    assert_eq!(stage, Stage::Queue);
    let mut sent = Vec::new();
    for action in &done {
        if let Action::Send(bytes) = action {
            sent.extend_from_slice(bytes);
        }
    }
    assert_eq!(sent, vec![1, 0, 255, 255, 0, 1]);
}

#[test]
fn after_the_recording_the_rest_is_waited_for() {
    let (stage, done) = run(vec![
        Event::Stopped,
        Event::Clock(0),
        Event::Read(Progress::Message),
        Event::Clock(900_000_000),
        Event::Read(Progress::Silence),
        Event::Clock(1_000_000_000),
        Event::Clock(1_000_000_001),
        Event::Read(Progress::Silence),
        Event::Clock(1_051_000_000),
    ]);
    assert_eq!(stage, Stage::Ended);
    assert!(matches!(done[0], Action::Finish));
    assert!(matches!(done.last(), Some(Action::CloseAndComplete)));
    assert_eq!(done.iter().filter(|a| matches!(a, Action::Finish)).count(), 1);
}

#[test]
fn waiting_for_the_rest_ends() {
    let (stage, done) = run(vec![Event::Stopped, Event::Clock(5_000_000_000)]);
    assert_eq!(stage, Stage::Ended);
    assert!(matches!(done[1], Action::CloseAndComplete));
    let (stage, _) = run(vec![Event::Stopped, Event::Clock(4_999_999_999)]);
    assert_eq!(stage, Stage::DrainReading);
    let (stage, _) = run(vec![Event::Stopped, Event::Clock(0), Event::Read(Progress::Closed)]);
    assert_eq!(stage, Stage::Ended);
}

#[test]
fn a_closed_connection_completes_and_a_failed_send_leaves() {
    let (stage, done) = run(vec![Event::Recording, Event::Empty, Event::Read(Progress::Closed)]);
    assert_eq!(stage, Stage::Ended);
    assert!(matches!(done.last(), Some(Action::Complete)));
    let (stage, done) =
        run(vec![Event::Recording, Event::Samples(vec![1]), Event::SendFailed]);
    assert_eq!(stage, Stage::Ended);
    assert!(matches!(done.last(), Some(Action::Leave)));
}

#[test]
fn events_that_are_not_waited_for_are_refused() {
    assert!(stream_step(Stage::Ended, Event::Recording).is_none());
    assert!(stream_step(Stage::Flag, Event::Sent).is_none());
    assert!(stream_step(Stage::Queue, Event::Clock(1)).is_none());
}

#[test]
fn the_end_of_the_sound_is_told() {
    assert_eq!(close_stream_message(), "{\"type\":\"CloseStream\"}");
}
