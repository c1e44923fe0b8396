//! Transcription by a service: what its messages say, and the course of a connection.

use crate::json::{contents, element_of, member_of, parse, parsed, Json};
use crate::text::{optional_view, owned, same_str, str_view};
use crate::wav::{pcm, read16, samples_to_linear16, signed, streamed_samples_read_back};
use serde_json::Value;
use vstd::prelude::*;
use vstd::string::StringExecFns;

verus! {

/// A piece of text that was recognised.
pub struct TranscriptionEvent {
    pub text: String,
    /// The text will not change any more.
    pub is_final: bool,
}

/// What a `TranscriptionEvent` says, as a sequence of characters.
pub struct HeardView {
    pub text: Seq<char>,
    pub is_final: bool,
}

impl View for TranscriptionEvent {
    type V = HeardView;

    open spec fn view(&self) -> HeardView {
        HeardView { text: self.text@, is_final: self.is_final }
    }
}

/// The view of a piece of text that may be missing.
pub open spec fn heard_view(event: Option<TranscriptionEvent>) -> Option<HeardView> {
    match event {
        Some(event) => Some(event@),
        None => None,
    }
}

/// What the parts of a message say: only a message of the kind `Results` holds a
/// transcript, and one that is empty says nothing.
pub open spec fn heard_of(
    kind: Option<Seq<char>>,
    transcript: Option<Seq<char>>,
    is_final: Option<bool>,
) -> Option<HeardView> {
    match transcript {
        Some(text) if kind == Some("Results"@) && text.len() > 0 => Some(
            HeardView { text, is_final: is_final == Some(true) },
        ),
        _ => None,
    }
}

/// The transcript in a message: that of the first alternative.
pub open spec fn transcript_in(message: Json) -> Option<Seq<char>> {
    match message.member("channel"@) {
        Some(channel) => match channel.member("alternatives"@) {
            Some(alternatives) => match alternatives.element(0) {
                Some(first) => match first.member("transcript"@) {
                    Some(transcript) => transcript.text(),
                    None => None,
                },
                None => None,
            },
            None => None,
        },
        None => None,
    }
}

/// The kind of a message.
pub open spec fn kind_of(message: Json) -> Option<Seq<char>> {
    match message.member("type"@) {
        Some(kind) => kind.text(),
        None => None,
    }
}

/// Whether a message says that its transcript is final.
pub open spec fn final_in(message: Json) -> Option<bool> {
    match message.member("is_final"@) {
        Some(is_final) => is_final.truth(),
        None => None,
    }
}

/// What a message says. A text that is not JSON says nothing.
pub open spec fn heard_in(message: Option<Json>) -> Option<HeardView> {
    match message {
        Some(message) => heard_of(kind_of(message), transcript_in(message), final_in(message)),
        None => None,
    }
}

/// Puts together what the parts of a message say.
pub fn heard(kind: Option<&str>, transcript: Option<&str>, is_final: Option<bool>) -> (r: Option<
    TranscriptionEvent,
>)
    ensures
        heard_view(r) == heard_of(str_view(kind), str_view(transcript), is_final),
{
    let results = match kind {
        Some(kind) => same_str(kind, "Results"),
        None => false,
    };
    match transcript {
        Some(text) => {
            if !results || text.is_empty() {
                return None;
            }
            let is_final = match is_final {
                Some(is_final) => is_final,
                None => false,
            };
            Some(TranscriptionEvent { text: owned(text), is_final })
        },
        None => None,
    }
}

fn text_member<'a>(value: &'a Value, key: &str) -> (r: Option<&'a str>)
    ensures
        str_view(r) == (match contents(*value).member(key@) {
            Some(found) => found.text(),
            None => None,
        }),
{
    match member_of(value, key) {
        Some(found) => found.as_str(),
        None => None,
    }
}

fn transcript_of(message: &Value) -> (r: Option<&str>)
    ensures
        str_view(r) == transcript_in(contents(*message)),
{
    match member_of(message, "channel") {
        Some(channel) => match member_of(channel, "alternatives") {
            Some(alternatives) => match element_of(alternatives, 0) {
                Some(first) => text_member(first, "transcript"),
                None => None,
            },
            None => None,
        },
        None => None,
    }
}

/// Reads what a message says.
pub fn read_message(message: &str) -> (r: Option<TranscriptionEvent>)
    ensures
        heard_view(r) == heard_in(parsed(message@)),
{
    match parse(message) {
        Some(json) => {
            let is_final = match member_of(&json, "is_final") {
                Some(found) => found.as_bool(),
                None => None,
            };
            heard(text_member(&json, "type"), transcript_of(&json), is_final)
        },
        None => None,
    }
}

/// What reading from the connection gave.
pub enum Incoming {
    /// A text.
    Text(String),
    /// The other side closed the connection.
    Close,
    /// Nothing came in time.
    Nothing,
    /// The connection is broken.
    Broken,
    /// Something else, such as a ping.
    Other,
}

/// What reading from the connection means for its course.
#[derive(Clone, Copy, PartialEq, Eq, Structural, Debug)]
pub enum Progress {
    /// A message came.
    Message,
    /// Nothing came in time.
    Silence,
    /// No message will come any more.
    Closed,
}

/// What follows from reading from the connection.
pub struct Reaction {
    /// What is to be typed, before anything is shown.
    pub to_type: Option<String>,
    /// What is to be shown.
    pub shown: Option<TranscriptionEvent>,
    pub progress: Progress,
}

/// What is to be typed of what was heard: a final text, with a space after it.
pub open spec fn typed_of(heard: Option<HeardView>, auto_type: bool) -> Option<Seq<char>> {
    match heard {
        Some(event) if event.is_final && auto_type => Some(event.text + " "@),
        _ => None,
    }
}

/// What reading from the connection means for its course.
pub open spec fn progress_of(incoming: Incoming) -> Progress {
    match incoming {
        Incoming::Text(_) => Progress::Message,
        Incoming::Other => Progress::Message,
        Incoming::Nothing => Progress::Silence,
        Incoming::Close => Progress::Closed,
        Incoming::Broken => Progress::Closed,
    }
}

/// What is to be typed of what was heard.
pub fn text_to_type(heard: &Option<TranscriptionEvent>, auto_type: bool) -> (r: Option<String>)
    ensures
        optional_view(r) == typed_of(heard_view(*heard), auto_type),
{
    match heard {
        Some(event) => {
            if !event.is_final || !auto_type {
                return None;
            }
            let mut text = event.text.clone();
            text.append(" ");
            Some(text)
        },
        None => None,
    }
}

/// Takes in what reading from the connection gave.
pub fn process_message(incoming: Incoming, auto_type: bool) -> (r: Reaction)
    ensures
        r.progress == progress_of(incoming),
        heard_view(r.shown) == (match incoming {
            Incoming::Text(text) => heard_in(parsed(text@)),
            _ => None,
        }),
        optional_view(r.to_type) == typed_of(heard_view(r.shown), auto_type),
{
    let progress = match &incoming {
        Incoming::Text(_) | Incoming::Other => Progress::Message,
        Incoming::Nothing => Progress::Silence,
        Incoming::Close | Incoming::Broken => Progress::Closed,
    };
    let shown = match &incoming {
        Incoming::Text(text) => read_message(text.as_str()),
        _ => None,
    };
    let to_type = text_to_type(&shown, auto_type);
    Reaction { to_type, shown, progress }
}

/// Where the course of a connection stands: what is waited for.
#[derive(Clone, Copy, PartialEq, Eq, Structural, Debug)]
pub enum Stage {
    /// Whether the recording runs.
    Flag,
    /// The next samples of the microphone.
    Queue,
    /// That samples were sent.
    Sending,
    /// A message, while the recording runs.
    Reading,
    /// The time since the recording stopped, before a message is read.
    Draining,
    /// A message, after the recording stopped.
    DrainReading,
    /// The time since the recording stopped, after no message came.
    Waited,
    /// Nothing any more.
    Ended,
}

/// What happened.
pub enum Event {
    /// The recording runs.
    Recording,
    /// The recording has stopped.
    Stopped,
    /// The microphone has delivered samples.
    Samples(Vec<i16>),
    /// The microphone has delivered nothing.
    Empty,
    /// What was to be sent was sent.
    Sent,
    /// What was to be sent could not be sent.
    SendFailed,
    /// The connection was read from.
    Read(Progress),
    /// The nanoseconds since the recording stopped.
    Clock(u64),
}

/// What is to be done.
pub enum Action {
    /// Look whether the recording runs.
    CheckFlag,
    /// Take what the microphone delivered.
    TakeSamples,
    /// Send bytes.
    Send(Vec<u8>),
    /// Read from the connection.
    Read,
    /// Tell the service that no more sound comes, tell the windows that the rest is being
    /// processed, and start the clock.
    Finish,
    /// Look at the clock.
    CheckClock,
    /// Close the connection, and tell the windows that the transcription is complete.
    CloseAndComplete,
    /// Tell the windows that the transcription is complete.
    Complete,
    /// Leave.
    Leave,
}

/// An `Event`, with samples as a sequence.
pub enum EventView {
    Recording,
    Stopped,
    Samples(Seq<i16>),
    Empty,
    Sent,
    SendFailed,
    Read(Progress),
    Clock(u64),
}

impl View for Event {
    type V = EventView;

    open spec fn view(&self) -> EventView {
        match *self {
            Event::Recording => EventView::Recording,
            Event::Stopped => EventView::Stopped,
            Event::Samples(samples) => EventView::Samples(samples@),
            Event::Empty => EventView::Empty,
            Event::Sent => EventView::Sent,
            Event::SendFailed => EventView::SendFailed,
            Event::Read(progress) => EventView::Read(progress),
            Event::Clock(elapsed) => EventView::Clock(elapsed),
        }
    }
}

/// An `Action`, with bytes as a sequence.
pub enum ActionView {
    CheckFlag,
    TakeSamples,
    Send(Seq<u8>),
    Read,
    Finish,
    CheckClock,
    CloseAndComplete,
    Complete,
    Leave,
}

impl View for Action {
    type V = ActionView;

    open spec fn view(&self) -> ActionView {
        match *self {
            Action::CheckFlag => ActionView::CheckFlag,
            Action::TakeSamples => ActionView::TakeSamples,
            Action::Send(bytes) => ActionView::Send(bytes@),
            Action::Read => ActionView::Read,
            Action::Finish => ActionView::Finish,
            Action::CheckClock => ActionView::CheckClock,
            Action::CloseAndComplete => ActionView::CloseAndComplete,
            Action::Complete => ActionView::Complete,
            Action::Leave => ActionView::Leave,
        }
    }
}

/// How long the service is given for the rest, in nanoseconds.
pub const DRAIN_LIMIT: u64 = 5_000_000_000;

/// How long silence has to last before nothing more is expected, in nanoseconds.
pub const DRAIN_SILENCE: u64 = 1_000_000_000;

/// The text by which a service learns that no more sound comes.
pub fn close_stream_message() -> (r: String)
    ensures
        r@ == "{\"type\":\"CloseStream\"}"@,
{
    owned("{\"type\":\"CloseStream\"}")
}

/// The course of a connection: the next stage, and what is to be done. `None` where the
/// event is not what the stage waits for.
pub open spec fn next(stage: Stage, event: EventView) -> Option<(Stage, ActionView)> {
    match (stage, event) {
        (Stage::Flag, EventView::Recording) => Some((Stage::Queue, ActionView::TakeSamples)),
        (Stage::Flag, EventView::Stopped) => Some((Stage::Draining, ActionView::Finish)),
        (Stage::Queue, EventView::Samples(samples)) => Some(
            (Stage::Sending, ActionView::Send(pcm(samples))),
        ),
        (Stage::Queue, EventView::Empty) => Some((Stage::Reading, ActionView::Read)),
        (Stage::Sending, EventView::Sent) => Some((Stage::Queue, ActionView::TakeSamples)),
        (Stage::Sending, EventView::SendFailed) => Some((Stage::Ended, ActionView::Leave)),
        (Stage::Reading, EventView::Read(Progress::Closed)) => Some(
            (Stage::Ended, ActionView::Complete),
        ),
        (Stage::Reading, EventView::Read(_)) => Some((Stage::Flag, ActionView::CheckFlag)),
        (Stage::Draining, EventView::Clock(elapsed)) => if elapsed < DRAIN_LIMIT {
            Some((Stage::DrainReading, ActionView::Read))
        } else {
            Some((Stage::Ended, ActionView::CloseAndComplete))
        },
        (Stage::DrainReading, EventView::Read(Progress::Closed)) => Some(
            (Stage::Ended, ActionView::CloseAndComplete),
        ),
        (Stage::DrainReading, EventView::Read(Progress::Message)) => Some(
            (Stage::Draining, ActionView::CheckClock),
        ),
        (Stage::DrainReading, EventView::Read(Progress::Silence)) => Some(
            (Stage::Waited, ActionView::CheckClock),
        ),
        (Stage::Waited, EventView::Clock(elapsed)) => if elapsed > DRAIN_SILENCE {
            Some((Stage::Ended, ActionView::CloseAndComplete))
        } else {
            Some((Stage::Draining, ActionView::CheckClock))
        },
        _ => None,
    }
}

/// Takes the course of a connection one step on. `None` where the event is not what the
/// stage waits for.
pub fn stream_step(stage: Stage, event: Event) -> (r: Option<(Stage, Action)>)
    ensures
        match r {
            Some((then, action)) => next(stage, event@) == Some((then, action@)),
            None => next(stage, event@) is None,
        },
{
    match (stage, event) {
        (Stage::Flag, Event::Recording) => Some((Stage::Queue, Action::TakeSamples)),
        (Stage::Flag, Event::Stopped) => Some((Stage::Draining, Action::Finish)),
        (Stage::Queue, Event::Samples(samples)) => {
            let bytes = samples_to_linear16(samples.as_slice());
            Some((Stage::Sending, Action::Send(bytes)))
        },
        (Stage::Queue, Event::Empty) => Some((Stage::Reading, Action::Read)),
        (Stage::Sending, Event::Sent) => Some((Stage::Queue, Action::TakeSamples)),
        (Stage::Sending, Event::SendFailed) => Some((Stage::Ended, Action::Leave)),
        (Stage::Reading, Event::Read(progress)) => match progress {
            Progress::Closed => Some((Stage::Ended, Action::Complete)),
            _ => Some((Stage::Flag, Action::CheckFlag)),
        },
        (Stage::Draining, Event::Clock(elapsed)) => if elapsed < DRAIN_LIMIT {
            Some((Stage::DrainReading, Action::Read))
        } else {
            Some((Stage::Ended, Action::CloseAndComplete))
        },
        (Stage::DrainReading, Event::Read(progress)) => match progress {
            Progress::Closed => Some((Stage::Ended, Action::CloseAndComplete)),
            Progress::Message => Some((Stage::Draining, Action::CheckClock)),
            Progress::Silence => Some((Stage::Waited, Action::CheckClock)),
        },
        (Stage::Waited, Event::Clock(elapsed)) => if elapsed > DRAIN_SILENCE {
            Some((Stage::Ended, Action::CloseAndComplete))
        } else {
            Some((Stage::Draining, Action::CheckClock))
        },
        _ => None,
    }
}

/// Where a course stands, and all that was done.
pub struct Course {
    pub stage: Stage,
    pub done: Seq<ActionView>,
}

/// The course of a connection from its start. `None` where an event was not what was
/// waited for.
pub open spec fn course(events: Seq<EventView>) -> Option<Course>
    decreases events.len(),
{
    if events.len() == 0 {
        Some(Course { stage: Stage::Flag, done: Seq::empty() })
    } else {
        match course(events.drop_last()) {
            Some(Course { stage, done }) => match next(stage, events.last()) {
                Some((then, action)) => Some(Course { stage: then, done: done.push(action) }),
                None => None,
            },
            None => None,
        }
    }
}

/// All samples that the microphone delivered, in order.
pub open spec fn delivered(events: Seq<EventView>) -> Seq<i16>
    decreases events.len(),
{
    if events.len() == 0 {
        Seq::empty()
    } else {
        match events.last() {
            EventView::Samples(samples) => delivered(events.drop_last()) + samples,
            _ => delivered(events.drop_last()),
        }
    }
}

/// All bytes that were to be sent, in order.
pub open spec fn sent(done: Seq<ActionView>) -> Seq<u8>
    decreases done.len(),
{
    if done.len() == 0 {
        Seq::empty()
    } else {
        match done.last() {
            ActionView::Send(bytes) => sent(done.drop_last()) + bytes,
            _ => sent(done.drop_last()),
        }
    }
}

/// What is sent is what the microphone delivered while the connection asked for it: all
/// of it, once, and in order.
pub proof fn all_that_is_taken_is_sent(events: Seq<EventView>)
    requires
        course(events) is Some,
    ensures
        sent((course(events)->0).done) == pcm(delivered(events)),
    decreases events.len(),
{
    if events.len() == 0 {
        assert(sent((course(events)->0).done) =~= pcm(delivered(events)));
    } else {
        let before = events.drop_last();
        all_that_is_taken_is_sent(before);
        let Course { stage, done } = course(before)->0;
        let (then, action) = next(stage, events.last())->0;
        assert(done.push(action).drop_last() =~= done);
        match events.last() {
            EventView::Samples(samples) => {
                assert(pcm(delivered(before) + samples) =~= pcm(delivered(before)) + pcm(samples));
            },
            _ => {},
        }
    }
}

/// The recording has been said to be over and the rest is waited for.
pub open spec fn is_draining(stage: Stage) -> bool {
    stage == Stage::Draining || stage == Stage::DrainReading || stage == Stage::Waited
}

/// Once the windows have been told that the rest is being processed, they are told that it
/// is complete when the course ends, and the connection is closed; until then the rest is
/// waited for. They are told once that it is being processed.
pub proof fn processing_is_followed_by_completion(events: Seq<EventView>, i: int)
    requires
        course(events) is Some,
        0 <= i < (course(events)->0).done.len(),
        (course(events)->0).done[i] is Finish,
    ensures
        ({
            let Course { stage, done } = course(events)->0;
            &&& is_draining(stage) || stage is Ended
            &&& stage is Ended ==> done.last() is CloseAndComplete
            &&& forall|j: int| 0 <= j < done.len() && #[trigger] done[j] is Finish ==> j == i
        }),
    decreases events.len(),
{
    let before = events.drop_last();
    let Course { stage, done } = course(before)->0;
    let (then, action) = next(stage, events.last())->0;
    if i < done.len() {
        processing_is_followed_by_completion(before, i);
    } else if exists|j: int| 0 <= j < done.len() && done[j] is Finish {
        let j = choose|j: int| 0 <= j < done.len() && done[j] is Finish;
        processing_is_followed_by_completion(before, j);
    }
}

/// A course ends only by telling the windows that the transcription is complete, or
/// because sound could not be sent; and nothing is done after its end.
pub proof fn a_course_ends_with_completion_or_a_failed_send(events: Seq<EventView>)
    requires
        course(events) is Some,
        (course(events)->0).stage is Ended,
    ensures
        ({
            let last = (course(events)->0).done.last();
            ||| last is CloseAndComplete
            ||| last is Complete && events.last() == EventView::Read(Progress::Closed)
            ||| last is Leave && events.last() is SendFailed
        }),
        forall|more: EventView| #[trigger] course(events.push(more)) is None,
{
    assert forall|more: EventView| #[trigger] course(events.push(more)) is None by {
        assert(events.push(more).drop_last() =~= events);
    }
}

/// The rest is not waited for without end: at the time limit the next look at the clock
/// before reading ends the course, and so does silence once it has lasted long enough.
pub proof fn waiting_for_the_rest_is_limited(elapsed: u64)
    ensures
        elapsed >= DRAIN_LIMIT ==> next(Stage::Draining, EventView::Clock(elapsed)) == Some(
            (Stage::Ended, ActionView::CloseAndComplete),
        ),
        elapsed > DRAIN_SILENCE ==> next(Stage::Waited, EventView::Clock(elapsed)) == Some(
            (Stage::Ended, ActionView::CloseAndComplete),
        ),
        elapsed < DRAIN_LIMIT ==> next(Stage::Draining, EventView::Clock(elapsed)) == Some(
            (Stage::DrainReading, ActionView::Read),
        ),
{
}

/// Only a final text is typed, only where typing is switched on, and what is typed is what
/// is shown, with a space after it.
pub proof fn only_final_texts_are_typed(message: Option<Json>, auto_type: bool)
    ensures
        typed_of(heard_in(message), auto_type) is Some <==> auto_type && (heard_in(
            message,
        ) matches Some(event) && event.is_final),
        typed_of(heard_in(message), auto_type) matches Some(text) ==> text == (heard_in(
            message,
        )->0).text + " "@,
        heard_in(message) matches Some(event) ==> event.text.len() > 0,
{
}

/// The windows have been told that the rest is being processed.
pub open spec fn is_finishing(done: Seq<ActionView>) -> bool {
    exists|i: int| 0 <= i < done.len() && #[trigger] done[i] is Finish
}

/// Where a course stands follows from what was done last and from what happened last.
proof fn lemma_standing(events: Seq<EventView>)
    requires
        course(events) is Some,
    ensures
        ({
            let Course { stage, done } = course(events)->0;
            &&& done.len() == events.len()
            &&& stage is Flag ==> !is_finishing(done) && (done.len() == 0
                || done.last() is CheckFlag)
            &&& stage is Queue ==> !is_finishing(done) && done.len() > 0
                && done.last() is TakeSamples
            &&& stage is Sending ==> !is_finishing(done) && done.len() > 0 && done.last() is Send
            &&& stage is Reading ==> !is_finishing(done) && done.len() > 0 && done.last() is Read
            &&& stage is Draining ==> is_finishing(done) && done.len() > 0 && (
            done.last() is Finish || done.last() is CheckClock) && events.last() != EventView::Read(
                Progress::Silence,
            )
            &&& stage is DrainReading ==> is_finishing(done) && done.len() > 0
                && done.last() is Read
            &&& stage is Waited ==> is_finishing(done) && done.len() > 0
                && done.last() is CheckClock && events.last() == EventView::Read(Progress::Silence)
            &&& stage is Ended ==> done.len() > 0 && (done.last() is Leave
                || done.last() is Complete || done.last() is CloseAndComplete)
        }),
    decreases events.len(),
{
    if events.len() > 0 {
        let before = events.drop_last();
        lemma_standing(before);
        let Course { stage, done } = course(before)->0;
        let (then, action) = next(stage, events.last())->0;
        lemma_finishing(done, action);
    }
}

proof fn lemma_finishing(done: Seq<ActionView>, action: ActionView)
    ensures
        is_finishing(done.push(action)) <==> is_finishing(done) || action is Finish,
{
    let all = done.push(action);
    if is_finishing(done) {
        let i = choose|i: int| 0 <= i < done.len() && #[trigger] done[i] is Finish;
        assert(all[i] is Finish);
    }
    if action is Finish {
        assert(all[all.len() - 1] is Finish);
    }
    if is_finishing(all) {
        let i = choose|i: int| 0 <= i < all.len() && #[trigger] all[i] is Finish;
        if i < done.len() {
            assert(done[i] is Finish);
        }
    }
}

/// While the recording runs, a course ends only because the connection was closed or broken,
/// or because sound could not be sent. A message, or that none came in time, lets it go on:
/// the flag is looked at, sound is sent and messages are read.
pub proof fn a_running_recording_goes_on(events: Seq<EventView>)
    requires
        course(events) is Some,
        !is_finishing((course(events)->0).done),
    ensures
        (course(events)->0).stage is Ended ==> events.len() > 0 && (events.last()
            == EventView::Read(Progress::Closed) || events.last() is SendFailed),
        events.len() > 0 && (events.last() == EventView::Read(Progress::Message) || events.last()
            == EventView::Read(Progress::Silence)) ==> (course(events)->0).stage is Flag && (
        course(events)->0).done.last() is CheckFlag,
{
    lemma_standing(events);
    if events.len() > 0 {
        let before = events.drop_last();
        lemma_standing(before);
        let Course { stage, done } = course(before)->0;
        let (then, action) = next(stage, events.last())->0;
        lemma_finishing(done, action);
    }
}

/// What is done follows from what happened. While the recording runs, samples are taken and
/// sent as they are until there are none, then a message is read, then the flag is looked at
/// again. Once it has stopped, the service is told so, and messages are read for five seconds
/// at most, or until none has come and a second has passed.
pub proof fn each_event_has_its_answer(events: Seq<EventView>, event: EventView)
    requires
        course(events) is Some,
        course(events.push(event)) is Some,
    ensures
        ({
            let before = (course(events)->0).done;
            let Course { stage, done } = course(events.push(event))->0;
            let action = done.last();
            &&& done.len() > 0 && done.drop_last() == before
            &&& match event {
                EventView::Recording => action is TakeSamples && stage !is Ended,
                EventView::Stopped => action is Finish && stage !is Ended,
                EventView::Samples(samples) => {
                    &&& action matches ActionView::Send(bytes)
                    &&& bytes.len() == 2 * samples.len()
                    &&& forall|i: int|
                        0 <= i < samples.len() ==> signed(read16(bytes, 2 * i))
                            == #[trigger] samples[i]
                    &&& stage !is Ended
                },
                EventView::Empty => action is Read && stage !is Ended,
                EventView::Sent => action is TakeSamples && stage !is Ended,
                EventView::SendFailed => action is Leave && stage is Ended,
                EventView::Read(Progress::Closed) => stage is Ended && (if is_finishing(before) {
                    action is CloseAndComplete
                } else {
                    action is Complete
                }),
                EventView::Read(_) => stage !is Ended && (if is_finishing(before) {
                    action is CheckClock
                } else {
                    action is CheckFlag
                }),
                EventView::Clock(elapsed) => if events.last() == EventView::Read(
                    Progress::Silence,
                ) {
                    if elapsed > 1_000_000_000 {
                        action is CloseAndComplete && stage is Ended
                    } else {
                        action is CheckClock && stage !is Ended
                    }
                } else {
                    if elapsed < 5_000_000_000 {
                        action is Read && stage !is Ended
                    } else {
                        action is CloseAndComplete && stage is Ended
                    }
                },
            }
        }),
{
    let all = events.push(event);
    assert(all.drop_last() =~= events);
    lemma_standing(events);
    let Course { stage, done } = course(events)->0;
    let (then, action) = next(stage, event)->0;
    assert(done.push(action).drop_last() =~= done);
    match event {
        EventView::Samples(samples) => {
            streamed_samples_read_back(samples);
        },
        _ => {},
    }
}

/// A course waits for the answer to what was done last, and takes every answer to it; at its
/// start it waits for whether the recording runs.
pub proof fn every_answer_is_taken(
    events: Seq<EventView>,
    samples: Seq<i16>,
    progress: Progress,
    elapsed: u64,
)
    requires
        course(events) is Some,
    ensures
        ({
            let Course { stage, done } = course(events)->0;
            let last = if done.len() == 0 {
                ActionView::CheckFlag
            } else {
                done.last()
            };
            match last {
                ActionView::CheckFlag => {
                    &&& course(events.push(EventView::Recording)) is Some
                    &&& course(events.push(EventView::Stopped)) is Some
                },
                ActionView::TakeSamples => {
                    &&& course(events.push(EventView::Samples(samples))) is Some
                    &&& course(events.push(EventView::Empty)) is Some
                },
                ActionView::Send(_) => {
                    &&& course(events.push(EventView::Sent)) is Some
                    &&& course(events.push(EventView::SendFailed)) is Some
                },
                ActionView::Read => course(events.push(EventView::Read(progress))) is Some,
                ActionView::Finish => course(events.push(EventView::Clock(elapsed))) is Some,
                ActionView::CheckClock => course(events.push(EventView::Clock(elapsed))) is Some,
                _ => stage is Ended,
            }
        }),
{
    lemma_standing(events);
    assert(events.push(EventView::Recording).drop_last() =~= events);
    assert(events.push(EventView::Stopped).drop_last() =~= events);
    assert(events.push(EventView::Samples(samples)).drop_last() =~= events);
    assert(events.push(EventView::Empty).drop_last() =~= events);
    assert(events.push(EventView::Sent).drop_last() =~= events);
    assert(events.push(EventView::SendFailed).drop_last() =~= events);
    assert(events.push(EventView::Read(progress)).drop_last() =~= events);
    assert(events.push(EventView::Clock(elapsed)).drop_last() =~= events);
}

/// A message of results says what its first alternative says, as it stands there, and
/// whether that is final; other members and other alternatives change nothing.
pub proof fn a_result_says_its_first_alternative(
    message: Json,
    channel: Json,
    alternatives: Seq<Json>,
    text: Seq<char>,
)
    requires
        message.member("type"@) == Some(Json::Text("Results"@)),
        message.member("channel"@) == Some(channel),
        channel.member("alternatives"@) == Some(Json::List(alternatives)),
        alternatives.len() > 0,
        alternatives[0].member("transcript"@) == Some(Json::Text(text)),
        text.len() > 0,
    ensures
        heard_in(Some(message)) == Some(
            HeardView { text, is_final: message.member("is_final"@) == Some(Json::Bool(true)) },
        ),
{
}

/// Nothing else says anything: what is heard is the transcript of the first alternative of a
/// message of results, and it is not empty.
pub proof fn only_results_say_anything(message: Option<Json>)
    requires
        heard_in(message) is Some,
    ensures
        message is Some,
        (message->0).member("type"@) == Some(Json::Text("Results"@)),
        exists|channel: Json, alternatives: Seq<Json>|
            {
                &&& (message->0).member("channel"@) == Some(channel)
                &&& #[trigger] channel.member("alternatives"@) == Some(Json::List(alternatives))
                &&& alternatives.len() > 0
                &&& (#[trigger] alternatives[0]).member("transcript"@) == Some(
                    Json::Text((heard_in(message)->0).text),
                )
            },
        (heard_in(message)->0).text.len() > 0,
{
    let m = message->0;
    let channel = m.member("channel"@)->0;
    let list = channel.member("alternatives"@)->0;
    let alternatives = list->List_0;
    assert(list == Json::List(alternatives));
    assert(channel.member("alternatives"@) == Some(Json::List(alternatives)));
}

/// Only an answer to what was done last is taken, and nothing once the course has ended.
pub proof fn only_answers_are_taken(events: Seq<EventView>, event: EventView)
    requires
        course(events) is Some,
        course(events.push(event)) is Some,
    ensures
        ({
            let done = (course(events)->0).done;
            let last = if done.len() == 0 {
                ActionView::CheckFlag
            } else {
                done.last()
            };
            match last {
                ActionView::CheckFlag => event is Recording || event is Stopped,
                ActionView::TakeSamples => event is Samples || event is Empty,
                ActionView::Send(_) => event is Sent || event is SendFailed,
                ActionView::Read => event is Read,
                ActionView::Finish => event is Clock,
                ActionView::CheckClock => event is Clock,
                _ => false,
            }
        }),
{
    lemma_standing(events);
    assert(events.push(event).drop_last() =~= events);
}

/// What is typed of what was heard is that text with one space behind it, and nothing is
/// typed unless it is final and typing is switched on.
pub proof fn what_is_typed_is_what_was_heard(text: Seq<char>, is_final: bool, auto_type: bool)
    ensures
        match typed_of(Some(HeardView { text, is_final }), auto_type) {
            Some(typed) => {
                &&& is_final && auto_type
                &&& typed.len() == text.len() + 1
                &&& typed.drop_last() == text
                &&& typed.last() == ' '
            },
            None => !(is_final && auto_type),
        },
        typed_of(None, auto_type) is None,
{
    reveal_strlit(" ");
    assert((text + " "@).drop_last() =~= text);
}

/// Only a connection that was closed or is broken gives no message any more, and only where
/// nothing came in time there was silence: a text, whatever it says, is a message.
pub proof fn only_the_end_of_a_connection_ends_it(incoming: Incoming)
    ensures
        progress_of(incoming) is Closed <==> incoming is Close || incoming is Broken,
        progress_of(incoming) is Silence <==> incoming is Nothing,
        incoming is Text ==> progress_of(incoming) is Message,
{
}

} // verus!
