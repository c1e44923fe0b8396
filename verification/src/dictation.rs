//! Dictation with a model on this machine: gathering the sound, deciding whether it holds
//! speech, and what becomes of the text.

use crate::signal::{holds_speech, is_speech, Loudness, UNCHANGED};
use crate::stream::{HeardView, TranscriptionEvent};
use crate::text::{
    a_text_holds_what_stands_in_it, chars_of, contains_text, optional_view, owned, same_str,
    str_view, string_of, text_view, trim, trimmed,
};
use vstd::prelude::*;
use vstd::slice::slice_to_vec;
use vstd::string::StringExecFns;

verus! {

/// To which part of the work a piece of sound belongs.
#[derive(Clone, Copy, PartialEq, Eq, Structural, Debug)]
pub enum Phase {
    /// The recording runs.
    Listening,
    /// The recording has stopped, and what is still waiting is taken.
    Emptying,
    /// The last sound is asked of the resampler.
    Finishing,
}

/// Where the work stands: what is waited for.
#[derive(Clone, Copy, PartialEq, Eq, Structural, Debug)]
pub enum LocalStage {
    /// Whether the recording runs.
    Flag,
    /// Samples of the microphone, while the recording runs.
    Waiting,
    /// Samples of the microphone that are still waiting.
    Taking,
    /// Samples of the resampler.
    Resampling(Phase),
    /// What voice detection takes for speech.
    Filtering(Phase),
    /// What voice detection has kept back.
    FlushingVad,
    /// Nothing any more.
    Ended,
}

/// What happened. `S` is a sample.
pub enum LocalEvent<S> {
    /// The recording runs.
    Recording,
    /// The recording has stopped.
    Stopped,
    /// The microphone has delivered samples.
    Samples(Vec<S>),
    /// The microphone has delivered nothing in time.
    TimedOut,
    /// The microphone is gone.
    Disconnected,
    /// Nothing more is waiting.
    Empty,
    /// The resampler has given samples, or has failed.
    Resampled(Option<Vec<S>>),
    /// Voice detection has given speech.
    Speech(Vec<S>),
}

/// What is to be done.
pub enum LocalAction<S> {
    /// Look whether the recording runs.
    CheckFlag,
    /// Wait a little for samples of the microphone.
    Wait,
    /// Take samples of the microphone that are waiting.
    Take,
    /// Give samples to the resampler.
    Resample(Vec<S>),
    /// Give samples to voice detection.
    Filter(Vec<S>),
    /// Tell the windows that the sound is being processed, and ask the resampler for what
    /// it has kept back.
    Finish,
    /// Ask voice detection for what it has kept back.
    FlushVad,
    /// Begin a `Dictation` with the sound.
    Transcribe,
    /// Tell the windows that it is complete.
    Complete,
}

/// A `LocalEvent`, with samples as sequences.
pub enum LocalEventView<S> {
    Recording,
    Stopped,
    Samples(Seq<S>),
    TimedOut,
    Disconnected,
    Empty,
    Resampled(Option<Seq<S>>),
    Speech(Seq<S>),
}

impl<S> View for LocalEvent<S> {
    type V = LocalEventView<S>;

    open spec fn view(&self) -> LocalEventView<S> {
        match *self {
            LocalEvent::Recording => LocalEventView::Recording,
            LocalEvent::Stopped => LocalEventView::Stopped,
            LocalEvent::Samples(samples) => LocalEventView::Samples(samples@),
            LocalEvent::TimedOut => LocalEventView::TimedOut,
            LocalEvent::Disconnected => LocalEventView::Disconnected,
            LocalEvent::Empty => LocalEventView::Empty,
            LocalEvent::Resampled(Some(samples)) => LocalEventView::Resampled(Some(samples@)),
            LocalEvent::Resampled(None) => LocalEventView::Resampled(None),
            LocalEvent::Speech(samples) => LocalEventView::Speech(samples@),
        }
    }
}

/// A `LocalAction`, with samples as sequences.
pub enum LocalActionView<S> {
    CheckFlag,
    Wait,
    Take,
    Resample(Seq<S>),
    Filter(Seq<S>),
    Finish,
    FlushVad,
    Transcribe,
    Complete,
}

impl<S> View for LocalAction<S> {
    type V = LocalActionView<S>;

    open spec fn view(&self) -> LocalActionView<S> {
        match *self {
            LocalAction::CheckFlag => LocalActionView::CheckFlag,
            LocalAction::Wait => LocalActionView::Wait,
            LocalAction::Take => LocalActionView::Take,
            LocalAction::Resample(samples) => LocalActionView::Resample(samples@),
            LocalAction::Filter(samples) => LocalActionView::Filter(samples@),
            LocalAction::Finish => LocalActionView::Finish,
            LocalAction::FlushVad => LocalActionView::FlushVad,
            LocalAction::Transcribe => LocalActionView::Transcribe,
            LocalAction::Complete => LocalActionView::Complete,
        }
    }
}

/// Gathers the sound of a dictation.
pub struct LocalWorker<S> {
    pub stage: LocalStage,
    /// Voice detection is used.
    pub has_vad: bool,
    /// The sound gathered so far.
    pub audio: Vec<S>,
}

/// A `LocalWorker`, with the sound as a sequence.
#[verifier::ext_equal]
pub struct WorkerView<S> {
    pub stage: LocalStage,
    pub has_vad: bool,
    pub audio: Seq<S>,
}

impl<S> View for LocalWorker<S> {
    type V = WorkerView<S>;

    open spec fn view(&self) -> WorkerView<S> {
        WorkerView { stage: self.stage, has_vad: self.has_vad, audio: self.audio@ }
    }
}

impl<S> WorkerView<S> {
    /// The work at its start.
    pub open spec fn started(has_vad: bool) -> Self {
        WorkerView { stage: LocalStage::Flag, has_vad, audio: Seq::empty() }
    }

    /// The work with sound added.
    pub open spec fn with(self, samples: Seq<S>) -> Self {
        WorkerView { audio: self.audio + samples, ..self }
    }

    /// The work at a stage.
    pub open spec fn at(self, stage: LocalStage) -> Self {
        WorkerView { stage, ..self }
    }

    /// The work at its end. The model is asked only where there is sound.
    pub open spec fn ended(self) -> (Self, LocalActionView<S>) {
        (
            self.at(LocalStage::Ended),
            if self.audio.len() > 0 {
                LocalActionView::Transcribe
            } else {
                LocalActionView::Complete
            },
        )
    }

    /// The work after a piece of sound has been dealt with.
    pub open spec fn after(self, phase: Phase) -> (Self, LocalActionView<S>) {
        match phase {
            Phase::Listening => (self.at(LocalStage::Flag), LocalActionView::CheckFlag),
            Phase::Emptying => (self.at(LocalStage::Taking), LocalActionView::Take),
            Phase::Finishing => if self.has_vad {
                (self.at(LocalStage::FlushingVad), LocalActionView::FlushVad)
            } else {
                self.ended()
            },
        }
    }

    /// The course of the work: the next state, and what is to be done. `None` where the
    /// event is not what the stage waits for.
    pub open spec fn next(self, event: LocalEventView<S>) -> Option<(Self, LocalActionView<S>)> {
        match (self.stage, event) {
            (LocalStage::Flag, LocalEventView::Recording) => Some(
                (self.at(LocalStage::Waiting), LocalActionView::Wait),
            ),
            (LocalStage::Flag, LocalEventView::Stopped) => Some(
                (self.at(LocalStage::Taking), LocalActionView::Take),
            ),
            (LocalStage::Waiting, LocalEventView::Samples(samples)) => Some(
                (
                    self.at(LocalStage::Resampling(Phase::Listening)),
                    LocalActionView::Resample(samples),
                ),
            ),
            (LocalStage::Waiting, LocalEventView::TimedOut) => Some(
                (self.at(LocalStage::Flag), LocalActionView::CheckFlag),
            ),
            (LocalStage::Waiting, LocalEventView::Disconnected) => Some(
                (self.at(LocalStage::Taking), LocalActionView::Take),
            ),
            (LocalStage::Taking, LocalEventView::Samples(samples)) => Some(
                (
                    self.at(LocalStage::Resampling(Phase::Emptying)),
                    LocalActionView::Resample(samples),
                ),
            ),
            (LocalStage::Taking, LocalEventView::Empty) => Some(
                (self.at(LocalStage::Resampling(Phase::Finishing)), LocalActionView::Finish),
            ),
            (LocalStage::Resampling(phase), LocalEventView::Resampled(None)) => Some(
                self.after(phase),
            ),
            (LocalStage::Resampling(phase), LocalEventView::Resampled(Some(samples))) => Some(
                if self.has_vad {
                    (self.at(LocalStage::Filtering(phase)), LocalActionView::Filter(samples))
                } else {
                    self.with(samples).after(phase)
                },
            ),
            (LocalStage::Filtering(phase), LocalEventView::Speech(samples)) => Some(
                self.with(samples).after(phase),
            ),
            (LocalStage::FlushingVad, LocalEventView::Speech(samples)) => Some(
                self.with(samples).ended(),
            ),
            _ => None,
        }
    }
}

impl<S> LocalWorker<S> {
    /// Begins the work.
    pub fn new(has_vad: bool) -> (r: Self)
        ensures
            r@ == WorkerView::<S>::started(has_vad),
    {
        let r = LocalWorker { stage: LocalStage::Flag, has_vad, audio: Vec::new() };
        assert(r@ =~= WorkerView::<S>::started(has_vad));
        r
    }

    fn end(&mut self) -> (r: LocalAction<S>)
        ensures
            (final(self)@, r@) == old(self)@.ended(),
    {
        self.stage = LocalStage::Ended;
        if self.audio.len() > 0 {
            LocalAction::Transcribe
        } else {
            LocalAction::Complete
        }
    }

    fn proceed(&mut self, phase: Phase) -> (r: LocalAction<S>)
        ensures
            (final(self)@, r@) == old(self)@.after(phase),
    {
        match phase {
            Phase::Listening => {
                self.stage = LocalStage::Flag;
                LocalAction::CheckFlag
            },
            Phase::Emptying => {
                self.stage = LocalStage::Taking;
                LocalAction::Take
            },
            Phase::Finishing => {
                if self.has_vad {
                    self.stage = LocalStage::FlushingVad;
                    LocalAction::FlushVad
                } else {
                    self.end()
                }
            },
        }
    }

    fn gather(&mut self, samples: Vec<S>)
        ensures
            final(self)@ == old(self)@.with(samples@),
    {
        let mut more = samples;
        self.audio.append(&mut more);
    }

    fn turn(&mut self, stage: LocalStage, action: LocalAction<S>) -> (r: Option<LocalAction<S>>)
        ensures
            final(self)@ == old(self)@.at(stage),
            r == Some(action),
    {
        self.stage = stage;
        Some(action)
    }

    /// Takes the work one step on. Where the event is not what the stage waits for,
    /// nothing changes.
    pub fn step(&mut self, event: LocalEvent<S>) -> (r: Option<LocalAction<S>>)
        ensures
            match r {
                Some(action) => old(self)@.next(event@) == Some((final(self)@, action@)),
                None => old(self)@.next(event@) is None && final(self)@ == old(self)@,
            },
    {
        match (self.stage, event) {
            (LocalStage::Flag, LocalEvent::Recording) => {
                self.turn(LocalStage::Waiting, LocalAction::Wait)
            },
            (LocalStage::Flag, LocalEvent::Stopped) => {
                self.turn(LocalStage::Taking, LocalAction::Take)
            },
            (LocalStage::Waiting, LocalEvent::Samples(samples)) => {
                self.turn(
                    LocalStage::Resampling(Phase::Listening),
                    LocalAction::Resample(samples),
                )
            },
            (LocalStage::Waiting, LocalEvent::TimedOut) => {
                self.turn(LocalStage::Flag, LocalAction::CheckFlag)
            },
            (LocalStage::Waiting, LocalEvent::Disconnected) => {
                self.turn(LocalStage::Taking, LocalAction::Take)
            },
            (LocalStage::Taking, LocalEvent::Samples(samples)) => {
                self.turn(LocalStage::Resampling(Phase::Emptying), LocalAction::Resample(samples))
            },
            (LocalStage::Taking, LocalEvent::Empty) => {
                self.turn(LocalStage::Resampling(Phase::Finishing), LocalAction::Finish)
            },
            (LocalStage::Resampling(phase), LocalEvent::Resampled(resampled)) => {
                match resampled {
                    None => Some(self.proceed(phase)),
                    Some(samples) => if self.has_vad {
                        self.turn(LocalStage::Filtering(phase), LocalAction::Filter(samples))
                    } else {
                        self.gather(samples);
                        Some(self.proceed(phase))
                    },
                }
            },
            (LocalStage::Filtering(phase), LocalEvent::Speech(samples)) => {
                self.gather(samples);
                Some(self.proceed(phase))
            },
            (LocalStage::FlushingVad, LocalEvent::Speech(samples)) => {
                self.gather(samples);
                Some(self.end())
            },
            _ => None,
        }
    }
}

/// Where the work stands, and all that was done.
pub struct LocalCourse<S> {
    pub worker: WorkerView<S>,
    pub done: Seq<LocalActionView<S>>,
}

/// The work from its start. `None` where an event was not what was waited for.
pub open spec fn local_course<S>(
    has_vad: bool,
    events: Seq<LocalEventView<S>>,
) -> Option<LocalCourse<S>>
    decreases events.len(),
{
    if events.len() == 0 {
        Some(LocalCourse { worker: WorkerView::started(has_vad), done: Seq::empty() })
    } else {
        match local_course(has_vad, events.drop_last()) {
            Some(course) => match course.worker.next(events.last()) {
                Some((worker, action)) => Some(
                    LocalCourse { worker, done: course.done.push(action) },
                ),
                None => None,
            },
            None => None,
        }
    }
}

/// All samples that the microphone delivered, in order.
pub open spec fn microphone_sound<S>(events: Seq<LocalEventView<S>>) -> Seq<S>
    decreases events.len(),
{
    if events.len() == 0 {
        Seq::empty()
    } else {
        match events.last() {
            LocalEventView::Samples(samples) => microphone_sound(events.drop_last()) + samples,
            _ => microphone_sound(events.drop_last()),
        }
    }
}

/// All samples that were given to the resampler, in order.
pub open spec fn resampler_input<S>(done: Seq<LocalActionView<S>>) -> Seq<S>
    decreases done.len(),
{
    if done.len() == 0 {
        Seq::empty()
    } else {
        match done.last() {
            LocalActionView::Resample(samples) => resampler_input(done.drop_last()) + samples,
            _ => resampler_input(done.drop_last()),
        }
    }
}

/// All samples that the resampler gave, in order.
pub open spec fn resampler_output<S>(events: Seq<LocalEventView<S>>) -> Seq<S>
    decreases events.len(),
{
    if events.len() == 0 {
        Seq::empty()
    } else {
        match events.last() {
            LocalEventView::Resampled(Some(samples)) => resampler_output(events.drop_last())
                + samples,
            _ => resampler_output(events.drop_last()),
        }
    }
}

/// All samples that were given to voice detection, in order.
pub open spec fn vad_input<S>(done: Seq<LocalActionView<S>>) -> Seq<S>
    decreases done.len(),
{
    if done.len() == 0 {
        Seq::empty()
    } else {
        match done.last() {
            LocalActionView::Filter(samples) => vad_input(done.drop_last()) + samples,
            _ => vad_input(done.drop_last()),
        }
    }
}

/// All samples that voice detection gave, in order.
pub open spec fn vad_output<S>(events: Seq<LocalEventView<S>>) -> Seq<S>
    decreases events.len(),
{
    if events.len() == 0 {
        Seq::empty()
    } else {
        match events.last() {
            LocalEventView::Speech(samples) => vad_output(events.drop_last()) + samples,
            _ => vad_output(events.drop_last()),
        }
    }
}

/// No sound is lost and none comes twice: all that the microphone delivered goes to the
/// resampler; all that the resampler gives is kept, or, where voice detection is used,
/// goes to it, and all that it takes for speech is kept. The order stays.
pub proof fn no_sound_is_lost<S>(has_vad: bool, events: Seq<LocalEventView<S>>)
    requires
        local_course(has_vad, events) is Some,
    ensures
        ({
            let course = local_course(has_vad, events)->0;
            &&& course.worker.has_vad == has_vad
            &&& resampler_input(course.done) == microphone_sound(events)
            &&& has_vad ==> vad_input(course.done) == resampler_output(events)
            &&& has_vad ==> course.worker.audio == vad_output(events)
            &&& !has_vad ==> course.worker.audio == resampler_output(events)
        }),
    decreases events.len(),
{
    if events.len() > 0 {
        let before = events.drop_last();
        no_sound_is_lost(has_vad, before);
        let course = local_course(has_vad, before)->0;
        let (worker, action) = course.worker.next(events.last())->0;
        assert(course.done.push(action).drop_last() =~= course.done);
    }
}

/// The windows are told that the sound is being processed only when nothing more is
/// waiting, and once; the work ends only after that, with a dictation where there is sound,
/// and else with word to the windows that it is complete.
pub proof fn the_work_ends_with_completion<S>(has_vad: bool, events: Seq<LocalEventView<S>>)
    requires
        local_course(has_vad, events) is Some,
    ensures
        ({
            let LocalCourse { worker, done } = local_course(has_vad, events)->0;
            &&& done.len() == events.len()
            &&& forall|i: int|
                0 <= i < done.len() && #[trigger] done[i] is Finish ==> events[i] is Empty
            &&& forall|i: int, j: int|
                0 <= i < done.len() && 0 <= j < done.len() && #[trigger] done[i] is Finish
                    && #[trigger] done[j] is Finish ==> i == j
            &&& (exists|i: int| 0 <= i < done.len() && #[trigger] done[i] is Finish) <==> {
                ||| worker.stage == LocalStage::Resampling(Phase::Finishing)
                ||| worker.stage == LocalStage::Filtering(Phase::Finishing)
                ||| worker.stage is FlushingVad
                ||| worker.stage is Ended
            }
            &&& worker.stage is Ended ==> done.len() > 0 && done.last() == (
            if worker.audio.len() > 0 {
                LocalActionView::Transcribe
            } else {
                LocalActionView::<S>::Complete
            })
        }),
    decreases events.len(),
{
    if events.len() > 0 {
        let before = events.drop_last();
        the_work_ends_with_completion(has_vad, before);
        let course = local_course(has_vad, before)->0;
        let (worker, action) = course.worker.next(events.last())->0;
        let done = course.done.push(action);
        assert forall|i: int| 0 <= i < done.len() && #[trigger] done[i] is Finish implies events[i] is Empty by {
            if i < course.done.len() {
                assert(course.done[i] is Finish);
                assert(before[i] == events[i]);
            }
        }
        assert forall|i: int, j: int|
            0 <= i < done.len() && 0 <= j < done.len() && #[trigger] done[i] is Finish
                && #[trigger] done[j] is Finish implies i == j by {
            if i < course.done.len() {
                assert(course.done[i] is Finish);
            }
            if j < course.done.len() {
                assert(course.done[j] is Finish);
            }
        }
        if exists|i: int| 0 <= i < course.done.len() && #[trigger] course.done[i] is Finish {
            let i = choose|i: int|
                0 <= i < course.done.len() && #[trigger] course.done[i] is Finish;
            assert(done[i] is Finish);
        }
        if action is Finish {
            assert(done[done.len() - 1] is Finish);
        }
        if exists|i: int| 0 <= i < done.len() && #[trigger] done[i] is Finish {
            let i = choose|i: int| 0 <= i < done.len() && #[trigger] done[i] is Finish;
            if i < course.done.len() {
                assert(course.done[i] is Finish);
            }
        }
    }
}

/// Whether a model has to be loaded before it is used.
pub fn needs_loading(loaded: Option<&str>, wanted: &str) -> (r: bool)
    ensures
        r == (str_view(loaded) != Some(wanted@)),
{
    match loaded {
        Some(loaded) => !same_str(loaded, wanted),
        None => true,
    }
}

/// What becomes of the sound of a dictation.
pub enum Decision {
    /// There is no sound.
    Nothing,
    /// There is no speech in it, and the user is told so.
    Skip(String),
    /// The model is asked.
    Transcribe,
}

/// What is said where a recording holds no speech.
pub open spec fn no_speech_message(seconds: Seq<char>) -> Seq<char> {
    "These "@ + seconds
        + " seconds held no speech, so nothing was typed. If you were speaking, the microphone is not reaching the app: check the input volume in System Settings > Sound > Input and close other apps holding the microphone (Teams, Zoom)."@
}

/// What is said where the microphone was almost silent.
pub open spec fn almost_silent_message(seconds: Seq<char>) -> Seq<char> {
    "The microphone was almost silent for these "@ + seconds
        + " seconds, so most of the speech could not be read. Check the input volume in System Settings > Sound > Input, speak closer to the microphone, and close other apps holding the microphone (Teams, Zoom)."@
}

/// Decides what becomes of the sound of a dictation, `seconds` long. Silence never reaches
/// the model: it would invent sentences.
pub fn decide(empty: bool, level: Loudness, peak: Loudness, seconds: &str) -> (r: Decision)
    ensures
        r is Nothing <==> empty,
        r is Transcribe <==> !empty && is_speech(level, peak),
        r matches Decision::Skip(message) ==> message@ == no_speech_message(seconds@),
{
    if empty {
        return Decision::Nothing;
    }
    if holds_speech(level, peak) {
        return Decision::Transcribe;
    }
    let mut message = owned("These ");
    message.append(seconds);
    message.append(
        " seconds held no speech, so nothing was typed. If you were speaking, the microphone is not reaching the app: check the input volume in System Settings > Sound > Input and close other apps holding the microphone (Teams, Zoom).",
    );
    Decision::Skip(message)
}

/// The loudness below which a microphone was almost silent: 0.02, about a quarter of
/// normal speech.
pub const ALMOST_SILENT: u32 = 0x3ca3_d70a;

/// What the user is told of the loudness of what the model was given.
pub fn quiet_warning(level_after: Loudness, seconds: &str) -> (r: Option<String>)
    ensures
        optional_view(r) == (if level_after.key < ALMOST_SILENT {
            Some(almost_silent_message(seconds@))
        } else {
            None
        }),
{
    if level_after.key >= ALMOST_SILENT {
        return None;
    }
    let mut message = owned("The microphone was almost silent for these ");
    message.append(seconds);
    message.append(
        " seconds, so most of the speech could not be read. Check the input volume in System Settings > Sound > Input, speak closer to the microphone, and close other apps holding the microphone (Teams, Zoom).",
    );
    Some(message)
}

/// A length of time in seconds, held as the bit pattern of the number, as a `Loudness` is.
#[derive(Clone, Copy, PartialEq, Eq, Structural, Debug)]
pub struct Seconds {
    pub key: u32,
}

/// What one finished dictation did.
pub struct DictationStats {
    pub model: String,
    /// The length of the sound.
    pub seconds: Seconds,
    /// The loudness of the spoken parts, before and after the level was raised.
    pub level_before: Loudness,
    pub level_after: Loudness,
    pub gain: Loudness,
    /// The time spent inside the model.
    pub took: Seconds,
    /// The characters of text that came back.
    pub chars: usize,
}

/// What a `DictationStats` says, with the name of the model as a sequence of characters.
pub struct StatsView {
    pub model: Seq<char>,
    pub seconds: Seconds,
    pub level_before: Loudness,
    pub level_after: Loudness,
    pub gain: Loudness,
    pub took: Seconds,
    pub chars: nat,
}

impl View for DictationStats {
    type V = StatsView;

    open spec fn view(&self) -> StatsView {
        StatsView {
            model: self.model@,
            seconds: self.seconds,
            level_before: self.level_before,
            level_after: self.level_after,
            gain: self.gain,
            took: self.took,
            chars: self.chars as nat,
        }
    }
}

/// The numbers of a dictation that was skipped: the level was left alone, no time was
/// spent, and no text came back.
pub open spec fn skipped(seconds: Seconds, level: Loudness) -> StatsView {
    StatsView {
        model: "skipped - no speech"@,
        seconds,
        level_before: level,
        level_after: level,
        gain: Loudness { key: UNCHANGED },
        took: Seconds { key: 0 },
        chars: 0,
    }
}

/// Gives the numbers of a dictation that was skipped.
pub fn skipped_stats(seconds: Seconds, level: Loudness) -> (r: DictationStats)
    ensures
        r@ == skipped(seconds, level),
{
    DictationStats {
        model: owned("skipped - no speech"),
        seconds,
        level_before: level,
        level_after: level,
        gain: Loudness { key: UNCHANGED },
        took: Seconds { key: 0 },
        chars: 0,
    }
}

/// The characters of text that came back of the model.
pub open spec fn chars_of_result(result: Result<Seq<char>, Seq<char>>) -> nat {
    match result {
        Ok(text) => trimmed(text).len(),
        Err(_) => 0,
    }
}

/// How many characters of text came back of the model.
pub fn count_chars(result: &Result<String, String>) -> (r: usize)
    ensures
        r == chars_of_result(text_view(*result)),
{
    match result {
        Ok(text) => {
            let whole = chars_of(text.as_str());
            trim(&whole).len()
        },
        Err(_) => 0,
    }
}

/// What follows from what came back of the model.
pub struct ModelPlan {
    /// The text, if there is one.
    pub text: Option<String>,
    /// What is to be typed, before anything is told.
    pub to_type: Option<String>,
    /// What went wrong.
    pub error: Option<String>,
}

/// What a `ModelPlan` says, as sequences of characters.
pub struct PlanView {
    pub text: Option<Seq<char>>,
    pub to_type: Option<Seq<char>>,
    pub error: Option<Seq<char>>,
}

impl View for ModelPlan {
    type V = PlanView;

    open spec fn view(&self) -> PlanView {
        PlanView {
            text: optional_view(self.text),
            to_type: optional_view(self.to_type),
            error: optional_view(self.error),
        }
    }
}

/// What follows from what came back of the model: white space around the text is dropped,
/// and it is typed with a space after it where typing is switched on.
pub open spec fn plan_of(result: Result<Seq<char>, Seq<char>>, auto_type: bool) -> PlanView {
    match result {
        Ok(text) => if trimmed(text).len() == 0 {
            PlanView { text: None, to_type: None, error: None }
        } else {
            PlanView {
                text: Some(trimmed(text)),
                to_type: if auto_type {
                    Some(trimmed(text) + " "@)
                } else {
                    None
                },
                error: None,
            }
        },
        Err(message) => PlanView { text: None, to_type: None, error: Some(message) },
    }
}

/// Decides what follows from what came back of the model.
pub fn plan_result(result: Result<String, String>, auto_type: bool) -> (r: ModelPlan)
    ensures
        r@ == plan_of(text_view(result), auto_type),
{
    match result {
        Ok(text) => {
            let whole = chars_of(text.as_str());
            let bare = trim(&whole);
            if bare.len() == 0 {
                return ModelPlan { text: None, to_type: None, error: None };
            }
            let text = string_of(bare);
            let to_type = if auto_type {
                let mut typed = text.clone();
                typed.append(" ");
                Some(typed)
            } else {
                None
            };
            ModelPlan { text: Some(text), to_type, error: None }
        },
        Err(message) => ModelPlan { text: None, to_type: None, error: Some(message) },
    }
}

/// What the windows are told.
pub enum Announcement {
    /// What the dictation did.
    Stats(DictationStats),
    /// A text could not be typed; it goes to the clipboard.
    AutoTypeFailed(String),
    /// Something went wrong.
    TranscriptionError(String),
    /// A text was recognised.
    Transcription(TranscriptionEvent),
    /// Nothing more comes of the dictation.
    Complete,
}

/// An `Announcement`, as sequences of characters.
pub enum AnnouncementView {
    Stats(StatsView),
    AutoTypeFailed(Seq<char>),
    TranscriptionError(Seq<char>),
    Transcription(HeardView),
    Complete,
}

impl View for Announcement {
    type V = AnnouncementView;

    open spec fn view(&self) -> AnnouncementView {
        match *self {
            Announcement::Stats(stats) => AnnouncementView::Stats(stats@),
            Announcement::AutoTypeFailed(text) => AnnouncementView::AutoTypeFailed(text@),
            Announcement::TranscriptionError(message) => AnnouncementView::TranscriptionError(
                message@,
            ),
            Announcement::Transcription(event) => AnnouncementView::Transcription(event@),
            Announcement::Complete => AnnouncementView::Complete,
        }
    }
}

/// The views of a list of announcements.
pub open spec fn announcement_views(v: Seq<Announcement>) -> Seq<AnnouncementView> {
    v.map_values(|a: Announcement| a@)
}

/// What the windows are told of a plan, in order. `typing_error` says why the text could
/// not be typed.
pub open spec fn told(plan: PlanView, typing_error: Option<Seq<char>>) -> Seq<AnnouncementView> {
    let failed = match (plan.text, plan.to_type, typing_error) {
        (Some(text), Some(_), Some(reason)) => seq![
            AnnouncementView::AutoTypeFailed(text),
            AnnouncementView::TranscriptionError(reason),
        ],
        _ => Seq::empty(),
    };
    let shown = match plan.text {
        Some(text) => seq![AnnouncementView::Transcription(HeardView { text, is_final: true })],
        None => Seq::empty(),
    };
    let wrong = match plan.error {
        Some(message) => seq![AnnouncementView::TranscriptionError(message)],
        None => Seq::empty(),
    };
    failed + shown + wrong
}

/// Lists what the windows are told of a plan once its text has been typed or not.
pub fn announcements(plan: ModelPlan, typing_error: Option<String>) -> (r: Vec<Announcement>)
    ensures
        announcement_views(r@) == told(plan@, optional_view(typing_error)),
{
    let mut out: Vec<Announcement> = Vec::new();
    let ghost whole = told(plan@, optional_view(typing_error));
    let ModelPlan { text, to_type, error } = plan;
    match text {
        Some(text) => {
            if to_type.is_some() {
                match typing_error {
                    Some(reason) => {
                        out.push(Announcement::AutoTypeFailed(text.clone()));
                        out.push(Announcement::TranscriptionError(reason));
                    },
                    None => {},
                }
            }
            out.push(Announcement::Transcription(TranscriptionEvent { text, is_final: true }));
        },
        None => {},
    }
    match error {
        Some(message) => {
            out.push(Announcement::TranscriptionError(message));
        },
        None => {},
    }
    assert(announcement_views(out@) =~= whole);
    out
}

/// A text never ends up nowhere: it is shown whatever comes of typing it, and where it
/// could not be typed it is handed over for the clipboard and the reason is told.
pub proof fn a_text_is_never_lost(
    text: Seq<char>,
    auto_type: bool,
    typing_error: Option<Seq<char>>,
)
    requires
        trimmed(text).len() > 0,
    ensures
        ({
            let out = told(plan_of(Ok(text), auto_type), typing_error);
            &&& out.last() == AnnouncementView::Transcription(
                HeardView { text: trimmed(text), is_final: true },
            )
            &&& auto_type ==> (typing_error matches Some(reason) ==> out[0]
                == AnnouncementView::AutoTypeFailed(trimmed(text)) && out[1]
                == AnnouncementView::TranscriptionError(reason))
        }),
{
}

/// Something that went wrong on the way of a dictation.
#[derive(Clone, Copy, PartialEq, Eq, Structural, Debug)]
pub enum Fault {
    /// The transcription engine cannot be reached.
    Engine,
    /// The model cannot be loaded.
    Model,
    /// The resampler cannot be made.
    Resampler,
    /// The transcription engine has failed before.
    BrokenEngine,
    /// The microphone stopped while the recording ran.
    MicrophoneStopped,
    /// The format of the microphone is unknown.
    MicrophoneFormat,
    /// The microphone cannot be opened.
    MicrophoneClosed,
    /// The microphone does not start.
    MicrophoneStuck,
    /// The microphone names no format.
    MicrophoneConfig,
}

/// What the user is told of a fault, before and after its cause.
pub open spec fn fault_words(fault: Fault) -> (Seq<char>, Seq<char>) {
    match fault {
        Fault::Engine => ("Failed to access transcription engine: "@, ""@),
        Fault::Model => ("Failed to load model: "@, ""@),
        Fault::Resampler => ("Failed to create resampler: "@, ""@),
        Fault::BrokenEngine => (
            "The transcription engine is in a broken state after an earlier failure ("@,
            "). Restart Omegawhisper."@,
        ),
        Fault::MicrophoneStopped => (
            "The microphone stopped during the recording ("@,
            "). Whatever was recorded before it stopped has been kept."@,
        ),
        Fault::MicrophoneFormat => (
            "This microphone sends audio in a format the app cannot read ("@,
            ")."@,
        ),
        Fault::MicrophoneClosed => (
            "The microphone could not be opened: "@,
            ". Check that no other app is holding it, and that Omegawhisper is allowed in System Settings > Privacy & Security > Microphone."@,
        ),
        Fault::MicrophoneStuck => ("The microphone opened but would not start: "@, "."@),
        Fault::MicrophoneConfig => ("Failed to get input config: "@, ""@),
    }
}

/// What the user is told of a fault.
pub fn fault_message(fault: Fault, cause: &str) -> (r: String)
    ensures
        r@ == fault_words(fault).0 + cause@ + fault_words(fault).1,
{
    let (before, after) = match fault {
        Fault::Engine => ("Failed to access transcription engine: ", ""),
        Fault::Model => ("Failed to load model: ", ""),
        Fault::Resampler => ("Failed to create resampler: ", ""),
        Fault::BrokenEngine => (
            "The transcription engine is in a broken state after an earlier failure (",
            "). Restart Omegawhisper.",
        ),
        Fault::MicrophoneStopped => (
            "The microphone stopped during the recording (",
            "). Whatever was recorded before it stopped has been kept.",
        ),
        Fault::MicrophoneFormat => (
            "This microphone sends audio in a format the app cannot read (",
            ").",
        ),
        Fault::MicrophoneClosed => (
            "The microphone could not be opened: ",
            ". Check that no other app is holding it, and that Omegawhisper is allowed in System Settings > Privacy & Security > Microphone.",
        ),
        Fault::MicrophoneStuck => ("The microphone opened but would not start: ", "."),
        Fault::MicrophoneConfig => ("Failed to get input config: ", ""),
    };
    let mut message = owned(before);
    message.append(cause);
    message.append(after);
    message
}

/// What was measured of the sound of a dictation.
pub struct Measured {
    /// How loud the spoken parts are.
    pub level: Loudness,
    /// The loudest sample.
    pub peak: Loudness,
    pub length: Seconds,
    /// The length in whole seconds, as the user reads it.
    pub seconds: String,
}

/// A `Measured`, as a sequence of characters.
pub struct MeasuredView {
    pub level: Loudness,
    pub peak: Loudness,
    pub length: Seconds,
    pub seconds: Seq<char>,
}

impl View for Measured {
    type V = MeasuredView;

    open spec fn view(&self) -> MeasuredView {
        MeasuredView {
            level: self.level,
            peak: self.peak,
            length: self.length,
            seconds: self.seconds@,
        }
    }
}

/// Where a dictation stands: what is waited for.
#[derive(Clone, Copy, PartialEq, Eq, Structural, Debug)]
pub enum DictationStage {
    /// The sound without its quiet edges.
    Trimming,
    /// The sound at a level that the model can work with.
    Raising,
    /// That the sound was saved.
    Saving,
    /// What comes back of the model.
    Asking,
    /// What comes of typing the text.
    Typing,
    /// Nothing any more.
    Ended,
}

/// What happened. `S` is a sample.
pub enum DictationEvent<S> {
    /// The quiet edges were cut off.
    Trimmed(Vec<S>),
    /// The level was raised by `gain`, to `level`.
    Raised { audio: Vec<S>, gain: Loudness, level: Loudness },
    /// The sound was saved, or could not be.
    Saved,
    /// The model has answered.
    Answered { model: String, took: Seconds, result: Result<String, String> },
    /// The model could not be asked, for this cause.
    Broken(String),
    /// The text was typed, or could not be, for this reason.
    Typed(Option<String>),
}

/// What is to be done.
pub enum Task<S> {
    /// Cut the quiet edges off the sound.
    Trim(Vec<S>),
    /// Raise the level of the sound.
    Raise(Vec<S>),
    /// Save the sound.
    Save(Vec<S>),
    /// Ask the model what is said in the sound.
    Ask(Vec<S>),
    /// Type the text.
    Type(String),
    /// Nothing any more.
    End,
}

/// What the windows are told first, and what is to be done then.
pub struct Turn<S> {
    pub told: Vec<Announcement>,
    pub task: Task<S>,
}

/// A `DictationEvent`, as sequences.
pub enum DictationEventView<S> {
    Trimmed(Seq<S>),
    Raised { audio: Seq<S>, gain: Loudness, level: Loudness },
    Saved,
    Answered { model: Seq<char>, took: Seconds, result: Result<Seq<char>, Seq<char>> },
    Broken(Seq<char>),
    Typed(Option<Seq<char>>),
}

impl<S> View for DictationEvent<S> {
    type V = DictationEventView<S>;

    open spec fn view(&self) -> DictationEventView<S> {
        match *self {
            DictationEvent::Trimmed(audio) => DictationEventView::Trimmed(audio@),
            DictationEvent::Raised { audio, gain, level } => DictationEventView::Raised {
                audio: audio@,
                gain,
                level,
            },
            DictationEvent::Saved => DictationEventView::Saved,
            DictationEvent::Answered { model, took, result } => DictationEventView::Answered {
                model: model@,
                took,
                result: text_view(result),
            },
            DictationEvent::Broken(cause) => DictationEventView::Broken(cause@),
            DictationEvent::Typed(reason) => DictationEventView::Typed(optional_view(reason)),
        }
    }
}

/// A `Task`, as sequences.
pub enum TaskView<S> {
    Trim(Seq<S>),
    Raise(Seq<S>),
    Save(Seq<S>),
    Ask(Seq<S>),
    Type(Seq<char>),
    End,
}

impl<S> View for Task<S> {
    type V = TaskView<S>;

    open spec fn view(&self) -> TaskView<S> {
        match *self {
            Task::Trim(audio) => TaskView::Trim(audio@),
            Task::Raise(audio) => TaskView::Raise(audio@),
            Task::Save(audio) => TaskView::Save(audio@),
            Task::Ask(audio) => TaskView::Ask(audio@),
            Task::Type(text) => TaskView::Type(text@),
            Task::End => TaskView::End,
        }
    }
}

/// A `Turn`, as sequences.
#[verifier::ext_equal]
pub struct TurnView<S> {
    pub told: Seq<AnnouncementView>,
    pub task: TaskView<S>,
}

impl<S> View for Turn<S> {
    type V = TurnView<S>;

    open spec fn view(&self) -> TurnView<S> {
        TurnView { told: announcement_views(self.told@), task: self.task@ }
    }
}

/// What becomes of the sound of one dictation.
pub struct Dictation<S> {
    pub stage: DictationStage,
    pub audio: Vec<S>,
    /// Type the text into the app in front.
    pub auto_type: bool,
    pub length: Seconds,
    pub seconds: String,
    pub level_before: Loudness,
    pub level_after: Loudness,
    pub gain: Loudness,
    pub plan: ModelPlan,
}

/// A `Dictation`, as sequences.
#[verifier::ext_equal]
pub struct DictationView<S> {
    pub stage: DictationStage,
    pub audio: Seq<S>,
    pub auto_type: bool,
    pub length: Seconds,
    pub seconds: Seq<char>,
    pub level_before: Loudness,
    pub level_after: Loudness,
    pub gain: Loudness,
    pub plan: PlanView,
}

impl<S> View for Dictation<S> {
    type V = DictationView<S>;

    open spec fn view(&self) -> DictationView<S> {
        DictationView {
            stage: self.stage,
            audio: self.audio@,
            auto_type: self.auto_type,
            length: self.length,
            seconds: self.seconds@,
            level_before: self.level_before,
            level_after: self.level_after,
            gain: self.gain,
            plan: self.plan@,
        }
    }
}

/// Nothing follows.
pub open spec fn no_plan() -> PlanView {
    PlanView { text: None, to_type: None, error: None }
}

/// What is told of the loudness of what the model was given.
pub open spec fn warned(level_after: Loudness, seconds: Seq<char>) -> Seq<AnnouncementView> {
    if level_after.key < ALMOST_SILENT {
        seq![AnnouncementView::TranscriptionError(almost_silent_message(seconds))]
    } else {
        Seq::empty()
    }
}

impl<S> DictationView<S> {
    /// A dictation before anything has happened.
    pub open spec fn fresh(measured: MeasuredView, auto_type: bool) -> Self {
        DictationView {
            stage: DictationStage::Trimming,
            audio: Seq::empty(),
            auto_type,
            length: measured.length,
            seconds: measured.seconds,
            level_before: measured.level,
            level_after: measured.level,
            gain: Loudness { key: UNCHANGED },
            plan: no_plan(),
        }
    }

    /// The dictation at a stage.
    pub open spec fn at(self, stage: DictationStage) -> Self {
        DictationView { stage, ..self }
    }

    /// The dictation at its end, and the last that is told.
    pub open spec fn ended(self, told: Seq<AnnouncementView>) -> (Self, TurnView<S>) {
        (
            DictationView { plan: no_plan(), ..self.at(DictationStage::Ended) },
            TurnView { told: told.push(AnnouncementView::Complete), task: TaskView::End },
        )
    }

    /// How a dictation begins. Without sound nothing follows; sound without speech is
    /// skipped, with its numbers and the reason; anything else goes its way to the model.
    pub open spec fn begun(audio: Seq<S>, measured: MeasuredView, auto_type: bool) -> (
        Self,
        TurnView<S>,
    ) {
        let fresh = Self::fresh(measured, auto_type);
        if audio.len() == 0 {
            fresh.ended(Seq::empty())
        } else if !is_speech(measured.level, measured.peak) {
            fresh.ended(
                seq![
                    AnnouncementView::Stats(skipped(measured.length, measured.level)),
                    AnnouncementView::TranscriptionError(no_speech_message(measured.seconds)),
                ],
            )
        } else {
            (fresh, TurnView { told: Seq::empty(), task: TaskView::Trim(audio) })
        }
    }

    /// The numbers of a dictation that the model has answered.
    pub open spec fn stats(
        self,
        model: Seq<char>,
        took: Seconds,
        result: Result<Seq<char>, Seq<char>>,
    ) -> StatsView {
        StatsView {
            model,
            seconds: self.length,
            level_before: self.level_before,
            level_after: self.level_after,
            gain: self.gain,
            took,
            chars: chars_of_result(result),
        }
    }

    /// The course of a dictation: the next state, what is told, and what is to be done.
    /// `None` where the event is not what the stage waits for.
    pub open spec fn next(self, event: DictationEventView<S>) -> Option<(Self, TurnView<S>)> {
        match (self.stage, event) {
            (DictationStage::Trimming, DictationEventView::Trimmed(audio)) => Some(
                (
                    self.at(DictationStage::Raising),
                    TurnView { told: Seq::empty(), task: TaskView::Raise(audio) },
                ),
            ),
            (DictationStage::Raising, DictationEventView::Raised { audio, gain, level }) => Some(
                (
                    DictationView {
                        audio,
                        gain,
                        level_after: level,
                        ..self.at(DictationStage::Saving)
                    },
                    TurnView { told: Seq::empty(), task: TaskView::Save(audio) },
                ),
            ),
            (DictationStage::Saving, DictationEventView::Saved) => Some(
                (
                    DictationView { audio: Seq::empty(), ..self.at(DictationStage::Asking) },
                    TurnView { told: Seq::empty(), task: TaskView::Ask(self.audio) },
                ),
            ),
            (DictationStage::Asking, DictationEventView::Broken(cause)) => Some(
                self.ended(
                    seq![
                        AnnouncementView::TranscriptionError(
                            fault_words(Fault::BrokenEngine).0 + cause + fault_words(
                                Fault::BrokenEngine,
                            ).1,
                        ),
                    ],
                ),
            ),
            (DictationStage::Asking, DictationEventView::Answered { model, took, result }) => {
                let plan = plan_of(result, self.auto_type);
                let first = seq![AnnouncementView::Stats(self.stats(model, took, result))]
                    + warned(self.level_after, self.seconds);
                match plan.to_type {
                    Some(text) => Some(
                        (
                            DictationView { plan, ..self.at(DictationStage::Typing) },
                            TurnView { told: first, task: TaskView::Type(text) },
                        ),
                    ),
                    None => Some(self.ended(first + told(plan, None))),
                }
            },
            (DictationStage::Typing, DictationEventView::Typed(reason)) => Some(
                self.ended(told(self.plan, reason)),
            ),
            _ => None,
        }
    }
}

fn empty_plan() -> (r: ModelPlan)
    ensures
        r@ == no_plan(),
{
    ModelPlan { text: None, to_type: None, error: None }
}

impl<S: Copy> Dictation<S> {
    /// Begins a dictation with the sound that was gathered.
    pub fn begin(audio: Vec<S>, measured: Measured, auto_type: bool) -> (r: (Self, Turn<S>))
        ensures
            (r.0@, r.1@) == DictationView::<S>::begun(audio@, measured@, auto_type),
    {
        let decision = decide(
            audio.len() == 0,
            measured.level,
            measured.peak,
            measured.seconds.as_str(),
        );
        let Measured { level, peak: _, length, seconds } = measured;
        let mut dictation = Dictation {
            stage: DictationStage::Trimming,
            audio: Vec::new(),
            auto_type,
            length,
            seconds,
            level_before: level,
            level_after: level,
            gain: Loudness { key: UNCHANGED },
            plan: empty_plan(),
        };
        assert(dictation@ =~= DictationView::<S>::fresh(measured@, auto_type));
        let mut said: Vec<Announcement> = Vec::new();
        let task = match decision {
            Decision::Transcribe => Task::Trim(audio),
            Decision::Nothing => {
                dictation.stage = DictationStage::Ended;
                said.push(Announcement::Complete);
                Task::End
            },
            Decision::Skip(message) => {
                dictation.stage = DictationStage::Ended;
                said.push(Announcement::Stats(skipped_stats(length, level)));
                said.push(Announcement::TranscriptionError(message));
                said.push(Announcement::Complete);
                Task::End
            },
        };
        let turn = Turn { told: said, task };
        assert(turn@ =~= DictationView::<S>::begun(audio@, measured@, auto_type).1);
        (dictation, turn)
    }

    fn answered(&mut self, model: String, took: Seconds, result: Result<String, String>) -> (r:
        Turn<S>)
        requires
            old(self).stage is Asking,
        ensures
            old(self)@.next(
                DictationEventView::Answered { model: model@, took, result: text_view(result) },
            ) == Some((final(self)@, r@)),
    {
        let chars: usize = count_chars(&result);
        let mut said: Vec<Announcement> = Vec::new();
        said.push(
            Announcement::Stats(
                DictationStats {
                    model,
                    seconds: self.length,
                    level_before: self.level_before,
                    level_after: self.level_after,
                    gain: self.gain,
                    took,
                    chars,
                },
            ),
        );
        match quiet_warning(self.level_after, self.seconds.as_str()) {
            Some(warning) => {
                said.push(Announcement::TranscriptionError(warning));
            },
            None => {},
        }
        let ghost first = seq![
            AnnouncementView::Stats(old(self)@.stats(model@, took, text_view(result))),
        ] + warned(self.level_after, self.seconds@);
        assert(announcement_views(said@) =~= first);
        let plan = plan_result(result, self.auto_type);
        let ghost planned = plan@;
        let to_type = match &plan.to_type {
            Some(text) => Some(text.clone()),
            None => None,
        };
        match to_type {
            Some(text) => {
                self.plan = plan;
                self.stage = DictationStage::Typing;
                let turn = Turn { told: said, task: Task::Type(text) };
                assert(turn@ =~= (TurnView { told: first, task: TaskView::<S>::Type(text@) }));
                turn
            },
            None => {
                let mut more = announcements(plan, None);
                let ghost rest = more@;
                said.append(&mut more);
                said.push(Announcement::Complete);
                assert(announcement_views(said@) =~= (first + announcement_views(rest)).push(
                    AnnouncementView::Complete,
                ));
                self.plan = empty_plan();
                self.stage = DictationStage::Ended;
                Turn { told: said, task: Task::End }
            },
        }
    }

    fn typed(&mut self, reason: Option<String>) -> (r: Turn<S>)
        requires
            old(self).stage is Typing,
        ensures
            old(self)@.next(DictationEventView::Typed(optional_view(reason))) == Some(
                (final(self)@, r@),
            ),
    {
        let mut plan = empty_plan();
        std::mem::swap(&mut plan, &mut self.plan);
        let mut said = announcements(plan, reason);
        let ghost before = said@;
        said.push(Announcement::Complete);
        assert(announcement_views(said@) =~= announcement_views(before).push(
            AnnouncementView::Complete,
        ));
        self.stage = DictationStage::Ended;
        Turn { told: said, task: Task::End }
    }

    /// Takes a dictation one step on. Where the event is not what the stage waits for,
    /// nothing changes.
    pub fn step(&mut self, event: DictationEvent<S>) -> (r: Option<Turn<S>>)
        ensures
            match r {
                Some(turn) => old(self)@.next(event@) == Some((final(self)@, turn@)),
                None => old(self)@.next(event@) is None && final(self)@ == old(self)@,
            },
    {
        let mut said: Vec<Announcement> = Vec::new();
        assert(announcement_views(said@) =~= Seq::empty());
        match (self.stage, event) {
            (DictationStage::Trimming, DictationEvent::Trimmed(audio)) => {
                self.stage = DictationStage::Raising;
                Some(Turn { told: said, task: Task::Raise(audio) })
            },
            (DictationStage::Raising, DictationEvent::Raised { audio, gain, level }) => {
                let copy = slice_to_vec(audio.as_slice());
                assert(copy@ =~= audio@);
                self.audio = audio;
                self.gain = gain;
                self.level_after = level;
                self.stage = DictationStage::Saving;
                Some(Turn { told: said, task: Task::Save(copy) })
            },
            (DictationStage::Saving, DictationEvent::Saved) => {
                let mut audio: Vec<S> = Vec::new();
                std::mem::swap(&mut audio, &mut self.audio);
                self.stage = DictationStage::Asking;
                Some(Turn { told: said, task: Task::Ask(audio) })
            },
            (DictationStage::Asking, DictationEvent::Broken(cause)) => {
                self.plan = empty_plan();
                self.stage = DictationStage::Ended;
                let message = fault_message(Fault::BrokenEngine, cause.as_str());
                said.push(Announcement::TranscriptionError(message));
                said.push(Announcement::Complete);
                assert(announcement_views(said@) =~= seq![
                    AnnouncementView::TranscriptionError(message@),
                ].push(AnnouncementView::Complete));
                Some(Turn { told: said, task: Task::End })
            },
            (DictationStage::Asking, DictationEvent::Answered { model, took, result }) => {
                Some(self.answered(model, took, result))
            },
            (DictationStage::Typing, DictationEvent::Typed(reason)) => Some(self.typed(reason)),
            _ => None,
        }
    }
}

/// Where a dictation stands, all that was told, and all that was to be done.
#[verifier::ext_equal]
pub struct DictationCourse<S> {
    pub state: DictationView<S>,
    pub told: Seq<AnnouncementView>,
    pub tasks: Seq<TaskView<S>>,
}

/// A dictation from its beginning. `None` where an event was not what was waited for.
pub open spec fn dictation_course<S>(
    audio: Seq<S>,
    measured: MeasuredView,
    auto_type: bool,
    events: Seq<DictationEventView<S>>,
) -> Option<DictationCourse<S>>
    decreases events.len(),
{
    if events.len() == 0 {
        let (state, turn) = DictationView::begun(audio, measured, auto_type);
        Some(DictationCourse { state, told: turn.told, tasks: seq![turn.task] })
    } else {
        match dictation_course(audio, measured, auto_type, events.drop_last()) {
            Some(course) => match course.state.next(events.last()) {
                Some((state, turn)) => Some(
                    DictationCourse {
                        state,
                        told: course.told + turn.told,
                        tasks: course.tasks.push(turn.task),
                    },
                ),
                None => None,
            },
            None => None,
        }
    }
}

/// Sound without speech never reaches the model: the windows are told its numbers, with a
/// gain of one, the level as it was and no text, then why, then that it is complete; nothing
/// is typed, shown or asked, and nothing follows.
pub proof fn silence_is_only_reported<S>(
    audio: Seq<S>,
    measured: MeasuredView,
    auto_type: bool,
    events: Seq<DictationEventView<S>>,
)
    requires
        audio.len() > 0,
        !is_speech(measured.level, measured.peak),
        dictation_course(audio, measured, auto_type, events) is Some,
    ensures
        ({
            let course = dictation_course(audio, measured, auto_type, events)->0;
            &&& events.len() == 0
            &&& course.tasks == seq![TaskView::<S>::End]
            &&& course.told == seq![
                AnnouncementView::Stats(
                    StatsView {
                        model: "skipped - no speech"@,
                        seconds: measured.length,
                        level_before: measured.level,
                        level_after: measured.level,
                        gain: Loudness { key: UNCHANGED },
                        took: Seconds { key: 0 },
                        chars: 0,
                    },
                ),
                AnnouncementView::TranscriptionError(no_speech_message(measured.seconds)),
                AnnouncementView::Complete,
            ]
        }),
    decreases events.len(),
{
    if events.len() > 0 {
        silence_is_only_reported(audio, measured, auto_type, events.drop_last());
    }
}

proof fn lemma_tasks<S>(
    audio: Seq<S>,
    measured: MeasuredView,
    auto_type: bool,
    events: Seq<DictationEventView<S>>,
)
    requires
        dictation_course(audio, measured, auto_type, events) is Some,
    ensures
        ({
            let DictationCourse { state, told, tasks } = dictation_course(
                audio,
                measured,
                auto_type,
                events,
            )->0;
            &&& tasks.len() == events.len() + 1
            &&& state.stage is Trimming ==> events.len() == 0
            &&& state.stage is Raising ==> events.len() == 1
            &&& state.stage is Saving ==> events.len() == 2 && tasks[2] == TaskView::Save(
                state.audio,
            )
            &&& state.stage is Asking ==> events.len() == 3
            &&& state.stage is Typing ==> events.len() == 4
            &&& state.stage is Ended ==> events.len() == 0 || events.len() >= 4
            &&& tasks[0] is End || tasks[0] == TaskView::Trim(audio)
            &&& events.len() >= 1 ==> tasks[0] == TaskView::Trim(audio) && (
            events[0] matches DictationEventView::Trimmed(trimmed) && tasks[1]
                == TaskView::Raise(trimmed))
            &&& events.len() >= 2 ==> (events[1] matches DictationEventView::Raised {
                audio: raised,
                ..
            } && tasks[2] == TaskView::Save(raised))
            &&& events.len() >= 3 ==> tasks[2] is Save && tasks[3] == TaskView::Ask(
                tasks[2]->Save_0,
            )
            &&& events.len() >= 4 ==> tasks[4] is Type || tasks[4] is End
            &&& events.len() >= 5 ==> tasks[5] is End
            &&& events.len() <= 5
            &&& events.len() == 5 ==> state.stage is Ended
        }),
    decreases events.len(),
{
    if events.len() > 0 {
        let before = events.drop_last();
        lemma_tasks(audio, measured, auto_type, before);
        let course = dictation_course(audio, measured, auto_type, before)->0;
        let (state, turn) = course.state.next(events.last())->0;
        let tasks = course.tasks.push(turn.task);
        assert forall|i: int| 0 <= i < course.tasks.len() implies tasks[i] == course.tasks[i] by {}
        assert forall|i: int| 0 <= i < before.len() implies events[i] == before[i] by {}
    }
}

/// What is saved is what the model hears: the sound is trimmed, what comes of that is
/// raised, and what comes of that is saved and then, unchanged, given to the model. Nothing
/// else is saved or given to it.
pub proof fn the_model_hears_what_is_saved<S>(
    audio: Seq<S>,
    measured: MeasuredView,
    auto_type: bool,
    events: Seq<DictationEventView<S>>,
    j: int,
)
    requires
        dictation_course(audio, measured, auto_type, events) is Some,
        0 <= j < (dictation_course(audio, measured, auto_type, events)->0).tasks.len(),
        (dictation_course(audio, measured, auto_type, events)->0).tasks[j] is Ask,
    ensures
        ({
            let tasks = (dictation_course(audio, measured, auto_type, events)->0).tasks;
            &&& j == 3
            &&& tasks[0] == TaskView::Trim(audio)
            &&& events[0] matches DictationEventView::Trimmed(trimmed)
            &&& tasks[1] == TaskView::Raise(trimmed)
            &&& events[1] matches DictationEventView::Raised { audio: raised, .. }
            &&& tasks[2] == TaskView::Save(raised)
            &&& tasks[3] == TaskView::Ask(raised)
            &&& forall|i: int| 0 <= i < tasks.len() && #[trigger] tasks[i] is Save ==> i == 2
        }),
{
    lemma_tasks(audio, measured, auto_type, events);
}

/// A dictation that has ended has told the windows that it is complete: last, and once; and
/// before its end it has not.
pub proof fn completion_is_told_last<S>(
    audio: Seq<S>,
    measured: MeasuredView,
    auto_type: bool,
    events: Seq<DictationEventView<S>>,
)
    requires
        dictation_course(audio, measured, auto_type, events) is Some,
    ensures
        ({
            let DictationCourse { state, told, tasks } = dictation_course(
                audio,
                measured,
                auto_type,
                events,
            )->0;
            &&& state.stage is Ended <==> tasks.last() is End
            &&& state.stage is Ended ==> told.len() > 0 && told.last() is Complete
            &&& forall|i: int|
                0 <= i < told.len() && #[trigger] told[i] is Complete ==> state.stage is Ended && i
                    == told.len() - 1
        }),
    decreases events.len(),
{
    if events.len() > 0 {
        let before = events.drop_last();
        completion_is_told_last(audio, measured, auto_type, before);
        let course = dictation_course(audio, measured, auto_type, before)->0;
        let (state, turn) = course.state.next(events.last())->0;
        let all = course.told + turn.told;
        assert forall|i: int| 0 <= i < all.len() && #[trigger] all[i] is Complete implies
            state.stage is Ended && i == all.len() - 1 by {
            if i < course.told.len() {
                assert(course.told[i] is Complete);
            } else {
                assert(turn.told[i - course.told.len()] is Complete);
            }
        }
    }
}

/// A dictation that the model has answered is told in this order: its numbers, a warning
/// where the microphone was almost silent, what came of the text, and that it is complete.
pub proof fn an_answer_is_told_in_order<S>(
    audio: Seq<S>,
    measured: MeasuredView,
    auto_type: bool,
    trimmed_audio: Seq<S>,
    raised: Seq<S>,
    gain: Loudness,
    level: Loudness,
    model: Seq<char>,
    took: Seconds,
    result: Result<Seq<char>, Seq<char>>,
    reason: Option<Seq<char>>,
)
    requires
        audio.len() > 0,
        is_speech(measured.level, measured.peak),
    ensures
        ({
            let plan = plan_of(result, auto_type);
            let asked = seq![
                DictationEventView::Trimmed(trimmed_audio),
                DictationEventView::Raised { audio: raised, gain, level },
                DictationEventView::Saved,
                DictationEventView::Answered { model, took, result },
            ];
            let events = if plan.to_type is Some {
                asked.push(DictationEventView::Typed(reason))
            } else {
                asked
            };
            let stats = StatsView {
                model,
                seconds: measured.length,
                level_before: measured.level,
                level_after: level,
                gain,
                took,
                chars: chars_of_result(result),
            };
            let failure = if plan.to_type is Some {
                reason
            } else {
                None
            };
            dictation_course(audio, measured, auto_type, events) matches Some(course)
                && course.state.stage is Ended && course.told == seq![
                AnnouncementView::Stats(stats),
            ] + warned(level, measured.seconds) + told(plan, failure) + seq![
                AnnouncementView::Complete,
            ]
        }),
{
    let plan = plan_of(result, auto_type);
    let one = seq![DictationEventView::Trimmed(trimmed_audio)];
    let two = one.push(DictationEventView::Raised { audio: raised, gain, level });
    let three = two.push(DictationEventView::Saved);
    let four = three.push(DictationEventView::Answered { model, took, result });
    let asked = seq![
        DictationEventView::Trimmed(trimmed_audio),
        DictationEventView::Raised { audio: raised, gain, level },
        DictationEventView::Saved,
        DictationEventView::Answered { model, took, result },
    ];
    assert(asked =~= four);
    assert(one.drop_last() =~= Seq::empty());
    assert(two.drop_last() =~= one);
    assert(three.drop_last() =~= two);
    assert(four.drop_last() =~= three);
    assert(dictation_course(audio, measured, auto_type, Seq::empty()) is Some);
    assert(dictation_course(audio, measured, auto_type, one) is Some);
    assert(dictation_course(audio, measured, auto_type, two) is Some);
    assert(dictation_course(audio, measured, auto_type, three) is Some);
    assert(dictation_course(audio, measured, auto_type, four) is Some);
    let stats = StatsView {
        model,
        seconds: measured.length,
        level_before: measured.level,
        level_after: level,
        gain,
        took,
        chars: chars_of_result(result),
    };
    let first = seq![AnnouncementView::Stats(stats)] + warned(level, measured.seconds);
    if plan.to_type is Some {
        let five = four.push(DictationEventView::Typed(reason));
        assert(five.drop_last() =~= four);
        let course = dictation_course(audio, measured, auto_type, five)->0;
        assert(course.told =~= first + told(plan, reason) + seq![AnnouncementView::Complete]);
    } else {
        let course = dictation_course(audio, measured, auto_type, four)->0;
        assert(course.told =~= first + told(plan, None) + seq![AnnouncementView::Complete]);
    }
}

/// What a local dictation types is what it shows, with one space behind it; what it shows is
/// what the model said, without the white space around it. Nothing is typed where typing is
/// switched off, and nothing at all follows from white space alone. An error is passed on as
/// it is. The characters that are counted are those that are shown.
pub proof fn what_is_typed_is_what_is_shown(
    said: Seq<char>,
    auto_type: bool,
    message: Seq<char>,
)
    ensures
        ({
            let plan = plan_of(Ok(said), auto_type);
            &&& plan.error is None
            &&& plan.text is Some <==> trimmed(said).len() > 0
            &&& plan.text matches Some(text) ==> text == trimmed(said)
            &&& plan.to_type is Some <==> auto_type && plan.text is Some
            &&& plan.to_type matches Some(typed) ==> {
                &&& typed.len() == (plan.text->0).len() + 1
                &&& typed.drop_last() == plan.text->0
                &&& typed.last() == ' '
            }
            &&& chars_of_result(Ok(said)) == (match plan.text {
                Some(text) => text.len(),
                None => 0,
            })
        }),
        ({
            let plan = plan_of(Err(message), auto_type);
            &&& plan.text is None
            &&& plan.to_type is None
            &&& plan.error == Some(message)
            &&& chars_of_result(Err(message)) == 0
        }),
{
    reveal_strlit(" ");
    assert((trimmed(said) + " "@).drop_last() =~= trimmed(said));
}

/// What the windows are told of what the model said: nothing of white space alone; else the
/// text, as final, last and once, and before it, only where it was to be typed and could not
/// be, the text for the clipboard and the reason. Of an error they are told that error alone.
pub proof fn the_text_is_told_as_it_is(
    said: Seq<char>,
    auto_type: bool,
    reason: Option<Seq<char>>,
    message: Seq<char>,
)
    ensures
        trimmed(said).len() == 0 ==> told(plan_of(Ok(said), auto_type), reason).len() == 0,
        trimmed(said).len() > 0 && auto_type && reason is Some ==> told(
            plan_of(Ok(said), auto_type),
            reason,
        ) == seq![
            AnnouncementView::AutoTypeFailed(trimmed(said)),
            AnnouncementView::TranscriptionError(reason->0),
            AnnouncementView::Transcription(HeardView { text: trimmed(said), is_final: true }),
        ],
        trimmed(said).len() > 0 && !(auto_type && reason is Some) ==> told(
            plan_of(Ok(said), auto_type),
            reason,
        ) == seq![
            AnnouncementView::Transcription(HeardView { text: trimmed(said), is_final: true }),
        ],
        told(plan_of(Err(message), auto_type), reason) == seq![
            AnnouncementView::TranscriptionError(message),
        ],
{
    let full = told(plan_of(Ok(said), auto_type), reason);
    if trimmed(said).len() > 0 {
        if auto_type && reason is Some {
            assert(full =~= seq![
                AnnouncementView::AutoTypeFailed(trimmed(said)),
                AnnouncementView::TranscriptionError(reason->0),
                AnnouncementView::Transcription(HeardView { text: trimmed(said), is_final: true }),
            ]);
        } else {
            assert(full =~= seq![
                AnnouncementView::Transcription(HeardView { text: trimmed(said), is_final: true }),
            ]);
        }
    }
    assert(told(plan_of(Err(message), auto_type), reason) =~= seq![
        AnnouncementView::TranscriptionError(message),
    ]);
}

/// A dictation types only what the model said, without the white space around it and with one
/// space behind it, and only where typing is switched on; and it then shows that same text,
/// whatever comes of typing it.
pub proof fn only_what_was_said_is_typed<S>(
    state: DictationView<S>,
    event: DictationEventView<S>,
    typed: Seq<char>,
    reason: Option<Seq<char>>,
)
    requires
        state.next(event) is Some,
        (state.next(event)->0).1.task == TaskView::<S>::Type(typed),
    ensures
        state.auto_type,
        event matches DictationEventView::Answered { result, .. } && result is Ok,
        ({
            let said = trimmed((event->Answered_result)->Ok_0);
            let then = (state.next(event)->0).0.next(DictationEventView::Typed(reason));
            &&& said.len() > 0
            &&& typed.len() == said.len() + 1
            &&& typed.drop_last() == said
            &&& typed.last() == ' '
            &&& then is Some
            &&& (then->0).1.told.len() >= 2
            &&& (then->0).1.told[(then->0).1.told.len() - 2] == AnnouncementView::Transcription(
                HeardView { text: said, is_final: true },
            )
        }),
{
    let said = (event->Answered_result)->Ok_0;
    what_is_typed_is_what_is_shown(said, state.auto_type, Seq::empty());
    the_text_is_told_as_it_is(said, state.auto_type, reason, Seq::empty());
}

/// The recording has been seen to have stopped, or its microphone to be gone.
pub open spec fn is_stopping<S>(events: Seq<LocalEventView<S>>) -> bool {
    exists|i: int|
        0 <= i < events.len() && (#[trigger] events[i] is Stopped || events[i] is Disconnected)
}

/// The windows have been told that the sound is being processed.
pub open spec fn is_processing<S>(done: Seq<LocalActionView<S>>) -> bool {
    exists|i: int| 0 <= i < done.len() && #[trigger] done[i] is Finish
}

/// Voice detection has been asked for what it has kept back.
pub open spec fn is_flushed<S>(done: Seq<LocalActionView<S>>) -> bool {
    exists|i: int| 0 <= i < done.len() && #[trigger] done[i] is FlushVad
}

proof fn lemma_stopping<S>(events: Seq<LocalEventView<S>>)
    requires
        events.len() > 0,
    ensures
        is_stopping(events) <==> is_stopping(events.drop_last()) || events.last() is Stopped
            || events.last() is Disconnected,
{
    let before = events.drop_last();
    if is_stopping(before) {
        let i = choose|i: int|
            0 <= i < before.len() && (#[trigger] before[i] is Stopped || before[i] is Disconnected);
        assert(events[i] == before[i]);
    }
    if events.last() is Stopped || events.last() is Disconnected {
        assert(events[events.len() - 1] == events.last());
    }
    if is_stopping(events) {
        let i = choose|i: int|
            0 <= i < events.len() && (#[trigger] events[i] is Stopped || events[i] is Disconnected);
        if i < before.len() {
            assert(before[i] == events[i]);
        }
    }
}

proof fn lemma_marks<S>(done: Seq<LocalActionView<S>>, action: LocalActionView<S>)
    ensures
        is_processing(done.push(action)) <==> is_processing(done) || action is Finish,
        is_flushed(done.push(action)) <==> is_flushed(done) || action is FlushVad,
{
    let all = done.push(action);
    assert(all[all.len() - 1] == action);
    if is_processing(done) {
        let i = choose|i: int| 0 <= i < done.len() && #[trigger] done[i] is Finish;
        assert(all[i] is Finish);
    }
    if is_processing(all) {
        let i = choose|i: int| 0 <= i < all.len() && #[trigger] all[i] is Finish;
        if i < done.len() {
            assert(done[i] is Finish);
        }
    }
    if is_flushed(done) {
        let i = choose|i: int| 0 <= i < done.len() && #[trigger] done[i] is FlushVad;
        assert(all[i] is FlushVad);
    }
    if is_flushed(all) {
        let i = choose|i: int| 0 <= i < all.len() && #[trigger] all[i] is FlushVad;
        if i < done.len() {
            assert(done[i] is FlushVad);
        }
    }
}

/// Where the work stands follows from what happened and from what was done.
proof fn lemma_local_standing<S>(has_vad: bool, events: Seq<LocalEventView<S>>)
    requires
        local_course(has_vad, events) is Some,
    ensures
        ({
            let LocalCourse { worker, done } = local_course(has_vad, events)->0;
            &&& worker.has_vad == has_vad
            &&& done.len() == events.len()
            &&& match worker.stage {
                LocalStage::Flag => !is_stopping(events) && !is_processing(done) && (done.len() == 0
                    || done.last() is CheckFlag),
                LocalStage::Waiting => !is_stopping(events) && !is_processing(done) && done.len()
                    > 0 && done.last() is Wait,
                LocalStage::Taking => is_stopping(events) && !is_processing(done) && done.len() > 0
                    && done.last() is Take,
                LocalStage::Resampling(phase) => done.len() > 0 && match phase {
                    Phase::Listening => !is_stopping(events) && !is_processing(done)
                        && done.last() is Resample,
                    Phase::Emptying => is_stopping(events) && !is_processing(done)
                        && done.last() is Resample,
                    Phase::Finishing => is_processing(done) && !is_flushed(done)
                        && done.last() is Finish,
                },
                LocalStage::Filtering(phase) => done.len() > 0 && done.last() is Filter && has_vad
                    && match phase {
                    Phase::Listening => !is_stopping(events) && !is_processing(done),
                    Phase::Emptying => is_stopping(events) && !is_processing(done),
                    Phase::Finishing => is_processing(done) && !is_flushed(done),
                },
                LocalStage::FlushingVad => has_vad && is_processing(done) && is_flushed(done)
                    && done.len() > 0 && done.last() is FlushVad,
                LocalStage::Ended => is_processing(done) && done.len() > 0 && (
                done.last() is Transcribe || done.last() is Complete),
            }
            &&& !is_processing(done) ==> !is_flushed(done)
        }),
    decreases events.len(),
{
    if events.len() > 0 {
        let before = events.drop_last();
        lemma_local_standing(has_vad, before);
        let course = local_course(has_vad, before)->0;
        let (worker, action) = course.worker.next(events.last())->0;
        lemma_marks(course.done, action);
        lemma_stopping(events);
    }
}

/// What is done follows from what happened: while the recording runs, sound is waited for
/// and the flag is looked at in turn; once it has stopped, what is still waiting is taken until
/// there is nothing, and then the rest is asked for. Every sound goes to the resampler as it
/// is, and what it gives goes to voice detection, where that is used, as it is.
pub proof fn each_sound_has_its_answer<S>(
    has_vad: bool,
    events: Seq<LocalEventView<S>>,
    event: LocalEventView<S>,
)
    requires
        local_course(has_vad, events) is Some,
        local_course(has_vad, events.push(event)) is Some,
    ensures
        ({
            let before = (local_course(has_vad, events)->0).done;
            let LocalCourse { worker, done } = local_course(has_vad, events.push(event))->0;
            let action = done.last();
            let ended = worker.stage is Ended && (if worker.audio.len() > 0 {
                action is Transcribe
            } else {
                action is Complete
            });
            let goes_on = if is_processing(before) {
                if has_vad && !is_flushed(before) {
                    action is FlushVad
                } else {
                    ended
                }
            } else if is_stopping(events) {
                action is Take
            } else {
                action is CheckFlag
            };
            &&& done.len() > 0 && done.drop_last() == before
            &&& match event {
                LocalEventView::Recording => action is Wait,
                LocalEventView::Stopped => action is Take,
                LocalEventView::Samples(samples) => action == LocalActionView::Resample(samples),
                LocalEventView::TimedOut => action is CheckFlag,
                LocalEventView::Disconnected => action is Take,
                LocalEventView::Empty => action is Finish,
                LocalEventView::Resampled(Some(samples)) => if has_vad {
                    action == LocalActionView::Filter(samples)
                } else {
                    goes_on
                },
                LocalEventView::Resampled(None) => goes_on,
                LocalEventView::Speech(_) => goes_on,
            }
        }),
{
    let all = events.push(event);
    assert(all.drop_last() =~= events);
    lemma_local_standing(has_vad, events);
    lemma_local_standing(has_vad, all);
    let course = local_course(has_vad, events)->0;
    let (worker, action) = course.worker.next(event)->0;
    assert(course.done.push(action).drop_last() =~= course.done);
}

/// The work waits for the answer to what was done last, and takes every answer to it; at its
/// start it waits for whether the recording runs.
pub proof fn every_sound_is_taken<S>(
    has_vad: bool,
    events: Seq<LocalEventView<S>>,
    samples: Seq<S>,
    resampled: Option<Seq<S>>,
)
    requires
        local_course(has_vad, events) is Some,
    ensures
        ({
            let LocalCourse { worker, done } = local_course(has_vad, events)->0;
            let last = if done.len() == 0 {
                LocalActionView::CheckFlag
            } else {
                done.last()
            };
            match last {
                LocalActionView::CheckFlag => {
                    &&& local_course(has_vad, events.push(LocalEventView::Recording)) is Some
                    &&& local_course(has_vad, events.push(LocalEventView::Stopped)) is Some
                },
                LocalActionView::Wait => {
                    &&& local_course(has_vad, events.push(LocalEventView::Samples(samples))) is Some
                    &&& local_course(has_vad, events.push(LocalEventView::TimedOut)) is Some
                    &&& local_course(has_vad, events.push(LocalEventView::Disconnected)) is Some
                },
                LocalActionView::Take => {
                    &&& local_course(has_vad, events.push(LocalEventView::Samples(samples))) is Some
                    &&& local_course(has_vad, events.push(LocalEventView::Empty)) is Some
                },
                LocalActionView::Resample(_) => local_course(
                    has_vad,
                    events.push(LocalEventView::Resampled(resampled)),
                ) is Some,
                LocalActionView::Finish => local_course(
                    has_vad,
                    events.push(LocalEventView::Resampled(resampled)),
                ) is Some,
                LocalActionView::Filter(_) => local_course(
                    has_vad,
                    events.push(LocalEventView::Speech(samples)),
                ) is Some,
                LocalActionView::FlushVad => local_course(
                    has_vad,
                    events.push(LocalEventView::Speech(samples)),
                ) is Some,
                _ => worker.stage is Ended,
            }
        }),
{
    lemma_local_standing(has_vad, events);
    assert(events.push(LocalEventView::Recording).drop_last() =~= events);
    assert(events.push(LocalEventView::Stopped).drop_last() =~= events);
    assert(events.push(LocalEventView::Samples(samples)).drop_last() =~= events);
    assert(events.push(LocalEventView::TimedOut).drop_last() =~= events);
    assert(events.push(LocalEventView::Disconnected).drop_last() =~= events);
    assert(events.push(LocalEventView::Empty).drop_last() =~= events);
    assert(events.push(LocalEventView::Resampled(resampled)).drop_last() =~= events);
    assert(events.push(LocalEventView::Speech(samples)).drop_last() =~= events);
}

/// Sound that holds speech goes to the model: it is trimmed first, as it was gathered, and
/// nothing is told before the model has answered. Without sound the windows are told that
/// it is complete, and nothing else.
pub proof fn speech_goes_to_the_model<S>(
    audio: Seq<S>,
    measured: MeasuredView,
    auto_type: bool,
    trimmed_audio: Seq<S>,
    raised: Seq<S>,
    gain: Loudness,
    level: Loudness,
)
    ensures
        audio.len() > 0 && is_speech(measured.level, measured.peak) ==> {
            let asked = dictation_course(
                audio,
                measured,
                auto_type,
                seq![
                    DictationEventView::Trimmed(trimmed_audio),
                    DictationEventView::Raised { audio: raised, gain, level },
                    DictationEventView::Saved,
                ],
            );
            &&& asked is Some
            &&& (asked->0).told.len() == 0
            &&& (asked->0).tasks == seq![
                TaskView::Trim(audio),
                TaskView::Raise(trimmed_audio),
                TaskView::Save(raised),
                TaskView::Ask(raised),
            ]
        },
        audio.len() == 0 ==> {
            let quiet = dictation_course(audio, measured, auto_type, Seq::empty());
            &&& quiet is Some
            &&& (quiet->0).told == seq![AnnouncementView::Complete]
            &&& (quiet->0).tasks == seq![TaskView::<S>::End]
        },
{
    let one = seq![DictationEventView::Trimmed(trimmed_audio)];
    let two = one.push(DictationEventView::Raised { audio: raised, gain, level });
    let three = two.push(DictationEventView::Saved);
    let events = seq![
        DictationEventView::Trimmed(trimmed_audio),
        DictationEventView::Raised { audio: raised, gain, level },
        DictationEventView::Saved,
    ];
    assert(events =~= three);
    assert(one.drop_last() =~= Seq::empty());
    assert(two.drop_last() =~= one);
    assert(three.drop_last() =~= two);
    if audio.len() > 0 && is_speech(measured.level, measured.peak) {
        assert(dictation_course(audio, measured, auto_type, Seq::empty()) is Some);
        assert(dictation_course(audio, measured, auto_type, one) is Some);
        assert(dictation_course(audio, measured, auto_type, two) is Some);
        let asked = dictation_course(audio, measured, auto_type, three)->0;
        assert(asked.told =~= Seq::empty());
        assert(asked.tasks =~= seq![
            TaskView::Trim(audio),
            TaskView::Raise(trimmed_audio),
            TaskView::Save(raised),
            TaskView::Ask(raised),
        ]);
    }
    if audio.len() == 0 {
        let quiet = dictation_course(audio, measured, auto_type, Seq::empty())->0;
        assert(quiet.told =~= seq![AnnouncementView::Complete]);
    }
}

/// A model that cannot be asked is told once, with the cause, and then that it is complete.
pub proof fn a_broken_engine_is_told<S>(state: DictationView<S>, cause: Seq<char>)
    requires
        state.stage is Asking,
    ensures
        state.next(DictationEventView::Broken(cause)) matches Some((then, turn)) && {
            &&& then.stage is Ended
            &&& turn.task is End
            &&& turn.told.len() == 2
            &&& turn.told[0] matches AnnouncementView::TranscriptionError(message)
                && contains_text(message, cause)
            &&& turn.told[1] is Complete
        },
{
    let words = fault_words(Fault::BrokenEngine);
    a_text_holds_what_stands_in_it(words.0, cause, words.1);
}

/// The user is warned exactly where the loudness is below 0.02, given by its pattern, and is
/// told the length of the sound; so is the user whose sound held no speech.
pub proof fn the_user_is_told_how_long_the_sound_was(level_after: Loudness, seconds: Seq<char>)
    ensures
        level_after.key >= 0x3ca3_d70a ==> warned(level_after, seconds).len() == 0,
        level_after.key < 0x3ca3_d70a ==> {
            &&& warned(level_after, seconds).len() == 1
            &&& warned(level_after, seconds)[0] matches AnnouncementView::TranscriptionError(
                message,
            ) && contains_text(message, seconds)
        },
        contains_text(no_speech_message(seconds), seconds),
{
    a_text_holds_what_stands_in_it(
        "The microphone was almost silent for these "@,
        seconds,
        " seconds, so most of the speech could not be read. Check the input volume in System Settings > Sound > Input, speak closer to the microphone, and close other apps holding the microphone (Teams, Zoom)."@,
    );
    a_text_holds_what_stands_in_it(
        "These "@,
        seconds,
        " seconds held no speech, so nothing was typed. If you were speaking, the microphone is not reaching the app: check the input volume in System Settings > Sound > Input and close other apps holding the microphone (Teams, Zoom)."@,
    );
}

/// Only an answer to what was done last is taken, and nothing once the work has ended.
pub proof fn only_answers_about_the_sound_are_taken<S>(
    has_vad: bool,
    events: Seq<LocalEventView<S>>,
    event: LocalEventView<S>,
)
    requires
        local_course(has_vad, events) is Some,
        local_course(has_vad, events.push(event)) is Some,
    ensures
        ({
            let done = (local_course(has_vad, events)->0).done;
            let last = if done.len() == 0 {
                LocalActionView::CheckFlag
            } else {
                done.last()
            };
            match last {
                LocalActionView::CheckFlag => event is Recording || event is Stopped,
                LocalActionView::Wait => event is Samples || event is TimedOut
                    || event is Disconnected,
                LocalActionView::Take => event is Samples || event is Empty,
                LocalActionView::Resample(_) => event is Resampled,
                LocalActionView::Finish => event is Resampled,
                LocalActionView::Filter(_) => event is Speech,
                LocalActionView::FlushVad => event is Speech,
                _ => false,
            }
        }),
{
    lemma_local_standing(has_vad, events);
    assert(events.push(event).drop_last() =~= events);
}

/// What the sound is at the end is what voice detection took for speech, or all that the
/// resampler gave where it is not used: nothing that was gathered is dropped or changed on the
/// way, and sound is added only by those two.
pub proof fn sound_is_only_added<S>(
    has_vad: bool,
    events: Seq<LocalEventView<S>>,
    event: LocalEventView<S>,
)
    requires
        local_course(has_vad, events) is Some,
        local_course(has_vad, events.push(event)) is Some,
    ensures
        ({
            let before = (local_course(has_vad, events)->0).worker.audio;
            let after = (local_course(has_vad, events.push(event))->0).worker.audio;
            match event {
                LocalEventView::Speech(samples) => after == before + samples,
                LocalEventView::Resampled(Some(samples)) => if has_vad {
                    after == before
                } else {
                    after == before + samples
                },
                _ => after == before,
            }
        }),
{
    lemma_local_standing(has_vad, events);
    assert(events.push(event).drop_last() =~= events);
}

/// Only an answer to the last task is taken, and nothing once the dictation has ended.
pub proof fn only_answers_to_a_task_are_taken<S>(
    audio: Seq<S>,
    measured: MeasuredView,
    auto_type: bool,
    events: Seq<DictationEventView<S>>,
    event: DictationEventView<S>,
)
    requires
        dictation_course(audio, measured, auto_type, events) is Some,
        dictation_course(audio, measured, auto_type, events.push(event)) is Some,
    ensures
        match (dictation_course(audio, measured, auto_type, events)->0).tasks.last() {
            TaskView::Trim(_) => event is Trimmed,
            TaskView::Raise(_) => event is Raised,
            TaskView::Save(_) => event is Saved,
            TaskView::Ask(_) => event is Answered || event is Broken,
            TaskView::Type(_) => event is Typed,
            TaskView::End => false,
        },
{
    lemma_tasks_and_stages(audio, measured, auto_type, events);
    assert(events.push(event).drop_last() =~= events);
}

proof fn lemma_tasks_and_stages<S>(
    audio: Seq<S>,
    measured: MeasuredView,
    auto_type: bool,
    events: Seq<DictationEventView<S>>,
)
    requires
        dictation_course(audio, measured, auto_type, events) is Some,
    ensures
        ({
            let course = dictation_course(audio, measured, auto_type, events)->0;
            &&& course.tasks.len() > 0
            &&& match course.state.stage {
                DictationStage::Trimming => course.tasks.last() is Trim,
                DictationStage::Raising => course.tasks.last() is Raise,
                DictationStage::Saving => course.tasks.last() is Save,
                DictationStage::Asking => course.tasks.last() is Ask,
                DictationStage::Typing => course.tasks.last() is Type,
                DictationStage::Ended => course.tasks.last() is End,
            }
        }),
    decreases events.len(),
{
    if events.len() > 0 {
        lemma_tasks_and_stages(audio, measured, auto_type, events.drop_last());
    }
}

/// The numbers of a dictation that was skipped say that nothing was done to it: the level is
/// the same before and after, at a gain of one, given by its pattern; no time was spent and
/// no text came back. Its length and its level are those that were measured.
pub proof fn a_skipped_dictation_was_left_alone(seconds: Seconds, level: Loudness)
    ensures
        ({
            let stats = skipped(seconds, level);
            &&& stats.seconds == seconds
            &&& stats.level_before == level
            &&& stats.level_after == stats.level_before
            &&& stats.gain.key == 0x3f80_0000
            &&& stats.took.key == 0
            &&& stats.chars == 0
        }),
{
}

} // verus!
