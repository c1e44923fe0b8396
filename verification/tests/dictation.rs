use omegawhisper::dictation::{
    announcements, count_chars, decide, fault_message, needs_loading, plan_result, quiet_warning,
    skipped_stats, Announcement, Decision, Dictation, DictationEvent, DictationStage, Fault,
    LocalAction, LocalEvent, LocalStage, LocalWorker, Measured, Phase, Seconds, Task,
    ALMOST_SILENT,
};
use omegawhisper::signal::Loudness;

fn loudness(x: f32) -> Loudness {
    Loudness { key: x.to_bits() }
}

fn time(x: f32) -> Seconds {
    Seconds { key: x.to_bits() }
}

fn run(worker: &mut LocalWorker<i32>, events: Vec<LocalEvent<i32>>) -> Vec<LocalAction<i32>> {
    events
        .into_iter()
        .map(|event| worker.step(event).expect("not what was waited for"))
        .collect()
}

#[test]
fn all_sound_is_gathered() {
    let mut worker = LocalWorker::new(false);
    let done = run(
        &mut worker,
        vec![
            LocalEvent::Recording,
            LocalEvent::Samples(vec![1, 2]),
            LocalEvent::Resampled(Some(vec![10])),
            LocalEvent::Recording,
            LocalEvent::TimedOut,
            LocalEvent::Recording,
            LocalEvent::Samples(vec![3]),
            LocalEvent::Resampled(None),
            LocalEvent::Stopped,
            LocalEvent::Samples(vec![4]),
            LocalEvent::Resampled(Some(vec![11, 12])),
            LocalEvent::Empty,
            LocalEvent::Resampled(Some(vec![13])),
        ],
    );
    assert_eq!(worker.audio, vec![10, 11, 12, 13]);
    assert_eq!(worker.stage, LocalStage::Ended);
    assert!(matches!(done.last(), Some(LocalAction::Transcribe)));
    let mut resampled = Vec::new();
    for action in &done {
        if let LocalAction::Resample(samples) = action {
            resampled.extend_from_slice(samples);
        }
    }
    assert_eq!(resampled, vec![1, 2, 3, 4]);
}

#[test]
fn voice_detection_decides_what_is_kept() {
    let mut worker = LocalWorker::new(true);
    let done = run(
        &mut worker,
        vec![
            LocalEvent::Recording,
            LocalEvent::Samples(vec![1]),
            LocalEvent::Resampled(Some(vec![10, 11])),
            LocalEvent::Speech(vec![11]),
            LocalEvent::Recording,
            LocalEvent::Disconnected,
            LocalEvent::Empty,
            LocalEvent::Resampled(Some(vec![12])),
            LocalEvent::Speech(vec![]),
            LocalEvent::Speech(vec![12]),
        ],
    );
    assert_eq!(worker.audio, vec![11, 12]);
    assert!(matches!(&done[2], LocalAction::Filter(s) if s == &vec![10, 11]));
    assert!(matches!(done[8], LocalAction::FlushVad));
    assert!(matches!(done.last(), Some(LocalAction::Transcribe)));
}

#[test]
fn without_sound_the_model_is_not_asked() {
    let mut worker: LocalWorker<i32> = LocalWorker::new(false);
    let done = run(
        &mut worker,
        vec![LocalEvent::Stopped, LocalEvent::Empty, LocalEvent::Resampled(None)],
    );
    assert!(matches!(done[1], LocalAction::Finish));
    assert!(matches!(done[2], LocalAction::Complete));
}

#[test]
fn what_is_not_waited_for_changes_nothing() {
    let mut worker: LocalWorker<i32> = LocalWorker::new(true);
    assert!(worker.step(LocalEvent::Speech(vec![1])).is_none());
    assert!(worker.audio.is_empty());
    assert_eq!(worker.stage, LocalStage::Flag);
    run(&mut worker, vec![LocalEvent::Recording, LocalEvent::Samples(vec![1])]);
    assert_eq!(worker.stage, LocalStage::Resampling(Phase::Listening));
}

#[test]
fn silence_never_reaches_the_model() {
    assert!(matches!(decide(true, loudness(0.1), loudness(0.5), "3"), Decision::Nothing));
    assert!(matches!(decide(false, loudness(0.1), loudness(0.5), "3"), Decision::Transcribe));
    match decide(false, loudness(0.0014), loudness(0.02), "3") {
        Decision::Skip(message) => assert_eq!(
            message,
            "These 3 seconds held no speech, so nothing was typed. If you were speaking, the microphone is not reaching the app: check the input volume in System Settings > Sound > Input and close other apps holding the microphone (Teams, Zoom)."
        ),
        _ => panic!("not skipped"),
    }
}

#[test]
fn an_almost_silent_microphone_is_reported() {
    assert_eq!(ALMOST_SILENT, 0.02f32.to_bits());
    assert_eq!(quiet_warning(loudness(0.02), "9"), None);
    assert_eq!(
        quiet_warning(loudness(0.0199), "9").unwrap(),
        "The microphone was almost silent for these 9 seconds, so most of the speech could not be read. Check the input volume in System Settings > Sound > Input, speak closer to the microphone, and close other apps holding the microphone (Teams, Zoom)."
    );
}

#[test]
fn a_skipped_dictation_has_its_numbers() {
    let stats = skipped_stats(time(2.5), loudness(0.001));
    assert_eq!(stats.model, "skipped - no speech");
    assert_eq!(stats.seconds, time(2.5));
    assert_eq!((stats.level_before, stats.level_after), (loudness(0.001), loudness(0.001)));
    assert_eq!((stats.gain, stats.took, stats.chars), (loudness(1.0), time(0.0), 0));
}

#[test]
fn characters_are_counted_without_the_space_around_them() {
    assert_eq!(count_chars(&Ok("  grüße \n".to_string())), 5);
    assert_eq!(count_chars(&Ok(" ".to_string())), 0);
    assert_eq!(count_chars(&Err("x".to_string())), 0);
}

fn names(list: Vec<Announcement>) -> Vec<String> {
    list.into_iter()
        .map(|a| match a {
            Announcement::AutoTypeFailed(text) => format!("failed:{text}"),
            Announcement::TranscriptionError(message) => format!("error:{message}"),
            Announcement::Transcription(e) => format!("text:{}:{}", e.text, e.is_final),
            Announcement::Stats(s) => format!(
                "stats:{}:{}:{}:{}:{}:{}:{}",
                s.model,
                f32::from_bits(s.seconds.key),
                f32::from_bits(s.level_before.key),
                f32::from_bits(s.level_after.key),
                f32::from_bits(s.gain.key),
                f32::from_bits(s.took.key),
                s.chars
            ),
            Announcement::Complete => "complete".to_string(),
        })
        .collect()
}

#[test]
fn text_is_shown_and_typed() {
    let plan = plan_result(Ok(" hi there ".to_string()), true);
    assert_eq!(plan.text, Some("hi there".to_string()));
    assert_eq!(plan.to_type, Some("hi there ".to_string()));
    assert_eq!(names(announcements(plan, None)), vec!["text:hi there:true"]);

    let plan = plan_result(Ok("hi".to_string()), false);
    assert_eq!(plan.to_type, None);
    assert_eq!(names(announcements(plan, Some("ignored".to_string()))), vec!["text:hi:true"]);
}

#[test]
fn text_that_cannot_be_typed_is_not_lost() {
    let plan = plan_result(Ok("hi".to_string()), true);
    assert_eq!(
        names(announcements(plan, Some("no".to_string()))),
        vec!["failed:hi", "error:no", "text:hi:true"]
    );
}

#[test]
fn nothing_and_errors_are_told_apart() {
    let plan = plan_result(Ok(" \n".to_string()), true);
    assert!(plan.text.is_none() && plan.to_type.is_none() && plan.error.is_none());
    assert!(announcements(plan, None).is_empty());
    let plan = plan_result(Err("bad".to_string()), true);
    assert_eq!(names(announcements(plan, None)), vec!["error:bad"]);
}

#[test]
fn a_loaded_model_is_not_loaded_again() {
    assert!(needs_loading(None, "a"));
    assert!(needs_loading(Some("b"), "a"));
    assert!(!needs_loading(Some("a"), "a"));
}

#[test]
fn faults_are_told_with_their_cause() {
    let cases = [
        (Fault::Engine, "Failed to access transcription engine: x"),
        (Fault::Model, "Failed to load model: x"),
        (Fault::Resampler, "Failed to create resampler: x"),
        (
            Fault::BrokenEngine,
            "The transcription engine is in a broken state after an earlier failure (x). Restart Omegawhisper.",
        ),
        (
            Fault::MicrophoneStopped,
            "The microphone stopped during the recording (x). Whatever was recorded before it stopped has been kept.",
        ),
        (
            Fault::MicrophoneFormat,
            "This microphone sends audio in a format the app cannot read (x).",
        ),
        (
            Fault::MicrophoneClosed,
            "The microphone could not be opened: x. Check that no other app is holding it, and that Omegawhisper is allowed in System Settings > Privacy & Security > Microphone.",
        ),
        (Fault::MicrophoneStuck, "The microphone opened but would not start: x."),
        (Fault::MicrophoneConfig, "Failed to get input config: x"),
    ];
    for (fault, want) in cases {
        assert_eq!(fault_message(fault, "x"), want);
    }
}

fn measured(level: f32, peak: f32) -> Measured {
    Measured {
        level: loudness(level),
        peak: loudness(peak),
        length: time(2.5),
        seconds: "2".to_string(),
    }
}

fn raised(audio: Vec<i32>, level: f32) -> DictationEvent<i32> {
    DictationEvent::Raised { audio, gain: loudness(4.0), level: loudness(level) }
}

fn answered(result: Result<String, String>) -> DictationEvent<i32> {
    DictationEvent::Answered { model: "base".to_string(), took: time(0.5), result }
}

/// Runs a dictation of the samples 1, 2 and 3 with what the model answers.
fn dictate(
    auto_type: bool,
    level: f32,
    after_saving: DictationEvent<i32>,
    typed: Option<Option<String>>,
) -> Vec<String> {
    let (mut d, turn) = Dictation::begin(vec![1, 2, 3], measured(0.02, 0.5), auto_type);
    assert!(matches!(&turn.task, Task::Trim(a) if a == &vec![1, 2, 3]));
    let mut told = turn.told;
    let turn = d.step(DictationEvent::Trimmed(vec![2, 3])).unwrap();
    assert!(matches!(&turn.task, Task::Raise(a) if a == &vec![2, 3]));
    told.extend(turn.told);
    let turn = d.step(raised(vec![8, 12], level)).unwrap();
    assert!(matches!(&turn.task, Task::Save(a) if a == &vec![8, 12]));
    told.extend(turn.told);
    let turn = d.step(DictationEvent::Saved).unwrap();
    assert!(matches!(&turn.task, Task::Ask(a) if a == &vec![8, 12]));
    told.extend(turn.told);
    let mut turn = d.step(after_saving).unwrap();
    told.extend(turn.told);
    if let Some(reason) = typed {
        assert!(matches!(&turn.task, Task::Type(text) if text == "hi "));
        turn = d.step(DictationEvent::Typed(reason)).unwrap();
        told.extend(turn.told);
    }
    assert!(matches!(turn.task, Task::End));
    assert_eq!(d.stage, DictationStage::Ended);
    assert!(d.step(DictationEvent::Saved).is_none());
    names(told)
}

#[test]
fn a_dictation_without_speech_is_only_reported() {
    for (level, peak) in [(0.0014, 0.02), (0.004, 0.6), (0.08, 0.02)] {
        let (mut d, turn) = Dictation::begin(vec![1], measured(level, peak), true);
        assert!(matches!(turn.task, Task::End));
        let told = names(turn.told);
        assert_eq!(told.len(), 3);
        assert_eq!(told[0], format!("stats:skipped - no speech:2.5:{level}:{level}:1:0:0"));
        assert!(told[1].starts_with("error:These 2 seconds held no speech"));
        assert_eq!(told[2], "complete");
        assert!(d.step(DictationEvent::Trimmed(vec![1])).is_none());
        assert!(d.step(answered(Ok("invented".to_string()))).is_none());
    }
}

#[test]
fn a_dictation_without_sound_is_complete_at_once() {
    let (_, turn) = Dictation::<i32>::begin(Vec::new(), measured(0.1, 0.5), true);
    assert!(matches!(turn.task, Task::End));
    assert_eq!(names(turn.told), vec!["complete"]);
}

#[test]
fn a_dictation_is_told_in_order() {
    let stats = "stats:base:2.5:0.02:0.08:4:0.5:2";
    assert_eq!(
        dictate(true, 0.08, answered(Ok(" hi\n".to_string())), Some(None)),
        vec![stats, "text:hi:true", "complete"]
    );
    assert_eq!(
        dictate(true, 0.08, answered(Ok("hi".to_string())), Some(Some("no".to_string()))),
        vec![stats, "failed:hi", "error:no", "text:hi:true", "complete"]
    );
    assert_eq!(
        dictate(false, 0.08, answered(Ok("hi".to_string())), None),
        vec![stats, "text:hi:true", "complete"]
    );
    assert_eq!(
        dictate(true, 0.08, answered(Ok(" ".to_string())), None),
        vec!["stats:base:2.5:0.02:0.08:4:0.5:0", "complete"]
    );
    assert_eq!(
        dictate(true, 0.08, answered(Err("bad".to_string())), None),
        vec!["stats:base:2.5:0.02:0.08:4:0.5:0", "error:bad", "complete"]
    );
}

#[test]
fn an_almost_silent_dictation_is_warned_of_after_its_numbers() {
    let told = dictate(false, 0.019, answered(Ok("hi".to_string())), None);
    assert_eq!(told.len(), 4);
    assert!(told[0].starts_with("stats:base:"));
    assert!(told[1].starts_with("error:The microphone was almost silent for these 2 seconds"));
    assert_eq!(told[2..], ["text:hi:true", "complete"]);
}

#[test]
fn a_broken_engine_is_told_and_completes() {
    assert_eq!(
        dictate(true, 0.08, DictationEvent::Broken("poisoned".to_string()), None),
        vec![
            "error:The transcription engine is in a broken state after an earlier failure (poisoned). Restart Omegawhisper.",
            "complete"
        ]
    );
}
