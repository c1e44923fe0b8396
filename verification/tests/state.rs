use omegawhisper::server::TrialProvisionResponse;
use omegawhisper::state::{
    check_model, load_tray_prefs, AudioState, DebugSwitch, Route, StartRequest, TrayPrefs,
};

fn fresh() -> AudioState<i16> {
    AudioState::new(false, Vec::new())
}

fn refusal(request: StartRequest) -> String {
    match request {
        StartRequest::Refused(reason) => reason,
        _ => panic!("not refused"),
    }
}

fn trial(key: Option<&str>) -> TrialProvisionResponse<u32> {
    TrialProvisionResponse {
        key: key.map(|k| k.to_string()),
        key_prefix: "p".to_string(),
        remaining_duration_seconds: 60,
        remaining_sessions: 3,
        max_session_duration_seconds: 30,
        expires_at: "later".to_string(),
        quota_exceeded: false,
        expired: false,
    }
}

#[test]
fn the_app_starts_with_its_defaults() {
    let s: AudioState<i16> = AudioState::new(true, vec!["w".to_string()]);
    assert!(!s.is_recording());
    assert!(s.use_hyperwhisper_server);
    assert_eq!(s.hyperwhisper_server_url, "hyperwhisper.dev");
    assert!(s.hyperwhisper_server_https);
    assert!(s.get_use_vad());
    assert!(s.get_debug_stats());
    assert!(!s.auto_type_transcription);
    assert!(!s.use_local_transcription);
    assert_eq!(s.get_selected_device(), None);
    assert_eq!(s.get_active_model(), None);
    assert_eq!(s.get_local_model_path(), None);
    assert_eq!(s.get_startup_warnings(), vec!["w".to_string()]);
}

#[test]
fn a_recording_needs_its_key_or_its_model() {
    let mut s = fresh();
    assert_eq!(refusal(s.start_recording()), "Hyperwhisper API key not set");
    s.use_hyperwhisper_server = false;
    assert_eq!(refusal(s.start_recording()), "Deepgram API key not set");
    s.set_use_local_transcription(true);
    assert_eq!(
        refusal(s.start_recording()),
        "No local model selected. Please select a model in settings."
    );
    assert_eq!(
        refusal(check_model("base".to_string(), false)),
        "Model base is not downloaded. Please download it first."
    );
}

#[test]
fn the_settings_choose_who_transcribes() {
    let mut s = fresh();
    s.hyperwhisper_api_key = Some("h".to_string());
    match s.start_recording() {
        StartRequest::Ready(Route::Hyperwhisper { api_key, server_url, use_https }) => {
            assert_eq!(api_key, "h");
            assert_eq!(server_url, "hyperwhisper.dev");
            assert!(use_https);
        }
        _ => panic!("wrong route"),
    }
    s.use_hyperwhisper_server = false;
    s.set_api_key("d".to_string());
    match s.start_recording() {
        StartRequest::Ready(Route::Deepgram { api_key }) => assert_eq!(api_key, "d"),
        _ => panic!("wrong route"),
    }
    s.set_use_local_transcription(true);
    assert!(s.set_active_model("base".to_string(), true).is_ok());
    match s.start_recording() {
        StartRequest::NeedsModel(id) => match check_model(id, true) {
            StartRequest::Ready(Route::Local { model_id }) => assert_eq!(model_id, "base"),
            _ => panic!("wrong route"),
        },
        _ => panic!("wrong route"),
    }
}

#[test]
fn a_recording_holds_what_was_delivered_while_it_ran() {
    let mut s = fresh();
    s.hyperwhisper_api_key = Some("h".to_string());
    s.capture(&[9, 9]);
    s.clear_recording();
    s.recording_started(44_100);
    assert_eq!(refusal(s.start_recording()), "Already recording");
    s.capture(&[1, 2]);
    s.capture(&[3]);
    assert_eq!(s.stop_recording(), Ok(()));
    s.capture(&[4]);
    assert_eq!(s.recorded_samples, vec![1, 2, 3]);
    assert_eq!(s.recording_to_save(), Ok(44_100));
    s.clear_recording();
    assert_eq!(s.recording_to_save(), Err("No audio data recorded".to_string()));
    assert_eq!(s.stop_recording(), Err("Not recording".to_string()));
}

#[test]
fn a_failed_microphone_does_not_block_the_next_recording() {
    let mut s = fresh();
    s.hyperwhisper_api_key = Some("h".to_string());
    s.recording_started(48_000);
    s.recording_ended();
    assert!(matches!(s.start_recording(), StartRequest::Ready(_)));
}

#[test]
fn a_recording_without_a_rate_is_saved_at_the_usual_one() {
    let mut s = fresh();
    s.recorded_samples = vec![1];
    assert_eq!(s.recording_to_save(), Ok(48_000));
    s.sample_rate = Some(8_000);
    assert_eq!(s.recording_to_save(), Ok(8_000));
}

#[test]
fn server_settings_are_cleaned() {
    let mut s = fresh();
    let r = s.set_hyperwhisper_server_settings::<u32>(
        true,
        "  my.server \n",
        false,
        Some("k".to_string()),
    );
    let r = r.unwrap();
    assert_eq!(r.provisioned_key, None);
    assert!(r.trial_info.is_none());
    assert_eq!(r.error, None);
    assert_eq!(s.hyperwhisper_server_url, "my.server");
    assert!(!s.hyperwhisper_server_https);
    assert_eq!(s.hyperwhisper_api_key, Some("k".to_string()));

    assert!(s.set_hyperwhisper_server_settings::<u32>(false, " ", true, None).is_some());
    assert_eq!(s.hyperwhisper_server_url, "hyperwhisper.dev");
    assert!(!s.use_hyperwhisper_server);
    assert_eq!(s.hyperwhisper_api_key, None);
}

#[test]
fn a_missing_key_asks_for_a_trial_key() {
    let mut s = fresh();
    s.hyperwhisper_api_key = Some("old".to_string());
    assert!(s
        .set_hyperwhisper_server_settings::<u32>(true, "x", true, Some(" \t".to_string()))
        .is_none());
    assert_eq!(s.hyperwhisper_api_key, Some("old".to_string()));

    let r = s.trial_key_answered(Ok(trial(Some("t"))));
    assert_eq!(r.provisioned_key, Some("t".to_string()));
    assert_eq!(r.error, None);
    assert_eq!(r.trial_info.unwrap().remaining_sessions, 3);
    assert_eq!(s.hyperwhisper_api_key, Some("t".to_string()));

    let r = s.trial_key_answered(Ok(trial(None)));
    assert_eq!(r.provisioned_key, None);
    assert!(r.trial_info.is_some());
    assert_eq!(
        r.error.unwrap(),
        "Trial key exists for this device but was not returned. Please enter your API key manually."
    );
    assert_eq!(s.hyperwhisper_api_key, Some("t".to_string()));

    let r = s.trial_key_answered::<u32>(Err("offline".to_string()));
    assert_eq!(r.error, Some("offline".to_string()));
    assert!(r.trial_info.is_none());
}

#[test]
fn only_a_downloaded_model_becomes_active() {
    let mut s = fresh();
    assert_eq!(s.load_active_model(), Err("No active model set".to_string()));
    assert_eq!(
        s.set_active_model("big".to_string(), false),
        Err("Model big is not downloaded".to_string())
    );
    assert_eq!(s.get_active_model(), None);
    assert_eq!(s.set_active_model("big".to_string(), true), Ok(()));
    assert_eq!(s.get_active_model(), Some("big".to_string()));
    assert_eq!(s.load_active_model(), Ok("big".to_string()));
}

#[test]
fn without_a_selection_the_built_in_microphone_is_used() {
    let mut s = fresh();
    assert_eq!(s.set_selected_device(Some(4), Some(9)), Some(4));
    assert_eq!(s.get_selected_device(), Some(4));
    assert_eq!(s.set_selected_device(None, Some(9)), Some(9));
    assert_eq!(s.get_selected_device(), None);
    assert_eq!(s.set_selected_device(None, None), None);
}

#[test]
fn the_debug_line_is_switched_everywhere() {
    let mut s = fresh();
    let on = DebugSwitch {
        menu_checked: true,
        saved: TrayPrefs { debug_stats: true },
        announced: true,
    };
    assert_eq!(s.toggle_debug_stats(), on);
    assert!(s.get_debug_stats());
    assert_eq!(s.set_debug_stats(true), on);
    let off = s.toggle_debug_stats();
    assert!(!off.menu_checked && !off.saved.debug_stats && !off.announced);
    assert!(!s.get_debug_stats());
}

#[test]
fn saved_preferences_are_used_where_there_are_any() {
    assert_eq!(load_tray_prefs(None), TrayPrefs { debug_stats: false });
    assert_eq!(load_tray_prefs(None), TrayPrefs::default());
    assert!(load_tray_prefs(Some(TrayPrefs { debug_stats: true })).debug_stats);
}

#[test]
fn other_settings_are_kept() {
    let mut s = fresh();
    s.set_auto_type_transcription(true);
    s.set_local_model_path("/m".to_string());
    s.set_use_vad(false);
    s.add_startup_warning("F3".to_string());
    s.add_startup_warning("mic".to_string());
    assert!(s.auto_type_transcription);
    assert_eq!(s.get_local_model_path(), Some("/m".to_string()));
    assert!(!s.get_use_vad());
    assert_eq!(s.get_startup_warnings(), vec!["F3".to_string(), "mic".to_string()]);
}

#[test]
fn the_debug_line_survives_a_restart() {
    let saved = fresh().toggle_debug_stats().saved;
    let restarted: AudioState<i16> =
        AudioState::new(load_tray_prefs(Some(saved)).debug_stats, Vec::new());
    assert!(restarted.get_debug_stats());
}

#[test]
fn a_trial_key_is_used_by_the_next_recording() {
    let mut s = fresh();
    assert!(s.set_hyperwhisper_server_settings::<u32>(true, " my.server ", false, None).is_none());
    s.trial_key_answered(Ok(trial(Some("t"))));
    match s.start_recording() {
        StartRequest::Ready(Route::Hyperwhisper { api_key, server_url, use_https }) => {
            assert_eq!((api_key.as_str(), server_url.as_str(), use_https), ("t", "my.server", false));
        }
        _ => panic!("wrong route"),
    }
}
