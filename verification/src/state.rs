//! The state of the app: its settings, and the recording in progress.

use crate::server::{ServerSettingsResponse, TrialProvisionResponse};
use crate::text::{
    a_text_holds_what_stands_in_it, begins_with, chars_of, contains_text, is_white, optional_view,
    owned, string_of, string_views, text_view, trim, trimmed, white_space_around_a_text_is_dropped,
};
use vstd::prelude::*;
use vstd::string::StringExecFns;

verus! {

/// The settings and the recording in progress. `S` is a sample.
pub struct AudioState<S> {
    pub is_recording: bool,
    pub recorded_samples: Vec<S>,
    pub sample_rate: Option<u32>,
    /// The key for Deepgram.
    pub api_key: Option<String>,
    pub use_hyperwhisper_server: bool,
    pub hyperwhisper_server_url: String,
    pub hyperwhisper_server_https: bool,
    pub hyperwhisper_api_key: Option<String>,
    /// Type the text into other apps as it comes.
    pub auto_type_transcription: bool,
    /// The microphone selected; without one, the built-in microphone is used.
    pub selected_device_id: Option<u32>,
    pub use_local_transcription: bool,
    pub local_model_path: Option<String>,
    pub active_local_model_id: Option<String>,
    /// Keep only what voice detection takes for speech.
    pub use_vad: bool,
    /// Show the live numbers of the microphone and of each dictation.
    pub debug_stats: bool,
    /// Problems found at startup, kept until a window asks.
    pub startup_warnings: Vec<String>,
}

/// What an `AudioState` says, with texts and samples as sequences.
#[verifier::ext_equal]
pub struct StateView<S> {
    pub is_recording: bool,
    pub recorded_samples: Seq<S>,
    pub sample_rate: Option<u32>,
    pub api_key: Option<Seq<char>>,
    pub use_hyperwhisper_server: bool,
    pub hyperwhisper_server_url: Seq<char>,
    pub hyperwhisper_server_https: bool,
    pub hyperwhisper_api_key: Option<Seq<char>>,
    pub auto_type_transcription: bool,
    pub selected_device_id: Option<u32>,
    pub use_local_transcription: bool,
    pub local_model_path: Option<Seq<char>>,
    pub active_local_model_id: Option<Seq<char>>,
    pub use_vad: bool,
    pub debug_stats: bool,
    pub startup_warnings: Seq<Seq<char>>,
}

impl<S> View for AudioState<S> {
    type V = StateView<S>;

    open spec fn view(&self) -> StateView<S> {
        StateView {
            is_recording: self.is_recording,
            recorded_samples: self.recorded_samples@,
            sample_rate: self.sample_rate,
            api_key: optional_view(self.api_key),
            use_hyperwhisper_server: self.use_hyperwhisper_server,
            hyperwhisper_server_url: self.hyperwhisper_server_url@,
            hyperwhisper_server_https: self.hyperwhisper_server_https,
            hyperwhisper_api_key: optional_view(self.hyperwhisper_api_key),
            auto_type_transcription: self.auto_type_transcription,
            selected_device_id: self.selected_device_id,
            use_local_transcription: self.use_local_transcription,
            local_model_path: optional_view(self.local_model_path),
            active_local_model_id: optional_view(self.active_local_model_id),
            use_vad: self.use_vad,
            debug_stats: self.debug_stats,
            startup_warnings: string_views(self.startup_warnings@),
        }
    }
}

/// Who transcribes a recording.
pub enum Route {
    /// A model on this machine.
    Local { model_id: String },
    /// A Hyperwhisper server.
    Hyperwhisper { api_key: String, server_url: String, use_https: bool },
    /// Deepgram.
    Deepgram { api_key: String },
}

/// What a `Route` says, as sequences of characters.
pub enum RouteView {
    Local { model_id: Seq<char> },
    Hyperwhisper { api_key: Seq<char>, server_url: Seq<char>, use_https: bool },
    Deepgram { api_key: Seq<char> },
}

impl View for Route {
    type V = RouteView;

    open spec fn view(&self) -> RouteView {
        match *self {
            Route::Local { model_id } => RouteView::Local { model_id: model_id@ },
            Route::Hyperwhisper { api_key, server_url, use_https } => RouteView::Hyperwhisper {
                api_key: api_key@,
                server_url: server_url@,
                use_https,
            },
            Route::Deepgram { api_key } => RouteView::Deepgram { api_key: api_key@ },
        }
    }
}

/// What comes of the wish to start a recording.
pub enum StartRequest {
    /// It cannot start, for this reason.
    Refused(String),
    /// It can start if this model has been downloaded.
    NeedsModel(String),
    /// It can start.
    Ready(Route),
}

/// What a `StartRequest` says, as sequences of characters.
pub enum StartView {
    Refused(Seq<char>),
    NeedsModel(Seq<char>),
    Ready(RouteView),
}

impl View for StartRequest {
    type V = StartView;

    open spec fn view(&self) -> StartView {
        match *self {
            StartRequest::Refused(reason) => StartView::Refused(reason@),
            StartRequest::NeedsModel(id) => StartView::NeedsModel(id@),
            StartRequest::Ready(route) => StartView::Ready(route@),
        }
    }
}

/// The outcome of an operation that gives no value, as sequences of characters.
pub open spec fn unit_view(r: Result<(), String>) -> Result<(), Seq<char>> {
    match r {
        Ok(_) => Ok(()),
        Err(message) => Err(message@),
    }
}

/// The server that is used where none is named.
pub open spec fn default_server() -> Seq<char> {
    "hyperwhisper.dev"@
}

/// The state of the app when it starts.
pub open spec fn initial<S>(debug_stats: bool, startup_warnings: Seq<Seq<char>>) -> StateView<S> {
    StateView {
        is_recording: false,
        recorded_samples: Seq::empty(),
        sample_rate: None,
        api_key: None,
        use_hyperwhisper_server: true,
        hyperwhisper_server_url: default_server(),
        hyperwhisper_server_https: true,
        hyperwhisper_api_key: None,
        auto_type_transcription: false,
        selected_device_id: None,
        use_local_transcription: false,
        local_model_path: None,
        active_local_model_id: None,
        use_vad: true,
        debug_stats,
        startup_warnings,
    }
}

/// What comes of the wish to start a recording. One recording runs at a time, a server
/// needs its key, and a local transcription needs a model.
pub open spec fn start_of<S>(s: StateView<S>) -> StartView {
    if s.is_recording {
        StartView::Refused("Already recording"@)
    } else if s.use_local_transcription {
        match s.active_local_model_id {
            Some(id) => StartView::NeedsModel(id),
            None => StartView::Refused(
                "No local model selected. Please select a model in settings."@,
            ),
        }
    } else if s.use_hyperwhisper_server {
        match s.hyperwhisper_api_key {
            Some(key) => StartView::Ready(
                RouteView::Hyperwhisper {
                    api_key: key,
                    server_url: s.hyperwhisper_server_url,
                    use_https: s.hyperwhisper_server_https,
                },
            ),
            None => StartView::Refused("Hyperwhisper API key not set"@),
        }
    } else {
        match s.api_key {
            Some(key) => StartView::Ready(RouteView::Deepgram { api_key: key }),
            None => StartView::Refused("Deepgram API key not set"@),
        }
    }
}

/// What comes of a model that a recording needs.
pub open spec fn model_checked(model_id: Seq<char>, downloaded: bool) -> StartView {
    if downloaded {
        StartView::Ready(RouteView::Local { model_id })
    } else {
        StartView::Refused(
            "Model "@ + model_id + " is not downloaded. Please download it first."@,
        )
    }
}

/// The state without what was recorded.
pub open spec fn cleared<S>(s: StateView<S>) -> StateView<S> {
    StateView { recorded_samples: Seq::empty(), ..s }
}

/// The state once the microphone is known and the recording runs.
pub open spec fn started<S>(s: StateView<S>, sample_rate: u32) -> StateView<S> {
    StateView { is_recording: true, sample_rate: Some(sample_rate), ..s }
}

/// The state after the microphone has delivered samples.
pub open spec fn captured<S>(s: StateView<S>, chunk: Seq<S>) -> StateView<S> {
    if s.is_recording {
        StateView { recorded_samples: s.recorded_samples + chunk, ..s }
    } else {
        s
    }
}

/// The state once no recording runs.
pub open spec fn stopped<S>(s: StateView<S>) -> StateView<S> {
    StateView { is_recording: false, ..s }
}

/// The sample rate of the recording that is to be saved.
pub open spec fn rate_to_save<S>(s: StateView<S>) -> Result<u32, Seq<char>> {
    if s.recorded_samples.len() == 0 {
        Err("No audio data recorded"@)
    } else {
        match s.sample_rate {
            Some(rate) => Ok(rate),
            None => Ok(48000),
        }
    }
}

/// The server that a setting names.
pub open spec fn server_of(server_url: Seq<char>) -> Seq<char> {
    if trimmed(server_url).len() == 0 {
        default_server()
    } else {
        trimmed(server_url)
    }
}

/// No key was given, or only white space.
pub open spec fn lacks_key(api_key: Option<Seq<char>>) -> bool {
    match api_key {
        Some(key) => trimmed(key).len() == 0,
        None => true,
    }
}

/// The state after the server settings were changed. The key is kept until a trial key
/// has been asked for, where one has to be.
pub open spec fn with_server<S>(
    s: StateView<S>,
    use_server: bool,
    server_url: Seq<char>,
    use_https: bool,
    api_key: Option<Seq<char>>,
) -> StateView<S> {
    StateView {
        use_hyperwhisper_server: use_server,
        hyperwhisper_server_url: server_of(server_url),
        hyperwhisper_server_https: use_https,
        hyperwhisper_api_key: if use_server && lacks_key(api_key) {
            s.hyperwhisper_api_key
        } else {
            api_key
        },
        ..s
    }
}

/// What is told where the server knows the device but does not give its key again.
pub open spec fn key_not_returned() -> Seq<char> {
    "Trial key exists for this device but was not returned. Please enter your API key manually."@
}

/// The settings of the tray menu that are kept in a file.
#[derive(Clone, Copy, PartialEq, Eq, Structural, Debug)]
pub struct TrayPrefs {
    pub debug_stats: bool,
}

impl Default for TrayPrefs {
    fn default() -> (r: Self)
        ensures
            r == (TrayPrefs { debug_stats: false }),
    {
        TrayPrefs { debug_stats: false }
    }
}

/// The settings that were read from the file. A file that is missing or cannot be read
/// leaves the defaults.
pub open spec fn prefs_of(read: Option<TrayPrefs>) -> TrayPrefs {
    match read {
        Some(prefs) => prefs,
        None => TrayPrefs { debug_stats: false },
    }
}

/// Gives the settings that were read from the file, or the defaults.
pub fn load_tray_prefs(read: Option<TrayPrefs>) -> (r: TrayPrefs)
    ensures
        r == prefs_of(read),
{
    match read {
        Some(prefs) => prefs,
        None => TrayPrefs::default(),
    }
}

/// What has to follow where the debug line is switched.
#[derive(Clone, Copy, PartialEq, Eq, Structural, Debug)]
pub struct DebugSwitch {
    /// The tick of the tray menu.
    pub menu_checked: bool,
    /// What is written to the file.
    pub saved: TrayPrefs,
    /// What the windows are told.
    pub announced: bool,
}

/// What has to follow where the debug line is switched.
pub open spec fn debug_switch(enabled: bool) -> DebugSwitch {
    DebugSwitch {
        menu_checked: enabled,
        saved: TrayPrefs { debug_stats: enabled },
        announced: enabled,
    }
}

/// The state with the debug line switched.
pub open spec fn with_debug<S>(s: StateView<S>, enabled: bool) -> StateView<S> {
    StateView { debug_stats: enabled, ..s }
}

fn copied(s: &Option<String>) -> (r: Option<String>)
    ensures
        optional_view(r) == optional_view(*s),
{
    match s {
        Some(s) => Some(s.clone()),
        None => None,
    }
}

impl<S> AudioState<S> {
    /// The state of the app when it starts.
    pub fn new(debug_stats: bool, startup_warnings: Vec<String>) -> (r: Self)
        ensures
            r@ == initial::<S>(debug_stats, string_views(startup_warnings@)),
    {
        let r = AudioState {
            is_recording: false,
            recorded_samples: Vec::new(),
            sample_rate: None,
            api_key: None,
            use_hyperwhisper_server: true,
            hyperwhisper_server_url: owned("hyperwhisper.dev"),
            hyperwhisper_server_https: true,
            hyperwhisper_api_key: None,
            auto_type_transcription: false,
            selected_device_id: None,
            use_local_transcription: false,
            local_model_path: None,
            active_local_model_id: None,
            use_vad: true,
            debug_stats,
            startup_warnings,
        };
        assert(r@ =~= initial::<S>(debug_stats, string_views(startup_warnings@)));
        r
    }

    /// Asks whether a recording can start, and who will transcribe it.
    pub fn start_recording(&self) -> (r: StartRequest)
        ensures
            r@ == start_of(self@),
    {
        if self.is_recording {
            return StartRequest::Refused(owned("Already recording"));
        }
        if self.use_local_transcription {
            match &self.active_local_model_id {
                Some(id) => StartRequest::NeedsModel(id.clone()),
                None => StartRequest::Refused(
                    owned("No local model selected. Please select a model in settings."),
                ),
            }
        } else if self.use_hyperwhisper_server {
            match &self.hyperwhisper_api_key {
                Some(key) => StartRequest::Ready(
                    Route::Hyperwhisper {
                        api_key: key.clone(),
                        server_url: self.hyperwhisper_server_url.clone(),
                        use_https: self.hyperwhisper_server_https,
                    },
                ),
                None => StartRequest::Refused(owned("Hyperwhisper API key not set")),
            }
        } else {
            match &self.api_key {
                Some(key) => StartRequest::Ready(Route::Deepgram { api_key: key.clone() }),
                None => StartRequest::Refused(owned("Deepgram API key not set")),
            }
        }
    }

    /// Forgets what was recorded, before a recording starts.
    pub fn clear_recording(&mut self)
        ensures
            final(self)@ == cleared(old(self)@),
    {
        self.recorded_samples = Vec::new();
    }

    /// Notes that the recording runs.
    pub fn recording_started(&mut self, sample_rate: u32)
        ensures
            final(self)@ == started(old(self)@, sample_rate),
    {
        self.sample_rate = Some(sample_rate);
        self.is_recording = true;
    }

    /// Notes that no recording runs: it was stopped, or the microphone, the model or the
    /// connection failed.
    pub fn recording_ended(&mut self)
        ensures
            final(self)@ == stopped(old(self)@),
    {
        self.is_recording = false;
    }

    /// Stops the recording.
    pub fn stop_recording(&mut self) -> (r: Result<(), String>)
        ensures
            final(self)@ == stopped(old(self)@),
            unit_view(r) == (if old(self).is_recording {
                Ok::<(), Seq<char>>(())
            } else {
                Err("Not recording"@)
            }),
    {
        if !self.is_recording {
            return Err(owned("Not recording"));
        }
        self.is_recording = false;
        Ok(())
    }

    /// The sample rate of the recording that is to be saved.
    pub fn recording_to_save(&self) -> (r: Result<u32, String>)
        ensures
            match r {
                Ok(rate) => rate_to_save(self@) == Ok::<u32, Seq<char>>(rate),
                Err(message) => rate_to_save(self@) == Err::<u32, Seq<char>>(message@),
            },
    {
        if self.recorded_samples.len() == 0 {
            return Err(owned("No audio data recorded"));
        }
        match self.sample_rate {
            Some(rate) => Ok(rate),
            None => Ok(48000),
        }
    }

    /// Changes the server settings. `None` where a trial key has to be asked for first.
    pub fn set_hyperwhisper_server_settings<N>(
        &mut self,
        use_hyperwhisper_server: bool,
        server_url: &str,
        use_https: bool,
        api_key: Option<String>,
    ) -> (r: Option<ServerSettingsResponse<N>>)
        ensures
            final(self)@ == with_server(
                old(self)@,
                use_hyperwhisper_server,
                server_url@,
                use_https,
                optional_view(api_key),
            ),
            r is None <==> use_hyperwhisper_server && lacks_key(optional_view(api_key)),
            r matches Some(answer) ==> answer.provisioned_key is None && answer.trial_info is None
                && answer.error is None,
    {
        let whole = chars_of(server_url);
        let bare = trim(&whole);
        let server = if bare.len() == 0 {
            owned("hyperwhisper.dev")
        } else {
            string_of(bare)
        };
        self.use_hyperwhisper_server = use_hyperwhisper_server;
        self.hyperwhisper_server_url = server;
        self.hyperwhisper_server_https = use_https;
        let lacking = match &api_key {
            Some(key) => {
                let key = chars_of(key.as_str());
                trim(&key).len() == 0
            },
            None => true,
        };
        if use_hyperwhisper_server && lacking {
            return None;
        }
        self.hyperwhisper_api_key = api_key;
        Some(ServerSettingsResponse { provisioned_key: None, trial_info: None, error: None })
    }

    /// Takes in what came of asking for a trial key.
    pub fn trial_key_answered<N>(
        &mut self,
        answer: Result<TrialProvisionResponse<N>, String>,
    ) -> (r: ServerSettingsResponse<N>)
        ensures
            match answer {
                Ok(info) => {
                    &&& r.trial_info == Some(info)
                    &&& match info.key {
                        Some(key) => {
                            &&& final(self)@ == (StateView {
                                hyperwhisper_api_key: Some(key@),
                                ..old(self)@
                            })
                            &&& optional_view(r.provisioned_key) == Some(key@)
                            &&& r.error is None
                        },
                        None => {
                            &&& final(self)@ == old(self)@
                            &&& r.provisioned_key is None
                            &&& optional_view(r.error) == Some(key_not_returned())
                        },
                    }
                },
                Err(message) => {
                    &&& final(self)@ == old(self)@
                    &&& r.provisioned_key is None
                    &&& r.trial_info is None
                    &&& optional_view(r.error) == Some(message@)
                },
            },
    {
        match answer {
            Ok(info) => {
                let key = copied(&info.key);
                match key {
                    Some(key) => {
                        self.hyperwhisper_api_key = Some(key.clone());
                        ServerSettingsResponse {
                            provisioned_key: Some(key),
                            trial_info: Some(info),
                            error: None,
                        }
                    },
                    None => ServerSettingsResponse {
                        provisioned_key: None,
                        trial_info: Some(info),
                        error: Some(
                            owned(
                                "Trial key exists for this device but was not returned. Please enter your API key manually.",
                            ),
                        ),
                    },
                }
            },
            Err(message) => ServerSettingsResponse {
                provisioned_key: None,
                trial_info: None,
                error: Some(message),
            },
        }
    }

    /// Makes a model the active one, if it has been downloaded.
    pub fn set_active_model(&mut self, model_id: String, downloaded: bool) -> (r: Result<
        (),
        String,
    >)
        ensures
            downloaded ==> r is Ok && final(self)@ == (StateView {
                active_local_model_id: Some(model_id@),
                ..old(self)@
            }),
            !downloaded ==> final(self)@ == old(self)@ && unit_view(r) == Err::<(), Seq<char>>(
                "Model "@ + model_id@ + " is not downloaded"@,
            ),
    {
        if !downloaded {
            let mut message = owned("Model ");
            message.append(model_id.as_str());
            message.append(" is not downloaded");
            return Err(message);
        }
        self.active_local_model_id = Some(model_id);
        Ok(())
    }

    /// The model that is to be loaded ahead of its use.
    pub fn load_active_model(&self) -> (r: Result<String, String>)
        ensures
            text_view(r) == (match self@.active_local_model_id {
                Some(id) => Ok::<Seq<char>, Seq<char>>(id),
                None => Err("No active model set"@),
            }),
    {
        match &self.active_local_model_id {
            Some(id) => Ok(id.clone()),
            None => Err(owned("No active model set")),
        }
    }

    /// The active model.
    pub fn get_active_model(&self) -> (r: Option<String>)
        ensures
            optional_view(r) == self@.active_local_model_id,
    {
        copied(&self.active_local_model_id)
    }

    /// Selects a microphone, and tells which one is to become the system's default:
    /// without a selection it is the built-in one, where there is one.
    pub fn set_selected_device(&mut self, device_id: Option<u32>, builtin: Option<u32>) -> (r:
        Option<u32>)
        ensures
            final(self)@ == (StateView { selected_device_id: device_id, ..old(self)@ }),
            r == (if device_id is Some {
                device_id
            } else {
                builtin
            }),
    {
        self.selected_device_id = device_id;
        match device_id {
            Some(id) => Some(id),
            None => builtin,
        }
    }

    /// Switches the debug line, and tells what has to follow.
    pub fn set_debug_stats(&mut self, enabled: bool) -> (r: DebugSwitch)
        ensures
            final(self)@ == with_debug(old(self)@, enabled),
            r == debug_switch(enabled),
    {
        self.debug_stats = enabled;
        DebugSwitch {
            menu_checked: enabled,
            saved: TrayPrefs { debug_stats: enabled },
            announced: enabled,
        }
    }

    /// Switches the debug line over, as the tray menu does.
    pub fn toggle_debug_stats(&mut self) -> (r: DebugSwitch)
        ensures
            final(self)@ == with_debug(old(self)@, !old(self).debug_stats),
            r == debug_switch(!old(self).debug_stats),
    {
        let enabled = !self.debug_stats;
        self.set_debug_stats(enabled)
    }

    pub fn set_api_key(&mut self, api_key: String)
        ensures
            final(self)@ == (StateView { api_key: Some(api_key@), ..old(self)@ }),
    {
        self.api_key = Some(api_key);
    }

    pub fn set_auto_type_transcription(&mut self, enabled: bool)
        ensures
            final(self)@ == (StateView { auto_type_transcription: enabled, ..old(self)@ }),
    {
        self.auto_type_transcription = enabled;
    }

    pub fn set_use_local_transcription(&mut self, enabled: bool)
        ensures
            final(self)@ == (StateView { use_local_transcription: enabled, ..old(self)@ }),
    {
        self.use_local_transcription = enabled;
    }

    pub fn set_local_model_path(&mut self, path: String)
        ensures
            final(self)@ == (StateView { local_model_path: Some(path@), ..old(self)@ }),
    {
        self.local_model_path = Some(path);
    }

    pub fn get_local_model_path(&self) -> (r: Option<String>)
        ensures
            optional_view(r) == self@.local_model_path,
    {
        copied(&self.local_model_path)
    }

    pub fn set_use_vad(&mut self, enabled: bool)
        ensures
            final(self)@ == (StateView { use_vad: enabled, ..old(self)@ }),
    {
        self.use_vad = enabled;
    }

    pub fn get_use_vad(&self) -> (r: bool)
        ensures
            r == self@.use_vad,
    {
        self.use_vad
    }

    pub fn get_debug_stats(&self) -> (r: bool)
        ensures
            r == self@.debug_stats,
    {
        self.debug_stats
    }

    pub fn get_selected_device(&self) -> (r: Option<u32>)
        ensures
            r == self@.selected_device_id,
    {
        self.selected_device_id
    }

    pub fn is_recording(&self) -> (r: bool)
        ensures
            r == self@.is_recording,
    {
        self.is_recording
    }

    /// The problems found at startup.
    pub fn get_startup_warnings(&self) -> (r: Vec<String>)
        ensures
            string_views(r@) == self@.startup_warnings,
    {
        let mut out: Vec<String> = Vec::new();
        let mut i: usize = 0;
        while i < self.startup_warnings.len()
            invariant
                i <= self.startup_warnings@.len(),
                string_views(out@) == string_views(self.startup_warnings@).take(i as int),
            decreases self.startup_warnings@.len() - i,
        {
            let ghost before = out@;
            out.push(self.startup_warnings[i].clone());
            i += 1;
            assert(string_views(out@) =~= string_views(before).push(
                self.startup_warnings@[i - 1]@,
            ));
            assert(string_views(out@) =~= string_views(self.startup_warnings@).take(i as int));
        }
        assert(string_views(out@) =~= string_views(self.startup_warnings@));
        out
    }

    /// Adds a problem found at startup.
    pub fn add_startup_warning(&mut self, warning: String)
        ensures
            final(self)@ == (StateView {
                startup_warnings: old(self)@.startup_warnings.push(warning@),
                ..old(self)@
            }),
    {
        self.startup_warnings.push(warning);
        assert(string_views(self.startup_warnings@) =~= string_views(
            old(self).startup_warnings@,
        ).push(warning@));
    }
}

impl<S: Copy> AudioState<S> {
    /// Takes in what the microphone delivered. Nothing is kept while no recording runs.
    pub fn capture(&mut self, chunk: &[S])
        ensures
            final(self)@ == captured(old(self)@, chunk@),
    {
        if !self.is_recording {
            return;
        }
        let ghost before = self.recorded_samples@;
        let mut i: usize = 0;
        while i < chunk.len()
            invariant
                i <= chunk@.len(),
                self@ == (StateView {
                    recorded_samples: before + chunk@.take(i as int),
                    ..old(self)@
                }),
            decreases chunk@.len() - i,
        {
            self.recorded_samples.push(chunk[i]);
            i += 1;
            assert(before + chunk@.take(i as int) =~= (before + chunk@.take(i - 1)).push(
                chunk@[i - 1],
            ));
        }
        assert(chunk@.take(chunk@.len() as int) =~= chunk@);
    }
}

/// Checks the model that a recording needs.
pub fn check_model(model_id: String, downloaded: bool) -> (r: StartRequest)
    ensures
        r@ == model_checked(model_id@, downloaded),
{
    if downloaded {
        return StartRequest::Ready(Route::Local { model_id });
    }
    let mut message = owned("Model ");
    message.append(model_id.as_str());
    message.append(" is not downloaded. Please download it first.");
    StartRequest::Refused(message)
}

/// One recording runs at a time, and one that has ended, in whatever way, does not keep
/// the next one from starting.
pub proof fn only_a_running_recording_blocks_the_next<S>(s: StateView<S>, sample_rate: u32)
    ensures
        start_of(started(s, sample_rate)) == StartView::Refused("Already recording"@),
        start_of(stopped(started(s, sample_rate))) == start_of(stopped(s)),
        !s.is_recording && start_of(s) !is Refused ==> start_of(
            stopped(started(s, sample_rate)),
        ) !is Refused,
{
}

/// A local transcription needs no key, and nothing is sent to a server.
pub proof fn local_transcription_stays_local<S>(s: StateView<S>)
    requires
        s.use_local_transcription,
    ensures
        start_of(s) !is Ready,
        forall|id: Seq<char>, downloaded: bool|
            #[trigger] model_checked(id, downloaded) matches StartView::Ready(route)
                ==> route is Local,
{
}

/// What a recording holds is what the microphone delivered since it started, in order,
/// and nothing that came after its end.
pub proof fn a_recording_is_what_was_delivered<S>(
    s: StateView<S>,
    sample_rate: u32,
    a: Seq<S>,
    b: Seq<S>,
    late: Seq<S>,
)
    ensures
        ({
            let running = captured(captured(started(cleared(s), sample_rate), a), b);
            &&& running.recorded_samples == a + b
            &&& captured(stopped(running), late) == stopped(running)
            &&& a.len() + b.len() > 0 ==> rate_to_save(stopped(running)) == Ok::<u32, Seq<char>>(
                sample_rate,
            )
        }),
{
    assert(Seq::<S>::empty() + a + b =~= a + b);
}

/// A server setting always names a server: white space around it is dropped, and an empty
/// one stands for the usual server.
pub proof fn a_server_is_always_named<S>(
    s: StateView<S>,
    use_server: bool,
    server_url: Seq<char>,
    use_https: bool,
    api_key: Option<Seq<char>>,
)
    ensures
        with_server(s, use_server, server_url, use_https, api_key).hyperwhisper_server_url.len()
            > 0,
        !lacks_key(api_key) ==> with_server(
            s,
            use_server,
            server_url,
            use_https,
            api_key,
        ).hyperwhisper_api_key == api_key,
{
    reveal_strlit("hyperwhisper.dev");
}

/// A recording that can start uses the settings as they were made: the key and the server
/// that were named, or the key of the device's trial where none was; or Deepgram, where the
/// server is not used.
pub proof fn a_recording_uses_the_settings<S>(
    s: StateView<S>,
    server_url: Seq<char>,
    use_https: bool,
    api_key: Option<Seq<char>>,
    trial_key: Seq<char>,
)
    requires
        !s.is_recording,
        !s.use_local_transcription,
    ensures
        ({
            let set = with_server(s, true, server_url, use_https, api_key);
            let start = start_of(
                if lacks_key(api_key) {
                    StateView { hyperwhisper_api_key: Some(trial_key), ..set }
                } else {
                    set
                },
            );
            start == StartView::Ready(
                RouteView::Hyperwhisper {
                    api_key: if lacks_key(api_key) {
                        trial_key
                    } else {
                        api_key->0
                    },
                    server_url: server_of(server_url),
                    use_https,
                },
            )
        }),
        s.api_key is Some ==> start_of(with_server(s, false, server_url, use_https, api_key))
            == StartView::Ready(RouteView::Deepgram { api_key: s.api_key->0 }),
{
}

/// The tick of the menu, the saved file, the windows and the state never disagree about the
/// debug line, and it is as it was after a restart.
pub proof fn the_debug_line_is_the_same_everywhere<S>(
    s: StateView<S>,
    enabled: bool,
    warnings: Seq<Seq<char>>,
)
    ensures
        with_debug(s, enabled).debug_stats == enabled,
        debug_switch(enabled).menu_checked == enabled,
        debug_switch(enabled).announced == enabled,
        initial::<S>(prefs_of(Some(debug_switch(enabled).saved)).debug_stats, warnings).debug_stats
            == enabled,
{
}

/// When a recording can start, who transcribes it, and why it cannot start otherwise: each
/// outcome with exactly the settings on which it comes.
pub proof fn each_start_has_its_reason<S>(
    s: StateView<S>,
    id: Seq<char>,
    key: Seq<char>,
    server_url: Seq<char>,
    use_https: bool,
)
    ensures
        start_of(s) == StartView::NeedsModel(id) <==> !s.is_recording && s.use_local_transcription
            && s.active_local_model_id == Some(id),
        start_of(s) == StartView::Ready(
            RouteView::Hyperwhisper { api_key: key, server_url, use_https },
        ) <==> {
            &&& !s.is_recording && !s.use_local_transcription && s.use_hyperwhisper_server
            &&& s.hyperwhisper_api_key == Some(key)
            &&& s.hyperwhisper_server_url == server_url
            &&& s.hyperwhisper_server_https == use_https
        },
        start_of(s) == StartView::Ready(RouteView::Deepgram { api_key: key }) <==> !s.is_recording
            && !s.use_local_transcription && !s.use_hyperwhisper_server && s.api_key == Some(key),
        start_of(s) != StartView::Ready(RouteView::Local { model_id: id }),
        start_of(s) is Refused <==> s.is_recording || (if s.use_local_transcription {
            s.active_local_model_id is None
        } else if s.use_hyperwhisper_server {
            s.hyperwhisper_api_key is None
        } else {
            s.api_key is None
        }),
        s.is_recording ==> start_of(s) == StartView::Refused("Already recording"@),
        !s.is_recording && s.use_local_transcription && s.active_local_model_id is None
            ==> start_of(s) == StartView::Refused(
            "No local model selected. Please select a model in settings."@,
        ),
        !s.is_recording && !s.use_local_transcription && s.use_hyperwhisper_server
            && s.hyperwhisper_api_key is None ==> start_of(s) == StartView::Refused(
            "Hyperwhisper API key not set"@,
        ),
        !s.is_recording && !s.use_local_transcription && !s.use_hyperwhisper_server
            && s.api_key is None ==> start_of(s) == StartView::Refused(
            "Deepgram API key not set"@,
        ),
{
}

/// A model that was downloaded is the one that is used; one that was not is named in the
/// refusal.
pub proof fn a_model_has_to_be_there(model_id: Seq<char>, downloaded: bool)
    ensures
        model_checked(model_id, downloaded) is Ready <==> downloaded,
        downloaded ==> model_checked(model_id, downloaded) == StartView::Ready(
            RouteView::Local { model_id },
        ),
        !downloaded ==> (model_checked(model_id, downloaded) matches StartView::Refused(message)
            && {
            &&& begins_with(message, "Model "@)
            &&& contains_text(message, model_id)
        }),
{
    let rest = " is not downloaded. Please download it first."@;
    a_text_holds_what_stands_in_it("Model "@, model_id, rest);
    a_text_holds_what_stands_in_it(Seq::empty(), "Model "@, model_id + rest);
    assert("Model "@ + (model_id + rest) =~= "Model "@ + model_id + rest);
}

/// Two states agree on every setting: they can differ only in the recording.
pub open spec fn same_settings<S>(a: StateView<S>, b: StateView<S>) -> bool {
    &&& same_server(a, b)
    &&& a.api_key == b.api_key
    &&& a.auto_type_transcription == b.auto_type_transcription
    &&& a.selected_device_id == b.selected_device_id
    &&& a.use_local_transcription == b.use_local_transcription
    &&& a.local_model_path == b.local_model_path
    &&& a.active_local_model_id == b.active_local_model_id
    &&& a.use_vad == b.use_vad
    &&& a.debug_stats == b.debug_stats
    &&& a.startup_warnings == b.startup_warnings
}

/// Two states agree on the server and its key.
pub open spec fn same_server<S>(a: StateView<S>, b: StateView<S>) -> bool {
    &&& a.use_hyperwhisper_server == b.use_hyperwhisper_server
    &&& a.hyperwhisper_server_url == b.hyperwhisper_server_url
    &&& a.hyperwhisper_server_https == b.hyperwhisper_server_https
    &&& a.hyperwhisper_api_key == b.hyperwhisper_api_key
}

/// Two states hold the same recording.
pub open spec fn same_recording<S>(a: StateView<S>, b: StateView<S>) -> bool {
    &&& a.is_recording == b.is_recording
    &&& a.recorded_samples == b.recorded_samples
    &&& a.sample_rate == b.sample_rate
}

/// A recording changes no setting: starting one notes that it runs and its rate, and keeps
/// what was recorded; ending one keeps what was recorded and its rate; clearing drops what was
/// recorded and nothing else. What the microphone delivers is appended while a recording
/// runs, and changes nothing otherwise.
pub proof fn a_recording_changes_no_setting<S>(s: StateView<S>, sample_rate: u32, chunk: Seq<S>)
    ensures
        same_settings(s, started(s, sample_rate)),
        started(s, sample_rate).is_recording,
        started(s, sample_rate).sample_rate == Some(sample_rate),
        started(s, sample_rate).recorded_samples == s.recorded_samples,
        same_settings(s, stopped(s)),
        !stopped(s).is_recording,
        stopped(s).sample_rate == s.sample_rate,
        stopped(s).recorded_samples == s.recorded_samples,
        same_settings(s, cleared(s)),
        cleared(s).is_recording == s.is_recording,
        cleared(s).sample_rate == s.sample_rate,
        cleared(s).recorded_samples.len() == 0,
        same_settings(s, captured(s, chunk)),
        captured(s, chunk).is_recording == s.is_recording,
        captured(s, chunk).sample_rate == s.sample_rate,
        s.is_recording ==> {
            let then = captured(s, chunk).recorded_samples;
            &&& then.len() == s.recorded_samples.len() + chunk.len()
            &&& then.take(s.recorded_samples.len() as int) == s.recorded_samples
            &&& then.skip(s.recorded_samples.len() as int) == chunk
        },
        !s.is_recording ==> captured(s, chunk) == s,
{
    let whole = s.recorded_samples + chunk;
    assert(whole.take(s.recorded_samples.len() as int) =~= s.recorded_samples);
    assert(whole.skip(s.recorded_samples.len() as int) =~= chunk);
}

/// A recording can be saved exactly where it holds something, at the rate that was noted when
/// it started, or at 48000 where none was.
pub proof fn a_recording_is_saved_at_its_rate<S>(s: StateView<S>, rate: u32)
    ensures
        rate_to_save(s) is Ok <==> s.recorded_samples.len() > 0,
        rate_to_save(s) is Err ==> rate_to_save(s) == Err::<u32, Seq<char>>(
            "No audio data recorded"@,
        ),
        s.recorded_samples.len() > 0 && s.sample_rate == Some(rate) ==> rate_to_save(s) == Ok::<
            u32,
            Seq<char>,
        >(rate),
        s.recorded_samples.len() > 0 && s.sample_rate is None ==> rate_to_save(s) == Ok::<
            u32,
            Seq<char>,
        >(48000),
{
}

/// Changing the server settings changes them alone. A key that is given is taken as it is; one
/// that is missing or blank leaves the key that was there where the server is used, until a
/// trial key comes, and takes it away where the server is not used.
pub proof fn server_settings_change_nothing_else<S>(
    s: StateView<S>,
    use_server: bool,
    server_url: Seq<char>,
    use_https: bool,
    api_key: Option<Seq<char>>,
)
    ensures
        ({
            let set = with_server(s, use_server, server_url, use_https, api_key);
            let back = StateView {
                use_hyperwhisper_server: s.use_hyperwhisper_server,
                hyperwhisper_server_url: s.hyperwhisper_server_url,
                hyperwhisper_server_https: s.hyperwhisper_server_https,
                hyperwhisper_api_key: s.hyperwhisper_api_key,
                ..set
            };
            &&& same_recording(s, set)
            &&& same_settings(s, back)
            &&& set.use_hyperwhisper_server == use_server
            &&& set.hyperwhisper_server_https == use_https
            &&& !use_server ==> set.hyperwhisper_api_key == api_key
            &&& use_server && lacks_key(api_key) ==> set.hyperwhisper_api_key
                == s.hyperwhisper_api_key
            &&& use_server && !lacks_key(api_key) ==> set.hyperwhisper_api_key == api_key
        }),
{
}

/// A server goes by its name without the white space around it; white space alone stands for
/// the usual server. A key is lacking exactly where there is none or it is white space alone.
pub proof fn white_space_around_a_setting_is_dropped<S>(
    s: StateView<S>,
    before: Seq<char>,
    name: Seq<char>,
    after: Seq<char>,
    use_https: bool,
    api_key: Option<Seq<char>>,
)
    requires
        forall|i: int| 0 <= i < before.len() ==> is_white(#[trigger] before[i]),
        forall|i: int| 0 <= i < after.len() ==> is_white(#[trigger] after[i]),
        name.len() > 0 ==> !is_white(name[0]) && !is_white(name.last()),
    ensures
        with_server(s, true, before + name + after, use_https, api_key).hyperwhisper_server_url
            == (if name.len() > 0 {
            name
        } else {
            "hyperwhisper.dev"@
        }),
        lacks_key(Some(before + name + after)) <==> name.len() == 0,
        lacks_key(None),
{
    white_space_around_a_text_is_dropped(before, name, after);
}

/// The settings with which the app starts: the usual server, over TLS and without a key yet;
/// nothing is typed, no model and no microphone is selected, voice detection is on, and
/// nothing is recorded.
pub proof fn the_app_starts_with_these_settings<S>(debug_stats: bool, warnings: Seq<Seq<char>>)
    ensures
        ({
            let s = initial::<S>(debug_stats, warnings);
            &&& !s.is_recording && s.recorded_samples.len() == 0 && s.sample_rate is None
            &&& s.use_hyperwhisper_server && s.hyperwhisper_server_https
            &&& s.hyperwhisper_server_url == "hyperwhisper.dev"@
            &&& s.api_key is None && s.hyperwhisper_api_key is None
            &&& !s.auto_type_transcription && !s.use_local_transcription
            &&& s.selected_device_id is None
            &&& s.local_model_path is None && s.active_local_model_id is None
            &&& s.use_vad
            &&& s.debug_stats == debug_stats
            &&& s.startup_warnings == warnings
            &&& start_of(s) == StartView::Refused("Hyperwhisper API key not set"@)
        }),
{
}

/// Switching the debug line changes nothing else. What was saved is read back as it was;
/// without a file that can be read it is off.
pub proof fn switching_the_debug_line_changes_nothing_else<S>(
    s: StateView<S>,
    enabled: bool,
    prefs: TrayPrefs,
)
    ensures
        same_recording(s, with_debug(s, enabled)),
        same_settings(s, StateView { debug_stats: s.debug_stats, ..with_debug(s, enabled) }),
        with_debug(with_debug(s, enabled), s.debug_stats) == s,
        prefs_of(Some(prefs)) == prefs,
        !prefs_of(None).debug_stats,
        debug_switch(enabled).saved.debug_stats == enabled,
{
}

} // verus!
