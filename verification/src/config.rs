//! Configuration sections, their defaults, and the data directory layout.

use vstd::prelude::*;
use crate::text::views;

verus! {

/// Current config schema version.
pub const CONFIG_VERSION: u32 = 1;

/// `Path::join`: an absolute component (one that starts with `/`) replaces
/// the base; a relative one is the component alone after an empty base,
/// otherwise it follows the base after a single `/`.
pub open spec fn path_join(base: Seq<char>, comp: Seq<char>) -> Seq<char> {
    if comp.len() > 0 && comp[0] == '/' {
        comp
    } else if base.len() == 0 {
        comp
    } else if base.last() == '/' {
        base + comp
    } else {
        base + seq!['/'] + comp
    }
}

/// Join a relative path component onto a base path.
pub fn join_path(base: &str, comp: &str) -> (r: String)
    ensures
        r@ == path_join(base@, comp@),
{
    let c = crate::text::to_chars(comp);
    if c.len() > 0 && c[0] == '/' {
        return comp.to_owned();
    }
    let mut r = base.to_owned();
    if base.is_empty() {
        return comp.to_owned();
    }
    let v = crate::text::to_chars(base);
    if v[v.len() - 1] != '/' {
        r.append("/");
        proof {
            reveal_strlit("/");
        }
    }
    r.append(comp);
    r
}

/// Name of the data directory inside the home directory.
pub open spec fn data_dir_in(home: Seq<char>) -> Seq<char> {
    path_join(home, ".gravai"@)
}

/// The user's home directory (`dirs::home_dir`), when it is known and is
/// valid UTF-8. It depends on the environment, so nothing is stated of it.
#[verifier::external_body]
fn home_dir() -> Option<String> {
    dirs::home_dir().and_then(|p| p.into_os_string().into_string().ok())
}

/// The data directory inside the home directory `home`.
pub fn data_dir_at(home: &str) -> (r: String)
    ensures
        r@ == data_dir_in(home@),
{
    join_path(home, ".gravai")
}

/// `~/.gravai`, or `None` when the home directory cannot be determined or
/// its path is not valid UTF-8 (the library's paths are text); see
/// [`data_dir_at`] for the path under a known home directory.
pub fn data_dir() -> (r: Option<String>)
    ensures
        r matches Some(p) ==> exists|h: Seq<char>| p@ == data_dir_in(h),
{
    match home_dir() {
        Some(h) => {
            let d = data_dir_at(h.as_str());
            assert(d@ == data_dir_in(h@));
            Some(d)
        },
        None => None,
    }
}

/// A file or directory directly inside the data directory.
pub open spec fn in_data_dir(p: Seq<char>, name: Seq<char>) -> bool {
    exists|h: Seq<char>| p == path_join(data_dir_in(h), name)
}

/// The entry `name` of the data directory under the home directory `home`.
pub fn data_file_at(home: &str, name: &str) -> (r: String)
    ensures
        r@ == path_join(data_dir_in(home@), name@),
{
    let d = data_dir_at(home);
    join_path(d.as_str(), name)
}

fn data_file(name: &str) -> (r: Option<String>)
    ensures
        r matches Some(p) ==> in_data_dir(p@, name@),
{
    match home_dir() {
        Some(h) => {
            let p = data_file_at(h.as_str(), name);
            assert(p@ == path_join(data_dir_in(h@), name@));
            Some(p)
        },
        None => None,
    }
}

/// `~/.gravai/config.json`.
pub fn config_path() -> (r: Option<String>)
    ensures
        r matches Some(p) ==> in_data_dir(p@, "config.json"@),
{
    data_file("config.json")
}

/// `~/.gravai/sessions`.
pub fn sessions_dir() -> (r: Option<String>)
    ensures
        r matches Some(p) ==> in_data_dir(p@, "sessions"@),
{
    data_file("sessions")
}

/// `~/.gravai/models`.
pub fn models_dir() -> (r: Option<String>)
    ensures
        r matches Some(p) ==> in_data_dir(p@, "models"@),
{
    data_file("models")
}

/// `~/.gravai/gravai.log`.
pub fn log_file_path() -> (r: Option<String>)
    ensures
        r matches Some(p) ==> in_data_dir(p@, "gravai.log"@),
{
    data_file("gravai.log")
}

#[derive(Debug, Clone)]
pub struct MicrophoneConfig {
    pub enabled: bool,
    /// -1 = system default
    pub device_index: i32,
}

impl Default for MicrophoneConfig {
    fn default() -> (r: Self)
        ensures
            r.enabled,
            r.device_index == -1,
    {
        MicrophoneConfig { enabled: true, device_index: -1 }
    }
}

#[derive(Debug, Clone)]
pub struct SystemAudioConfig {
    pub enabled: bool,
    pub method: String,
    pub device_index: i32,
    pub app_bundle_id: String,
}

impl Default for SystemAudioConfig {
    fn default() -> (r: Self)
        ensures
            r.enabled,
            r.method@ == "screencapturekit"@,
            r.device_index == -1,
            r.app_bundle_id@.len() == 0,
    {
        SystemAudioConfig {
            enabled: true,
            method: "screencapturekit".to_owned(),
            device_index: -1,
            app_bundle_id: String::new(),
        }
    }
}

#[derive(Debug, Clone)]
pub struct RecordingConfig {
    /// Whether to save audio files to disk.
    pub enabled: bool,
    /// Recording sample rate in Hz.
    pub sample_rate: u32,
    pub bit_depth: u16,
    /// 1 = mono, 2 = stereo.
    pub channels: u16,
    /// "wav", "aiff", "caf", "m4a-aac" or "m4a-alac".
    pub export_format: String,
    pub aac_bitrate_kbps: u32,
    /// Custom output folder (`None` = the sessions directory).
    pub output_folder: Option<String>,
}

impl Default for RecordingConfig {
    fn default() -> (r: Self)
        ensures
            r.enabled,
            r.sample_rate == 48_000,
            r.bit_depth == 24,
            r.channels == 2,
            r.export_format@ == "m4a-aac"@,
            r.aac_bitrate_kbps == 192,
            r.output_folder is None,
    {
        RecordingConfig {
            enabled: true,
            sample_rate: 48_000,
            bit_depth: 24,
            channels: 2,
            export_format: "m4a-aac".to_owned(),
            aac_bitrate_kbps: 192,
            output_folder: None,
        }
    }
}

#[derive(Debug, Clone)]
pub struct AudioConfig {
    pub microphone: MicrophoneConfig,
    pub system_audio: SystemAudioConfig,
    pub recording: RecordingConfig,
}

impl Default for AudioConfig {
    fn default() -> (r: Self)
        ensures
            r.microphone.enabled && r.microphone.device_index == -1,
            r.system_audio.enabled && r.system_audio.method@ == "screencapturekit"@,
            r.system_audio.device_index == -1 && r.system_audio.app_bundle_id@.len() == 0,
            r.recording.enabled && r.recording.sample_rate == 48_000,
            r.recording.bit_depth == 24 && r.recording.channels == 2,
            r.recording.export_format@ == "m4a-aac"@ && r.recording.aac_bitrate_kbps == 192,
            r.recording.output_folder is None,
    {
        AudioConfig {
            microphone: MicrophoneConfig::default(),
            system_audio: SystemAudioConfig::default(),
            recording: RecordingConfig::default(),
        }
    }
}

/// Phrases Whisper produces on silence or noise.
pub open spec fn default_hallucinations() -> Seq<Seq<char>> {
    seq![
        "thanks for watching"@,
        "thank you for watching"@,
        "please subscribe"@,
        "like and subscribe"@,
        "thanks for listening"@,
        "thank you for listening"@,
        "see you next time"@,
        "subtitles by"@,
        "subtitles"@,
        "the end"@,
        "silence"@,
        "music"@,
        "applause"@,
        "laughter"@,
    ]
}

/// Short phrases that are hallucinations when repeated.
pub open spec fn default_repeat_hallucinations() -> Seq<Seq<char>> {
    seq![
        "thank you"@,
        "thanks"@,
        "bye"@,
        "goodbye"@,
        "see you"@,
        "okay"@,
        "ok"@,
        "yes"@,
        "yeah"@,
        "no"@,
        "hmm"@,
    ]
}

#[derive(Debug, Clone)]
pub struct TranscriptionConfig {
    pub engine: String,
    pub model: String,
    pub language: String,
    pub hallucination_blocklist: Vec<String>,
    pub hallucination_repeat_blocklist: Vec<String>,
}

fn strings(items: &[&str]) -> (r: Vec<String>)
    ensures
        r@.len() == items@.len(),
        forall|i: int| 0 <= i < items@.len() ==> (#[trigger] r@[i])@ == items@[i]@,
{
    let mut r: Vec<String> = Vec::new();
    let mut i: usize = 0;
    while i < items.len()
        invariant
            i <= items@.len(),
            r@.len() == i,
            forall|k: int| 0 <= k < i ==> (#[trigger] r@[k])@ == items@[k]@,
        decreases items@.len() - i,
    {
        r.push(items[i].to_owned());
        i += 1;
    }
    r
}

impl Default for TranscriptionConfig {
    fn default() -> (r: Self)
        ensures
            r.engine@ == "whisper"@,
            r.model@ == "medium"@,
            r.language@ == "en"@,
            views(r.hallucination_blocklist@) == default_hallucinations(),
            views(r.hallucination_repeat_blocklist@) == default_repeat_hallucinations(),
    {
        let items = [
            "thanks for watching",
            "thank you for watching",
            "please subscribe",
            "like and subscribe",
            "thanks for listening",
            "thank you for listening",
            "see you next time",
            "subtitles by",
            "subtitles",
            "the end",
            "silence",
            "music",
            "applause",
            "laughter",
        ];
        let repeats = ["thank you", "thanks", "bye", "goodbye", "see you", "okay", "ok", "yes", "yeah", "no", "hmm"];
        let blocklist = strings(items.as_slice());
        let repeat_blocklist = strings(repeats.as_slice());
        assert(views(blocklist@) =~= default_hallucinations());
        assert(views(repeat_blocklist@) =~= default_repeat_hallucinations());
        TranscriptionConfig {
            engine: "whisper".to_owned(),
            model: "medium".to_owned(),
            language: "en".to_owned(),
            hallucination_blocklist: blocklist,
            hallucination_repeat_blocklist: repeat_blocklist,
        }
    }
}

#[derive(Debug, Clone)]
pub struct WebrtcVadConfig {
    pub aggressiveness: i32,
}

impl Default for WebrtcVadConfig {
    fn default() -> (r: Self)
        ensures
            r.aggressiveness == 3,
    {
        WebrtcVadConfig { aggressiveness: 3 }
    }
}

#[derive(Debug, Clone)]
pub struct LlmConfig {
    pub provider: String,
    pub base_url: String,
    pub model: String,
}

impl Default for LlmConfig {
    fn default() -> (r: Self)
        ensures
            r.provider@ == "ollama"@,
            r.base_url@ == "http://localhost:11434/v1"@,
            r.model@ == "gemma3:4b"@,
    {
        LlmConfig {
            provider: "ollama".to_owned(),
            base_url: "http://localhost:11434/v1".to_owned(),
            model: "gemma3:4b".to_owned(),
        }
    }
}

#[derive(Debug, Clone)]
pub struct DiarizationConfig {
    pub enabled: bool,
    pub max_speakers: u8,
    /// "energy" (no model needed) or "pyannote".
    pub model: String,
}

impl Default for DiarizationConfig {
    fn default() -> (r: Self)
        ensures
            !r.enabled,
            r.max_speakers == 10,
            r.model@ == "energy"@,
    {
        DiarizationConfig { enabled: false, max_speakers: 10, model: "energy".to_owned() }
    }
}

#[derive(Debug, Clone)]
pub struct MeetingDetectionConfig {
    pub enabled: bool,
    pub lead_time_seconds: u32,
    pub idle_timeout_seconds: u32,
    pub allowed_apps: Vec<String>,
}

impl Default for MeetingDetectionConfig {
    fn default() -> (r: Self)
        ensures
            r.enabled,
            r.lead_time_seconds == 0,
            r.idle_timeout_seconds == 30,
            r.allowed_apps@.len() == 0,
    {
        MeetingDetectionConfig {
            enabled: true,
            lead_time_seconds: 0,
            idle_timeout_seconds: 30,
            allowed_apps: Vec::new(),
        }
    }
}

#[derive(Debug, Clone)]
pub struct ExportConfig {
    /// Export the transcript when a session ends.
    pub auto_export_transcript: bool,
    /// Export the audio when a session ends.
    pub auto_export_audio: bool,
    pub transcript_folder: Option<String>,
    pub audio_folder: Option<String>,
    /// "markdown", "pdf" or "txt".
    pub transcript_format: String,
    /// Save the transcript while recording.
    pub realtime_save: bool,
}

impl Default for ExportConfig {
    fn default() -> (r: Self)
        ensures
            !r.auto_export_transcript,
            !r.auto_export_audio,
            r.transcript_folder is None,
            r.audio_folder is None,
            r.transcript_format@ == "markdown"@,
            r.realtime_save,
    {
        ExportConfig {
            auto_export_transcript: false,
            auto_export_audio: false,
            transcript_folder: None,
            audio_folder: None,
            transcript_format: "markdown".to_owned(),
            realtime_save: true,
        }
    }
}

#[derive(Debug, Clone)]
pub struct UpdatesConfig {
    /// Check for updates when the app launches.
    pub auto_check: bool,
}

impl Default for UpdatesConfig {
    fn default() -> (r: Self)
        ensures
            r.auto_check,
    {
        UpdatesConfig { auto_check: true }
    }
}

} // verus!
