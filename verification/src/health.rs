//! Startup health checks: each check's verdict from what was observed, and
//! the overall verdict of a report.

use vstd::prelude::*;

use crate::config::path_join;
use crate::text::{decimal, push_decimal, str_eq};
use crate::transcription::{whisper_model_file, whisper_model_file_name};

verus! {

/// The outcome of one check: its name, "ok", "warn" or "error", and a
/// message.
#[derive(Debug, Clone)]
pub struct HealthCheck {
    pub name: String,
    pub status: String,
    pub message: String,
}

/// All checks and the worst of their statuses.
#[derive(Debug, Clone)]
pub struct HealthReport {
    pub checks: Vec<HealthCheck>,
    pub overall: String,
}

pub open spec fn check_view(c: HealthCheck) -> (Seq<char>, Seq<char>, Seq<char>) {
    (c.name@, c.status@, c.message@)
}

/// "error" when some check failed, else "warn" when some check warned,
/// else "ok".
pub open spec fn overall_of(checks: Seq<HealthCheck>) -> Seq<char> {
    if exists|i: int| 0 <= i < checks.len() && checks[i].status@ == "error"@ {
        "error"@
    } else if exists|i: int| 0 <= i < checks.len() && checks[i].status@ == "warn"@ {
        "warn"@
    } else {
        "ok"@
    }
}

fn any_status(checks: &Vec<HealthCheck>, status: &str) -> (r: bool)
    ensures
        r == exists|i: int| 0 <= i < checks@.len() && checks@[i].status@ == status@,
{
    let mut i: usize = 0;
    while i < checks.len()
        invariant
            i <= checks@.len(),
            forall|k: int| 0 <= k < i ==> checks@[k].status@ != status@,
        decreases checks@.len() - i,
    {
        if str_eq(checks[i].status.as_str(), status) {
            return true;
        }
        i += 1;
    }
    false
}

fn check(name: &str, status: &str, message: String) -> (r: HealthCheck)
    ensures
        r.name@ == name@,
        r.status@ == status@,
        r.message@ == message@,
{
    HealthCheck { name: name.to_owned(), status: status.to_owned(), message }
}

/// The report of the platform, storage, audio device and transcription
/// model checks, in that order, with their overall status.
pub fn run_preflight_checks(platform: HealthCheck, storage: HealthCheck, audio: HealthCheck, model: HealthCheck) -> (r: HealthReport)
    ensures
        r.checks@ == seq![platform, storage, audio, model],
        r.overall@ == overall_of(r.checks@),
{
    let checks = vec![platform, storage, audio, model];
    let overall = if any_status(&checks, "error") {
        "error".to_owned()
    } else if any_status(&checks, "warn") {
        "warn".to_owned()
    } else {
        "ok".to_owned()
    };
    HealthReport { checks, overall }
}

pub open spec fn platform_check_of(os: Seq<char>, arch: Seq<char>) -> (Seq<char>, Seq<char>, Seq<char>) {
    if os != "macos"@ {
        ("platform"@, "error"@, "Unsupported OS: "@ + os + " (requires macOS)"@)
    } else if arch != "aarch64"@ {
        (
            "platform"@,
            "warn"@,
            "Running on "@ + arch
                + "; Apple Silicon (aarch64) recommended for best performance"@,
        )
    } else {
        ("platform"@, "ok"@, "macOS "@ + arch)
    }
}

/// The platform check for the operating system and CPU architecture the
/// app runs on: macOS is required, Apple Silicon recommended.
pub fn check_platform(os: &str, arch: &str) -> (r: HealthCheck)
    ensures
        check_view(r) == platform_check_of(os@, arch@),
{
    if !str_eq(os, "macos") {
        let mut m = "Unsupported OS: ".to_owned();
        m.append(os);
        m.append(" (requires macOS)");
        return check("platform", "error", m);
    }
    if !str_eq(arch, "aarch64") {
        let mut m = "Running on ".to_owned();
        m.append(arch);
        m.append("; Apple Silicon (aarch64) recommended for best performance");
        return check("platform", "warn", m);
    }
    let mut m = "macOS ".to_owned();
    m.append(arch);
    check("platform", "ok", m)
}

pub open spec fn storage_check_of(dir: Seq<char>, created: Result<(), Seq<char>>, written: Result<(), Seq<char>>) -> (Seq<char>, Seq<char>, Seq<char>) {
    match created {
        Err(e) => ("storage"@, "error"@, "Cannot create "@ + dir + ": "@ + e),
        Ok(_) => match written {
            Err(e) => ("storage"@, "error"@, "Cannot write to "@ + dir + ": "@ + e),
            Ok(_) => ("storage"@, "ok"@, "Data dir writable: "@ + dir),
        },
    }
}

pub open spec fn result_text(r: Result<(), String>) -> Result<(), Seq<char>> {
    match r {
        Ok(_) => Ok(()),
        Err(e) => Err(e@),
    }
}

/// The storage check, from the outcome of creating the data directory
/// `dir` and of writing a test file in it (each error as its message).
pub fn check_storage(dir: &str, created: Result<(), String>, written: Result<(), String>) -> (r: HealthCheck)
    ensures
        check_view(r) == storage_check_of(dir@, result_text(created), result_text(written)),
{
    match created {
        Err(e) => {
            let mut m = "Cannot create ".to_owned();
            m.append(dir);
            m.append(": ");
            m.append(e.as_str());
            check("storage", "error", m)
        },
        Ok(_) => match written {
            Err(e) => {
                let mut m = "Cannot write to ".to_owned();
                m.append(dir);
                m.append(": ");
                m.append(e.as_str());
                check("storage", "error", m)
            },
            Ok(_) => {
                let mut m = "Data dir writable: ".to_owned();
                m.append(dir);
                check("storage", "ok", m)
            },
        },
    }
}

pub open spec fn audio_check_of(device_count: nat) -> (Seq<char>, Seq<char>, Seq<char>) {
    if device_count == 0 {
        ("audio_devices"@, "error"@, "No audio input devices found"@)
    } else {
        ("audio_devices"@, "ok"@, decimal(device_count) + " input device(s) found"@)
    }
}

/// The audio check, from the number of audio input devices.
pub fn check_audio_devices(device_count: usize) -> (r: HealthCheck)
    ensures
        check_view(r) == audio_check_of(device_count as nat),
{
    if device_count == 0 {
        check("audio_devices", "error", "No audio input devices found".to_owned())
    } else {
        let mut m = String::new();
        push_decimal(&mut m, device_count as u64);
        m.append(" input device(s) found");
        check("audio_devices", "ok", m)
    }
}

pub open spec fn model_check_of(model: Seq<char>, models_dir: Seq<char>, present_mb: Option<nat>) -> (Seq<char>, Seq<char>, Seq<char>) {
    match present_mb {
        Some(mb) => (
            "transcription_model"@,
            "ok"@,
            "Whisper "@ + model + " present ("@ + decimal(mb) + " MB)"@,
        ),
        None => (
            "transcription_model"@,
            "warn"@,
            "Whisper "@ + model + " not found at "@ + path_join(
                models_dir,
                whisper_model_file_name(model),
            ) + "; will download on first use"@,
        ),
    }
}

/// The transcription model check for `model` in `models_dir`: `present_mb`
/// is the model file's size in whole megabytes when the file exists.
pub fn check_transcription_model(model: &str, models_dir: &str, present_mb: Option<u64>) -> (r: HealthCheck)
    ensures
        check_view(r) == model_check_of(
            model@,
            models_dir@,
            match present_mb {
                Some(mb) => Some(mb as nat),
                None => None,
            },
        ),
{
    match present_mb {
        Some(mb) => {
            let mut m = "Whisper ".to_owned();
            m.append(model);
            m.append(" present (");
            push_decimal(&mut m, mb);
            m.append(" MB)");
            check("transcription_model", "ok", m)
        },
        None => {
            let file = whisper_model_file(model);
            let path = crate::config::join_path(models_dir, file.as_str());
            let mut m = "Whisper ".to_owned();
            m.append(model);
            m.append(" not found at ");
            m.append(path.as_str());
            m.append("; will download on first use");
            check("transcription_model", "warn", m)
        },
    }
}

/// The overall status is the worst one: "error" exactly when some check
/// failed, "warn" exactly when none failed and some warned, "ok" exactly
/// when neither.
pub proof fn lemma_overall_is_worst(checks: Seq<HealthCheck>)
    ensures
        (overall_of(checks) == "error"@) == (exists|i: int|
            0 <= i < checks.len() && checks[i].status@ == "error"@),
        (overall_of(checks) == "warn"@) == (!(exists|i: int|
            0 <= i < checks.len() && checks[i].status@ == "error"@) && (exists|i: int|
            0 <= i < checks.len() && checks[i].status@ == "warn"@)),
        (overall_of(checks) == "ok"@) == (!(exists|i: int|
            0 <= i < checks.len() && checks[i].status@ == "error"@) && !(exists|i: int|
            0 <= i < checks.len() && checks[i].status@ == "warn"@)),
{
    reveal_strlit("error");
    reveal_strlit("warn");
    reveal_strlit("ok");
    assert("error"@.len() == 5 && "warn"@.len() == 4 && "ok"@.len() == 2);
}

} // verus!
