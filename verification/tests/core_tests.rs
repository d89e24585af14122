use gravai::error::GravaiError;
use gravai::health::{
    check_audio_devices, check_platform, check_storage, check_transcription_model,
    run_preflight_checks,
};
use gravai::logs::{log_line, record_field, RingBufferLayer, MAX_LOG_LINES};
use gravai::models::required_downloads;
use gravai::session::{generate_session_id, session_id, ClockTime, Session, SessionState};
use gravai::storage::{chat_history_query, search_sessions_filtered, SqlParam};

#[test]
fn state_display() {
    assert_eq!(SessionState::Recording.as_str(), "recording");
    assert_eq!(SessionState::Idle.to_string(), "idle");
}

#[test]
fn session_state_transitions() {
    let mut session = Session::new("test-001".into(), "/tmp/sessions");
    assert_eq!(session.state(), SessionState::Idle);
    assert!(!session.is_active());

    session.set_state(SessionState::Recording);
    assert_eq!(session.state(), SessionState::Recording);
    assert!(session.is_active());

    session.set_state(SessionState::Paused);
    assert_eq!(session.state(), SessionState::Paused);
    assert!(session.is_active());

    session.set_state(SessionState::Stopped);
    assert_eq!(session.state(), SessionState::Stopped);
    assert!(!session.is_active());
    assert_eq!(session.session_dir, "/tmp/sessions/test-001");
}

#[test]
fn generate_id_format() {
    let id = generate_session_id();
    assert_eq!(id.len(), 15);
    assert!(id.contains('_'));
}

#[test]
fn session_ids_are_zero_padded() {
    let t = ClockTime { year: 2026, month: 4, day: 7, hour: 9, minute: 5, second: 3 };
    assert_eq!(session_id(&t), "20260407_090503");
    let t = ClockTime { year: 33, month: 12, day: 31, hour: 23, minute: 59, second: 59 };
    assert_eq!(session_id(&t), "00331231_235959");
}

#[test]
fn state_codes_round_trip() {
    for s in [SessionState::Idle, SessionState::Recording, SessionState::Paused, SessionState::Stopped] {
        assert_eq!(SessionState::from_u8(s.as_u8()), s);
    }
    assert_eq!(SessionState::from_u8(200), SessionState::Idle);
}

#[test]
fn error_messages() {
    assert_eq!(GravaiError::Model("x".into()).to_string(), "Model error: x");
    assert_eq!(GravaiError::NotFound("y".into()).to_string(), "Not found: y");
}

#[test]
fn preflight_overall_is_worst() {
    let ok = check_platform("macos", "aarch64");
    assert_eq!(ok.status, "ok");
    assert_eq!(ok.message, "macOS aarch64");
    let warn = check_platform("macos", "x86_64");
    assert_eq!(warn.status, "warn");
    let err = check_platform("linux", "x86_64");
    assert_eq!(err.message, "Unsupported OS: linux (requires macOS)");
    let storage = check_storage("/d", Ok(()), Err("denied".into()));
    assert_eq!(storage.message, "Cannot write to /d: denied");
    let audio = check_audio_devices(2);
    assert_eq!(audio.message, "2 input device(s) found");
    let model = check_transcription_model("base", "/m", None);
    assert_eq!(model.message, "Whisper base not found at /m/ggml-base.bin; will download on first use");
    let present = check_transcription_model("base", "/m", Some(142));
    assert_eq!(present.message, "Whisper base present (142 MB)");
    let r = run_preflight_checks(ok.clone(), check_storage("/d", Ok(()), Ok(())), audio.clone(), present.clone());
    assert_eq!(r.overall, "ok");
    let r = run_preflight_checks(ok.clone(), storage.clone(), audio.clone(), model.clone());
    assert_eq!(r.overall, "error");
    let r = run_preflight_checks(warn, check_storage("/d", Ok(()), Ok(())), audio, model);
    assert_eq!(r.overall, "warn");
    assert_eq!(check_audio_devices(0).status, "error");
}

#[test]
fn log_buffer_keeps_last_lines() {
    let mut logs = RingBufferLayer::new();
    for i in 0..(MAX_LOG_LINES + 5) {
        logs.push_line(format!("line {i}"));
    }
    let recent = logs.recent_logs();
    assert_eq!(recent.len(), MAX_LOG_LINES);
    assert_eq!(recent[0], "line 5");
    assert_eq!(recent[MAX_LOG_LINES - 1], format!("line {}", MAX_LOG_LINES + 4));
    logs.clear_logs();
    assert!(logs.recent_logs().is_empty());
    assert_eq!(log_line("10:00:00", "INFO", "hi"), "[10:00:00] INFO hi");
    let mut m = String::new();
    record_field(&mut m, "a", "1");
    record_field(&mut m, "message", " done");
    record_field(&mut m, "b", "2");
    assert_eq!(m, "a=1 done b=2");
}

#[test]
fn session_search_sql() {
    let (sql, params) = search_sessions_filtered(Some("2026-01-01"), None, Some("Zoom"));
    assert_eq!(
        sql,
        "SELECT id, started_at, ended_at, duration_seconds, title, meeting_app, state FROM sessions WHERE 1=1 AND started_at >= ? AND meeting_app = ? ORDER BY started_at DESC"
    );
    assert_eq!(params.len(), 2);
    assert!(matches!(&params[1], SqlParam::Text(s) if s == "Zoom"));
    let (sql, params) = chat_history_query(None, 20);
    assert!(sql.ends_with("WHERE session_id IS NULL ORDER BY id DESC LIMIT ?1"));
    assert!(matches!(params.as_slice(), [SqlParam::Int(20)]));
    let (_, params) = chat_history_query(Some("s1"), 5);
    assert_eq!(params.len(), 2);
}

#[test]
fn model_downloads() {
    let d = required_downloads("/m", "base", "webrtc");
    assert_eq!(d.len(), 1);
    assert_eq!(d[0].path, "/m/ggml-base.bin");
    assert_eq!(d[0].url, "https://huggingface.co/ggerganov/whisper.cpp/resolve/main/ggml-base.bin");
    assert_eq!(d[0].label, "Whisper base");
    let d = required_downloads("/m", "base", "silero");
    assert_eq!(d.len(), 2);
    assert_eq!(d[1].path, "/m/silero_vad.onnx");
}
