use gravai::emotions::{emotion_label, EMOTION_COUNT};
use gravai::segmentation::{diarization_windows, segmentation_windows, turns_from_labels};
use gravai::chat::{build_context, chat_response, prior_start, user_content, ContextUtterance};
use gravai::config::{DiarizationConfig, TranscriptionConfig};
use gravai::correction::parse_correction_response;
use gravai::diarization::{EnergyDiarizer, SpeakerRegistry};
use gravai::embeddings::{embedding_dim, simple_hash, uses_neural_embedder, BagOfWordsEmbedder};
use gravai::local_engine::{
    collect_uqff_shards, expected_hf_cache_bytes, load_plan, model_file, resolve_model_source,
    shard_index, typical_eta_seconds, validate_model, LlmBackend, LoadPlan, ModelSource,
};
use gravai::pipeline::{dominant_speaker, utterance_text, GateAction, SpeechGate};
use gravai::summarization::{
    first_sentences, parse_summary_response, summary_candidates, truncate_transcript, ActionItem,
    MeetingSummary, TRUNCATION_MARKER,
};
use gravai::transcription::{
    check_whisper_model, normalize_text, HallucinationFilter, HttpTranscriptionConfig,
    HttpTranscriptionProvider,
};

fn strings(v: &serde_json::Value) -> Option<Vec<String>> {
    v.as_array()?
        .iter()
        .map(|x| x.as_str().map(|s| s.to_string()))
        .collect()
}

/// Reads a candidate the way a JSON deserializer of the summary would.
fn parse_candidate(s: &str) -> Option<MeetingSummary> {
    let v: serde_json::Value = serde_json::from_str(s).ok()?;
    let o = v.as_object()?;
    let items = o.get("action_items")?.as_array()?;
    let mut action_items = Vec::new();
    for it in items {
        let io = it.as_object()?;
        let description = io.get("description")?.as_str()?.to_string();
        let owner = match io.get("owner") {
            None | Some(serde_json::Value::Null) => None,
            Some(x) => Some(x.as_str()?.to_string()),
        };
        action_items.push(ActionItem { description, owner });
    }
    Some(MeetingSummary {
        tldr: o.get("tldr")?.as_str()?.to_string(),
        key_decisions: strings(o.get("key_decisions")?)?,
        action_items,
        open_questions: strings(o.get("open_questions")?)?,
    })
}

fn summarize(r: &str) -> MeetingSummary {
    let parsed = summary_candidates(r)
        .iter()
        .map(|c| parse_candidate(c))
        .collect();
    parse_summary_response(r, parsed)
}

#[test]
fn parses_clean_json() {
    let r = r#"{"tldr":"hi","key_decisions":[],"action_items":[],"open_questions":[]}"#;
    let s = summarize(r);
    assert_eq!(s.tldr, "hi");
}

#[test]
fn parses_fenced_json() {
    let r = "```json\n{\"tldr\":\"hi\",\"key_decisions\":[],\"action_items\":[],\"open_questions\":[]}\n```";
    let s = summarize(r);
    assert_eq!(s.tldr, "hi");
}

#[test]
fn parses_json_with_prose_preamble() {
    let r = "Sure! Here's the summary:\n{\"tldr\":\"hi\",\"key_decisions\":[\"x\"],\"action_items\":[],\"open_questions\":[]}\nLet me know if you need anything else.";
    let s = summarize(r);
    assert_eq!(s.tldr, "hi");
    assert_eq!(s.key_decisions, vec!["x"]);
}

#[test]
fn falls_back_to_first_sentences_when_no_json() {
    let r = "First sentence here. Second one. Third! Fourth one is too long.";
    let s = summarize(r);
    assert!(s.tldr.starts_with("First sentence here."));
    assert!(!s.tldr.contains("Fourth"));
}

#[test]
fn handles_braces_inside_strings() {
    let r = r#"{"tldr":"a {fake} brace","key_decisions":[],"action_items":[],"open_questions":[]}"#;
    let s = summarize(r);
    assert_eq!(s.tldr, "a {fake} brace");
}

#[test]
fn truncate_passes_through_short_input() {
    let s = "short transcript";
    assert_eq!(truncate_transcript(s, 1024), s);
}

#[test]
fn truncate_keeps_head_and_tail_with_marker() {
    let line = "[00:00:01] mic: hello there this is a sample line\n";
    let big: String = line.repeat(2000);
    let cap = 4_000;
    let out = truncate_transcript(&big, cap);
    assert!(out.len() <= cap + TRUNCATION_MARKER.len());
    assert!(out.contains(TRUNCATION_MARKER.trim()));
    assert!(out.starts_with("[00:00:01] mic:"));
    assert!(out.trim_end().ends_with("sample line"));
}

#[test]
fn truncate_respects_utf8_boundaries() {
    let head: String = "ééé\n".repeat(500);
    let tail: String = "ààà\n".repeat(500);
    let big = format!("{head}{tail}");
    let out = truncate_transcript(&big, 1_500);
    assert!(out.contains(TRUNCATION_MARKER.trim()));
}

#[test]
fn first_sentences_counts_terminators() {
    assert_eq!(first_sentences("  One. Two? Three! Four.", 3), "One. Two? Three!");
    assert_eq!(first_sentences("no end", 3), "no end");
}

#[test]
fn correction_response_lines_by_id() {
    let m = parse_correction_response("[3] Hello there\nnoise\n[12]  Fixed text \n[x] bad");
    assert_eq!(m.get(&3).map(|s| s.as_str()), Some("Hello there"));
    assert_eq!(m.get(&12).map(|s| s.as_str()), Some("Fixed text"));
    assert_eq!(m.len(), 2);
}

#[test]
fn hallucination_detection() {
    let config = TranscriptionConfig::default();
    let blocklist: Vec<String> = config
        .hallucination_blocklist
        .iter()
        .map(|s| s.to_lowercase())
        .collect();

    let normalized = normalize_text("  Thanks for watching!  ");
    assert!(blocklist.iter().any(|h| normalized == *h));

    let normalized = normalize_text("Hello world");
    assert!(!blocklist.iter().any(|h| normalized == *h));
}

#[test]
fn hallucination_filter_uses_config_lists() {
    let filter = HallucinationFilter::new(&TranscriptionConfig::default());
    assert!(filter.is_hallucination("...Thanks for watching!!"));
    assert!(!filter.is_hallucination("thanks for the update"));
    assert!(filter.is_repeat_hallucination(" OK. "));
    assert_eq!(filter.accept("  Subtitles  "), None);
    assert_eq!(filter.accept("   "), None);
    assert_eq!(filter.accept("  real words ").as_deref(), Some("real words"));
}

#[test]
fn whisper_model_checks() {
    assert!(check_whisper_model("base", true, 2_000_000).is_ok());
    match check_whisper_model("base", false, 0) {
        Err(gravai::error::GravaiError::Model(m)) => assert_eq!(
            m,
            "Whisper 'base' model not found. Go to Settings → Models to download it."
        ),
        _ => panic!("expected a model error"),
    }
    match check_whisper_model("tiny", true, 1234) {
        Err(gravai::error::GravaiError::Model(m)) => assert_eq!(
            m,
            "Whisper 'tiny' model appears corrupted (1234 bytes). Delete it in Settings → Models and re-download."
        ),
        _ => panic!("expected a model error"),
    }
}

#[test]
fn http_provider_is_a_stub() {
    let c = HttpTranscriptionConfig::default();
    assert_eq!(c.base_url, "http://localhost:9000");
    assert_eq!(c.language.as_deref(), Some("en"));
    assert_eq!(c.timeout_seconds, 30);
    let p = HttpTranscriptionProvider::new(c);
    assert_eq!(p.name(), "http");
    assert!(matches!(
        p.transcribe_error(),
        gravai::error::GravaiError::Provider(_)
    ));
}

#[test]
fn speaker_registry_assign_and_resolve() {
    let mut r = SpeakerRegistry::new();
    assert_eq!(r.get_name("Speaker 1"), None);
    assert_eq!(r.resolve("Speaker 1"), "Speaker 1");
    r.assign_name("Speaker 1", "Alice");
    r.assign_name("Speaker 2", "Bob");
    r.assign_name("Speaker 1", "Carol");
    assert_eq!(r.get_name("Speaker 1"), Some("Carol"));
    assert_eq!(r.resolve("Speaker 2"), "Bob");
    assert_eq!(r.resolve("Speaker 3"), "Speaker 3");
}

#[test]
fn energy_diarizer_turns() {
    let d = EnergyDiarizer::new(&DiarizationConfig {
        enabled: true,
        max_speakers: 2,
        model: "energy".into(),
    });
    assert_eq!(d.name(), "energy");
    // 4 windows of 8000 samples (2 s), speaker changes at windows 1 and 3.
    let turns = d.segment_turns(&[false, true, false, true], 32000);
    let v: Vec<(u64, u64, String)> = turns
        .into_iter()
        .map(|t| (t.start_ms, t.end_ms, t.speaker_id))
        .collect();
    assert_eq!(
        v,
        vec![
            (0, 500, "Speaker 1".to_string()),
            (500, 1500, "Speaker 2".to_string()),
            (1500, 2000, "Speaker 1".to_string()),
        ]
    );
    let turns = d.segment_turns(&[], 0);
    assert!(turns.is_empty());
}

#[test]
fn energy_turns_cover_the_recording() {
    let d = EnergyDiarizer::new(&DiarizationConfig {
        enabled: true,
        max_speakers: 3,
        model: "energy".into(),
    });
    // 24001 samples: three full windows and one of a single sample; the
    // recording lasts 1500 ms, and the change at the last window falls there.
    let turns = d.segment_turns(&[false, true, true, true], 24_001);
    let v: Vec<(u64, u64)> = turns.iter().map(|t| (t.start_ms, t.end_ms)).collect();
    assert_eq!(v, vec![(0, 500), (500, 1000), (1000, 1500)]);
    for w in v.windows(2) {
        assert_eq!(w[0].1, w[1].0);
    }
    assert!(d.segment_turns(&[false], 10).is_empty());
}

#[test]
fn bag_of_words_features() {
    let e = BagOfWordsEmbedder::new();
    assert_eq!(e.dimension(), 384);
    assert_eq!(e.name(), "bag-of-words");
    let f = e.features("Hi, hello WORLD! ab");
    assert_eq!(f.len(), 2);
    let h = simple_hash("hello");
    assert_eq!(f[0], ((h % 384) as usize, (h.wrapping_mul(31) % 384) as usize));
    assert_eq!(simple_hash(""), 5381);
    assert_eq!(simple_hash("a"), 5381 * 33 + 97);
}

#[test]
fn embedding_model_table() {
    assert_eq!(embedding_dim("bge-m3"), 1024);
    assert_eq!(embedding_dim("gemma-embed"), 768);
    assert_eq!(embedding_dim("other"), 384);
    assert!(uses_neural_embedder("all-minilm"));
    assert!(!uses_neural_embedder("bag"));
}

#[test]
fn model_sources() {
    match resolve_model_source("gemma-4-e2b", "/m/llm", false) {
        Ok(ModelSource::HfIsq { hf_repo }) => assert_eq!(hf_repo, "google/gemma-4-E2B-it"),
        _ => panic!("expected HF source"),
    }
    match resolve_model_source("qwen3-4b", "/m/llm", true) {
        Ok(ModelSource::Gguf { filename }) => assert_eq!(filename, "Qwen3-4B-Q4_K_M.gguf"),
        _ => panic!("expected GGUF source"),
    }
    assert_eq!(
        validate_model("qwen3-4b", "/m/llm", false).unwrap_err(),
        "LLM model file not found: /m/llm/Qwen3-4B-Q4_K_M.gguf. Download it first via Settings → Models."
    );
    assert_eq!(
        validate_model("mine", "/m/llm", false).unwrap_err(),
        "Unknown LLM model: mine. Download it first via Settings → Models."
    );
    assert_eq!(model_file("mine").as_deref(), Some("mine.gguf"));
    assert_eq!(model_file("mine.gguf").as_deref(), Some("mine.gguf"));
    assert_eq!(model_file("gemma-4-e4b"), None);
    assert_eq!(expected_hf_cache_bytes("gemma-4-e4b"), Some(15_500_000_000));
    assert_eq!(typical_eta_seconds(true, "gemma-4-e4b"), 360);
    assert_eq!(typical_eta_seconds(true, "gemma-4-e2b"), 240);
    assert_eq!(typical_eta_seconds(false, "gemma-4-e4b"), 50);
}

#[test]
fn uqff_shards_in_index_order() {
    assert_eq!(shard_index("m-12.uqff", "m"), Some(12));
    assert_eq!(shard_index("m-x.uqff", "m"), None);
    assert_eq!(shard_index("n-1.uqff", "m"), None);
    let names: Vec<String> = ["m-10.uqff", "other", "m-2.uqff", "m-+1.uqff", "m-.uqff"]
        .iter()
        .map(|s| s.to_string())
        .collect();
    assert_eq!(
        collect_uqff_shards(&names, "m"),
        vec!["m-+1.uqff", "m-2.uqff", "m-10.uqff"]
    );
}

#[test]
fn llm_backends_and_plans() {
    match LlmBackend::new("api", "", "", false, "http://x", "m", Some("")) {
        Ok(LlmBackend::Api { api_key, .. }) => assert_eq!(api_key, None),
        _ => panic!("expected api backend"),
    }
    assert_eq!(
        LlmBackend::new("bogus", "", "", false, "", "", None).unwrap_err(),
        "Unknown LLM provider: 'bogus'. Use 'local' or 'api'."
    );
    assert!(matches!(load_plan(Some("a"), "a", true, 0), LoadPlan::Reuse));
    match load_plan(Some("a"), "gemma-4-e4b", true, 0) {
        LoadPlan::Load { first_run, eta_seconds, status, message } => {
            assert!(first_run);
            assert_eq!(eta_seconds, 360);
            assert_eq!(status, "first_run");
            assert!(message.is_some());
        }
        LoadPlan::Reuse => panic!("expected a load"),
    }
}

fn utt(i: i64, text: &str, speaker: Option<&str>) -> ContextUtterance {
    ContextUtterance {
        id: i,
        session_id: "s1".into(),
        timestamp: "t".into(),
        source: "mic".into(),
        speaker: speaker.map(|s| s.to_string()),
        text: text.into(),
    }
}

#[test]
fn chat_context_and_citations() {
    let us = vec![utt(7, "hello", Some("Ann")), utt(8, "bye", None)];
    let ctx = build_context(&us);
    assert_eq!(ctx.text, "[0] [t] Ann: hello\n[1] [t] mic: bye\n");
    assert_eq!(ctx.citations.len(), 2);
    let r = chat_response("As said in [1].".to_string(), ctx.citations);
    assert_eq!(r.citations.len(), 1);
    assert_eq!(r.citations[0].utterance_id, 8);
    assert_eq!(user_content("Q?", ""), "Q?");
    assert_eq!(user_content("Q?", "C"), "Transcript context:\nC\nQuestion: Q?");
    assert_eq!(prior_start(20), 8);
    assert_eq!(prior_start(3), 0);
}

#[test]
fn chat_context_stops_at_budget() {
    let long = "x".repeat(11_990);
    let us = vec![utt(1, "short", None), utt(2, &long, None)];
    let ctx = build_context(&us);
    assert_eq!(ctx.citations.len(), 1);
    assert!(ctx.text.len() <= 12_000);
}

#[test]
fn speech_gate_decisions() {
    let mut g = SpeechGate::new(100, 50, 1000);
    assert_eq!(g.on_chunk(30, true), GateAction::Append);
    assert_eq!(g.on_chunk(60, false), GateAction::Wait);
    assert_eq!(g.on_chunk(60, false), GateAction::Discard);
    assert_eq!(g.on_chunk(80, true), GateAction::Append);
    assert_eq!(g.on_chunk(120, false), GateAction::Transcribe);
    assert_eq!(g.on_chunk(999, true), GateAction::Append);
    assert!(g.flush());
    assert_eq!(g.on_chunk(1, true), GateAction::AppendAndTranscribe);
    assert!(!g.flush());
}

#[test]
fn utterance_text_joins_and_drops_repeats() {
    let t = vec![" Hello".to_string(), "world ".to_string()];
    assert_eq!(utterance_text(&t, None).as_deref(), Some("Hello world"));
    assert_eq!(utterance_text(&t, Some("hello WORLD")), None);
    assert_eq!(utterance_text(&vec!["  ".to_string()], None), None);
}

#[test]
fn dominant_speaker_by_coverage() {
    let turns = vec![
        ("A".to_string(), 0u64, 100u64),
        ("B".to_string(), 100, 250),
        ("A".to_string(), 250, 320),
    ];
    assert_eq!(dominant_speaker(&turns).as_deref(), Some("A"));
    assert_eq!(dominant_speaker(&Vec::new()), None);
}

#[test]
fn truncation_fits_the_budget() {
    let big: String = "line of transcript text\n".repeat(500);
    for cap in [100usize, 1_000, 5_000] {
        let out = truncate_transcript(&big, cap);
        assert!(out.len() <= cap);
        let marker_at = out.find(TRUNCATION_MARKER).unwrap();
        assert!(big.starts_with(&out[..marker_at]));
        assert!(big.ends_with(&out[marker_at + TRUNCATION_MARKER.len()..]));
    }
    assert_eq!(truncate_transcript("short", 100), "short");
    assert_eq!(truncate_transcript("short", usize::MAX), "short");
}

#[test]
fn segmentation_windows_overlap_by_half() {
    assert_eq!(segmentation_windows(0), vec![]);
    assert_eq!(segmentation_windows(100_000), vec![(0, 100_000)]);
    assert_eq!(
        segmentation_windows(300_000),
        vec![(0, 160_000), (80_000, 240_000), (160_000, 300_000)]
    );
    assert_eq!(segmentation_windows(160_000), vec![(0, 160_000)]);
}

#[test]
fn audio_under_half_a_second_is_not_segmented() {
    assert_eq!(diarization_windows(0), vec![]);
    assert_eq!(diarization_windows(7_999), vec![]);
    assert_eq!(diarization_windows(8_000), vec![(0, 8_000)]);
    assert_eq!(diarization_windows(200_000), vec![(0, 160_000), (80_000, 200_000)]);
}

#[test]
fn turns_from_dominant_speakers() {
    // 2 s at 16 kHz: speaker 0 for 1 s, speaker 1 for 0.25 s, then 0 again.
    let mut labels: Vec<Option<usize>> = vec![Some(0); 16_000];
    labels.extend(vec![Some(1); 4_000]);
    labels.extend(vec![Some(0); 12_000]);
    let turns = turns_from_labels(&labels);
    let got: Vec<(u64, u64, &str)> = turns
        .iter()
        .map(|t| (t.start_ms, t.end_ms, t.speaker_id.as_str()))
        .collect();
    // The 250 ms turn of speaker 2 is too short to keep; its time goes to
    // the next turn.
    assert_eq!(got, vec![(0, 1000, "Speaker 1"), (1250, 2000, "Speaker 1")]);
    // Samples no window covered do not change the speaker.
    let labels = vec![None, Some(2), None, Some(2)];
    let turns = turns_from_labels(&labels);
    assert_eq!(turns.len(), 0);
    assert!(turns_from_labels(&[]).is_empty());
}

#[test]
fn emotion_labels_by_output_index() {
    assert_eq!(emotion_label(0), "admiration");
    assert_eq!(emotion_label(17), "joy");
    assert_eq!(emotion_label(27), "neutral");
    assert_eq!(emotion_label(28), "unknown");
    assert_eq!(EMOTION_COUNT, 28);
}
