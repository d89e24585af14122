use gravai::automations::{
    builtin_automations, AutomationAction, AutomationStore, AutomationTrigger,
    CURRENT_DEFAULTS_VERSION,
};
use gravai::config::{DiarizationConfig, MeetingDetectionConfig, TranscriptionConfig};
use gravai::presets::{builtin_presets, PresetStore};
use gravai::profiles::{builtin_profiles, ProfileStore};
use gravai::shortcuts::{default_shortcuts, ShortcutStore};

#[test]
fn auto_stop_builtins_default_on() {
    let builtins = builtin_automations();
    for id in ["zoom-auto-stop", "silence-auto-stop"] {
        let a = builtins
            .iter()
            .find(|a| a.id == id)
            .expect("builtin exists");
        assert!(a.enabled, "{id} should ship default-on");
    }
}

#[test]
fn silence_builtin_uses_audio_silent_trigger() {
    let a = builtin_automations()
        .into_iter()
        .find(|a| a.id == "silence-auto-stop")
        .unwrap();
    assert!(a.trigger == AutomationTrigger::AudioSilent);
    assert!(matches!(
        a.actions.as_slice(),
        [AutomationAction::StopRecording]
    ));
}

#[test]
fn migration_force_enables_legacy_disabled_auto_stop_once() {
    let mut store = AutomationStore::new();
    for a in builtin_automations() {
        store.insert_if_absent(a);
    }
    store.set_enabled("zoom-auto-stop", false);
    store.defaults_version = 0;

    assert!(store.apply_default_migrations());
    assert!(store.get("zoom-auto-stop").unwrap().enabled);
    assert!(store.get("silence-auto-stop").unwrap().enabled);
    assert_eq!(store.defaults_version, CURRENT_DEFAULTS_VERSION);

    store.set_enabled("zoom-auto-stop", false);
    assert!(!store.apply_default_migrations());
    assert!(!store.get("zoom-auto-stop").unwrap().enabled);
}

#[test]
fn find_for_meeting_detected_matches_generic_and_named() {
    let mut store = AutomationStore::new();
    for a in builtin_automations() {
        store.insert_if_absent(a);
    }
    let zoom: Vec<String> = store
        .find_for_meeting_detected("Zoom")
        .iter()
        .map(|a| a.id.clone())
        .collect();
    assert!(zoom.iter().all(|id| id != "zoom-auto-stop"));
    let ended: Vec<String> = store
        .find_for_meeting_ended("Zoom")
        .iter()
        .map(|a| a.id.clone())
        .collect();
    assert_eq!(ended, vec!["zoom-auto-stop".to_string()]);
    assert!(store.find_for_meeting_ended("Teams").is_empty());
}

#[test]
fn set_enabled_unknown_id_changes_nothing() {
    let mut store = AutomationStore::new();
    for a in builtin_automations() {
        store.insert_if_absent(a);
    }
    let before = store.automations.len();
    assert!(!store.set_enabled("no-such-automation", true));
    assert_eq!(store.automations.len(), before);
}

#[test]
fn record_run_counts_runs() {
    let mut store = AutomationStore::new();
    for a in builtin_automations() {
        store.insert_if_absent(a);
    }
    store.record_run("zoom-auto-stop");
    store.record_run("zoom-auto-stop");
    let a = store.get("zoom-auto-stop").unwrap();
    assert_eq!(a.run_count, 2);
    assert!(a.last_run.is_some());
}

#[test]
fn profiles_activate_known_and_unknown() {
    assert_eq!(builtin_profiles().len(), 3);
    let mut store = ProfileStore::with_builtins();
    assert!(store.activate("nope").is_none());
    assert!(store.active_profile_id.is_none());
    let p = store.activate("podcast").unwrap();
    assert_eq!(p.transcription_model.as_deref(), Some("large-v3"));
    assert_eq!(store.active_profile_id.as_deref(), Some("podcast"));
}

#[test]
fn presets_builtins_and_activate() {
    let presets = builtin_presets();
    assert_eq!(presets.len(), 5);
    assert_eq!(presets[1].id, "podcast");
    assert_eq!(presets[1].mic_gain_percent, 120);
    assert!(!presets[1].sys_enabled);
    assert_eq!(presets[4].sample_rate, 16000);
    let mut store = PresetStore::with_builtins();
    assert!(store.activate("streaming").is_some());
    assert_eq!(store.active_preset_id.as_deref(), Some("streaming"));
    assert!(store.activate("missing").is_none());
    assert_eq!(store.active_preset_id.as_deref(), Some("streaming"));
}

#[test]
fn shortcuts_rebind_conflict_and_unknown() {
    let mut store = ShortcutStore::default();
    let defaults = default_shortcuts();
    assert_eq!(store.bindings.len(), defaults.len());
    let first = defaults[0].clone();
    let second = defaults[1].clone();
    let err = store
        .rebind(&first.action_id, &second.key_sequence)
        .unwrap_err();
    assert_eq!(
        err,
        format!(
            "Key '{}' already bound to '{}'",
            second.key_sequence, second.description
        )
    );
    assert_eq!(
        store.rebind("no_such_action", "Cmd+Z").unwrap_err(),
        "Unknown action: no_such_action"
    );
    store.rebind(&first.action_id, "Cmd+Shift+F12").unwrap();
    assert_eq!(store.get_key(&first.action_id), Some("Cmd+Shift+F12"));
}

#[test]
fn config_defaults() {
    let t = TranscriptionConfig::default();
    assert_eq!(t.engine, "whisper");
    assert!(t
        .hallucination_blocklist
        .iter()
        .any(|h| h == "thanks for watching"));
    let d = DiarizationConfig::default();
    assert_eq!(d.max_speakers, 10);
    let m = MeetingDetectionConfig::default();
    assert!(m.enabled);
    assert!(m.allowed_apps.is_empty());
}

#[test]
fn config_paths_end_in_data_dir() {
    if let Some(p) = gravai::config::config_path() {
        assert!(p.ends_with(".gravai/config.json"));
    }
    if let Some(p) = gravai::config::models_dir() {
        assert!(p.ends_with(".gravai/models"));
    }
    assert_eq!(gravai::config::join_path("/a", "b"), "/a/b");
    assert_eq!(gravai::config::join_path("/a/", "b"), "/a/b");
    assert_eq!(gravai::config::join_path("", "b"), "b");
}

#[test]
fn data_paths_under_a_home_directory() {
    assert_eq!(gravai::config::data_dir_at("/Users/ann"), "/Users/ann/.gravai");
    assert_eq!(gravai::config::data_dir_at("/Users/ann/"), "/Users/ann/.gravai");
    assert_eq!(
        gravai::config::data_file_at("/Users/ann", "config.json"),
        "/Users/ann/.gravai/config.json"
    );
    assert_eq!(
        gravai::config::data_file_at("/home/bob", "gravai.log"),
        "/home/bob/.gravai/gravai.log"
    );
}

#[test]
fn merging_builtins_adds_only_the_missing_ones_as_shipped() {
    let builtins = builtin_automations();
    let mut store = AutomationStore::new();
    let mut customised = builtins[2].clone();
    customised.enabled = false;
    customised.run_count = 7;
    store.insert_if_absent(customised);
    store.merge_builtins();
    let ids: Vec<&str> = store.automations.iter().map(|a| a.id.as_str()).collect();
    assert_eq!(
        ids,
        vec![
            "zoom-auto-stop",
            "auto-meeting-record",
            "zoom-auto-start",
            "silence-auto-stop",
            "auto-export-on-stop"
        ]
    );
    assert!(!store.automations[0].enabled);
    assert_eq!(store.automations[0].run_count, 7);
    assert!(!store.automations[1].enabled);
    assert!(store.automations[3].enabled);
    assert_eq!(store.automations[3].run_count, 0);
    assert_eq!(store.automations[4].name, "Export transcript on session end");
    assert_eq!(store.defaults_version, 0);
}

#[test]
fn disabled_automation_never_fires() {
    let mut store = AutomationStore::new();
    for a in builtin_automations() {
        store.insert_if_absent(a);
    }
    assert!(store
        .find_for_meeting_ended("Zoom")
        .iter()
        .any(|a| a.id == "zoom-auto-stop"));
    assert!(store
        .find_by_trigger(&AutomationTrigger::AudioSilent)
        .iter()
        .any(|a| a.id == "silence-auto-stop"));
    assert!(store.set_enabled("zoom-auto-stop", false));
    assert!(store.set_enabled("silence-auto-stop", false));
    assert!(store.find_for_meeting_ended("Zoom").is_empty());
    assert!(store.find_by_trigger(&AutomationTrigger::AudioSilent).is_empty());
}

#[test]
fn rebind_then_get_key_keeps_other_bindings() {
    let mut store = ShortcutStore::default();
    let defaults = default_shortcuts();
    let first = defaults[0].clone();
    store.rebind(&first.action_id, "Cmd+Alt+1").unwrap();
    assert_eq!(store.get_key(&first.action_id), Some("Cmd+Alt+1"));
    for other in &defaults[1..] {
        assert_eq!(store.get_key(&other.action_id), Some(other.key_sequence.as_str()));
    }
    assert_eq!(store.get_key("no_such_action"), None);
}

#[test]
fn fresh_ids_are_hyphenated_v4_uuids() {
    let ids = [
        gravai::profiles::Profile::default().id,
        gravai::presets::CapturePreset::default().id,
    ];
    for id in ids.iter() {
        let c: Vec<char> = id.chars().collect();
        assert_eq!(c.len(), 36);
        for (i, ch) in c.iter().enumerate() {
            if [8, 13, 18, 23].contains(&i) {
                assert_eq!(*ch, '-');
            } else {
                assert!(ch.is_ascii_digit() || ('a'..='f').contains(ch), "{id}");
            }
        }
        assert_eq!(c[14], '4');
        assert!(['8', '9', 'a', 'b'].contains(&c[19]));
    }
}

#[test]
fn run_stamps_are_utc_rfc3339() {
    let mut store = AutomationStore::new();
    for a in builtin_automations() {
        store.insert_if_absent(a);
    }
    store.record_run("silence-auto-stop");
    let a = store.automations.iter().find(|a| a.id == "silence-auto-stop").unwrap();
    let stamp = a.last_run.clone().unwrap();
    assert!(stamp.ends_with("+00:00"), "{stamp}");
    assert_eq!(&stamp[4..5], "-");
    assert_eq!(&stamp[10..11], "T");
}

#[test]
fn absolute_components_replace_the_base() {
    assert_eq!(gravai::config::join_path("/a", "/b/c"), "/b/c");
    assert_eq!(gravai::config::join_path("", "/b"), "/b");
    assert_eq!(gravai::text::byte_prefix("héllo", 3), "hé");
    assert_eq!(gravai::text::byte_prefix("short", 200), "short");
    assert_eq!(gravai::text::byte_prefix("abc", 0), "");
}
