use gravai::capture::{
    app_filter, find_capture_app, interleave, needs_resampling, pick_input_device, MicDevice,
    VolumeMeter,
};
use gravai::audio::{
    can_use_screencapturekit, describe_device, kept_ranges, silent_regions, SilentRegion,
};
use gravai::encoder::{
    afconvert_args, available_formats, export_method, is_track_file, merge_plan, mix_format,
    ExportFormat, ExportMethod, MergePlan,
};

#[test]
fn format_from_str() {
    assert_eq!(ExportFormat::parse("wav"), ExportFormat::Wav);
    assert_eq!(ExportFormat::parse("m4a-aac"), ExportFormat::M4aAac);
    assert_eq!(ExportFormat::parse("unknown"), ExportFormat::Wav);
}

#[test]
fn available_formats_includes_wav() {
    for has in [false, true] {
        let fmts = available_formats(has);
        assert!(fmts.iter().any(|(id, _)| *id == "wav"));
    }
    assert_eq!(available_formats(true).len(), 5);
}

#[test]
fn extensions_and_conversion() {
    assert_eq!(ExportFormat::M4aAlac.extension(), "m4a");
    assert_eq!(ExportFormat::Caf.extension(), "caf");
    assert_eq!(
        afconvert_args("in.wav", "out.m4a", ExportFormat::M4aAac, 128),
        vec!["in.wav", "out.m4a", "-d", "aac", "-f", "m4af", "-b", "128000"]
    );
    assert_eq!(
        afconvert_args("in.wav", "out.aiff", ExportFormat::Aiff, 128),
        vec!["in.wav", "out.aiff", "-d", "BEI24", "-f", "AIFF"]
    );
    assert_eq!(export_method(ExportFormat::Wav, false), ExportMethod::Copy);
    assert_eq!(export_method(ExportFormat::Caf, false), ExportMethod::Unsupported);
    assert_eq!(export_method(ExportFormat::Caf, true), ExportMethod::Convert);
}

#[test]
fn merge_choices() {
    assert!(is_track_file("mic.WAV"));
    assert!(!is_track_file("mic_trimmed.wav"));
    assert!(!is_track_file(".wav"));
    assert!(!is_track_file("notes.txt"));
    assert_eq!(merge_plan(0).unwrap_err(), "No WAV files found in session");
    assert_eq!(merge_plan(1), Ok(MergePlan::ExportSingle));
    assert_eq!(merge_plan(3), Ok(MergePlan::MixTracks));
    assert_eq!(mix_format(&[(16000, 1), (48000, 2), (44100, 1)]), (48000, 2));
}

#[test]
fn silent_region_serializes() {
    let r = SilentRegion { start_ms: 1000, end_ms: 4000, duration_ms: 3000 };
    let mut map = serde_json::Map::new();
    map.insert("start_ms".to_string(), serde_json::Value::from(r.start_ms));
    map.insert("end_ms".to_string(), serde_json::Value::from(r.end_ms));
    map.insert("duration_ms".to_string(), serde_json::Value::from(r.duration_ms));
    let json = serde_json::to_string(&serde_json::Value::Object(map)).unwrap();
    assert!(json.contains("3000"));
}

#[test]
fn silent_regions_from_windows() {
    // windows of 100 ms: silence 200..500 (3 windows), then trailing silence from 700
    let flags = [false, false, true, true, true, false, false, true, true];
    let r = silent_regions(&flags, 950, 250);
    let v: Vec<(u64, u64, u64)> = r.iter().map(|x| (x.start_ms, x.end_ms, x.duration_ms)).collect();
    assert_eq!(v, vec![(200, 500, 300), (700, 950, 250)]);
    assert!(silent_regions(&flags, 950, 301).is_empty());
}

#[test]
fn trim_keeps_everything_but_regions() {
    let regions = [
        SilentRegion { start_ms: 1, end_ms: 2, duration_ms: 1 },
        SilentRegion { start_ms: 4, end_ms: 100, duration_ms: 96 },
    ];
    assert_eq!(kept_ranges(&regions, 10, 60), vec![(0, 10), (20, 40)]);
    assert_eq!(kept_ranges(&[], 10, 60), vec![(0, 60)]);
}

#[test]
fn devices_are_described() {
    let d = describe_device(2, Some("BlackHole 2ch".into()), Some((48000, 2)));
    assert_eq!(d.device_type, "loopback");
    assert_eq!(d.sample_rate, Some(48000));
    let d = describe_device(3, None, None);
    assert_eq!(d.name, "Device 3");
    assert_eq!(d.device_type, "microphone");
    assert!(can_use_screencapturekit("macos"));
    assert!(!can_use_screencapturekit("linux"));
}

#[test]
fn microphone_device_choice() {
    assert_eq!(pick_input_device(-1, 3, true), Ok(MicDevice::Default));
    assert_eq!(pick_input_device(-1, 3, false), Err("No default input device".to_string()));
    assert_eq!(pick_input_device(2, 3, false), Ok(MicDevice::Index(2)));
    assert_eq!(pick_input_device(3, 3, true), Err("Device index out of range".to_string()));
}

#[test]
fn resampling_and_volume_meter() {
    assert!(!needs_resampling(16000, 1));
    assert!(needs_resampling(48000, 1));
    assert!(needs_resampling(16000, 2));
    // 48 kHz stereo, one report every 4800 frames (0.1 s).
    let mut meter = VolumeMeter::new(4800);
    assert!(!meter.on_block(2048, 2));
    assert_eq!(meter.counter, 1024);
    for _ in 0..3 {
        assert!(!meter.on_block(2048, 2));
    }
    assert!(meter.on_block(2048, 2));
    assert_eq!(meter.counter, 0);
}

#[test]
fn system_capture_app_and_interleaving() {
    assert_eq!(app_filter(""), None);
    assert_eq!(app_filter("us.zoom.xos"), Some("us.zoom.xos".to_string()));
    let ids = vec!["com.apple.Safari".to_string(), "us.zoom.xos".to_string()];
    assert_eq!(find_capture_app(&ids, "us.zoom.xos"), Some(1));
    assert_eq!(find_capture_app(&ids, "com.microsoft.teams2"), None);
    let left = vec![1i32, 2, 3];
    let right = vec![10i32, 20];
    assert_eq!(interleave(&vec![left, right], 0), vec![1, 10, 2, 20, 3, 0]);
    assert_eq!(interleave(&Vec::<Vec<i32>>::new(), 0), Vec::<i32>::new());
}
