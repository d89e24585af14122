use gravai::calendar_store::events_from_store;
use gravai::calendar::{find_meeting_title, parse_osascript_output, CalendarEvent};
use gravai::config::MeetingDetectionConfig;
use gravai::detector::{
    detect_meeting_apps, is_in_active_meeting_via_udp, parse_process_names, DetectedMeeting,
    zoom_window_title, MeetingDetector,
};

#[test]
fn parse_empty_output() {
    assert!(parse_osascript_output("").is_empty());
    assert!(parse_osascript_output("  \n  ").is_empty());
}

#[test]
fn parse_single_event() {
    let output = "Team Standup|Monday, April 7, 2026 at 10:00:00 AM|Monday, April 7, 2026 at 10:30:00 AM";
    let events = parse_osascript_output(output);
    assert_eq!(events.len(), 1);
    assert_eq!(events[0].title, "Team Standup");
}

#[test]
fn parse_multiple_events() {
    let output = "Meeting A|start1|end1||Meeting B|start2|end2";
    let events = parse_osascript_output(output);
    assert_eq!(events.len(), 2);
    assert_eq!(events[0].title, "Meeting A");
    assert_eq!(events[1].title, "Meeting B");
}

#[test]
fn parse_full_entries_with_status_notes_and_location() {
    let output = "inprogress| Sync |s|e| notes here |https://zoom.us/j/1||upcoming|Later|s2|e2||";
    let events = parse_osascript_output(output);
    assert_eq!(events.len(), 2);
    assert!(events[0].in_progress);
    assert_eq!(events[0].title, "Sync");
    assert_eq!(events[0].notes.as_deref(), Some("notes here"));
    assert_eq!(events[0].location.as_deref(), Some("https://zoom.us/j/1"));
    assert!(!events[1].in_progress);
    assert_eq!(events[1].notes, None);
    assert_eq!(events[1].location, None);
    // an entry of two fields is skipped
    assert_eq!(parse_osascript_output("a|b||c|d|e").len(), 1);
}

fn event(title: &str, in_progress: bool, location: Option<&str>) -> CalendarEvent {
    CalendarEvent {
        title: title.to_string(),
        start_time: String::new(),
        end_time: String::new(),
        notes: None,
        location: location.map(|s| s.to_string()),
        in_progress,
    }
}

#[test]
fn meeting_title_prefers_linked_in_progress_event() {
    let events = vec![
        event("Upcoming", false, Some("https://zoom.us/j/9")),
        event("Plain", true, None),
        event("Linked", true, Some("https://Meet.Google.com/abc")),
    ];
    assert_eq!(find_meeting_title(&events).as_deref(), Some("Linked"));
    let events = vec![event("Upcoming", false, None), event("Plain", true, None)];
    assert_eq!(find_meeting_title(&events).as_deref(), Some("Plain"));
    let events = vec![event("Upcoming", false, None)];
    assert_eq!(find_meeting_title(&events).as_deref(), Some("Upcoming"));
    assert_eq!(find_meeting_title(&Vec::new()), None);
}

#[test]
fn meeting_detector_tracks_state() {
    let config = MeetingDetectionConfig::default();
    let mut detector = MeetingDetector::new(&config);
    let _ = detector.poll(Vec::new());
}

fn detected(app: &str) -> DetectedMeeting {
    DetectedMeeting {
        app_name: app.to_string(),
        bundle_id: None,
        source: "process".to_string(),
    }
}

#[test]
fn poll_reports_new_and_ended_meetings() {
    let config = MeetingDetectionConfig::default();
    let mut detector = MeetingDetector::new(&config);
    let (new, ended) = detector.poll(vec![detected("Zoom")]);
    assert_eq!(new.len(), 1);
    assert!(ended.is_empty());
    let (new, ended) = detector.poll(vec![detected("Zoom")]);
    assert!(new.is_empty());
    assert!(ended.is_empty());
    let (new, ended) = detector.poll(vec![detected("FaceTime")]);
    assert_eq!(new[0].app_name, "FaceTime");
    assert_eq!(ended, vec!["Zoom".to_string()]);
    assert_eq!(detector.poll_interval(), 5);
    assert!(!detector.is_auto_allowed("Zoom"));
}

#[test]
fn detection_uses_process_and_udp() {
    let running = vec!["/Applications/zoom.us.app/zoom.us".to_string(), "CptHost".to_string()];
    let udp = [false; 7];
    let d = detect_meeting_apps(&running, &udp);
    assert_eq!(d.len(), 1);
    assert_eq!(d[0].app_name, "Zoom");
    assert_eq!(d[0].source, "process");
    assert_eq!(d[0].bundle_id.as_deref(), Some("us.zoom.xos"));

    let running = vec!["Microsoft Teams".to_string()];
    let mut udp = [false; 7];
    assert!(detect_meeting_apps(&running, &udp).is_empty());
    udp[2] = true;
    let d = detect_meeting_apps(&running, &udp);
    assert_eq!(d[0].app_name, "Microsoft Teams");
    assert_eq!(d[0].source, "process+udp");
}

#[test]
fn udp_check_does_not_panic() {
    let _ = is_in_active_meeting_via_udp(Some(""), "nonexistent_app_xyz");
    let _ = is_in_active_meeting_via_udp(None, "nonexistent_app_xyz");
}

#[test]
fn udp_check_counts_matching_lines() {
    let out = "COMMAND PID\nzoom.us 1 UDP\nzoom.us 1 UDP\nother 2 UDP\n";
    assert!(is_in_active_meeting_via_udp(Some(out), "zoom"));
    let out = "zoom.us 1 UDP\nother 2 UDP\n";
    assert!(!is_in_active_meeting_via_udp(Some(out), "zoom"));
    let out = "FaceTime 1\ncallservicesd 2\n";
    assert!(is_in_active_meeting_via_udp(Some(out), "FaceTime|callservicesd"));
    assert!(is_in_active_meeting_via_udp(None, "zoom"));
}

#[test]
fn process_names_are_trimmed_lines() {
    let names = parse_process_names("  launchd\n\n zoom.us \r\nCptHost");
    assert_eq!(names, vec!["launchd", "zoom.us", "CptHost"]);
}

#[test]
fn zoom_window_title_is_trimmed_and_filtered() {
    assert_eq!(zoom_window_title("  Zoom Meeting \n"), Some("Zoom Meeting".to_string()));
    assert_eq!(zoom_window_title("\n"), None);
    assert_eq!(zoom_window_title(""), None);
    assert_eq!(zoom_window_title("missing value\n"), None);
}

fn store_event(title: &str, all_day: bool, start: i64, end: i64) -> gravai::calendar_store::StoreEvent {
    gravai::calendar_store::StoreEvent {
        title: title.to_string(),
        all_day,
        start_secs: start,
        end_secs: end,
        notes: None,
        location: Some("https://zoom.us/j/1".to_string()),
    }
}

#[test]
fn store_events_are_filtered_and_ordered() {
    let now = 1_700_000_000;
    let events = vec![
        store_event("Later", false, now + 600, now + 1200),
        store_event("Holiday", true, now - 100, now + 100),
        store_event("Over", false, now - 3600, now - 1),
        store_event("", false, now - 10, now + 10),
        store_event("Soon", false, now + 60, now + 120),
        store_event("Now", false, now - 60, now + 60),
    ];
    let out = events_from_store(&events, now);
    let titles: Vec<&str> = out.iter().map(|e| e.title.as_str()).collect();
    assert_eq!(titles, vec!["Now", "Soon", "Later"]);
    assert!(out[0].in_progress);
    assert!(!out[1].in_progress);
    assert_eq!(out[0].start_time, (now - 60).to_string());
    assert_eq!(out[2].end_time, (now + 1200).to_string());
    assert_eq!(out[0].location.as_deref(), Some("https://zoom.us/j/1"));
    assert_eq!(find_meeting_title(&out), Some("Now".to_string()));
}

#[test]
fn store_event_times_sort_as_text() {
    // Start times compare as text, so "-5" comes before "10" and "9".
    let events = vec![
        store_event("b", false, 9, 100),
        store_event("a", false, 10, 100),
        store_event("c", false, -5, 100),
    ];
    let out = events_from_store(&events, 0);
    let titles: Vec<&str> = out.iter().map(|e| e.title.as_str()).collect();
    assert_eq!(titles, vec!["c", "a", "b"]);
    assert_eq!(out[0].start_time, "-5");
}
