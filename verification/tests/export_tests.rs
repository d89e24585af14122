use gravai::export::{
    export_markdown, generate_text, notion_page, obsidian_file_name, parse_timestamp,
    sanitize_filename, ExportActionItem, ExportBookmark, ExportData, ExportOptions, ExportSummary,
    ExportUtterance, NotionBlockKind,
};

fn utterance(ts: &str, source: &str, speaker: &str, text: &str) -> ExportUtterance {
    ExportUtterance {
        timestamp: ts.into(),
        source: source.into(),
        speaker: Some(speaker.into()),
        text: text.into(),
    }
}

#[test]
fn export_produces_valid_markdown() {
    let data = ExportData {
        session_id: "test-001".into(),
        title: Some("Team Standup".into()),
        started_at: "2026-04-07T10:00:00Z".into(),
        ended_at: None,
        meeting_app: Some("Zoom".into()),
        utterances: vec![
            utterance("2026-04-07T10:00:05Z", "microphone", "You", "Good morning everyone"),
            utterance("2026-04-07T10:01:30Z", "system_audio", "Remote", "Hey, good morning"),
        ],
        bookmarks: vec![],
        summary: None,
    };
    let md = export_markdown(&data, &ExportOptions::default(), Some("300"));
    assert!(md.contains("Team Standup"));
    assert!(md.contains("[00:05]"));
    assert!(md.contains("[01:30]"));
    assert!(md.contains("**Date:**"));
    assert!(!md.contains("[2026-04-07"));
    assert!(md.contains("duration_seconds: 300\n"));
}

#[test]
fn export_includes_bookmarks() {
    let data = ExportData {
        session_id: "test-bm".into(),
        title: Some("Bookmark Test".into()),
        started_at: "2026-04-07T10:00:00Z".into(),
        ended_at: None,
        meeting_app: None,
        utterances: vec![
            utterance("2026-04-07T10:00:10Z", "microphone", "Alice", "First utterance"),
            utterance("2026-04-07T10:01:00Z", "microphone", "Alice", "Second utterance"),
        ],
        bookmarks: vec![
            ExportBookmark { offset_ms: 5000, note: Some("before first".into()) },
            ExportBookmark { offset_ms: 30000, note: Some("mid-session decision".into()) },
            ExportBookmark { offset_ms: 90000, note: None },
        ],
        summary: None,
    };
    let md = export_markdown(&data, &ExportOptions::default(), Some("120"));
    assert!(md.contains("## Bookmarks"));
    assert!(md.contains("[00:05]"));
    assert!(md.contains("before first"));
    assert!(md.contains("[Bookmark 00:05]"));
    assert!(md.contains("[Bookmark 00:30]"));
    assert!(md.contains("[Bookmark 01:30]"));
    assert!(md.contains("mid-session decision"));
}

#[test]
fn parse_rfc3339() {
    assert!(parse_timestamp("2026-04-07T10:00:00Z").is_some());
}

#[test]
fn timestamps_in_each_accepted_form() {
    let a = parse_timestamp("1970-01-01T00:00:01Z");
    assert_eq!(a, Some(1000));
    assert_eq!(parse_timestamp("1970-01-01T00:00:02"), Some(2000));
    assert_eq!(parse_timestamp("1970-01-01T00:00:02.5"), Some(2500));
    assert_eq!(parse_timestamp("10:00:00"), None);
}

fn sample() -> ExportData {
    ExportData {
        session_id: "s/1".into(),
        title: None,
        started_at: "not a time".into(),
        ended_at: None,
        meeting_app: None,
        utterances: vec![ExportUtterance {
            timestamp: "raw-ts".into(),
            source: "mic".into(),
            speaker: None,
            text: "hi".into(),
        }],
        bookmarks: vec![ExportBookmark { offset_ms: 1000, note: None }],
        summary: Some(ExportSummary {
            tldr: "Short.".into(),
            key_decisions: vec!["Ship it".into()],
            action_items: vec![
                ExportActionItem { description: "Write docs".into(), owner: Some("ann".into()) },
                ExportActionItem { description: "Test".into(), owner: None },
            ],
            open_questions: vec![],
        }),
    }
}

#[test]
fn markdown_sections_and_raw_timestamps() {
    let md = export_markdown(&sample(), &ExportOptions::default(), None);
    assert!(md.starts_with("---\ntitle: \"s/1\"\ndate: not a time\nsession_id: s/1\n---\n\n# Meeting Transcript\n\n"));
    assert!(md.contains("### Key Decisions\n\n- Ship it\n\n"));
    assert!(md.contains("- [ ] Write docs (@ann)\n- [ ] Test\n"));
    assert!(!md.contains("Open Questions"));
    // unparsable times: the raw timestamp is shown, placed after every bookmark
    assert!(md.contains("> **[Bookmark 00:01]** \n\n**[raw-ts] mic:** hi\n\n"));
    let opts = ExportOptions {
        include_summary: true,
        include_transcript: false,
        include_action_items: false,
    };
    let md = export_markdown(&sample(), &opts, None);
    assert!(!md.contains("Action Items"));
    assert!(!md.contains("## Transcript"));
}

#[test]
fn plain_text_export() {
    let text = generate_text(&sample(), &ExportOptions::default(), Some("5"));
    assert!(text.starts_with("Meeting Transcript\n==================\nDate: not a time\nDuration: 5 minutes\n\n"));
    assert!(text.contains("SUMMARY\n-------\nShort.\n\n"));
    assert!(text.ends_with("TRANSCRIPT\n----------\n[raw-ts] mic: hi\n"));
}

#[test]
fn file_names_are_sanitized() {
    assert_eq!(sanitize_filename("  a/b: c?  "), "a_b_ c_");
    assert_eq!(sanitize_filename("Café-1_x"), "Café-1_x");
    assert_eq!(obsidian_file_name(&sample()), "s_1.md");
}

#[test]
fn notion_pages() {
    assert_eq!(
        notion_page(&sample(), "", "db").unwrap_err(),
        "Notion API key and database ID are required"
    );
    let p = notion_page(&sample(), "key", "db").unwrap();
    assert_eq!(p.title, "s/1");
    let kinds: Vec<NotionBlockKind> = p.blocks.iter().map(|b| b.kind).collect();
    assert_eq!(
        kinds,
        vec![
            NotionBlockKind::Heading2,
            NotionBlockKind::Paragraph,
            NotionBlockKind::Heading3,
            NotionBlockKind::ToDo,
            NotionBlockKind::ToDo,
            NotionBlockKind::Heading2,
            NotionBlockKind::Paragraph,
        ]
    );
    assert_eq!(p.blocks[6].text, "[raw-ts] mic: hi");
}

#[test]
fn sanitized_names_have_no_separators() {
    let out = sanitize_filename("../etc/passwd: a.b\\c");
    assert!(out
        .chars()
        .all(|c| c.is_alphanumeric() || c == '-' || c == '_' || c == ' '));
    assert_eq!(out, "___etc_passwd_ a_b_c");
}
