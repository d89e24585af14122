//! Session export: the Markdown document (with YAML front matter), the
//! plain-text document, the Obsidian file name and the Notion page.

use vstd::prelude::*;

use crate::text::{
    alphanumeric, decimal2, is_alphanumeric, push_char, push_decimal2, string_of, to_chars, trim,
    trim_bounds, views,
};

verus! {

/// One utterance of the transcript.
#[derive(Debug, Clone)]
pub struct ExportUtterance {
    pub timestamp: String,
    pub source: String,
    pub speaker: Option<String>,
    pub text: String,
}

/// An action item of the summary.
#[derive(Debug, Clone)]
pub struct ExportActionItem {
    pub description: String,
    pub owner: Option<String>,
}

/// The summary of a session.
#[derive(Debug, Clone)]
pub struct ExportSummary {
    pub tldr: String,
    pub key_decisions: Vec<String>,
    pub action_items: Vec<ExportActionItem>,
    pub open_questions: Vec<String>,
}

/// A bookmark set during the recording, at `offset_ms` from its start.
#[derive(Debug, Clone)]
pub struct ExportBookmark {
    pub offset_ms: i64,
    pub note: Option<String>,
}

/// What an export is made from.
#[derive(Debug, Clone)]
pub struct ExportData {
    pub session_id: String,
    pub title: Option<String>,
    pub started_at: String,
    pub ended_at: Option<String>,
    pub meeting_app: Option<String>,
    pub utterances: Vec<ExportUtterance>,
    pub bookmarks: Vec<ExportBookmark>,
    pub summary: Option<ExportSummary>,
}

/// Which sections to include in the export.
#[derive(Debug, Clone, Copy)]
pub struct ExportOptions {
    pub include_summary: bool,
    pub include_transcript: bool,
    pub include_action_items: bool,
}

impl Default for ExportOptions {
    fn default() -> (r: Self)
        ensures
            r.include_summary && r.include_transcript && r.include_action_items,
    {
        ExportOptions { include_summary: true, include_transcript: true, include_action_items: true }
    }
}

pub open spec fn text_or(o: Option<String>, d: Seq<char>) -> Seq<char> {
    match o {
        Some(s) => s@,
        None => d,
    }
}

fn str_or<'a>(o: &'a Option<String>, d: &'a str) -> (r: &'a str)
    ensures
        r@ == text_or(*o, d@),
{
    match o {
        Some(s) => s.as_str(),
        None => d,
    }
}

/// Who said an utterance: its speaker, else its source.
pub open spec fn speaker_of(u: ExportUtterance) -> Seq<char> {
    text_or(u.speaker, u.source@)
}

// ---------------------------------------------------------------------------
// Timestamps
// ---------------------------------------------------------------------------

/// Name for what chrono's RFC 3339 parser gives for a text: the instant's
/// milliseconds since the Unix epoch, or `None` when the text is not RFC 3339.
pub uninterp spec fn rfc3339_millis(ts: Seq<char>) -> Option<int>;

/// Name for what chrono's `NaiveDateTime::parse_from_str` gives for a text
/// and a format, read as UTC: milliseconds since the Unix epoch, or `None`
/// when the text does not match the format.
pub uninterp spec fn naive_utc_millis(ts: Seq<char>, fmt: Seq<char>) -> Option<int>;

/// `chrono::DateTime::parse_from_rfc3339(ts)`, as milliseconds since the
/// epoch (`timestamp_millis`).
#[verifier::external_body]
fn parse_rfc3339_millis(ts: &str) -> (r: Option<i64>)
    ensures
        match r {
            Some(m) => rfc3339_millis(ts@) == Some(m as int),
            None => rfc3339_millis(ts@) is None,
        },
{
    chrono::DateTime::parse_from_rfc3339(ts).ok().map(|dt| dt.timestamp_millis())
}

/// `chrono::NaiveDateTime::parse_from_str(ts, fmt)`, read as UTC, as
/// milliseconds since the epoch.
#[verifier::external_body]
fn parse_naive_utc_millis(ts: &str, fmt: &str) -> (r: Option<i64>)
    ensures
        match r {
            Some(m) => naive_utc_millis(ts@, fmt@) == Some(m as int),
            None => naive_utc_millis(ts@, fmt@) is None,
        },
{
    chrono::NaiveDateTime::parse_from_str(ts, fmt).ok().map(|dt| dt.and_utc().timestamp_millis())
}

/// `i64 as u64`: negative values wrap around.
pub open spec fn as_u64(m: int) -> nat {
    if m >= 0 {
        m as nat
    } else {
        (m + 0x1_0000_0000_0000_0000) as nat
    }
}

fn i64_as_u64(m: i64) -> (r: u64)
    ensures
        r == as_u64(m as int),
{
    if m >= 0 {
        m as u64
    } else {
        let k: u64 = (-(m as i128)) as u64;
        assert(k >= 1);
        (u64::MAX - k) + 1
    }
}

/// Milliseconds since the epoch of an RFC 3339 time, or of a time
/// `YYYY-MM-DDTHH:MM:SS` (fractional seconds allowed) read as UTC.
pub open spec fn timestamp_ms(ts: Seq<char>) -> Option<nat> {
    match rfc3339_millis(ts) {
        Some(m) => Some(as_u64(m)),
        None => match naive_utc_millis(ts, "%Y-%m-%dT%H:%M:%S%.f"@) {
            Some(m) => Some(as_u64(m)),
            None => match naive_utc_millis(ts, "%Y-%m-%dT%H:%M:%S"@) {
                Some(m) => Some(as_u64(m)),
                None => None,
            },
        },
    }
}

/// Reads a timestamp as milliseconds since the epoch (see [`timestamp_ms`]).
pub fn parse_timestamp(ts: &str) -> (r: Option<u64>)
    ensures
        match r {
            Some(m) => timestamp_ms(ts@) == Some(m as nat),
            None => timestamp_ms(ts@) is None,
        },
{
    if let Some(m) = parse_rfc3339_millis(ts) {
        return Some(i64_as_u64(m));
    }
    if let Some(m) = parse_naive_utc_millis(ts, "%Y-%m-%dT%H:%M:%S%.f") {
        return Some(i64_as_u64(m));
    }
    if let Some(m) = parse_naive_utc_millis(ts, "%Y-%m-%dT%H:%M:%S") {
        return Some(i64_as_u64(m));
    }
    None
}

/// `MM:SS` for a number of seconds (minutes not capped).
pub open spec fn mmss(secs: nat) -> Seq<char> {
    decimal2(secs / 60) + ":"@ + decimal2(secs % 60)
}

fn push_mmss(out: &mut String, secs: u64)
    ensures
        final(out)@ == old(out)@ + mmss(secs as nat),
{
    push_decimal2(out, secs / 60);
    out.append(":");
    push_decimal2(out, secs % 60);
    assert(final(out)@ =~= old(out)@ + mmss(secs as nat));
}

/// Whole seconds of a bookmark offset: the signed offset divided by 1000
/// toward zero, then read as `u64` (a negative quotient wraps around).
pub open spec fn bookmark_secs(offset_ms: int) -> nat {
    if offset_ms >= 0 {
        (offset_ms / 1000) as nat
    } else if (-offset_ms) / 1000 == 0 {
        0
    } else {
        (0x1_0000_0000_0000_0000 - (-offset_ms) / 1000) as nat
    }
}

fn bookmark_seconds(offset_ms: i64) -> (r: u64)
    ensures
        r == bookmark_secs(offset_ms as int),
{
    if offset_ms >= 0 {
        (offset_ms / 1000) as u64
    } else {
        let q: u64 = ((-(offset_ms as i128)) / 1000) as u64;
        if q == 0 {
            0
        } else {
            (u64::MAX - q) + 1
        }
    }
}

// ---------------------------------------------------------------------------
// Markdown
// ---------------------------------------------------------------------------

/// The YAML front matter.
pub open spec fn md_front_matter(d: ExportData, duration: Option<Seq<char>>) -> Seq<char> {
    "---\n"@ + "title: \""@ + text_or(d.title, d.session_id@) + "\"\n"@ + "date: "@ + d.started_at@
        + "\n"@ + match d.meeting_app {
        Some(a) => "meeting_app: "@ + a@ + "\n"@,
        None => Seq::empty(),
    } + match duration {
        Some(t) => "duration_seconds: "@ + t + "\n"@,
        None => Seq::empty(),
    } + "session_id: "@ + d.session_id@ + "\n"@ + "---\n\n"@
}

/// The title and date lines.
pub open spec fn md_heading(d: ExportData) -> Seq<char> {
    "# "@ + text_or(d.title, "Meeting Transcript"@) + "\n\n"@ + "**Date:** "@ + d.started_at@
        + "\n\n"@
}

/// `- item` lines.
pub open spec fn bullets(items: Seq<Seq<char>>) -> Seq<char>
    decreases items.len(),
{
    if items.len() == 0 {
        Seq::empty()
    } else {
        bullets(items.drop_last()) + "- "@ + items.last() + "\n"@
    }
}

pub open spec fn action_line(a: ExportActionItem) -> Seq<char> {
    match a.owner {
        Some(o) => "- [ ] "@ + a.description@ + " (@"@ + o@ + ")\n"@,
        None => "- [ ] "@ + a.description@ + "\n"@,
    }
}

pub open spec fn action_lines(items: Seq<ExportActionItem>) -> Seq<char>
    decreases items.len(),
{
    if items.len() == 0 {
        Seq::empty()
    } else {
        action_lines(items.drop_last()) + action_line(items.last())
    }
}

pub open spec fn md_decisions(s: ExportSummary) -> Seq<char> {
    if s.key_decisions@.len() > 0 {
        "### Key Decisions\n\n"@ + bullets(views(s.key_decisions@)) + "\n"@
    } else {
        Seq::empty()
    }
}

pub open spec fn md_actions(s: ExportSummary, include_action_items: bool) -> Seq<char> {
    if include_action_items && s.action_items@.len() > 0 {
        "### Action Items\n\n"@ + action_lines(s.action_items@) + "\n"@
    } else {
        Seq::empty()
    }
}

pub open spec fn md_questions(s: ExportSummary) -> Seq<char> {
    if s.open_questions@.len() > 0 {
        "### Open Questions\n\n"@ + bullets(views(s.open_questions@)) + "\n"@
    } else {
        Seq::empty()
    }
}

/// The summary section: TL;DR, then decisions, action items (when they are
/// included) and open questions, each only when there are some.
pub open spec fn md_summary(s: ExportSummary, include_action_items: bool) -> Seq<char> {
    "## Summary\n\n"@ + s.tldr@ + "\n\n"@ + md_decisions(s) + md_actions(s, include_action_items)
        + md_questions(s)
}

pub open spec fn note_of(b: ExportBookmark) -> Seq<char> {
    text_or(b.note, ""@)
}

pub open spec fn bookmark_item(b: ExportBookmark) -> Seq<char> {
    "- **["@ + mmss(bookmark_secs(b.offset_ms as int)) + "]** "@ + note_of(b) + "\n"@
}

pub open spec fn bookmark_items(bs: Seq<ExportBookmark>) -> Seq<char>
    decreases bs.len(),
{
    if bs.len() == 0 {
        Seq::empty()
    } else {
        bookmark_items(bs.drop_last()) + bookmark_item(bs.last())
    }
}

/// The bookmarks section, when there are bookmarks.
pub open spec fn md_bookmarks(bs: Seq<ExportBookmark>) -> Seq<char> {
    if bs.len() > 0 {
        "## Bookmarks\n\n"@ + bookmark_items(bs) + "\n"@
    } else {
        Seq::empty()
    }
}

/// A bookmark shown inside the transcript.
pub open spec fn bookmark_marker(b: ExportBookmark) -> Seq<char> {
    "> **[Bookmark "@ + mmss(bookmark_secs(b.offset_ms as int)) + "]** "@ + note_of(b) + "\n\n"@
}

/// `i64` reading of a `u64` (values past `i64::MAX` wrap).
pub open spec fn as_i64(v: nat) -> int {
    if v <= i64::MAX {
        v as int
    } else {
        v - 0x1_0000_0000_0000_0000
    }
}

/// How an utterance's time is shown, and its offset from the start used to
/// place bookmarks: `MM:SS` from the base time when both times parse, else
/// the raw timestamp, placed after every bookmark.
pub open spec fn elapsed_of(base: Option<nat>, ts: Seq<char>) -> (Seq<char>, int) {
    match (base, timestamp_ms(ts)) {
        (Some(b), Some(t)) => {
            let diff = if t >= b { (t - b) as nat } else { 0 };
            (mmss(diff / 1000), as_i64(diff))
        },
        _ => (ts, i64::MAX as int),
    }
}

/// The markers of the bookmarks from `bi` on whose offset is at most
/// `limit`, and the position of the first bookmark left.
pub open spec fn markers_upto(bs: Seq<ExportBookmark>, bi: int, limit: int) -> (Seq<char>, int)
    decreases bs.len() - bi,
{
    if 0 <= bi < bs.len() && bs[bi].offset_ms <= limit {
        let (m, next) = markers_upto(bs, bi + 1, limit);
        (bookmark_marker(bs[bi]) + m, next)
    } else {
        (Seq::empty(), bi)
    }
}

/// The markers of the bookmarks from `bi` on.
pub open spec fn markers_from(bs: Seq<ExportBookmark>, bi: int) -> Seq<char>
    decreases bs.len() - bi,
{
    if 0 <= bi < bs.len() {
        bookmark_marker(bs[bi]) + markers_from(bs, bi + 1)
    } else {
        Seq::empty()
    }
}

pub open spec fn utterance_line(elapsed: Seq<char>, u: ExportUtterance) -> Seq<char> {
    "**["@ + elapsed + "] "@ + speaker_of(u) + ":** "@ + u.text@ + "\n\n"@
}

/// The transcript text after the first `k` utterances, each preceded by the
/// bookmarks that fall before it, and the first bookmark not yet shown.
pub open spec fn transcript_state(us: Seq<ExportUtterance>, bs: Seq<ExportBookmark>, base: Option<nat>, k: int) -> (Seq<char>, int)
    decreases k,
{
    if k <= 0 {
        (Seq::empty(), 0)
    } else {
        let (t, bi) = transcript_state(us, bs, base, k - 1);
        let (el, ems) = elapsed_of(base, us[k - 1].timestamp@);
        let (m, next) = markers_upto(bs, bi, ems);
        (t + m + utterance_line(el, us[k - 1]), next)
    }
}

/// The base time of the transcript: the session start, else the first
/// utterance's time.
pub open spec fn base_time(d: ExportData) -> Option<nat> {
    match timestamp_ms(d.started_at@) {
        Some(b) => Some(b),
        None => timestamp_ms(d.utterances@[0].timestamp@),
    }
}

/// The transcript section, when it is included and not empty.
pub open spec fn md_transcript(d: ExportData, shown: bool) -> Seq<char> {
    if shown && d.utterances@.len() > 0 {
        let (t, bi) = transcript_state(d.utterances@, d.bookmarks@, base_time(d), d.utterances@.len() as int);
        "## Transcript\n\n"@ + t + markers_from(d.bookmarks@, bi)
    } else {
        Seq::empty()
    }
}

/// The whole Markdown document; `duration` is the session length in whole
/// seconds as text, when known.
pub open spec fn markdown_of(d: ExportData, o: ExportOptions, duration: Option<Seq<char>>) -> Seq<char> {
    md_front_matter(d, duration) + md_heading(d) + (if o.include_summary && d.summary is Some {
        md_summary(d.summary.unwrap(), o.include_action_items)
    } else {
        Seq::empty()
    }) + md_bookmarks(d.bookmarks@) + md_transcript(d, o.include_transcript)
}

fn push_bullets(md: &mut String, items: &Vec<String>)
    ensures
        final(md)@ == old(md)@ + bullets(views(items@)),
{
    let ghost start = md@;
    let mut k: usize = 0;
    while k < items.len()
        invariant
            k <= items@.len(),
            md@ == start + bullets(views(items@).subrange(0, k as int)),
        decreases items@.len() - k,
    {
        let ghost before = md@;
        md.append("- ");
        md.append(items[k].as_str());
        md.append("\n");
        proof {
            let s = views(items@).subrange(0, k + 1);
            assert(s.drop_last() =~= views(items@).subrange(0, k as int));
            assert(s.last() == items@[k as int]@);
            assert(md@ =~= start + bullets(s));
        }
        k += 1;
    }
    assert(views(items@).subrange(0, k as int) =~= views(items@));
}

fn push_action_items(md: &mut String, items: &Vec<ExportActionItem>)
    ensures
        final(md)@ == old(md)@ + action_lines(items@),
{
    let ghost start = md@;
    let mut k: usize = 0;
    while k < items.len()
        invariant
            k <= items@.len(),
            md@ == start + action_lines(items@.subrange(0, k as int)),
        decreases items@.len() - k,
    {
        let a = &items[k];
        md.append("- [ ] ");
        md.append(a.description.as_str());
        match &a.owner {
            Some(o) => {
                md.append(" (@");
                md.append(o.as_str());
                md.append(")\n");
            },
            None => {
                md.append("\n");
            },
        }
        proof {
            let s = items@.subrange(0, k + 1);
            assert(s.drop_last() =~= items@.subrange(0, k as int));
            assert(s.last() == items@[k as int]);
            assert(md@ =~= start + action_lines(s));
        }
        k += 1;
    }
    assert(items@.subrange(0, k as int) =~= items@);
}

fn push_summary(md: &mut String, s: &ExportSummary, include_action_items: bool)
    ensures
        final(md)@ == old(md)@ + md_summary(*s, include_action_items),
{
    let ghost start = md@;
    md.append("## Summary\n\n");
    md.append(s.tldr.as_str());
    md.append("\n\n");
    let ghost a = md@;
    assert(a =~= start + ("## Summary\n\n"@ + s.tldr@ + "\n\n"@));
    if s.key_decisions.len() > 0 {
        md.append("### Key Decisions\n\n");
        push_bullets(md, &s.key_decisions);
        md.append("\n");
    }
    let ghost b = md@;
    assert(b =~= a + md_decisions(*s));
    if include_action_items && s.action_items.len() > 0 {
        md.append("### Action Items\n\n");
        push_action_items(md, &s.action_items);
        md.append("\n");
    }
    let ghost c = md@;
    assert(c =~= b + md_actions(*s, include_action_items));
    if s.open_questions.len() > 0 {
        md.append("### Open Questions\n\n");
        push_bullets(md, &s.open_questions);
        md.append("\n");
    }
    assert(md@ =~= c + md_questions(*s));
    assert(md@ =~= start + md_summary(*s, include_action_items));
}

fn push_bookmark_marker(md: &mut String, b: &ExportBookmark)
    ensures
        final(md)@ == old(md)@ + bookmark_marker(*b),
{
    let ghost start = md@;
    md.append("> **[Bookmark ");
    push_mmss(md, bookmark_seconds(b.offset_ms));
    md.append("]** ");
    md.append(str_or(&b.note, ""));
    md.append("\n\n");
    assert(md@ =~= start + bookmark_marker(*b));
}

fn push_bookmarks_section(md: &mut String, bs: &Vec<ExportBookmark>)
    ensures
        final(md)@ == old(md)@ + md_bookmarks(bs@),
{
    if bs.len() == 0 {
        assert(old(md)@ + md_bookmarks(bs@) =~= old(md)@);
        return;
    }
    let ghost start = md@;
    md.append("## Bookmarks\n\n");
    let ghost head = md@;
    let mut k: usize = 0;
    while k < bs.len()
        invariant
            k <= bs@.len(),
            md@ == head + bookmark_items(bs@.subrange(0, k as int)),
        decreases bs@.len() - k,
    {
        let b = &bs[k];
        md.append("- **[");
        push_mmss(md, bookmark_seconds(b.offset_ms));
        md.append("]** ");
        md.append(str_or(&b.note, ""));
        md.append("\n");
        proof {
            let s = bs@.subrange(0, k + 1);
            assert(s.drop_last() =~= bs@.subrange(0, k as int));
            assert(s.last() == bs@[k as int]);
            assert(md@ =~= head + bookmark_items(s));
        }
        k += 1;
    }
    assert(bs@.subrange(0, k as int) =~= bs@);
    md.append("\n");
    assert(md@ =~= start + md_bookmarks(bs@));
}

fn elapsed(base: Option<u64>, ts: &str) -> (r: (String, i64))
    ensures
        (r.0@, r.1 as int) == elapsed_of(
            match base {
                Some(b) => Some(b as nat),
                None => None,
            },
            ts@,
        ),
{
    match (base, parse_timestamp(ts)) {
        (Some(b), Some(t)) => {
            let diff = t.saturating_sub(b);
            let mut s = String::new();
            push_mmss(&mut s, diff / 1000);
            assert(s@ =~= mmss((diff / 1000) as nat));
            let ms: i64 = if diff <= i64::MAX as u64 {
                diff as i64
            } else {
                (diff - (i64::MAX as u64) - 1) as i64 + i64::MIN
            };
            (s, ms)
        },
        _ => (ts.to_owned(), i64::MAX),
    }
}

/// Shows the bookmarks from `bi` on whose offset is at most `limit`;
/// returns the first bookmark left.
fn push_markers_upto(md: &mut String, bs: &Vec<ExportBookmark>, bi: usize, limit: i64) -> (r: usize)
    requires
        bi <= bs@.len(),
    ensures
        (final(md)@, r as int) == ({
            let (m, next) = markers_upto(bs@, bi as int, limit as int);
            (old(md)@ + m, next)
        }),
        bi <= r <= bs@.len(),
{
    let ghost start = md@;
    let mut j = bi;
    while j < bs.len() && bs[j].offset_ms <= limit
        invariant
            bi <= j <= bs@.len(),
            markers_upto(bs@, bi as int, limit as int) == ({
                let (m, next) = markers_upto(bs@, j as int, limit as int);
                (md@.subrange(start.len() as int, md@.len() as int) + m, next)
            }),
            md@.subrange(0, start.len() as int) == start,
            start.len() <= md@.len(),
        decreases bs@.len() - j,
    {
        let ghost before = md@;
        push_bookmark_marker(md, &bs[j]);
        proof {
            let (m1, n1) = markers_upto(bs@, j + 1, limit as int);
            assert(markers_upto(bs@, j as int, limit as int) == (bookmark_marker(bs@[j as int]) + m1, n1));
            assert(md@.subrange(start.len() as int, md@.len() as int) =~= before.subrange(
                start.len() as int,
                before.len() as int,
            ) + bookmark_marker(bs@[j as int]));
            assert(md@.subrange(0, start.len() as int) =~= before.subrange(0, start.len() as int));
        }
        j += 1;
    }
    proof {
        assert(markers_upto(bs@, j as int, limit as int) == (Seq::<char>::empty(), j as int));
        assert(md@ =~= start + md@.subrange(start.len() as int, md@.len() as int));
        assert(md@.subrange(start.len() as int, md@.len() as int) + Seq::<char>::empty()
            =~= md@.subrange(start.len() as int, md@.len() as int));
    }
    j
}

proof fn lemma_transcript_step(us: Seq<ExportUtterance>, bs: Seq<ExportBookmark>, base: Option<nat>, k: int, el: Seq<char>, ems: int)
    requires
        0 <= k < us.len(),
        (el, ems) == elapsed_of(base, us[k].timestamp@),
    ensures
        transcript_state(us, bs, base, k + 1) == ({
            let (t0, b0) = transcript_state(us, bs, base, k);
            let (m, next) = markers_upto(bs, b0, ems);
            (t0 + m + utterance_line(el, us[k]), next)
        }),
{
}

#[verifier::rlimit(40)]
fn push_transcript(md: &mut String, d: &ExportData)
    requires
        d.utterances@.len() > 0,
    ensures
        final(md)@ == old(md)@ + md_transcript(*d, true),
{
    let ghost start = md@;
    md.append("## Transcript\n\n");
    let ghost head = md@;
    let base = match parse_timestamp(d.started_at.as_str()) {
        Some(b) => Some(b),
        None => parse_timestamp(d.utterances[0].timestamp.as_str()),
    };
    let ghost gb = base_time(*d);
    assert(gb == match base {
        Some(b) => Some(b as nat),
        None => None,
    });
    let mut bi: usize = 0;
    let mut k: usize = 0;
    while k < d.utterances.len()
        invariant
            k <= d.utterances@.len(),
            bi <= d.bookmarks@.len(),
            gb == match base {
                Some(b) => Some(b as nat),
                None => None,
            },
            ({
                let (t, b) = transcript_state(d.utterances@, d.bookmarks@, gb, k as int);
                &&& md@ == head + t
                &&& bi == b
            }),
        decreases d.utterances@.len() - k,
    {
        let u = &d.utterances[k];
        let (el, ems) = elapsed(base, u.timestamp.as_str());
        let ghost before = md@;
        bi = push_markers_upto(md, &d.bookmarks, bi, ems);
        md.append("**[");
        md.append(el.as_str());
        md.append("] ");
        md.append(str_or(&u.speaker, u.source.as_str()));
        md.append(":** ");
        md.append(u.text.as_str());
        md.append("\n\n");
        proof {
            lemma_transcript_step(d.utterances@, d.bookmarks@, gb, k as int, el@, ems as int);
            let (t0, b0) = transcript_state(d.utterances@, d.bookmarks@, gb, k as int);
            let (m, next) = markers_upto(d.bookmarks@, b0, ems as int);
            assert(md@ =~= head + (t0 + m + utterance_line(el@, d.utterances@[k as int])));
        }
        k += 1;
    }
    let ghost mid = md@;
    let mut j = bi;
    while j < d.bookmarks.len()
        invariant
            bi <= j <= d.bookmarks@.len(),
            md@ + markers_from(d.bookmarks@, j as int) == mid + markers_from(
                d.bookmarks@,
                bi as int,
            ),
        decreases d.bookmarks@.len() - j,
    {
        let ghost before = md@;
        push_bookmark_marker(md, &d.bookmarks[j]);
        proof {
            assert(markers_from(d.bookmarks@, j as int) == bookmark_marker(d.bookmarks@[j as int])
                + markers_from(d.bookmarks@, j + 1));
            assert(md@ + markers_from(d.bookmarks@, j + 1) =~= before + markers_from(
                d.bookmarks@,
                j as int,
            ));
        }
        j += 1;
    }
    proof {
        assert(markers_from(d.bookmarks@, j as int) =~= Seq::<char>::empty());
        assert(md@ =~= md@ + Seq::<char>::empty());
        assert(md@ =~= start + md_transcript(*d, true));
    }
}

/// The session as Markdown: YAML front matter (title, date, meeting app,
/// duration, session id), title and date, then the summary, bookmarks and
/// transcript sections. Transcript times are `MM:SS` from the session
/// start, and each bookmark is shown before the first utterance that comes
/// after it. `duration_text` is the session length in whole seconds, as
/// text, when it is known.
pub fn export_markdown(data: &ExportData, options: &ExportOptions, duration_text: Option<&str>) -> (r: String)
    ensures
        r@ == markdown_of(
            *data,
            *options,
            match duration_text {
                Some(t) => Some(t@),
                None => None,
            },
        ),
{
    let mut md = String::new();
    md.append("---\n");
    md.append("title: \"");
    md.append(str_or(&data.title, data.session_id.as_str()));
    md.append("\"\n");
    md.append("date: ");
    md.append(data.started_at.as_str());
    md.append("\n");
    if let Some(app) = &data.meeting_app {
        md.append("meeting_app: ");
        md.append(app.as_str());
        md.append("\n");
    }
    if let Some(t) = duration_text {
        md.append("duration_seconds: ");
        md.append(t);
        md.append("\n");
    }
    md.append("session_id: ");
    md.append(data.session_id.as_str());
    md.append("\n");
    md.append("---\n\n");
    let ghost fm = md@;
    assert(fm =~= md_front_matter(
        *data,
        match duration_text {
            Some(t) => Some(t@),
            None => None,
        },
    ));
    md.append("# ");
    md.append(str_or(&data.title, "Meeting Transcript"));
    md.append("\n\n");
    md.append("**Date:** ");
    md.append(data.started_at.as_str());
    md.append("\n\n");
    assert(md@ =~= fm + md_heading(*data));
    let ghost h = md@;
    if options.include_summary {
        if let Some(s) = &data.summary {
            push_summary(&mut md, s, options.include_action_items);
        }
    }
    let ghost sm = md@;
    push_bookmarks_section(&mut md, &data.bookmarks);
    let ghost bk = md@;
    if options.include_transcript && data.utterances.len() > 0 {
        push_transcript(&mut md, data);
    }
    proof {
        assert(md@ == bk + md_transcript(*data, options.include_transcript));
        assert(md@ =~= markdown_of(
            *data,
            *options,
            match duration_text {
                Some(t) => Some(t@),
                None => None,
            },
        ));
    }
    md
}

// ---------------------------------------------------------------------------
// Plain text
// ---------------------------------------------------------------------------

pub open spec fn repeat_char(c: char, n: nat) -> Seq<char>
    decreases n,
{
    if n == 0 {
        Seq::empty()
    } else {
        repeat_char(c, (n - 1) as nat).push(c)
    }
}

pub open spec fn plain_transcript_lines(us: Seq<ExportUtterance>) -> Seq<char>
    decreases us.len(),
{
    if us.len() == 0 {
        Seq::empty()
    } else {
        plain_transcript_lines(us.drop_last()) + "["@ + us.last().timestamp@ + "] "@ + speaker_of(
            us.last(),
        ) + ": "@ + us.last().text@ + "\n"@
    }
}

/// The session as plain text: the title underlined with `=` (one per byte
/// of the title), the date, the duration in minutes when known (given as
/// text), then the summary and transcript sections.
pub open spec fn plain_text_of(d: ExportData, o: ExportOptions, minutes: Option<Seq<char>>) -> Seq<char> {
    let title = text_or(d.title, "Meeting Transcript"@);
    title + "\n"@ + repeat_char('=', vstd::utf8::encode_utf8(title).len()) + "\nDate: "@ + d.started_at@
        + "\n"@ + match minutes {
        Some(m) => "Duration: "@ + m + " minutes\n"@,
        None => Seq::empty(),
    } + "\n"@ + (if o.include_summary && d.summary is Some {
        "SUMMARY\n-------\n"@ + d.summary.unwrap().tldr@ + "\n\n"@
    } else {
        Seq::empty()
    }) + (if o.include_transcript {
        "TRANSCRIPT\n----------\n"@ + plain_transcript_lines(d.utterances@)
    } else {
        Seq::empty()
    })
}

/// The session as plain text (see [`plain_text_of`]); `minutes_text` is
/// the duration in whole minutes, as text, when known.
pub fn generate_text(data: &ExportData, options: &ExportOptions, minutes_text: Option<&str>) -> (r: String)
    ensures
        r@ == plain_text_of(
            *data,
            *options,
            match minutes_text {
                Some(t) => Some(t@),
                None => None,
            },
        ),
{
    let title = str_or(&data.title, "Meeting Transcript");
    let mut text = String::new();
    text.append(title);
    text.append("\n");
    let ghost head = text@;
    let n = title.as_bytes().len();
    let mut i: usize = 0;
    while i < n
        invariant
            i <= n,
            n == vstd::utf8::encode_utf8(title@).len(),
            text@ == head + repeat_char('=', i as nat),
        decreases n - i,
    {
        push_char(&mut text, '=');
        i += 1;
    }
    text.append("\nDate: ");
    text.append(data.started_at.as_str());
    text.append("\n");
    if let Some(m) = minutes_text {
        text.append("Duration: ");
        text.append(m);
        text.append(" minutes\n");
    }
    text.append("\n");
    let ghost top = text@;
    if options.include_summary {
        if let Some(s) = &data.summary {
            text.append("SUMMARY\n-------\n");
            text.append(s.tldr.as_str());
            text.append("\n\n");
        }
    }
    let ghost mid = text@;
    if options.include_transcript {
        text.append("TRANSCRIPT\n----------\n");
        let ghost t0 = text@;
        let mut k: usize = 0;
        while k < data.utterances.len()
            invariant
                k <= data.utterances@.len(),
                text@ == t0 + plain_transcript_lines(data.utterances@.subrange(0, k as int)),
            decreases data.utterances@.len() - k,
        {
            let u = &data.utterances[k];
            text.append("[");
            text.append(u.timestamp.as_str());
            text.append("] ");
            text.append(str_or(&u.speaker, u.source.as_str()));
            text.append(": ");
            text.append(u.text.as_str());
            text.append("\n");
            proof {
                let s = data.utterances@.subrange(0, k + 1);
                assert(s.drop_last() =~= data.utterances@.subrange(0, k as int));
                assert(s.last() == data.utterances@[k as int]);
                assert(text@ =~= t0 + plain_transcript_lines(s));
            }
            k += 1;
        }
        assert(data.utterances@.subrange(0, k as int) =~= data.utterances@);
    }
    assert(text@ =~= plain_text_of(
        *data,
        *options,
        match minutes_text {
            Some(t) => Some(t@),
            None => None,
        },
    ));
    text
}

// ---------------------------------------------------------------------------
// Obsidian
// ---------------------------------------------------------------------------

/// Characters kept in a file name; any other becomes `_`.
pub open spec fn filename_char(c: char) -> char {
    if alphanumeric(c) || c == '-' || c == '_' || c == ' ' {
        c
    } else {
        '_'
    }
}

/// A safe file name: each character kept or replaced by `_`, then trimmed.
pub open spec fn sanitized(name: Seq<char>) -> Seq<char> {
    trim(name.map_values(|c: char| filename_char(c)))
}

/// A sanitized file name holds only letters, digits, `-`, `_` and spaces,
/// so no path separator or dot reaches the file system.
pub proof fn lemma_sanitized_is_safe(name: Seq<char>)
    ensures
        forall|i: int|
            0 <= i < sanitized(name).len() ==> alphanumeric(#[trigger] sanitized(name)[i])
                || sanitized(name)[i] == '-' || sanitized(name)[i] == '_' || sanitized(name)[i]
                == ' ',
{
    let m = name.map_values(|c: char| filename_char(c));
    crate::text::lemma_lead_ws_bound(m);
    crate::text::lemma_trail_ws_bound(crate::text::trim_start(m));
    assert forall|i: int| 0 <= i < sanitized(name).len() implies alphanumeric(
        #[trigger] sanitized(name)[i],
    ) || sanitized(name)[i] == '-' || sanitized(name)[i] == '_' || sanitized(name)[i] == ' ' by {
        let k = crate::text::lead_ws(m) + i;
        assert(sanitized(name)[i] == m[k]);
        assert(m[k] == filename_char(name[k]));
    }
}

pub fn sanitize_filename(name: &str) -> (r: String)
    ensures
        r@ == sanitized(name@),
{
    let v = to_chars(name);
    let mut out: Vec<char> = Vec::new();
    let mut i: usize = 0;
    while i < v.len()
        invariant
            i <= v@.len(),
            out@ == v@.subrange(0, i as int).map_values(|c: char| filename_char(c)),
        decreases v@.len() - i,
    {
        let c = v[i];
        let d = if is_alphanumeric(c) || c == '-' || c == '_' || c == ' ' {
            c
        } else {
            '_'
        };
        out.push(d);
        assert(out@ =~= v@.subrange(0, i + 1).map_values(|c: char| filename_char(c)));
        i += 1;
    }
    assert(v@.subrange(0, i as int) =~= v@);
    let (a, b) = trim_bounds(out.as_slice(), 0, out.len());
    assert(out@.subrange(0, out@.len() as int) =~= out@);
    string_of(out.as_slice(), a, b)
}

/// File name of a session's note in an Obsidian vault: its title (else
/// its id), made safe, with `.md` appended.
pub open spec fn obsidian_file_name_of(d: ExportData) -> Seq<char> {
    sanitized(text_or(d.title, d.session_id@)) + ".md"@
}

pub fn obsidian_file_name(data: &ExportData) -> (r: String)
    ensures
        r@ == obsidian_file_name_of(*data),
{
    let mut r = sanitize_filename(str_or(&data.title, data.session_id.as_str()));
    r.append(".md");
    r
}

// ---------------------------------------------------------------------------
// Notion
// ---------------------------------------------------------------------------

/// Kinds of Notion blocks the export makes.
#[derive(Debug, Clone, Copy, PartialEq, Eq, Structural)]
pub enum NotionBlockKind {
    Heading2,
    Heading3,
    Paragraph,
    ToDo,
}

/// A block of a Notion page: its kind and text.
#[derive(Debug, Clone)]
pub struct NotionBlock {
    pub kind: NotionBlockKind,
    pub text: String,
}

/// The Notion page of a session: title, date and blocks.
#[derive(Debug, Clone)]
pub struct NotionPage {
    pub title: String,
    pub date: String,
    pub blocks: Vec<NotionBlock>,
}

/// Most utterances copied to a Notion page.
pub const NOTION_MAX_UTTERANCES: usize = 50;

pub open spec fn block_view(b: NotionBlock) -> (NotionBlockKind, Seq<char>) {
    (b.kind, b.text@)
}

pub open spec fn action_item_blocks(items: Seq<ExportActionItem>) -> Seq<(NotionBlockKind, Seq<char>)> {
    items.map_values(|a: ExportActionItem| (NotionBlockKind::ToDo, a.description@))
}

pub open spec fn notion_line(u: ExportUtterance) -> Seq<char> {
    "["@ + u.timestamp@ + "] "@ + speaker_of(u) + ": "@ + u.text@
}

/// The blocks of a session's page: the summary (heading, TL;DR, and the
/// action items as to-dos when there are some), then the transcript
/// heading and the first [`NOTION_MAX_UTTERANCES`] utterances.
pub open spec fn notion_blocks_of(d: ExportData) -> Seq<(NotionBlockKind, Seq<char>)> {
    let n = if d.utterances@.len() <= 50 { d.utterances@.len() as int } else { 50 };
    (match d.summary {
        Some(s) => seq![(NotionBlockKind::Heading2, "Summary"@), (NotionBlockKind::Paragraph, s.tldr@)]
            + if s.action_items@.len() > 0 {
            seq![(NotionBlockKind::Heading3, "Action Items"@)] + action_item_blocks(s.action_items@)
        } else {
            Seq::empty()
        },
        None => Seq::empty(),
    }) + seq![(NotionBlockKind::Heading2, "Transcript"@)] + d.utterances@.subrange(0, n).map_values(
        |u: ExportUtterance| (NotionBlockKind::Paragraph, notion_line(u)),
    )
}

pub open spec fn notion_page_of(d: ExportData, api_key: Seq<char>, database_id: Seq<char>) -> Result<
    (Seq<char>, Seq<char>, Seq<(NotionBlockKind, Seq<char>)>),
    Seq<char>,
> {
    if api_key.len() == 0 || database_id.len() == 0 {
        Err("Notion API key and database ID are required"@)
    } else {
        Ok((text_or(d.title, d.session_id@), d.started_at@, notion_blocks_of(d)))
    }
}

fn block(kind: NotionBlockKind, text: String) -> (r: NotionBlock)
    ensures
        block_view(r) == (kind, text@),
{
    NotionBlock { kind, text }
}

/// The Notion page for a session, or the error when the API key or the
/// database id is missing.
pub fn notion_page(data: &ExportData, api_key: &str, database_id: &str) -> (r: Result<NotionPage, String>)
    ensures
        match r {
            Ok(p) => notion_page_of(*data, api_key@, database_id@) == Ok::<
                (Seq<char>, Seq<char>, Seq<(NotionBlockKind, Seq<char>)>),
                Seq<char>,
            >((p.title@, p.date@, p.blocks@.map_values(|b: NotionBlock| block_view(b)))),
            Err(m) => notion_page_of(*data, api_key@, database_id@) == Err::<
                (Seq<char>, Seq<char>, Seq<(NotionBlockKind, Seq<char>)>),
                Seq<char>,
            >(m@),
        },
{
    if api_key.is_empty() || database_id.is_empty() {
        return Err("Notion API key and database ID are required".to_owned());
    }
    let ghost bv = |b: NotionBlock| block_view(b);
    let mut blocks: Vec<NotionBlock> = Vec::new();
    let ghost mut expected: Seq<(NotionBlockKind, Seq<char>)> = Seq::empty();
    if let Some(s) = &data.summary {
        blocks.push(block(NotionBlockKind::Heading2, "Summary".to_owned()));
        blocks.push(block(NotionBlockKind::Paragraph, s.tldr.as_str().to_owned()));
        proof {
            expected = seq![(NotionBlockKind::Heading2, "Summary"@), (NotionBlockKind::Paragraph, s.tldr@)];
            assert(blocks@.map_values(bv) =~= expected);
        }
        if s.action_items.len() > 0 {
            blocks.push(block(NotionBlockKind::Heading3, "Action Items".to_owned()));
            proof {
                expected = expected + seq![(NotionBlockKind::Heading3, "Action Items"@)];
                assert(blocks@.map_values(bv) =~= expected);
            }
            let ghost e0 = expected;
            let mut k: usize = 0;
            while k < s.action_items.len()
                invariant
                    k <= s.action_items@.len(),
                    bv == (|b: NotionBlock| block_view(b)),
                    blocks@.map_values(bv) == e0 + action_item_blocks(s.action_items@.subrange(0, k as int)),
                decreases s.action_items@.len() - k,
            {
                let ghost before = blocks@.map_values(bv);
                let b = block(NotionBlockKind::ToDo, s.action_items[k].description.as_str().to_owned());
                blocks.push(b);
                assert(blocks@.map_values(bv) =~= before.push(bv(b)));
                assert(bv(b) == (NotionBlockKind::ToDo, s.action_items@[k as int].description@));
                assert(action_item_blocks(s.action_items@.subrange(0, k + 1)) =~= action_item_blocks(
                    s.action_items@.subrange(0, k as int),
                ).push(bv(b)));
                assert(blocks@.map_values(bv) =~= e0 + action_item_blocks(s.action_items@.subrange(0, k + 1)));
                k += 1;
            }
            assert(s.action_items@.subrange(0, k as int) =~= s.action_items@);
            proof {
                expected = e0 + action_item_blocks(s.action_items@);
            }
        }
    }
    blocks.push(block(NotionBlockKind::Heading2, "Transcript".to_owned()));
    proof {
        assert(blocks@.map_values(bv) =~= expected + seq![(NotionBlockKind::Heading2, "Transcript"@)]);
        expected = expected + seq![(NotionBlockKind::Heading2, "Transcript"@)];
    }
    let n = if data.utterances.len() <= NOTION_MAX_UTTERANCES {
        data.utterances.len()
    } else {
        NOTION_MAX_UTTERANCES
    };
    let ghost e1 = expected;
    let ghost lv = |u: ExportUtterance| (NotionBlockKind::Paragraph, notion_line(u));
    let mut k: usize = 0;
    while k < n
        invariant
            k <= n <= data.utterances@.len(),
            bv == (|b: NotionBlock| block_view(b)),
            lv == (|u: ExportUtterance| (NotionBlockKind::Paragraph, notion_line(u))),
            blocks@.map_values(bv) == e1 + data.utterances@.subrange(0, k as int).map_values(lv),
        decreases n - k,
    {
        let u = &data.utterances[k];
        let mut line = "[".to_owned();
        line.append(u.timestamp.as_str());
        line.append("] ");
        line.append(str_or(&u.speaker, u.source.as_str()));
        line.append(": ");
        line.append(u.text.as_str());
        assert(line@ =~= notion_line(data.utterances@[k as int]));
        let ghost before = blocks@.map_values(bv);
        let b = block(NotionBlockKind::Paragraph, line);
        blocks.push(b);
        assert(blocks@.map_values(bv) =~= before.push(bv(b)));
        assert(bv(b) == lv(data.utterances@[k as int]));
        assert(data.utterances@.subrange(0, k + 1).map_values(lv) =~= data.utterances@.subrange(
            0,
            k as int,
        ).map_values(lv).push(lv(data.utterances@[k as int])));
        assert(blocks@.map_values(bv) =~= e1 + data.utterances@.subrange(0, k + 1).map_values(lv));
        k += 1;
    }
    let title = str_or(&data.title, data.session_id.as_str()).to_owned();
    let date = data.started_at.as_str().to_owned();
    assert(blocks@.map_values(bv) =~= notion_blocks_of(*data));
    Ok(NotionPage { title, date, blocks })
}

} // verus!
