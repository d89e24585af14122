//! Calendar events: reading the Calendar script's output and picking the
//! event that names a recording session.

use vstd::prelude::*;

use crate::text::{
    chars_of, contains, contains_chars, lowercase, pieces, split, split_chars, to_chars, to_lowercase,
    trim, trim_bounds, trimmed_chars,
};

verus! {

/// A calendar event with the details that matter for a meeting.
#[derive(Debug, Clone)]
pub struct CalendarEvent {
    pub title: String,
    pub start_time: String,
    pub end_time: String,
    pub notes: Option<String>,
    pub location: Option<String>,
    /// Whether the event is currently in progress.
    pub in_progress: bool,
}

/// An event by its texts: title, start, end, notes, location, in progress.
pub type EventView = (Seq<char>, Seq<char>, Seq<char>, Option<Seq<char>>, Option<Seq<char>>, bool);

pub open spec fn opt_string_view(o: Option<String>) -> Option<Seq<char>> {
    match o {
        Some(s) => Some(s@),
        None => None,
    }
}

pub open spec fn event_view(e: CalendarEvent) -> EventView {
    (e.title@, e.start_time@, e.end_time@, opt_string_view(e.notes), opt_string_view(e.location), e.in_progress)
}

/// Field `k` of an entry, trimmed, when it is there and not blank.
pub open spec fn optional_field(parts: Seq<Seq<char>>, k: int) -> Option<Seq<char>> {
    if k < parts.len() && trim(parts[k]).len() > 0 {
        Some(trim(parts[k]))
    } else {
        None
    }
}

/// The event that one `|`-separated entry describes: either
/// `status|title|start|end[|notes[|location]]` or `title|start|end`.
pub open spec fn event_of(parts: Seq<Seq<char>>) -> Option<EventView> {
    if parts.len() >= 4 {
        Some(
            (
                trim(parts[1]),
                trim(parts[2]),
                trim(parts[3]),
                optional_field(parts, 4),
                optional_field(parts, 5),
                trim(parts[0]) == "inprogress"@,
            ),
        )
    } else if parts.len() == 3 {
        Some((trim(parts[0]), trim(parts[1]), trim(parts[2]), None, None, false))
    } else {
        None
    }
}

/// The events described by a list of entries, in order, skipping entries
/// that describe none.
pub open spec fn events_of(entries: Seq<Seq<char>>) -> Seq<EventView>
    decreases entries.len(),
{
    if entries.len() == 0 {
        Seq::empty()
    } else {
        let rest = events_of(entries.drop_last());
        match event_of(split(entries.last(), "|"@)) {
            Some(e) => rest.push(e),
            None => rest,
        }
    }
}

/// The events in the Calendar script's output: entries separated by `||`.
pub open spec fn parsed_events(output: Seq<char>) -> Seq<EventView> {
    if trim(output).len() == 0 {
        Seq::empty()
    } else {
        events_of(split(trim(output), "||"@))
    }
}

/// Field `k` of an entry, trimmed, when it is there and not blank.
fn optional_piece(parts: &Vec<Vec<char>>, k: usize) -> (r: Option<String>)
    ensures
        opt_string_view(r) == optional_field(pieces(parts@), k as int),
{
    if k < parts.len() {
        let t = trimmed_chars(parts[k].as_slice());
        assert(pieces(parts@)[k as int] == parts@[k as int]@);
        if !t.as_str().is_empty() {
            Some(t)
        } else {
            None
        }
    } else {
        None
    }
}

/// The event that one entry describes.
fn parse_entry(entry: &Vec<char>) -> (r: Option<CalendarEvent>)
    ensures
        match r {
            Some(e) => event_of(split(entry@, "|"@)) == Some(event_view(e)),
            None => event_of(split(entry@, "|"@)) is None,
        },
{
    let sep = to_chars("|");
    proof {
        reveal_strlit("|");
    }
    let parts = split_chars(entry.as_slice(), sep.as_slice());
    let ghost ps = pieces(parts@);
    assert(ps == split(entry@, "|"@));
    let n = parts.len();
    if n >= 4 {
        let status = trimmed_chars(parts[0].as_slice());
        let title = trimmed_chars(parts[1].as_slice());
        let start_time = trimmed_chars(parts[2].as_slice());
        let end_time = trimmed_chars(parts[3].as_slice());
        let notes = optional_piece(&parts, 4);
        let location = optional_piece(&parts, 5);
        let in_progress = crate::text::str_eq(status.as_str(), "inprogress");
        assert(ps[0] == parts@[0]@ && ps[1] == parts@[1]@ && ps[2] == parts@[2]@ && ps[3]
            == parts@[3]@);
        Some(CalendarEvent { title, start_time, end_time, notes, location, in_progress })
    } else if n == 3 {
        let title = trimmed_chars(parts[0].as_slice());
        let start_time = trimmed_chars(parts[1].as_slice());
        let end_time = trimmed_chars(parts[2].as_slice());
        assert(ps[0] == parts@[0]@ && ps[1] == parts@[1]@ && ps[2] == parts@[2]@);
        Some(
            CalendarEvent {
                title,
                start_time,
                end_time,
                notes: None,
                location: None,
                in_progress: false,
            },
        )
    } else {
        None
    }
}

/// Reads the Calendar script's output: entries separated by `||`, each
/// either `status|title|start|end|notes|location` (status `inprogress` or
/// `upcoming`) or `title|start|end`; entries of another shape are skipped.
pub fn parse_osascript_output(output: &str) -> (r: Vec<CalendarEvent>)
    ensures
        r@.map_values(|e: CalendarEvent| event_view(e)) == parsed_events(output@),
{
    let v = to_chars(output);
    let (a, b) = trim_bounds(v.as_slice(), 0, v.len());
    assert(v@.subrange(0, v@.len() as int) =~= v@);
    let t = chars_of(v.as_slice(), a, b);
    let mut events: Vec<CalendarEvent> = Vec::new();
    if t.len() == 0 {
        assert(events@.map_values(|e: CalendarEvent| event_view(e)) =~= Seq::<EventView>::empty());
        return events;
    }
    let sep = to_chars("||");
    proof {
        reveal_strlit("||");
    }
    let entries = split_chars(t.as_slice(), sep.as_slice());
    let ghost es = pieces(entries@);
    assert(es == split(trim(output@), "||"@));
    let mut k: usize = 0;
    assert(events@.map_values(|e: CalendarEvent| event_view(e)) =~= events_of(es.subrange(0, 0)));
    while k < entries.len()
        invariant
            k <= entries@.len(),
            es == pieces(entries@),
            events@.map_values(|e: CalendarEvent| event_view(e)) == events_of(es.subrange(0, k as int)),
        decreases entries@.len() - k,
    {
        let parsed = parse_entry(&entries[k]);
        let ghost before = events@.map_values(|e: CalendarEvent| event_view(e));
        assert(es.subrange(0, k + 1).drop_last() =~= es.subrange(0, k as int));
        assert(es.subrange(0, k + 1).last() == entries@[k as int]@);
        match parsed {
            Some(e) => {
                let ghost ev = event_view(e);
                events.push(e);
                assert(events@.map_values(|e: CalendarEvent| event_view(e)) =~= before.push(ev));
            },
            None => {},
        }
        k += 1;
    }
    assert(es.subrange(0, k as int) =~= es);
    events
}

/// The text of an optional field, empty when it is absent.
pub open spec fn text_or_empty(o: Option<String>) -> Seq<char> {
    match o {
        Some(s) => s@,
        None => ""@,
    }
}

/// A text that holds a Zoom, Teams or Google Meet link.
pub open spec fn mentions_meeting_link(t: Seq<char>) -> bool {
    contains(t, "zoom.us"@) || contains(t, "zoommtg://"@) || contains(t, "teams.microsoft"@)
        || contains(t, "meet.google"@)
}

/// An event in progress whose location or notes, lowercased, hold a
/// meeting link.
pub open spec fn is_linked_meeting(e: CalendarEvent) -> bool {
    e.in_progress && (mentions_meeting_link(lowercase(text_or_empty(e.location)))
        || mentions_meeting_link(lowercase(text_or_empty(e.notes))))
}

/// Position of the first event from `from` on that `p` holds of.
pub open spec fn first_event(events: Seq<CalendarEvent>, p: spec_fn(CalendarEvent) -> bool, from: int) -> Option<int>
    decreases events.len() - from,
{
    if from < 0 || from >= events.len() {
        None
    } else if p(events[from]) {
        Some(from)
    } else {
        first_event(events, p, from + 1)
    }
}

/// The title for a session: the first in-progress event with a meeting
/// link, else the first in-progress event, else the first event.
pub open spec fn meeting_title(events: Seq<CalendarEvent>) -> Option<Seq<char>> {
    match first_event(events, |e: CalendarEvent| is_linked_meeting(e), 0) {
        Some(i) => Some(events[i].title@),
        None => match first_event(events, |e: CalendarEvent| e.in_progress, 0) {
            Some(i) => Some(events[i].title@),
            None => if events.len() > 0 {
                Some(events[0].title@)
            } else {
                None
            },
        },
    }
}

fn mentions_link(t: &str) -> (r: bool)
    ensures
        r == mentions_meeting_link(t@),
{
    let v = to_chars(t);
    contains_chars(v.as_slice(), to_chars("zoom.us").as_slice()) || contains_chars(
        v.as_slice(),
        to_chars("zoommtg://").as_slice(),
    ) || contains_chars(v.as_slice(), to_chars("teams.microsoft").as_slice()) || contains_chars(
        v.as_slice(),
        to_chars("meet.google").as_slice(),
    )
}

fn text_of(o: &Option<String>) -> (r: &str)
    ensures
        r@ == text_or_empty(*o),
{
    match o {
        Some(s) => s.as_str(),
        None => "",
    }
}

fn linked_meeting(e: &CalendarEvent) -> (r: bool)
    ensures
        r == is_linked_meeting(*e),
{
    if !e.in_progress {
        return false;
    }
    let loc = to_lowercase(text_of(&e.location));
    let notes = to_lowercase(text_of(&e.notes));
    mentions_link(loc.as_str()) || mentions_link(notes.as_str())
}

/// Picks the title of a session from the current calendar events: an event
/// in progress with a Zoom, Teams or Meet link in its location or notes
/// first, then any event in progress, then the first event.
pub fn find_meeting_title(events: &Vec<CalendarEvent>) -> (r: Option<String>)
    ensures
        opt_string_view(r) == meeting_title(events@),
{
    let ghost evs = events@;
    let mut i: usize = 0;
    while i < events.len()
        invariant
            i <= events@.len(),
            evs == events@,
            first_event(evs, |e: CalendarEvent| is_linked_meeting(e), 0) == first_event(
                evs,
                |e: CalendarEvent| is_linked_meeting(e),
                i as int,
            ),
        decreases events@.len() - i,
    {
        if linked_meeting(&events[i]) {
            return Some(events[i].title.as_str().to_owned());
        }
        i += 1;
    }
    let mut j: usize = 0;
    while j < events.len()
        invariant
            j <= events@.len(),
            evs == events@,
            first_event(evs, |e: CalendarEvent| is_linked_meeting(e), 0) is None,
            first_event(evs, |e: CalendarEvent| e.in_progress, 0) == first_event(
                evs,
                |e: CalendarEvent| e.in_progress,
                j as int,
            ),
        decreases events@.len() - j,
    {
        if events[j].in_progress {
            return Some(events[j].title.as_str().to_owned());
        }
        j += 1;
    }
    if events.len() > 0 {
        Some(events[0].title.as_str().to_owned())
    } else {
        None
    }
}

} // verus!
