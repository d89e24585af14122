//! Calendar events read from the system calendar store: which events are
//! kept, how they become [`CalendarEvent`]s, and their order (events in
//! progress first, then by the text of their start time).

use vstd::prelude::*;

use crate::calendar::{event_view, opt_string_view, CalendarEvent, EventView};
use crate::text::{decimal, push_char, push_decimal, to_chars};

verus! {

/// An event as the calendar store gives it, with its times in whole
/// seconds since the Unix epoch.
#[derive(Debug, Clone)]
pub struct StoreEvent {
    pub title: String,
    pub all_day: bool,
    pub start_secs: i64,
    pub end_secs: i64,
    pub notes: Option<String>,
    pub location: Option<String>,
}

/// The decimal text of an integer.
pub open spec fn int_text(i: int) -> Seq<char> {
    if i < 0 {
        seq!['-'] + decimal((-i) as nat)
    } else {
        decimal(i as nat)
    }
}

/// The event a store event becomes at time `now`, unless it is left out:
/// all-day events, events that have ended and untitled events are.
pub open spec fn kept_event(e: StoreEvent, now: int) -> Option<EventView> {
    if e.all_day || e.end_secs < now || e.title@.len() == 0 {
        None
    } else {
        Some(
            (
                e.title@,
                int_text(e.start_secs as int),
                int_text(e.end_secs as int),
                opt_string_view(e.notes),
                opt_string_view(e.location),
                e.start_secs <= now,
            ),
        )
    }
}

/// The kept events, in the store's order.
pub open spec fn kept_events(es: Seq<StoreEvent>, now: int) -> Seq<EventView>
    decreases es.len(),
{
    if es.len() == 0 {
        Seq::empty()
    } else {
        let rest = kept_events(es.drop_last(), now);
        match kept_event(es.last(), now) {
            Some(v) => rest.push(v),
            None => rest,
        }
    }
}

/// Text order, character by character (the order of `str`).
pub open spec fn text_lt(a: Seq<char>, b: Seq<char>) -> bool
    decreases a.len(),
{
    if a.len() == 0 {
        b.len() > 0
    } else if b.len() == 0 {
        false
    } else if a[0] != b[0] {
        (a[0] as u32) < (b[0] as u32)
    } else {
        text_lt(a.drop_first(), b.drop_first())
    }
}

/// `a` may come before `b`: events in progress first, then by start text.
pub open spec fn event_le(a: EventView, b: EventView) -> bool {
    (a.5 && !b.5) || (a.5 == b.5 && !text_lt(b.1, a.1))
}

/// Insert `x` after every entry that may come before it (so equal keys
/// keep their order).
pub open spec fn insert_event(sorted: Seq<EventView>, x: EventView) -> Seq<EventView>
    decreases sorted.len(),
{
    if sorted.len() == 0 {
        seq![x]
    } else if event_le(sorted.last(), x) {
        sorted.push(x)
    } else {
        insert_event(sorted.drop_last(), x).push(sorted.last())
    }
}

/// Stable sort of events: in progress first, then by start text.
pub open spec fn sort_events(s: Seq<EventView>) -> Seq<EventView>
    decreases s.len(),
{
    if s.len() == 0 {
        Seq::empty()
    } else {
        insert_event(sort_events(s.drop_last()), s.last())
    }
}

pub open spec fn events_sorted(s: Seq<EventView>) -> bool {
    forall|i: int, j: int| 0 <= i < j < s.len() ==> event_le(s[i], s[j])
}

fn push_int(out: &mut String, i: i64)
    ensures
        final(out)@ == old(out)@ + int_text(i as int),
{
    if i < 0 {
        push_char(out, '-');
        let m: u64 = if i == i64::MIN {
            9_223_372_036_854_775_808u64
        } else {
            (-i) as u64
        };
        push_decimal(out, m);
        assert(final(out)@ =~= old(out)@ + int_text(i as int));
    } else {
        push_decimal(out, i as u64);
    }
}

fn int_string(i: i64) -> (r: String)
    ensures
        r@ == int_text(i as int),
{
    let mut r = String::new();
    push_int(&mut r, i);
    assert(r@ =~= int_text(i as int));
    r
}

fn text_less(a: &str, b: &str) -> (r: bool)
    ensures
        r == text_lt(a@, b@),
{
    let va = to_chars(a);
    let vb = to_chars(b);
    let mut i: usize = 0;
    assert(va@.skip(0) =~= va@);
    assert(vb@.skip(0) =~= vb@);
    while i < va.len() && i < vb.len() && va[i] == vb[i]
        invariant
            i <= va@.len(),
            i <= vb@.len(),
            text_lt(a@, b@) == text_lt(va@.skip(i as int), vb@.skip(i as int)),
            va@ == a@,
            vb@ == b@,
        decreases va@.len() - i,
    {
        assert(va@.skip(i as int).drop_first() =~= va@.skip(i + 1));
        assert(vb@.skip(i as int).drop_first() =~= vb@.skip(i + 1));
        i += 1;
    }
    if i == va.len() {
        assert(va@.skip(i as int).len() == 0);
        i < vb.len()
    } else if i == vb.len() {
        assert(vb@.skip(i as int).len() == 0);
        false
    } else {
        let ca = va[i];
        let cb = vb[i];
        assert(va@.skip(i as int)[0] == ca);
        assert(vb@.skip(i as int)[0] == cb);
        (ca as u32) < (cb as u32)
    }
}

fn comes_before(a: &CalendarEvent, b: &CalendarEvent) -> (r: bool)
    ensures
        r == event_le(event_view(*a), event_view(*b)),
{
    (a.in_progress && !b.in_progress) || (a.in_progress == b.in_progress && !text_less(
        b.start_time.as_str(),
        a.start_time.as_str(),
    ))
}

pub open spec fn views_of(v: Seq<CalendarEvent>) -> Seq<EventView> {
    v.map_values(|e: CalendarEvent| event_view(e))
}

fn insert_sorted(res: &mut Vec<CalendarEvent>, x: CalendarEvent)
    ensures
        views_of(final(res)@) == insert_event(views_of(old(res)@), event_view(x)),
{
    let ghost s = views_of(res@);
    let ghost xv = event_view(x);
    let mut p = res.len();
    assert(s.subrange(0, p as int) =~= s);
    assert(insert_event(s, xv) + Seq::<EventView>::empty() =~= insert_event(s, xv));
    while p > 0 && !comes_before(&res[p - 1], &x)
        invariant
            p <= res@.len(),
            s == views_of(res@),
            xv == event_view(x),
            insert_event(s, xv) == insert_event(s.subrange(0, p as int), xv) + s.subrange(
                p as int,
                s.len() as int,
            ),
        decreases p,
    {
        let ghost q = s.subrange(0, p as int);
        assert(q.last() == s[p - 1]);
        assert(q.drop_last() =~= s.subrange(0, p - 1));
        assert(insert_event(s.subrange(0, p - 1), xv).push(s[p - 1]) + s.subrange(
            p as int,
            s.len() as int,
        ) =~= insert_event(s.subrange(0, p - 1), xv) + s.subrange(p - 1, s.len() as int));
        p -= 1;
    }
    proof {
        let q = s.subrange(0, p as int);
        if p > 0 {
            assert(q.last() == s[p - 1]);
            assert(insert_event(q, xv) == q.push(xv));
        } else {
            assert(insert_event(q, xv) == seq![xv]);
            assert(q.push(xv) =~= seq![xv]);
        }
        assert(insert_event(s, xv) =~= s.insert(p as int, xv));
    }
    res.insert(p, x);
    proof {
        assert(views_of(res@) =~= s.insert(p as int, xv));
    }
}

fn clone_opt(o: &Option<String>) -> (r: Option<String>)
    ensures
        opt_string_view(r) == opt_string_view(*o),
{
    match o {
        Some(s) => Some(s.as_str().to_owned()),
        None => None,
    }
}

/// The current events of the calendar store at time `now_secs`: all-day,
/// ended and untitled events left out, each kept one with its times as
/// decimal text and in progress when it has started; events in progress
/// come first, then by the text of their start time, equal keys in the
/// store's order.
pub fn events_from_store(events: &Vec<StoreEvent>, now_secs: i64) -> (r: Vec<CalendarEvent>)
    ensures
        views_of(r@) == sort_events(kept_events(events@, now_secs as int)),
{
    let ghost es = events@;
    let mut sorted: Vec<CalendarEvent> = Vec::new();
    let mut k: usize = 0;
    while k < events.len()
        invariant
            k <= events@.len(),
            es == events@,
            views_of(sorted@) == sort_events(kept_events(es.subrange(0, k as int), now_secs as int)),
        decreases events@.len() - k,
    {
        let ghost before = es.subrange(0, k as int);
        assert(es.subrange(0, k + 1).drop_last() =~= before);
        assert(es.subrange(0, k + 1).last() == es[k as int]);
        let e = &events[k];
        if !(e.all_day || e.end_secs < now_secs || e.title.as_str().is_empty()) {
            let ev = CalendarEvent {
                title: e.title.as_str().to_owned(),
                start_time: int_string(e.start_secs),
                end_time: int_string(e.end_secs),
                notes: clone_opt(&e.notes),
                location: clone_opt(&e.location),
                in_progress: e.start_secs <= now_secs,
            };
            let ghost kv = kept_events(before, now_secs as int);
            assert(kept_event(es[k as int], now_secs as int) == Some(event_view(ev)));
            assert(kept_events(es.subrange(0, k + 1), now_secs as int) == kv.push(event_view(ev)));
            assert(kv.push(event_view(ev)).drop_last() =~= kv);
            insert_sorted(&mut sorted, ev);
        } else {
            assert(kept_event(es[k as int], now_secs as int) is None);
        }
        k += 1;
    }
    assert(es.subrange(0, k as int) =~= es);
    sorted
}

proof fn lemma_text_lt_irrefl(a: Seq<char>)
    ensures
        !text_lt(a, a),
    decreases a.len(),
{
    if a.len() > 0 {
        lemma_text_lt_irrefl(a.drop_first());
    }
}

proof fn lemma_text_lt_asym(a: Seq<char>, b: Seq<char>)
    ensures
        !(text_lt(a, b) && text_lt(b, a)),
    decreases a.len(),
{
    if a.len() > 0 && b.len() > 0 && a[0] == b[0] {
        lemma_text_lt_asym(a.drop_first(), b.drop_first());
    }
}

proof fn lemma_text_lt_total(a: Seq<char>, b: Seq<char>)
    ensures
        a == b || text_lt(a, b) || text_lt(b, a),
    decreases a.len(),
{
    if a.len() > 0 && b.len() > 0 {
        if a[0] == b[0] {
            lemma_text_lt_total(a.drop_first(), b.drop_first());
            if a.drop_first() == b.drop_first() {
                assert(a =~= seq![a[0]] + a.drop_first());
                assert(b =~= seq![b[0]] + b.drop_first());
            }
        } else {
            vstd::utf8::char_u32_cast(a[0], a[0] as u32);
            vstd::utf8::char_u32_cast(b[0], b[0] as u32);
        }
    } else if a.len() == 0 && b.len() == 0 {
        assert(a =~= b);
    }
}

proof fn lemma_text_lt_trans(a: Seq<char>, b: Seq<char>, c: Seq<char>)
    requires
        text_lt(a, b),
        text_lt(b, c),
    ensures
        text_lt(a, c),
    decreases a.len(),
{
    if a.len() > 0 && b.len() > 0 && c.len() > 0 && a[0] == b[0] && b[0] == c[0] {
        lemma_text_lt_trans(a.drop_first(), b.drop_first(), c.drop_first());
    }
}

proof fn lemma_event_le_total(a: EventView, b: EventView)
    ensures
        event_le(a, b) || event_le(b, a),
{
    lemma_text_lt_asym(a.1, b.1);
}

proof fn lemma_event_le_trans(a: EventView, b: EventView, c: EventView)
    requires
        event_le(a, b),
        event_le(b, c),
    ensures
        event_le(a, c),
{
    if a.5 == b.5 && b.5 == c.5 && text_lt(c.1, a.1) {
        lemma_text_lt_total(b.1, c.1);
        if b.1 != c.1 {
            lemma_text_lt_trans(b.1, c.1, a.1);
        }
    }
}

proof fn lemma_insert_event(s: Seq<EventView>, x: EventView)
    requires
        events_sorted(s),
    ensures
        events_sorted(insert_event(s, x)),
        insert_event(s, x).to_multiset() == s.to_multiset().insert(x),
    decreases s.len(),
{
    broadcast use vstd::seq_lib::group_to_multiset_ensures;
    if s.len() == 0 {
        assert(seq![x] =~= Seq::<EventView>::empty().push(x));
    } else if event_le(s.last(), x) {
        let t = s.push(x);
        assert forall|i: int, j: int| 0 <= i < j < t.len() implies event_le(t[i], t[j]) by {
            if j == t.len() - 1 && i < s.len() - 1 {
                lemma_event_le_trans(s[i], s.last(), x);
            }
        }
    } else {
        let d = s.drop_last();
        assert(events_sorted(d));
        lemma_insert_event(d, x);
        let t = insert_event(d, x);
        assert(s =~= d.push(s.last()));
        lemma_event_le_total(s.last(), x);
        assert forall|i: int| 0 <= i < t.len() implies event_le(t[i], s.last()) by {
            assert(t.to_multiset().contains(t[i]));
            assert(t.to_multiset().count(t[i]) > 0);
            if t[i] != x {
                assert(d.to_multiset().count(t[i]) > 0);
                assert(d.contains(t[i]));
                let k = choose|k: int| 0 <= k < d.len() && d[k] == t[i];
                assert(s[k] == d[k]);
            }
        }
        assert(s.to_multiset() == d.to_multiset().insert(s.last()));
    }
}

/// The store's events come out ordered, in-progress events first and then
/// by start text, and none is lost or repeated.
pub proof fn lemma_sort_events(s: Seq<EventView>)
    ensures
        events_sorted(sort_events(s)),
        sort_events(s).to_multiset() == s.to_multiset(),
    decreases s.len(),
{
    broadcast use vstd::seq_lib::group_to_multiset_ensures;
    if s.len() > 0 {
        lemma_sort_events(s.drop_last());
        lemma_insert_event(sort_events(s.drop_last()), s.last());
        assert(s =~= s.drop_last().push(s.last()));
    }
}

} // verus!
