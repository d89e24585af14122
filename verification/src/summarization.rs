//! Meeting summary structures and the text handling around the model call.

use vstd::prelude::*;
use vstd::utf8::*;
use vstd::string::StringSliceAdditionalSpecFns;
use crate::text::{
    is_whitespace, is_ws, lemma_boundary_after_ascii, lemma_encode_utf8_concat, string_of, to_chars,
    trim, trim_bounds, trim_end, trail_ws, lemma_trail_ws_bound,
};

verus! {

broadcast use vstd::utf8::group_utf8_lib;

/// Inserted between the kept head and tail of a truncated transcript.
pub const TRUNCATION_MARKER: &'static str = "\n[…truncated for length…]\n";

/// Approximate prompt-input budget for the transcript, in bytes.
pub const MAX_TRANSCRIPT_CHARS: usize = 22_000;

/// Largest index `<= idx` that is a character boundary of `b`
/// (`b.len()` when `idx` is past the end).
pub open spec fn floor_boundary(b: Seq<u8>, idx: int) -> int
    decreases idx,
{
    if idx >= b.len() {
        b.len() as int
    } else if idx <= 0 || is_char_boundary(b, idx) {
        idx
    } else {
        floor_boundary(b, idx - 1)
    }
}

/// Smallest index `>= idx` that is a character boundary of `b`
/// (`b.len()` when none is left).
pub open spec fn ceil_boundary(b: Seq<u8>, idx: int) -> int
    decreases b.len() - idx,
{
    if idx >= b.len() {
        b.len() as int
    } else if is_char_boundary(b, idx) {
        idx
    } else {
        ceil_boundary(b, idx + 1)
    }
}

/// Position of the last newline byte strictly before `end`.
pub open spec fn rfind_newline(b: Seq<u8>, end: int) -> Option<int>
    decreases end,
{
    if end <= 0 {
        None
    } else if b[end - 1] == 10u8 {
        Some(end - 1)
    } else {
        rfind_newline(b, end - 1)
    }
}

/// Position of the first newline byte at or after `start`.
pub open spec fn find_newline(b: Seq<u8>, start: int) -> Option<int>
    decreases b.len() - start,
{
    if start >= b.len() || start < 0 {
        None
    } else if b[start] == 10u8 {
        Some(start)
    } else {
        find_newline(b, start + 1)
    }
}

/// Where the kept head of `b` ends, for a budget of `n` bytes.
pub open spec fn head_end(b: Seq<u8>, n: int) -> int {
    if b.len() <= n {
        b.len() as int
    } else {
        let e = floor_boundary(b, n);
        match rfind_newline(b, e) {
            Some(nl) => if nl >= n / 2 { nl } else { e },
            None => e,
        }
    }
}

/// Where the kept tail of `b` starts, for a budget of `n` bytes.
pub open spec fn tail_start(b: Seq<u8>, n: int) -> int {
    if b.len() <= n {
        0
    } else {
        let st = ceil_boundary(b, b.len() - n);
        match find_newline(b, st) {
            Some(p) => if p + 1 <= b.len() && b.len() - (p + 1) >= n / 2 { p + 1 } else { st },
            None => st,
        }
    }
}

pub open spec fn marker_bytes() -> Seq<u8> {
    encode_utf8(TRUNCATION_MARKER@)
}

/// The bytes of a transcript after truncation to `max` bytes: unchanged when
/// it fits, otherwise 60% of the usable budget from the head, the marker, and
/// the rest of the budget from the tail.
pub open spec fn truncated_bytes(b: Seq<u8>, max: int) -> Seq<u8> {
    if b.len() <= max {
        b
    } else {
        let usable = if max >= marker_bytes().len() { max - marker_bytes().len() } else { 0 };
        let head_budget = (usable * 60) / 100;
        let tail_budget = usable - head_budget;
        b.subrange(0, head_end(b, head_budget)) + marker_bytes() + b.subrange(
            tail_start(b, tail_budget),
            b.len() as int,
        )
    }
}

proof fn lemma_floor_is_boundary(b: Seq<u8>, idx: int)
    requires
        valid_utf8(b),
        0 <= idx,
    ensures
        is_char_boundary(b, floor_boundary(b, idx)),
        0 <= idx ==> 0 <= floor_boundary(b, idx) <= b.len(),
        0 <= idx < b.len() ==> floor_boundary(b, idx) <= idx,
    decreases idx,
{
    if idx >= b.len() {
    } else if idx <= 0 || is_char_boundary(b, idx) {
    } else {
        lemma_floor_is_boundary(b, idx - 1);
    }
}

proof fn lemma_ceil_is_boundary(b: Seq<u8>, idx: int)
    requires
        valid_utf8(b),
        0 <= idx,
    ensures
        is_char_boundary(b, ceil_boundary(b, idx)),
        idx <= b.len() ==> idx <= ceil_boundary(b, idx) <= b.len(),
    decreases b.len() - idx,
{
    if idx >= b.len() {
    } else if is_char_boundary(b, idx) {
    } else {
        lemma_ceil_is_boundary(b, idx + 1);
    }
}

proof fn lemma_rfind_bounds(b: Seq<u8>, end: int)
    requires
        0 <= end <= b.len(),
    ensures
        rfind_newline(b, end) matches Some(j) ==> 0 <= j < end && b[j] == 10u8,
    decreases end,
{
    if end > 0 && b[end - 1] != 10u8 {
        lemma_rfind_bounds(b, end - 1);
    }
}

proof fn lemma_find_bounds(b: Seq<u8>, start: int)
    requires
        0 <= start,
    ensures
        find_newline(b, start) matches Some(j) ==> start <= j < b.len() && b[j] == 10u8,
    decreases b.len() - start,
{
    if start < b.len() && b[start] != 10u8 {
        lemma_find_bounds(b, start + 1);
    }
}

/// Largest character boundary `<= idx` (the length when `idx` is past the end).
fn floor_char_boundary(s: &str, idx: usize) -> (r: usize)
    ensures
        r == floor_boundary(s.spec_bytes(), idx as int),
{
    let len = s.as_bytes().len();
    if idx >= len {
        return len;
    }
    let mut i = idx;
    while i > 0 && !s.is_char_boundary(i)
        invariant
            i <= idx < s.spec_bytes().len(),
            floor_boundary(s.spec_bytes(), idx as int) == floor_boundary(s.spec_bytes(), i as int),
        decreases i,
    {
        i -= 1;
    }
    i
}

/// Smallest character boundary `>= idx` (the length when none is left).
fn ceil_char_boundary(s: &str, idx: usize) -> (r: usize)
    ensures
        r == ceil_boundary(s.spec_bytes(), idx as int),
{
    let len = s.as_bytes().len();
    if idx >= len {
        return len;
    }
    let mut i = idx;
    while i < len && !s.is_char_boundary(i)
        invariant
            idx <= i <= s.spec_bytes().len(),
            len == s.spec_bytes().len(),
            ceil_boundary(s.spec_bytes(), idx as int) == ceil_boundary(s.spec_bytes(), i as int),
        decreases s.spec_bytes().len() - i,
    {
        i += 1;
    }
    i
}

fn last_newline_before(bytes: &[u8], end: usize) -> (r: Option<usize>)
    requires
        end <= bytes@.len(),
    ensures
        r matches Some(j) ==> rfind_newline(bytes@, end as int) == Some(j as int),
        r is None ==> rfind_newline(bytes@, end as int) is None,
{
    let mut j = end;
    while j > 0
        invariant
            j <= end <= bytes@.len(),
            rfind_newline(bytes@, end as int) == rfind_newline(bytes@, j as int),
        decreases j,
    {
        if bytes[j - 1] == 10u8 {
            return Some(j - 1);
        }
        j -= 1;
    }
    None
}

fn first_newline_from(bytes: &[u8], start: usize) -> (r: Option<usize>)
    ensures
        r matches Some(j) ==> find_newline(bytes@, start as int) == Some(j as int),
        r is None ==> find_newline(bytes@, start as int) is None,
{
    let mut j = start;
    while j < bytes.len()
        invariant
            start <= j,
            find_newline(bytes@, start as int) == find_newline(bytes@, j as int),
        decreases bytes@.len() - j,
    {
        if bytes[j] == 10u8 {
            return Some(j);
        }
        j += 1;
    }
    None
}

/// Up to `n` bytes from the start of `s`, ending on the last newline in that
/// range when that keeps at least half of the budget.
fn take_head_chars(s: &str, n: usize) -> (r: &str)
    ensures
        r.spec_bytes() == s.spec_bytes().subrange(0, head_end(s.spec_bytes(), n as int)),
{
    let ghost b = s.spec_bytes();
    let bytes = s.as_bytes();
    if bytes.len() <= n {
        assert(b.subrange(0, b.len() as int) =~= b);
        return s;
    }
    let mut end = floor_char_boundary(s, n);
    proof {
        lemma_floor_is_boundary(b, n as int);
    }
    match last_newline_before(bytes, end) {
        Some(nl) => {
            proof {
                lemma_rfind_bounds(b, end as int);
                assert(is_leading_byte_width_1(b[nl as int]));
                assert(is_char_boundary(b, nl as int));
            }
            if nl >= n / 2 {
                end = nl;
            }
        },
        None => {},
    }
    let (head, _) = s.split_at(end);
    head
}

/// Up to `n` bytes from the end of `s`, starting after the first newline in
/// that range when that keeps at least half of the budget.
fn take_tail_chars(s: &str, n: usize) -> (r: &str)
    ensures
        r.spec_bytes() == s.spec_bytes().subrange(
            tail_start(s.spec_bytes(), n as int),
            s.spec_bytes().len() as int,
        ),
{
    let ghost b = s.spec_bytes();
    let bytes = s.as_bytes();
    let len = bytes.len();
    if len <= n {
        assert(b.subrange(0, b.len() as int) =~= b);
        return s;
    }
    let target = len - n;
    let mut start = ceil_char_boundary(s, target);
    proof {
        lemma_ceil_is_boundary(b, target as int);
    }
    match first_newline_from(bytes, start) {
        Some(nl) => {
            proof {
                lemma_find_bounds(b, start as int);
                assert(is_leading_byte_width_1(b[nl as int]));
                assert(is_char_boundary(b, nl as int));
                lemma_boundary_after_ascii(b, nl as int);
            }
            let candidate = nl + 1;
            if candidate <= len && (len - candidate) >= n / 2 {
                start = candidate;
            }
        },
        None => {},
    }
    let (_, tail) = s.split_at(start);
    tail
}

/// A transcript within the budget is kept as it is; a longer one becomes a
/// head of it, the marker and a tail of it, in that order and without
/// overlap, and it fits the budget whenever the budget holds the marker.
pub proof fn lemma_truncation_budget(b: Seq<u8>, max: int)
    requires
        valid_utf8(b),
        0 <= max,
    ensures
        b.len() <= max ==> truncated_bytes(b, max) == b,
        b.len() > max ==> exists|h: int, t: int|
            0 <= h <= t <= b.len() && truncated_bytes(b, max) == b.subrange(0, h) + marker_bytes()
                + b.subrange(t, b.len() as int),
        b.len() > max && max >= marker_bytes().len() ==> truncated_bytes(b, max).len() <= max,
{
    if b.len() > max {
        let usable = if max >= marker_bytes().len() { max - marker_bytes().len() } else { 0 };
        let hb = (usable * 60) / 100;
        let tb = usable - hb;
        assert(0 <= hb <= usable) by (nonlinear_arith)
            requires
                hb == (usable * 60) / 100,
                usable >= 0,
        ;
        lemma_floor_is_boundary(b, hb);
        lemma_rfind_bounds(b, floor_boundary(b, hb));
        lemma_ceil_is_boundary(b, b.len() - tb);
        lemma_find_bounds(b, ceil_boundary(b, b.len() - tb));
        let h = head_end(b, hb);
        let t = tail_start(b, tb);
        assert(0 <= h <= hb);
        assert(b.len() - tb <= t <= b.len());
        assert(truncated_bytes(b, max) == b.subrange(0, h) + marker_bytes() + b.subrange(
            t,
            b.len() as int,
        ));
    }
}

/// Trim a transcript to at most `max_chars` bytes plus the marker, keeping
/// the beginning and the end and inserting [`TRUNCATION_MARKER`] between them.
/// Cuts only on character boundaries, preferring newlines.
pub fn truncate_transcript(transcript: &str, max_chars: usize) -> (r: String)
    requires
        transcript.spec_bytes().len() <= max_chars || max_chars <= usize::MAX / 60,
    ensures
        encode_utf8(r@) == truncated_bytes(transcript.spec_bytes(), max_chars as int),
{
    if transcript.as_bytes().len() <= max_chars {
        return transcript.to_owned();
    }
    let ml = TRUNCATION_MARKER.as_bytes().len();
    let usable = if max_chars >= ml { max_chars - ml } else { 0 };
    let head_budget = (usable * 60) / 100;
    let tail_budget = usable - head_budget;
    let head = take_head_chars(transcript, head_budget);
    let tail = take_tail_chars(transcript, tail_budget);
    let mut out = head.to_owned();
    out.append(TRUNCATION_MARKER);
    out.append(tail);
    proof {
        lemma_encode_utf8_concat(head@, TRUNCATION_MARKER@);
        lemma_encode_utf8_concat(head@ + TRUNCATION_MARKER@, tail@);
    }
    out
}


/// Structured meeting summary.
#[derive(Debug, Clone)]
pub struct MeetingSummary {
    pub tldr: String,
    pub key_decisions: Vec<String>,
    pub action_items: Vec<ActionItem>,
    pub open_questions: Vec<String>,
}

/// One action item of a summary.
#[derive(Debug, Clone)]
pub struct ActionItem {
    pub description: String,
    pub owner: Option<String>,
}

pub open spec fn fence() -> Seq<char> {
    seq!['`', '`', '`']
}

/// First position of `c` in `s` at or after `from`.
pub open spec fn find_char_from(s: Seq<char>, c: char, from: int) -> Option<int>
    decreases s.len() - from,
{
    if from < 0 || from >= s.len() {
        None
    } else if s[from] == c {
        Some(from)
    } else {
        find_char_from(s, c, from + 1)
    }
}

pub proof fn lemma_find_char_from(s: Seq<char>, c: char, from: int)
    requires
        0 <= from,
    ensures
        find_char_from(s, c, from) matches Some(j) ==> from <= j < s.len() && s[j] == c && forall|
            k: int,
        | from <= k < j ==> s[k] != c,
        find_char_from(s, c, from) is None ==> forall|k: int| from <= k < s.len() ==> s[k] != c,
    decreases s.len() - from,
{
    if from < s.len() && s[from] != c {
        lemma_find_char_from(s, c, from + 1);
    }
}

/// The body of a response wrapped in a single triple-backtick fence (with an
/// optional language tag on the opening line), trimmed; `None` without a fence.
pub open spec fn unfenced(s: Seq<char>) -> Option<Seq<char>> {
    let t = trim(s);
    if t.len() < 3 || t.subrange(0, 3) != fence() {
        None
    } else {
        let a = t.subrange(3, t.len() as int);
        match find_char_from(a, '\n', 0) {
            None => None,
            Some(i) => {
                let l = trim_end(a.subrange(i + 1, a.len() as int));
                if l.len() >= 3 && l.subrange(l.len() - 3, l.len() as int) == fence() {
                    Some(trim(l.subrange(0, l.len() - 3)))
                } else {
                    None
                }
            },
        }
    }
}

fn is_fence_at(v: &[char], i: usize) -> (r: bool)
    requires
        i + 3 <= v@.len(),
    ensures
        r == (v@.subrange(i as int, i + 3) == fence()),
{
    let r = v[i] == '`' && v[i + 1] == '`' && v[i + 2] == '`';
    assert(r ==> v@.subrange(i as int, i + 3) =~= fence());
    assert(v@.subrange(i as int, i + 3) == fence() ==> v@.subrange(i as int, i + 3)[0] == '`'
        && v@.subrange(i as int, i + 3)[1] == '`' && v@.subrange(i as int, i + 3)[2] == '`');
    r
}

/// Remove a single triple-backtick code fence wrapper, if the response is
/// wrapped in one.
#[verifier::rlimit(60)]
pub fn strip_code_fence(s: &str) -> (r: Option<String>)
    ensures
        r matches Some(x) ==> unfenced(s@) == Some(x@),
        r is None ==> unfenced(s@) is None,
{
    let v = to_chars(s);
    let (a, b) = trim_bounds(v.as_slice(), 0, v.len());
    assert(v@.subrange(0, v@.len() as int) =~= v@);
    let ghost t = trim(s@);
    assert(t =~= v@.subrange(a as int, b as int));
    if b - a < 3 {
        return None;
    }
    if !is_fence_at(v.as_slice(), a) {
        assert(t.subrange(0, 3) =~= v@.subrange(a as int, a + 3));
        return None;
    }
    assert(t.subrange(0, 3) =~= v@.subrange(a as int, a + 3));
    let ghost at = t.subrange(3, t.len() as int);
    assert(at =~= v@.subrange(a + 3, b as int));
    let mut i = a + 3;
    while i < b && v[i] != '\n'
        invariant
            a + 3 <= i <= b <= v@.len(),
            find_char_from(at, '\n', 0) == find_char_from(at, '\n', i - a - 3),
            at =~= v@.subrange(a + 3, b as int),
        decreases b - i,
    {
        i += 1;
    }
    if i >= b {
        return None;
    }
    let ghost nl = (i - a - 3) as int;
    assert(find_char_from(at, '\n', 0) == Some(nl));
    let ghost rest = at.subrange(nl + 1, at.len() as int);
    assert(rest =~= v@.subrange(i + 1, b as int));
    let mut e = b;
    while e > i + 1 && is_whitespace(v[e - 1])
        invariant
            i + 1 <= e <= b <= v@.len(),
            trail_ws(rest) == (b - e) + trail_ws(v@.subrange(i + 1, e as int)),
        decreases e,
    {
        assert(v@.subrange(i + 1, e as int).drop_last() =~= v@.subrange(i + 1, e - 1));
        e -= 1;
    }
    assert(trail_ws(v@.subrange(i + 1, e as int)) == 0);
    let ghost l = trim_end(rest);
    assert(l =~= v@.subrange(i + 1, e as int));
    if e - (i + 1) < 3 {
        return None;
    }
    let f = is_fence_at(v.as_slice(), e - 3);
    assert(l.subrange(l.len() - 3, l.len() as int) =~= v@.subrange(e - 3, e as int));
    if !f {
        return None;
    }
    let (x, y) = trim_bounds(v.as_slice(), i + 1, e - 3);
    assert(l.subrange(0, l.len() - 3) =~= v@.subrange(i + 1, e - 3));
    Some(string_of(v.as_slice(), x, y))
}

/// End (exclusive) of the brace block that opens at `start`, given the scan
/// state: nesting depth, inside a string literal, after a backslash.
pub open spec fn brace_scan(b: Seq<u8>, i: int, depth: int, in_string: bool, escape: bool) -> Option<int>
    decreases b.len() - i,
{
    if i < 0 || i >= b.len() {
        None
    } else {
        let c = b[i];
        if in_string {
            if escape {
                brace_scan(b, i + 1, depth, true, false)
            } else if c == 92u8 {
                brace_scan(b, i + 1, depth, true, true)
            } else if c == 34u8 {
                brace_scan(b, i + 1, depth, false, false)
            } else {
                brace_scan(b, i + 1, depth, true, false)
            }
        } else if c == 34u8 {
            brace_scan(b, i + 1, depth, true, escape)
        } else if c == 123u8 {
            brace_scan(b, i + 1, depth + 1, false, escape)
        } else if c == 125u8 {
            if depth - 1 == 0 {
                Some(i)
            } else {
                brace_scan(b, i + 1, depth - 1, false, escape)
            }
        } else {
            brace_scan(b, i + 1, depth, false, escape)
        }
    }
}

/// Index of the `}` that closes the `{` at `start`, skipping braces inside
/// JSON string literals (with backslash escapes).
pub open spec fn matching_brace(b: Seq<u8>, start: int) -> Option<int> {
    brace_scan(b, start, 0, false, false)
}

proof fn lemma_brace_scan_bounds(b: Seq<u8>, i: int, depth: int, in_string: bool, escape: bool)
    requires
        0 <= i,
    ensures
        brace_scan(b, i, depth, in_string, escape) matches Some(e) ==> i <= e < b.len() && b[e]
            == 125u8,
    decreases b.len() - i,
{
    if i < b.len() {
        let c = b[i];
        if in_string {
            if escape {
                lemma_brace_scan_bounds(b, i + 1, depth, true, false);
            } else if c == 92u8 {
                lemma_brace_scan_bounds(b, i + 1, depth, true, true);
            } else if c == 34u8 {
                lemma_brace_scan_bounds(b, i + 1, depth, false, false);
            } else {
                lemma_brace_scan_bounds(b, i + 1, depth, true, false);
            }
        } else if c == 34u8 {
            lemma_brace_scan_bounds(b, i + 1, depth, true, escape);
        } else if c == 123u8 {
            lemma_brace_scan_bounds(b, i + 1, depth + 1, false, escape);
        } else if c == 125u8 {
            if depth - 1 != 0 {
                lemma_brace_scan_bounds(b, i + 1, depth - 1, false, escape);
            }
        } else {
            lemma_brace_scan_bounds(b, i + 1, depth, false, escape);
        }
    }
}

/// Index of the brace closing the one that opens at `start`.
pub fn find_matching_brace(bytes: &[u8], start: usize) -> (r: Option<usize>)
    requires
        start < bytes@.len(),
        bytes@[start as int] == 123u8,
    ensures
        r matches Some(e) ==> matching_brace(bytes@, start as int) == Some(e as int),
        r is None ==> matching_brace(bytes@, start as int) is None,
{
    let ghost b = bytes@;
    let mut depth: usize = 0;
    let mut in_string = false;
    let mut escape = false;
    let mut i = start;
    while i < bytes.len()
        invariant
            start <= i <= b.len(),
            b == bytes@,
            b[start as int] == 123u8,
            i > start ==> depth >= 1,
            i == start ==> depth == 0 && !in_string && !escape,
            depth <= i - start,
            matching_brace(b, start as int) == brace_scan(b, i as int, depth as int, in_string, escape),
        decreases b.len() - i,
    {
        let c = bytes[i];
        if in_string {
            if escape {
                escape = false;
            } else if c == 92u8 {
                escape = true;
            } else if c == 34u8 {
                in_string = false;
            }
        } else {
            if c == 34u8 {
                in_string = true;
            } else if c == 123u8 {
                depth += 1;
            } else if c == 125u8 {
                depth -= 1;
                if depth == 0 {
                    return Some(i);
                }
            }
        }
        i += 1;
    }
    None
}


/// Byte ranges `(start, end)` (end inclusive) of the balanced `{...}` blocks
/// found scanning left to right from `i`; a block's inside is not rescanned.
pub open spec fn json_blocks_from(b: Seq<u8>, i: int) -> Seq<(int, int)>
    decreases b.len() - i,
{
    if i < 0 || i >= b.len() {
        Seq::empty()
    } else if b[i] == 123u8 && matching_brace(b, i) is Some {
        let e = matching_brace(b, i)->0;
        if i <= e < b.len() {
            seq![(i, e)] + json_blocks_from(b, e + 1)
        } else {
            json_blocks_from(b, i + 1)
        }
    } else {
        json_blocks_from(b, i + 1)
    }
}

/// Insert `x` into a list sorted by decreasing length, after every element
/// at least as long (so equal lengths keep their order).
pub open spec fn insert_by_len_desc(sorted: Seq<Seq<u8>>, x: Seq<u8>) -> Seq<Seq<u8>>
    decreases sorted.len(),
{
    if sorted.len() == 0 {
        seq![x]
    } else if sorted.last().len() >= x.len() {
        sorted.push(x)
    } else {
        insert_by_len_desc(sorted.drop_last(), x).push(sorted.last())
    }
}

/// Stable sort by decreasing length.
pub open spec fn sort_by_len_desc(s: Seq<Seq<u8>>) -> Seq<Seq<u8>>
    decreases s.len(),
{
    if s.len() == 0 {
        Seq::empty()
    } else {
        insert_by_len_desc(sort_by_len_desc(s.drop_last()), s.last())
    }
}

pub open spec fn longest_first(s: Seq<Seq<u8>>) -> bool {
    forall|i: int, j: int| 0 <= i < j < s.len() ==> s[i].len() >= s[j].len()
}

proof fn lemma_insert_by_len_desc(s: Seq<Seq<u8>>, x: Seq<u8>)
    requires
        longest_first(s),
    ensures
        longest_first(insert_by_len_desc(s, x)),
        insert_by_len_desc(s, x).to_multiset() == s.to_multiset().insert(x),
    decreases s.len(),
{
    broadcast use vstd::seq_lib::group_to_multiset_ensures;
    if s.len() == 0 {
        assert(seq![x] =~= Seq::<Seq<u8>>::empty().push(x));
    } else if s.last().len() >= x.len() {
    } else {
        let d = s.drop_last();
        assert(longest_first(d));
        lemma_insert_by_len_desc(d, x);
        let t = insert_by_len_desc(d, x);
        assert(s =~= d.push(s.last()));
        assert forall|i: int| 0 <= i < t.len() implies t[i].len() >= s.last().len() by {
            assert(t.to_multiset().contains(t[i]));
            assert(t.to_multiset().count(t[i]) > 0);
            if t[i] != x {
                assert(d.to_multiset().count(t[i]) > 0);
                assert(d.contains(t[i]));
                let k = choose|k: int| 0 <= k < d.len() && d[k] == t[i];
                assert(s[k] == d[k]);
            }
        }
        assert(s.to_multiset() == d.to_multiset().insert(s.last()));
    }
}

/// The candidates are tried longest first, and sorting them keeps every
/// block, each as many times as it occurs.
pub proof fn lemma_candidates_longest_first(s: Seq<Seq<u8>>)
    ensures
        longest_first(sort_by_len_desc(s)),
        sort_by_len_desc(s).to_multiset() == s.to_multiset(),
    decreases s.len(),
{
    broadcast use vstd::seq_lib::group_to_multiset_ensures;
    if s.len() > 0 {
        lemma_candidates_longest_first(s.drop_last());
        lemma_insert_by_len_desc(sort_by_len_desc(s.drop_last()), s.last());
        assert(s =~= s.drop_last().push(s.last()));
    }
}

/// Every balanced `{...}` block of the bytes, longest first.
pub open spec fn json_objects(b: Seq<u8>) -> Seq<Seq<u8>> {
    sort_by_len_desc(json_blocks_from(b, 0).map_values(|r: (int, int)| b.subrange(r.0, r.1 + 1)))
}

pub open spec fn bytes_of_strings(v: Seq<String>) -> Seq<Seq<u8>> {
    v.map_values(|x: String| encode_utf8(x@))
}

fn insert_sorted(res: &mut Vec<String>, x: String)
    ensures
        bytes_of_strings(final(res)@) == insert_by_len_desc(bytes_of_strings(old(res)@), encode_utf8(x@)),
{
    let ghost s = bytes_of_strings(res@);
    let ghost xb = encode_utf8(x@);
    let xl = x.as_str().as_bytes().len();
    let mut p = res.len();
    assert(s.subrange(0, p as int) =~= s);
    assert(s.subrange(p as int, s.len() as int) =~= Seq::<Seq<u8>>::empty());
    assert(insert_by_len_desc(s, xb) + Seq::<Seq<u8>>::empty() =~= insert_by_len_desc(s, xb));
    while p > 0 && res[p - 1].as_str().as_bytes().len() < xl
        invariant
            p <= res@.len(),
            s == bytes_of_strings(res@),
            xl == xb.len(),
            insert_by_len_desc(s, xb) == insert_by_len_desc(s.subrange(0, p as int), xb) + s.subrange(
                p as int,
                s.len() as int,
            ),
            p < s.len() ==> s[p as int].len() < xb.len(),
        decreases p,
    {
        let ghost q = s.subrange(0, p as int);
        assert(q.last() == s[p - 1]);
        assert(q.drop_last() =~= s.subrange(0, p - 1));
        assert(insert_by_len_desc(q, xb) == insert_by_len_desc(q.drop_last(), xb).push(q.last()));
        assert(insert_by_len_desc(s.subrange(0, p - 1), xb).push(s[p - 1]) + s.subrange(p as int, s.len() as int)
            =~= insert_by_len_desc(s.subrange(0, p - 1), xb) + s.subrange(p - 1, s.len() as int));
        p -= 1;
    }
    proof {
        let q = s.subrange(0, p as int);
        if p > 0 {
            assert(q.last() == s[p - 1]);
            assert(insert_by_len_desc(q, xb) == q.push(xb));
        } else {
            assert(insert_by_len_desc(q, xb) == seq![xb]);
            assert(q.push(xb) =~= seq![xb]);
        }
        assert(insert_by_len_desc(s, xb) =~= s.insert(p as int, xb));
    }
    res.insert(p, x);
    proof {
        assert(bytes_of_strings(res@) =~= s.insert(p as int, xb));
    }
}

/// All balanced `{...}` blocks of `s` (braces inside JSON strings do not
/// count), longest first.
pub fn extract_json_objects(s: &str) -> (r: Vec<String>)
    ensures
        bytes_of_strings(r@) == json_objects(s.spec_bytes()),
{
    let ghost b = s.spec_bytes();
    let bytes = s.as_bytes();
    let mut found: Vec<String> = Vec::new();
    let ghost mut ranges: Seq<(int, int)> = Seq::empty();
    let mut i: usize = 0;
    while i < bytes.len()
        invariant
            i <= b.len(),
            bytes@ == b,
            b == s.spec_bytes(),
            json_blocks_from(b, 0) == ranges + json_blocks_from(b, i as int),
            bytes_of_strings(found@) == ranges.map_values(|r: (int, int)| b.subrange(r.0, r.1 + 1)),
        decreases b.len() - i,
    {
        if bytes[i] == 123u8 {
            match find_matching_brace(bytes, i) {
                Some(end) => {
                    proof {
                        lemma_brace_scan_bounds(b, i as int, 0, false, false);
                        assert(is_leading_byte_width_1(b[i as int]));
                        assert(is_char_boundary(b, i as int));
                        assert(is_leading_byte_width_1(b[end as int]));
                        assert(is_char_boundary(b, end as int));
                        lemma_boundary_after_ascii(b, end as int);
                    }
                    let (_, rest) = s.split_at(i);
                    proof {
                        assert(is_char_boundary(rest.spec_bytes(), (end + 1 - i) as int)) by {
                            assert(rest.spec_bytes() =~= b.subrange(i as int, b.len() as int));
                            lemma_boundary_shift(b, i as int, end + 1);
                        }
                    }
                    let (block, _) = rest.split_at(end + 1 - i);
                    let piece = block.to_owned();
                    let ghost fb = bytes_of_strings(found@);
                    let ghost old_map = ranges.map_values(|r: (int, int)| b.subrange(r.0, r.1 + 1));
                    proof {
                        assert(encode_utf8(piece@) =~= b.subrange(i as int, end + 1));
                        let old_ranges = ranges;
                        ranges = ranges.push((i as int, end as int));
                        assert(json_blocks_from(b, i as int) == seq![(i as int, end as int)]
                            + json_blocks_from(b, end + 1));
                        assert(ranges + json_blocks_from(b, end + 1) =~= old_ranges
                            + (seq![(i as int, end as int)] + json_blocks_from(b, end + 1)));
                    }
                    found.push(piece);
                    proof {
                        assert(bytes_of_strings(found@) =~= fb.push(encode_utf8(piece@)));
                        assert(ranges.map_values(|r: (int, int)| b.subrange(r.0, r.1 + 1)) =~= old_map.push(
                            b.subrange(i as int, end + 1),
                        ));
                        assert(bytes_of_strings(found@) =~= ranges.map_values(
                            |r: (int, int)| b.subrange(r.0, r.1 + 1),
                        ));
                    }
                    i = end + 1;
                    continue;
                },
                None => {},
            }
        }
        i += 1;
    }
    assert(json_blocks_from(b, i as int) =~= Seq::<(int, int)>::empty());
    assert(ranges + Seq::<(int, int)>::empty() =~= ranges);
    let mut res: Vec<String> = Vec::new();
    let mut k: usize = 0;
    let ghost all = bytes_of_strings(found@);
    while k < found.len()
        invariant
            k <= found@.len(),
            all == bytes_of_strings(found@),
            bytes_of_strings(res@) == sort_by_len_desc(all.subrange(0, k as int)),
        decreases found@.len() - k,
    {
        let x = found[k].clone();
        insert_sorted(&mut res, x);
        proof {
            let t = all.subrange(0, k + 1);
            assert(t.drop_last() =~= all.subrange(0, k as int));
            assert(t.last() == all[k as int]);
        }
        k += 1;
    }
    assert(all.subrange(0, k as int) =~= all);
    res
}

proof fn lemma_boundary_shift(b: Seq<u8>, i: int, j: int)
    requires
        valid_utf8(b),
        0 <= i <= j <= b.len(),
        is_char_boundary(b, i),
        is_char_boundary(b, j),
    ensures
        is_char_boundary(b.subrange(i, b.len() as int), j - i),
{
    let r = b.subrange(i, b.len() as int);
    assert(valid_utf8(r));
    if j - i < r.len() {
        assert(r[j - i] == b[j]);
        is_char_boundary_iff_not_is_continuation_byte(b, j);
        is_char_boundary_iff_not_is_continuation_byte(r, j - i);
    } else {
        assert(j - i == r.len());
        is_char_boundary_start_end_of_seq(r);
    }
}


pub open spec fn is_sentence_end(c: char) -> bool {
    c == '.' || c == '!' || c == '?' || c == '\n'
}

/// End (exclusive) of the text once `n` sentence terminators have been seen
/// from position `i` on, `count` having been seen before it.
pub open spec fn sentences_end(t: Seq<char>, i: int, count: int, n: int) -> int
    decreases t.len() - i,
{
    if i < 0 || i >= t.len() {
        t.len() as int
    } else if is_sentence_end(t[i]) {
        if count + 1 >= n {
            i + 1
        } else {
            sentences_end(t, i + 1, count + 1, n)
        }
    } else {
        sentences_end(t, i + 1, count, n)
    }
}

proof fn lemma_sentences_end_bounds(t: Seq<char>, i: int, count: int, n: int)
    requires
        0 <= i,
    ensures
        i <= t.len() ==> i <= sentences_end(t, i, count, n) <= t.len(),
    decreases t.len() - i,
{
    if i < t.len() {
        if !(is_sentence_end(t[i]) && count + 1 >= n) {
            if is_sentence_end(t[i]) {
                lemma_sentences_end_bounds(t, i + 1, count + 1, n);
            } else {
                lemma_sentences_end_bounds(t, i + 1, count, n);
            }
        }
    }
}

/// The first `n` sentences (ended by `.`, `!`, `?` or a newline) of the
/// trimmed text, trimmed again.
pub open spec fn first_sentences_spec(s: Seq<char>, n: int) -> Seq<char> {
    let t = trim(s);
    trim(t.subrange(0, sentences_end(t, 0, 0, n)))
}

fn sentences_end_at(v: &[char], a: usize, b: usize, n: usize) -> (end: usize)
    requires
        a <= b <= v@.len(),
    ensures
        end == a + sentences_end(v@.subrange(a as int, b as int), 0, 0, n as int),
{
    let ghost t = v@.subrange(a as int, b as int);
    let mut count: usize = 0;
    let mut i = a;
    while i < b
        invariant
            a <= i <= b <= v@.len(),
            t == v@.subrange(a as int, b as int),
            count <= i - a,
            sentences_end(t, 0, 0, n as int) == sentences_end(t, i - a, count as int, n as int),
        decreases b - i,
    {
        let ch = v[i];
        assert(t[i - a] == ch);
        if ch == '.' || ch == '!' || ch == '?' || ch == '\n' {
            count += 1;
            if count >= n {
                return i + 1;
            }
        }
        i += 1;
    }
    b
}

/// The first `n` sentences of `s`, trimmed.
pub fn first_sentences(s: &str, n: usize) -> (r: String)
    ensures
        r@ == first_sentences_spec(s@, n as int),
{
    let v = to_chars(s);
    let (a, b) = trim_bounds(v.as_slice(), 0, v.len());
    assert(v@.subrange(0, v@.len() as int) =~= v@);
    let ghost t = trim(s@);
    assert(t =~= v@.subrange(a as int, b as int));
    let end = sentences_end_at(v.as_slice(), a, b, n);
    assert(end == a + sentences_end(t, 0, 0, n as int));
    proof {
        lemma_sentences_end_bounds(t, 0, 0, n as int);
        assert(t.subrange(0, sentences_end(t, 0, 0, n as int)) =~= v@.subrange(
            a as int,
            a + sentences_end(t, 0, 0, n as int),
        ));
    }
    let (x, y) = trim_bounds(v.as_slice(), a, end);
    string_of(v.as_slice(), x, y)
}

/// The texts tried, in order, as a JSON summary: the trimmed response, the
/// body of its code fence if it has one, then every balanced `{...}` block,
/// longest first.
pub open spec fn summary_candidates_spec(s: &str) -> Seq<Seq<u8>> {
    seq![encode_utf8(trim(s@))] + (match unfenced(s@) {
        Some(x) => seq![encode_utf8(x)],
        None => Seq::empty(),
    }) + json_objects(s.spec_bytes())
}

pub fn summary_candidates(response: &str) -> (r: Vec<String>)
    ensures
        bytes_of_strings(r@) == summary_candidates_spec(response),
{
    let mut r: Vec<String> = Vec::new();
    let t = crate::text::trimmed(response);
    r.push(t);
    let ghost c0 = bytes_of_strings(r@);
    assert(c0 =~= seq![encode_utf8(trim(response@))]);
    match strip_code_fence(response) {
        Some(x) => {
            r.push(x);
        },
        None => {},
    }
    let ghost c1 = bytes_of_strings(r@);
    assert(c1 =~= seq![encode_utf8(trim(response@))] + (match unfenced(response@) {
        Some(x) => seq![encode_utf8(x)],
        None => Seq::<Seq<u8>>::empty(),
    }));
    let objs = extract_json_objects(response);
    let mut k: usize = 0;
    while k < objs.len()
        invariant
            k <= objs@.len(),
            bytes_of_strings(r@) == c1 + bytes_of_strings(objs@).subrange(0, k as int),
        decreases objs@.len() - k,
    {
        let ghost before = bytes_of_strings(r@);
        r.push(objs[k].clone());
        assert(bytes_of_strings(r@) =~= before.push(encode_utf8(objs@[k as int]@)));
        assert(bytes_of_strings(objs@).subrange(0, k + 1) =~= bytes_of_strings(objs@).subrange(
            0,
            k as int,
        ).push(encode_utf8(objs@[k as int]@)));
        k += 1;
    }
    assert(bytes_of_strings(objs@).subrange(0, k as int) =~= bytes_of_strings(objs@));
    r
}

/// A summary whose TL;DR is the first three sentences of the response, with
/// no decisions, action items or questions.
pub fn fallback_summary(response: &str) -> (r: MeetingSummary)
    ensures
        r.tldr@ == first_sentences_spec(response@, 3),
        r.key_decisions@.len() == 0,
        r.action_items@.len() == 0,
        r.open_questions@.len() == 0,
{
    MeetingSummary {
        tldr: first_sentences(response, 3),
        key_decisions: Vec::new(),
        action_items: Vec::new(),
        open_questions: Vec::new(),
    }
}

/// Index of the first parsed candidate.
pub open spec fn first_parsed(parsed: Seq<Option<MeetingSummary>>, i: int) -> Option<int>
    decreases parsed.len() - i,
{
    if i < 0 || i >= parsed.len() {
        None
    } else if parsed[i] is Some {
        Some(i)
    } else {
        first_parsed(parsed, i + 1)
    }
}

/// The summary of a model response, given the result of parsing each of
/// [`summary_candidates`] as JSON: the first candidate that parsed, or else
/// [`fallback_summary`].
pub fn parse_summary_response(response: &str, parsed: Vec<Option<MeetingSummary>>) -> (r:
    MeetingSummary)
    ensures
        first_parsed(parsed@, 0) matches Some(k) ==> Some(r) == parsed@[k],
        first_parsed(parsed@, 0) is None ==> r.tldr@ == first_sentences_spec(response@, 3)
            && r.key_decisions@.len() == 0 && r.action_items@.len() == 0
            && r.open_questions@.len() == 0,
{
    let mut i: usize = 0;
    while i < parsed.len() && parsed[i].is_none()
        invariant
            i <= parsed@.len(),
            first_parsed(parsed@, 0) == first_parsed(parsed@, i as int),
        decreases parsed@.len() - i,
    {
        i += 1;
    }
    if i < parsed.len() {
        let ghost p0 = parsed@;
        let mut v = parsed;
        let found = v.swap_remove(i);
        assert(found == p0[i as int]);
        return found.unwrap();
    }
    fallback_summary(response)
}

/// The lines of a transcript handed to the summary prompt: trimmed, blank
/// ones left out.
pub fn parse_transcript_lines(transcript: &str) -> (r: Vec<String>)
    ensures
        crate::text::views(r@) == crate::text::nonblank_lines(transcript@),
{
    crate::text::nonblank_trimmed_lines(transcript)
}

} // verus!
