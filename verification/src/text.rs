//! Text helpers shared by the transcript, calendar and export logic.

use vstd::prelude::*;
use vstd::utf8::*;
use vstd::string::StringSliceAdditionalSpecFns;

verus! {

broadcast use vstd::utf8::group_utf8_lib;

/// UTF-8 encoding distributes over concatenation.
pub proof fn lemma_encode_utf8_concat(a: Seq<char>, b: Seq<char>)
    ensures
        encode_utf8(a + b) == encode_utf8(a) + encode_utf8(b),
    decreases a.len(),
{
    if a.len() == 0 {
        assert(a + b =~= b);
        assert(encode_utf8(a) =~= Seq::<u8>::empty());
        assert(encode_utf8(a) + encode_utf8(b) =~= encode_utf8(b));
    } else {
        lemma_encode_utf8_concat(a.drop_first(), b);
        assert((a + b).drop_first() =~= a.drop_first() + b);
        assert((a + b)[0] == a[0]);
        let e0 = encode_scalar(a[0] as u32);
        assert(encode_utf8(a + b) == e0 + encode_utf8((a + b).drop_first()));
        assert(encode_utf8(a) == e0 + encode_utf8(a.drop_first()));
        assert(e0 + (encode_utf8(a.drop_first()) + encode_utf8(b)) =~= (e0 + encode_utf8(
            a.drop_first(),
        )) + encode_utf8(b));
    }
}

/// In valid UTF-8, the position right after an ASCII byte that starts a
/// character is again a character boundary.
pub proof fn lemma_boundary_after_ascii(b: Seq<u8>, k: int)
    requires
        valid_utf8(b),
        0 <= k < b.len(),
        is_char_boundary(b, k),
        b[k] < 0x80,
    ensures
        is_char_boundary(b, k + 1),
    decreases b.len(),
{
    reveal_with_fuel(is_char_boundary, 2);
    if k == 0 {
        assert(length_of_first_scalar(b) == 1);
    } else {
        let n = length_of_first_scalar(b);
        let rest = pop_first_scalar(b);
        assert(valid_utf8(rest));
        assert(is_char_boundary(rest, k - n));
        assert(k - n >= 0) by {
            if k - n < 0 {
                assert(is_char_boundary(b, k) == is_char_boundary(rest, k - n));
            }
        }
        assert(rest[k - n] == b[k]);
        lemma_boundary_after_ascii(rest, k - n);
    }
}


/// Unicode `White_Space` property, which `char::is_whitespace` and the
/// `trim` family of `str` follow.
pub open spec fn is_ws(c: char) -> bool {
    ||| ('\u{9}' <= c && c <= '\u{d}')
    ||| c == ' '
    ||| c == '\u{85}'
    ||| c == '\u{a0}'
    ||| c == '\u{1680}'
    ||| ('\u{2000}' <= c && c <= '\u{200a}')
    ||| c == '\u{2028}'
    ||| c == '\u{2029}'
    ||| c == '\u{202f}'
    ||| c == '\u{205f}'
    ||| c == '\u{3000}'
}

pub fn is_whitespace(c: char) -> (r: bool)
    ensures
        r == is_ws(c),
{
    ('\u{9}' <= c && c <= '\u{d}') || c == ' ' || c == '\u{85}' || c == '\u{a0}' || c
        == '\u{1680}' || ('\u{2000}' <= c && c <= '\u{200a}') || c == '\u{2028}' || c
        == '\u{2029}' || c == '\u{202f}' || c == '\u{205f}' || c == '\u{3000}'
}

/// Number of leading whitespace characters.
pub open spec fn lead_ws(s: Seq<char>) -> nat
    decreases s.len(),
{
    if s.len() > 0 && is_ws(s[0]) {
        1 + lead_ws(s.drop_first())
    } else {
        0
    }
}

/// Number of trailing whitespace characters.
pub open spec fn trail_ws(s: Seq<char>) -> nat
    decreases s.len(),
{
    if s.len() > 0 && is_ws(s.last()) {
        1 + trail_ws(s.drop_last())
    } else {
        0
    }
}

pub open spec fn trim_start(s: Seq<char>) -> Seq<char> {
    s.subrange(lead_ws(s) as int, s.len() as int)
}

pub open spec fn trim_end(s: Seq<char>) -> Seq<char> {
    s.subrange(0, s.len() - trail_ws(s))
}

/// `str::trim`: leading and trailing whitespace removed.
pub open spec fn trim(s: Seq<char>) -> Seq<char> {
    trim_end(trim_start(s))
}

pub proof fn lemma_lead_ws_bound(s: Seq<char>)
    ensures
        lead_ws(s) <= s.len(),
        forall|i: int| 0 <= i < lead_ws(s) ==> is_ws(#[trigger] s[i]),
        lead_ws(s) < s.len() ==> !is_ws(s[lead_ws(s) as int]),
    decreases s.len(),
{
    if s.len() > 0 && is_ws(s[0]) {
        lemma_lead_ws_bound(s.drop_first());
        assert forall|i: int| 0 <= i < lead_ws(s) implies is_ws(#[trigger] s[i]) by {
            if i > 0 {
                assert(s[i] == s.drop_first()[i - 1]);
            }
        }
    }
}

pub proof fn lemma_trail_ws_bound(s: Seq<char>)
    ensures
        trail_ws(s) <= s.len(),
        forall|i: int| s.len() - trail_ws(s) <= i < s.len() ==> is_ws(#[trigger] s[i]),
        trail_ws(s) < s.len() ==> !is_ws(s[s.len() - trail_ws(s) - 1]),
    decreases s.len(),
{
    if s.len() > 0 && is_ws(s.last()) {
        lemma_trail_ws_bound(s.drop_last());
        assert forall|i: int| s.len() - trail_ws(s) <= i < s.len() implies is_ws(#[trigger] s[i]) by {
            if i < s.len() - 1 {
                assert(s[i] == s.drop_last()[i]);
            }
        }
    }
}

/// The characters of `s`.
pub fn to_chars(s: &str) -> (v: Vec<char>)
    ensures
        v@ == s@,
{
    let mut v: Vec<char> = Vec::new();
    for c in it: s.chars()
        invariant
            v@ == it.seq().take(it.index() as int),
            it.seq() == s@,
    {
        v.push(c);
    }
    v
}

/// Appends one character (std `String::push`).
#[verifier::external_body]
pub(crate) fn push_char(s: &mut String, c: char)
    ensures
        final(s)@ == old(s)@.push(c),
{
    s.push(c);
}

/// The string made of `v[lo..hi]`.
pub fn string_of(v: &[char], lo: usize, hi: usize) -> (r: String)
    requires
        lo <= hi <= v@.len(),
    ensures
        r@ == v@.subrange(lo as int, hi as int),
{
    let mut r = String::new();
    let mut i = lo;
    while i < hi
        invariant
            lo <= i <= hi <= v@.len(),
            r@ == v@.subrange(lo as int, i as int),
        decreases hi - i,
    {
        push_char(&mut r, v[i]);
        assert(v@.subrange(lo as int, i + 1) =~= v@.subrange(lo as int, i as int).push(v@[i as int]));
        i += 1;
    }
    r
}

/// Bounds `(lo, hi)` of `v[lo..hi]` once whitespace is trimmed from both ends.
pub fn trim_bounds(v: &[char], lo: usize, hi: usize) -> (r: (usize, usize))
    requires
        lo <= hi <= v@.len(),
    ensures
        lo <= r.0 <= r.1 <= hi,
        v@.subrange(r.0 as int, r.1 as int) == trim(v@.subrange(lo as int, hi as int)),
{
    let ghost s = v@.subrange(lo as int, hi as int);
    let mut a = lo;
    while a < hi && is_whitespace(v[a])
        invariant
            lo <= a <= hi <= v@.len(),
            lead_ws(s) == (a - lo) + lead_ws(v@.subrange(a as int, hi as int)),
        decreases hi - a,
    {
        assert(v@.subrange(a as int, hi as int).drop_first() =~= v@.subrange(a + 1, hi as int));
        a += 1;
    }
    assert(lead_ws(v@.subrange(a as int, hi as int)) == 0);
    let ghost t = trim_start(s);
    assert(t =~= v@.subrange(a as int, hi as int));
    let mut b = hi;
    while b > a && is_whitespace(v[b - 1])
        invariant
            lo <= a <= b <= hi <= v@.len(),
            trail_ws(t) == (hi - b) + trail_ws(v@.subrange(a as int, b as int)),
        decreases b - a,
    {
        assert(v@.subrange(a as int, b as int).drop_last() =~= v@.subrange(a as int, b - 1));
        b -= 1;
    }
    assert(trail_ws(v@.subrange(a as int, b as int)) == 0);
    assert(trim(s) =~= v@.subrange(a as int, b as int));
    (a, b)
}

/// The characters `v`, trimmed, as a string.
pub fn trimmed_chars(v: &[char]) -> (r: String)
    ensures
        r@ == trim(v@),
{
    let (a, b) = trim_bounds(v, 0, v.len());
    assert(v@.subrange(0, v@.len() as int) =~= v@);
    string_of(v, a, b)
}

/// `str::trim` as an owned string.
pub fn trimmed(s: &str) -> (r: String)
    ensures
        r@ == trim(s@),
{
    let v = to_chars(s);
    let (a, b) = trim_bounds(v.as_slice(), 0, v.len());
    assert(v@.subrange(0, v@.len() as int) =~= v@);
    string_of(v.as_slice(), a, b)
}


/// First position of `c` in `s` at or after `from`.
pub open spec fn find_from(s: Seq<char>, c: char, from: int) -> Option<int>
    decreases s.len() - from,
{
    if from < 0 || from >= s.len() {
        None
    } else if s[from] == c {
        Some(from)
    } else {
        find_from(s, c, from + 1)
    }
}

pub proof fn lemma_find_from(s: Seq<char>, c: char, from: int)
    requires
        0 <= from,
    ensures
        find_from(s, c, from) matches Some(j) ==> from <= j < s.len() && s[j] == c,
    decreases s.len() - from,
{
    if from < s.len() && s[from] != c {
        lemma_find_from(s, c, from + 1);
    }
}

/// `str::lines`: split at `\n`, dropping a `\r` right before it; a final
/// line ending does not start an extra empty line.
pub open spec fn lines(s: Seq<char>) -> Seq<Seq<char>>
    decreases s.len(),
{
    if s.len() == 0 {
        Seq::empty()
    } else {
        match find_from(s, '\n', 0) {
            None => seq![s],
            Some(i) => {
                let line = s.subrange(0, i);
                let line = if i > 0 && line.last() == '\r' { line.drop_last() } else { line };
                if 0 <= i < s.len() {
                    seq![line] + lines(s.subrange(i + 1, s.len() as int))
                } else {
                    seq![line]
                }
            },
        }
    }
}

/// Half-open ranges of `v[from..]` that make up its lines.
pub fn line_ranges(v: &[char], from: usize) -> (r: Vec<(usize, usize)>)
    requires
        from <= v@.len(),
    ensures
        r@.len() == lines(v@.subrange(from as int, v@.len() as int)).len(),
        forall|k: int|
            0 <= k < r@.len() ==> from <= (#[trigger] r@[k]).0 <= r@[k].1 <= v@.len() && v@.subrange(
                r@[k].0 as int,
                r@[k].1 as int,
            ) == lines(v@.subrange(from as int, v@.len() as int))[k],
    decreases v@.len() - from,
{
    let ghost s = v@.subrange(from as int, v@.len() as int);
    let n = v.len();
    if from == n {
        return Vec::new();
    }
    let mut i = from;
    while i < n && v[i] != '\n'
        invariant
            from <= i <= n == v@.len(),
            s == v@.subrange(from as int, n as int),
            find_from(s, '\n', 0) == find_from(s, '\n', i - from),
        decreases n - i,
    {
        i += 1;
    }
    if i == n {
        let mut r = Vec::new();
        r.push((from, n));
        assert(lines(s) == seq![s]);
        return r;
    }
    let ghost j = (i - from) as int;
    assert(find_from(s, '\n', 0) == Some(j));
    let mut end = i;
    if i > from && v[i - 1] == '\r' {
        end = i - 1;
    }
    assert(s.subrange(j + 1, s.len() as int) =~= v@.subrange(i + 1, n as int));
    let rest = line_ranges(v, i + 1);
    let mut r = Vec::new();
    r.push((from, end));
    let mut k: usize = 0;
    let ghost line = if j > 0 && s.subrange(0, j).last() == '\r' {
        s.subrange(0, j).drop_last()
    } else {
        s.subrange(0, j)
    };
    assert(line =~= v@.subrange(from as int, end as int));
    while k < rest.len()
        invariant
            k <= rest@.len(),
            r@.len() == k + 1,
            r@[0] == (from, end),
            forall|q: int| 1 <= q < r@.len() ==> #[trigger] r@[q] == rest@[q - 1],
        decreases rest@.len() - k,
    {
        r.push(rest[k]);
        k += 1;
    }
    assert(lines(s) == seq![line] + lines(s.subrange(j + 1, s.len() as int)));
    r
}

/// Whether `needle` occurs in `hay` at position `i`.
pub open spec fn occurs_at(hay: Seq<char>, needle: Seq<char>, i: int) -> bool {
    0 <= i && i + needle.len() <= hay.len() && hay.subrange(i, i + needle.len()) == needle
}

/// `str::contains` for a string pattern.
pub open spec fn contains(hay: Seq<char>, needle: Seq<char>) -> bool {
    exists|i: int| occurs_at(hay, needle, i)
}

/// First position of `needle` in `hay` at or after `from`.
pub open spec fn find_seq_from(hay: Seq<char>, needle: Seq<char>, from: int) -> Option<int>
    decreases hay.len() + 1 - from,
{
    if from < 0 || from + needle.len() > hay.len() {
        None
    } else if occurs_at(hay, needle, from) {
        Some(from)
    } else {
        find_seq_from(hay, needle, from + 1)
    }
}

pub proof fn lemma_find_seq_from(hay: Seq<char>, needle: Seq<char>, from: int)
    requires
        0 <= from,
    ensures
        find_seq_from(hay, needle, from) matches Some(j) ==> from <= j && occurs_at(hay, needle, j),
        find_seq_from(hay, needle, from) is None ==> forall|k: int|
            from <= k ==> !#[trigger] occurs_at(hay, needle, k),
    decreases hay.len() + 1 - from,
{
    if from + needle.len() <= hay.len() && !occurs_at(hay, needle, from) {
        lemma_find_seq_from(hay, needle, from + 1);
    }
}

fn matches_at(hay: &[char], needle: &[char], i: usize) -> (r: bool)
    requires
        i + needle@.len() <= hay@.len(),
    ensures
        r == occurs_at(hay@, needle@, i as int),
{
    let hl = hay.len();
    let mut k: usize = 0;
    while k < needle.len()
        invariant
            k <= needle@.len(),
            hl == hay@.len(),
            i + needle@.len() <= hay@.len(),
            forall|q: int| 0 <= q < k ==> hay@[i + q] == needle@[q],
        decreases needle@.len() - k,
    {
        if hay[i + k] != needle[k] {
            assert(hay@.subrange(i as int, i + needle@.len())[k as int] != needle@[k as int]);
            return false;
        }
        k += 1;
    }
    assert(hay@.subrange(i as int, i + needle@.len()) =~= needle@);
    true
}

/// First position of `needle` in `hay[from..]`.
pub fn find_seq(hay: &[char], needle: &[char], from: usize) -> (r: Option<usize>)
    ensures
        r matches Some(j) ==> find_seq_from(hay@, needle@, from as int) == Some(j as int),
        r is None ==> find_seq_from(hay@, needle@, from as int) is None,
{
    if needle.len() > hay.len() {
        return None;
    }
    if needle.len() == 0 {
        if from <= hay.len() {
            assert(hay@.subrange(from as int, from as int) =~= needle@);
            return Some(from);
        }
        return None;
    }
    let last = hay.len() - needle.len();
    let mut i = from;
    while i <= last
        invariant
            from <= i,
            needle@.len() >= 1,
            last + needle@.len() == hay@.len(),
            hay@.len() <= usize::MAX,
            find_seq_from(hay@, needle@, from as int) == find_seq_from(hay@, needle@, i as int),
        decreases last + 1 - i,
    {
        if matches_at(hay, needle, i) {
            return Some(i);
        }
        i += 1;
    }
    None
}

/// `str::contains` for a string pattern.
pub fn contains_chars(hay: &[char], needle: &[char]) -> (r: bool)
    ensures
        r == contains(hay@, needle@),
{
    let r = find_seq(hay, needle, 0);
    proof {
        lemma_find_seq_from(hay@, needle@, 0);
        if r is None {
            assert forall|i: int| !occurs_at(hay@, needle@, i) by {
                if 0 <= i {
                    assert(!occurs_at(hay@, needle@, i));
                }
            }
        }
    }
    r.is_some()
}

/// Name for what `str::to_lowercase` returns: each character replaced by
/// its Unicode lowercase mapping.
pub uninterp spec fn lowercase(s: Seq<char>) -> Seq<char>;

/// `str::to_lowercase`.
#[verifier::external_body]
pub(crate) fn to_lowercase(s: &str) -> (r: String)
    ensures
        r@ == lowercase(s@),
{
    s.to_lowercase()
}


/// Number of bytes `c` takes in UTF-8.
pub open spec fn char_width(c: char) -> int {
    if (c as u32) <= 0x7f {
        1
    } else if (c as u32) <= 0x7ff {
        2
    } else if (c as u32) <= 0xffff {
        3
    } else {
        4
    }
}

pub proof fn lemma_encode_utf8_push(s: Seq<char>, c: char)
    ensures
        encode_utf8(s.push(c)).len() == encode_utf8(s).len() + char_width(c),
{
    lemma_encode_utf8_concat(s, seq![c]);
    assert(s.push(c) =~= s + seq![c]);
    assert(seq![c].drop_first() =~= Seq::<char>::empty());
    assert(encode_utf8(seq![c]) == encode_scalar(seq![c][0] as u32) + encode_utf8(Seq::<char>::empty()));
    assert(encode_scalar(c as u32) + Seq::<u8>::empty() =~= encode_scalar(c as u32));
}

/// Whether `v[lo..hi]` takes fewer than `bound` bytes in UTF-8.
pub fn utf8_len_below(v: &[char], lo: usize, hi: usize, bound: usize) -> (r: bool)
    requires
        lo <= hi <= v@.len(),
    ensures
        r == (encode_utf8(v@.subrange(lo as int, hi as int)).len() < bound),
{
    let ghost s = v@.subrange(lo as int, hi as int);
    if bound == 0 {
        return false;
    }
    let mut r: usize = 0;
    let mut i: usize = lo;
    assert(v@.subrange(lo as int, lo as int) =~= Seq::<char>::empty());
    while i < hi
        invariant
            lo <= i <= hi <= v@.len(),
            s == v@.subrange(lo as int, hi as int),
            r == encode_utf8(v@.subrange(lo as int, i as int)).len(),
            r < bound,
        decreases hi - i,
    {
        let c = v[i];
        proof {
            assert(v@.subrange(lo as int, i + 1) =~= v@.subrange(lo as int, i as int).push(c));
            lemma_encode_utf8_push(v@.subrange(lo as int, i as int), c);
        }
        let w: usize = if (c as u32) <= 0x7f {
            1
        } else if (c as u32) <= 0x7ff {
            2
        } else if (c as u32) <= 0xffff {
            3
        } else {
            4
        };
        if w >= bound - r {
            proof {
                lemma_encode_len_prefix(s, i + 1 - lo);
                assert(s.subrange(0, i + 1 - lo) =~= v@.subrange(lo as int, i + 1));
            }
            return false;
        }
        r = r + w;
        i += 1;
    }
    assert(v@.subrange(lo as int, i as int) =~= s);
    true
}

pub proof fn lemma_encode_len_prefix(s: Seq<char>, i: int)
    requires
        0 <= i <= s.len(),
    ensures
        encode_utf8(s.subrange(0, i)).len() <= encode_utf8(s).len(),
{
    lemma_encode_utf8_concat(s.subrange(0, i), s.subrange(i, s.len() as int));
    assert(s.subrange(0, i) + s.subrange(i, s.len() as int) =~= s);
}

pub open spec fn is_digit(c: char) -> bool {
    '0' <= c && c <= '9'
}

/// Value of a string of decimal digits.
pub open spec fn digits_value(s: Seq<char>) -> int
    decreases s.len(),
{
    if s.len() == 0 {
        0
    } else {
        10 * digits_value(s.drop_last()) + (s.last() as int - '0' as int)
    }
}

pub open spec fn all_digits(s: Seq<char>) -> bool {
    forall|i: int| 0 <= i < s.len() ==> is_digit(#[trigger] s[i])
}

/// The part of a number after its optional sign.
pub open spec fn unsigned_part(s: Seq<char>) -> Seq<char> {
    if s.len() > 0 && (s[0] == '-' || s[0] == '+') {
        s.drop_first()
    } else {
        s
    }
}

/// `i64::from_str`: an optional `+` or `-`, then one or more ASCII digits,
/// with the value in range.
pub open spec fn parse_i64_spec(s: Seq<char>) -> Option<int> {
    let body = unsigned_part(s);
    if body.len() == 0 || !all_digits(body) {
        None
    } else {
        let v = if s.len() > 0 && s[0] == '-' { -digits_value(body) } else { digits_value(body) };
        if i64::MIN <= v <= i64::MAX {
            Some(v)
        } else {
            None
        }
    }
}

proof fn lemma_digits_value_mono(s: Seq<char>, i: int)
    requires
        0 <= i <= s.len(),
        forall|k: int| 0 <= k < s.len() ==> is_digit(#[trigger] s[k]),
    ensures
        digits_value(s.subrange(0, i)) <= digits_value(s),
        0 <= digits_value(s.subrange(0, i)),
    decreases s.len() - i,
{
    if i < s.len() {
        lemma_digits_value_mono(s, i + 1);
        assert(s.subrange(0, i + 1).drop_last() =~= s.subrange(0, i));
        assert(s.subrange(0, i + 1).last() == s[i]);
    } else {
        assert(s.subrange(0, i) =~= s);
        lemma_digits_nonneg(s);
    }
}

proof fn lemma_digits_nonneg(s: Seq<char>)
    requires
        forall|k: int| 0 <= k < s.len() ==> is_digit(#[trigger] s[k]),
    ensures
        0 <= digits_value(s),
    decreases s.len(),
{
    if s.len() > 0 {
        lemma_digits_nonneg(s.drop_last());
        assert(is_digit(s[s.len() - 1]));
    }
}

/// `v[lo..hi].parse::<i64>()`, `None` for an error.
pub fn parse_i64(v: &[char], lo: usize, hi: usize) -> (r: Option<i64>)
    requires
        lo <= hi <= v@.len(),
    ensures
        r matches Some(x) ==> parse_i64_spec(v@.subrange(lo as int, hi as int)) == Some(x as int),
        r is None ==> parse_i64_spec(v@.subrange(lo as int, hi as int)) is None,
{
    let ghost s = v@.subrange(lo as int, hi as int);
    let mut start = lo;
    let mut neg = false;
    if lo < hi && (v[lo] == '-' || v[lo] == '+') {
        neg = v[lo] == '-';
        start = lo + 1;
    }
    let ghost body = v@.subrange(start as int, hi as int);
    assert(body =~= unsigned_part(s));
    if start == hi {
        return None;
    }
    // magnitude bound: i64::MAX, or one more for a negative number
    let limit: u64 = if neg { 9223372036854775808u64 } else { 9223372036854775807u64 };
    let mut acc: u64 = 0;
    let mut i = start;
    while i < hi
        invariant
            lo <= start <= i <= hi <= v@.len(),
            start < hi,
            s == v@.subrange(lo as int, hi as int),
            body == v@.subrange(start as int, hi as int),
            body == unsigned_part(s),
            neg == (s.len() > 0 && s[0] == '-'),
            limit == (if neg { 9223372036854775808u64 } else { 9223372036854775807u64 }),
            forall|k: int| start <= k < i ==> is_digit(#[trigger] v@[k]),
            acc == digits_value(v@.subrange(start as int, i as int)),
            acc <= limit,
        decreases hi - i,
    {
        let c = v[i];
        if !('0' <= c && c <= '9') {
            assert(!is_digit(body[i - start]));
            assert(!all_digits(body));
            return None;
        }
        let d = (c as u32 - '0' as u32) as u64;
        assert(d <= 9);
        proof {
            assert(v@.subrange(start as int, i + 1).drop_last() =~= v@.subrange(start as int, i as int));
        }
        if acc > (limit - d) / 10 {
            // the value of the digits so far is already past the bound
            proof {
                assert(10 * acc + d > limit) by (nonlinear_arith)
                    requires
                        acc > (limit - d) / 10,
                        d <= 9,
                        d <= limit,
                ;
                let w = v@.subrange(start as int, i + 1);
                if all_digits(body) {
                    lemma_digits_value_mono(body, i + 1 - start);
                    assert(body.subrange(0, i + 1 - start) =~= w);
                    assert(w.drop_last() =~= v@.subrange(start as int, i as int));
                    assert(digits_value(w) == 10 * acc + d);
                }
            }
            return None;
        }
        proof {
            assert(10 * acc + d <= limit) by (nonlinear_arith)
                requires
                    acc <= (limit - d) / 10,
                    d <= limit,
            ;
        }
        acc = acc * 10 + d;
        i += 1;
    }
    assert(v@.subrange(start as int, i as int) =~= body);
    if neg {
        if acc == 9223372036854775808u64 {
            Some(i64::MIN)
        } else {
            Some(-(acc as i64))
        }
    } else {
        Some(acc as i64)
    }
}


/// Whether two strings hold the same text.
pub fn str_eq(a: &str, b: &str) -> (r: bool)
    ensures
        r == (a@ == b@),
{
    let x: String = a.to_owned();
    let y: String = b.to_owned();
    x == y
}


/// Decimal digits of `n`, without leading zeros ("0" for zero).
pub open spec fn decimal(n: nat) -> Seq<char>
    decreases n,
{
    if n < 10 {
        seq![digit_char(n)]
    } else {
        decimal(n / 10).push(digit_char(n % 10))
    }
}

pub open spec fn digit_char(d: nat) -> char {
    if d == 0 { '0' } else if d == 1 { '1' } else if d == 2 { '2' } else if d == 3 { '3' } else if d
        == 4 { '4' } else if d == 5 { '5' } else if d == 6 { '6' } else if d == 7 { '7' } else if d
        == 8 { '8' } else { '9' }
}

fn digit(d: u64) -> (c: char)
    requires
        d < 10,
    ensures
        c == digit_char(d as nat),
{
    if d == 0 { '0' } else if d == 1 { '1' } else if d == 2 { '2' } else if d == 3 { '3' } else if d
        == 4 { '4' } else if d == 5 { '5' } else if d == 6 { '6' } else if d == 7 { '7' } else if d
        == 8 { '8' } else { '9' }
}

/// Append the decimal digits of `n` (`format!("{n}")`).
pub fn push_decimal(out: &mut String, n: u64)
    ensures
        final(out)@ == old(out)@ + decimal(n as nat),
    decreases n,
{
    if n >= 10 {
        push_decimal(out, n / 10);
    }
    push_char(out, digit(n % 10));
    proof {
        if n >= 10 {
            assert(old(out)@ + decimal(n as nat) =~= (old(out)@ + decimal((n / 10) as nat)).push(
                digit_char((n % 10) as nat),
            ));
        } else {
            assert(old(out)@ + decimal(n as nat) =~= old(out)@.push(digit_char(n as nat)));
        }
    }
}

/// `format!("{n:02}")`: at least two digits, zero-padded.
pub open spec fn decimal2(n: nat) -> Seq<char> {
    if n < 10 {
        seq!['0'] + decimal(n)
    } else {
        decimal(n)
    }
}

pub fn push_decimal2(out: &mut String, n: u64)
    ensures
        final(out)@ == old(out)@ + decimal2(n as nat),
{
    if n < 10 {
        push_char(out, '0');
    }
    push_decimal(out, n);
    assert(old(out)@ + decimal2(n as nat) =~= final(out)@);
}

/// Name for what `char::is_alphanumeric` returns: the Unicode `Alphabetic`
/// or `Numeric` property.
pub uninterp spec fn alphanumeric(c: char) -> bool;

/// `char::is_alphanumeric`.
#[verifier::external_body]
pub(crate) fn is_alphanumeric(c: char) -> (r: bool)
    ensures
        r == alphanumeric(c),
{
    c.is_alphanumeric()
}


/// The texts of a list of strings.
pub open spec fn views(v: Seq<String>) -> Seq<Seq<char>> {
    v.map_values(|s: String| s@)
}

/// Appending a string appends its text.
pub proof fn lemma_views_push(v: Seq<String>, x: String)
    ensures
        views(v.push(x)) == views(v).push(x@),
{
    assert(views(v.push(x)) =~= views(v).push(x@));
}

/// A copy of a list of strings.
pub fn clone_strings(v: &Vec<String>) -> (r: Vec<String>)
    ensures
        views(r@) == views(v@),
{
    let mut r: Vec<String> = Vec::new();
    let mut k: usize = 0;
    while k < v.len()
        invariant
            k <= v@.len(),
            views(r@) == views(v@).subrange(0, k as int),
        decreases v@.len() - k,
    {
        let x = v[k].as_str().to_owned();
        proof {
            lemma_views_push(r@, x);
        }
        r.push(x);
        assert(views(r@) =~= views(v@).subrange(0, k + 1));
        k += 1;
    }
    assert(views(v@).subrange(0, k as int) =~= views(v@));
    r
}

/// Whether the list holds the text `name`.
pub fn contains_str(names: &Vec<String>, name: &str) -> (r: bool)
    ensures
        r == views(names@).contains(name@),
{
    let mut k: usize = 0;
    while k < names.len()
        invariant
            k <= names@.len(),
            forall|q: int| 0 <= q < k ==> names@[q]@ != name@,
        decreases names@.len() - k,
    {
        if str_eq(names[k].as_str(), name) {
            assert(views(names@)[k as int] == name@);
            return true;
        }
        k += 1;
    }
    proof {
        if views(names@).contains(name@) {
            let q = choose|q: int| 0 <= q < views(names@).len() && views(names@)[q] == name@;
            assert(names@[q]@ == name@);
        }
    }
    false
}


/// `str::split` with a non-empty string pattern, from position `from` on:
/// the pieces between the matches found from the left, not overlapping.
pub open spec fn split_from(s: Seq<char>, sep: Seq<char>, from: int) -> Seq<Seq<char>>
    decreases s.len() + 1 - from,
{
    if from < 0 || from > s.len() || sep.len() == 0 {
        Seq::empty()
    } else {
        match find_seq_from(s, sep, from) {
            None => seq![s.subrange(from, s.len() as int)],
            Some(j) => if from <= j && j + sep.len() <= s.len() {
                seq![s.subrange(from, j)] + split_from(s, sep, j + sep.len())
            } else {
                Seq::empty()
            },
        }
    }
}

/// `str::split` with a non-empty string pattern.
pub open spec fn split(s: Seq<char>, sep: Seq<char>) -> Seq<Seq<char>> {
    split_from(s, sep, 0)
}

/// The texts of a list of character vectors.
pub open spec fn pieces(v: Seq<Vec<char>>) -> Seq<Seq<char>> {
    v.map_values(|p: Vec<char>| p@)
}

/// A copy of `v[lo..hi]`.
pub fn chars_of(v: &[char], lo: usize, hi: usize) -> (r: Vec<char>)
    requires
        lo <= hi <= v@.len(),
    ensures
        r@ == v@.subrange(lo as int, hi as int),
{
    let mut r: Vec<char> = Vec::new();
    let mut i = lo;
    while i < hi
        invariant
            lo <= i <= hi <= v@.len(),
            r@ == v@.subrange(lo as int, i as int),
        decreases hi - i,
    {
        r.push(v[i]);
        assert(v@.subrange(lo as int, i + 1) =~= v@.subrange(lo as int, i as int).push(v@[i as int]));
        i += 1;
    }
    r
}

/// `str::split` of `s` at each occurrence of the non-empty `sep`.
pub fn split_chars(s: &[char], sep: &[char]) -> (r: Vec<Vec<char>>)
    requires
        sep@.len() > 0,
    ensures
        pieces(r@) == split(s@, sep@),
{
    let mut r: Vec<Vec<char>> = Vec::new();
    let mut from: usize = 0;
    let n = s.len();
    let m = sep.len();
    loop
        invariant
            from <= n == s@.len(),
            m == sep@.len() > 0,
            split(s@, sep@) == pieces(r@) + split_from(s@, sep@, from as int),
        decreases n + 1 - from,
    {
        let found = find_seq(s, sep, from);
        proof {
            lemma_find_seq_from(s@, sep@, from as int);
        }
        match found {
            None => {
                let p = chars_of(s, from, n);
                let ghost before = pieces(r@);
                r.push(p);
                assert(pieces(r@) =~= before.push(p@));
                assert(split_from(s@, sep@, from as int) == seq![p@]);
                assert(split(s@, sep@) =~= pieces(r@));
                return r;
            },
            Some(j) => {
                let p = chars_of(s, from, j);
                let ghost before = pieces(r@);
                r.push(p);
                assert(pieces(r@) =~= before.push(p@));
                assert(split_from(s@, sep@, from as int) == seq![p@] + split_from(
                    s@,
                    sep@,
                    j + m,
                ));
                assert(before + split_from(s@, sep@, from as int) =~= pieces(r@) + split_from(
                    s@,
                    sep@,
                    j + m,
                ));
                from = j + m;
            },
        }
    }
}


/// `str::starts_with` for a string pattern.
pub open spec fn starts_with(s: Seq<char>, prefix: Seq<char>) -> bool {
    prefix.len() <= s.len() && s.subrange(0, prefix.len() as int) == prefix
}

/// `str::ends_with` for a string pattern.
pub open spec fn ends_with(s: Seq<char>, suffix: Seq<char>) -> bool {
    suffix.len() <= s.len() && s.subrange(s.len() - suffix.len(), s.len() as int) == suffix
}

/// `s.ends_with(suffix)`.
pub fn has_suffix(s: &str, suffix: &str) -> (r: bool)
    ensures
        r == ends_with(s@, suffix@),
{
    let v = to_chars(s);
    let w = to_chars(suffix);
    if w.len() > v.len() {
        return false;
    }
    let start = v.len() - w.len();
    let mut k: usize = 0;
    while k < w.len()
        invariant
            start + w@.len() == v@.len(),
            v@.len() <= usize::MAX,
            k <= w@.len(),
            v@ == s@,
            w@ == suffix@,
            forall|q: int| 0 <= q < k ==> v@[start + q] == w@[q],
        decreases w@.len() - k,
    {
        if v[start + k] != w[k] {
            assert(v@.subrange(start as int, v@.len() as int)[k as int] != w@[k as int]);
            return false;
        }
        k += 1;
    }
    assert(v@.subrange(start as int, v@.len() as int) =~= w@);
    true
}

/// `s.strip_prefix(prefix)?.strip_suffix(suffix)`: what lies between.
pub open spec fn between(s: Seq<char>, prefix: Seq<char>, suffix: Seq<char>) -> Option<Seq<char>> {
    if starts_with(s, prefix) && ends_with(s.subrange(prefix.len() as int, s.len() as int), suffix) {
        Some(s.subrange(prefix.len() as int, s.len() - suffix.len()))
    } else {
        None
    }
}

/// The characters of `s` between `prefix` and `suffix`, when `s` starts
/// with the one and the rest ends with the other.
pub fn strip_between(s: &str, prefix: &str, suffix: &str) -> (r: Option<Vec<char>>)
    ensures
        match r {
            Some(m) => between(s@, prefix@, suffix@) == Some(m@),
            None => between(s@, prefix@, suffix@) is None,
        },
{
    let v = to_chars(s);
    let p = to_chars(prefix);
    let q = to_chars(suffix);
    if p.len() > v.len() {
        return None;
    }
    if !matches_at(v.as_slice(), p.as_slice(), 0) {
        return None;
    }
    assert(v@.subrange(0, p@.len() as int) == p@);
    let rest = v.len() - p.len();
    if q.len() > rest {
        return None;
    }
    let start = v.len() - q.len();
    if !matches_at(v.as_slice(), q.as_slice(), start) {
        proof {
            let t = s@.subrange(p@.len() as int, s@.len() as int);
            assert(t.subrange(t.len() - q@.len(), t.len() as int) =~= v@.subrange(
                start as int,
                start + q@.len(),
            ));
        }
        return None;
    }
    proof {
        let t = s@.subrange(p@.len() as int, s@.len() as int);
        assert(t.subrange(t.len() - q@.len(), t.len() as int) =~= v@.subrange(
            start as int,
            start + q@.len(),
        ));
    }
    Some(chars_of(v.as_slice(), p.len(), start))
}

/// `u32::from_str`: an optional `+`, then one or more ASCII digits, with
/// the value in range.
pub open spec fn parse_u32_spec(s: Seq<char>) -> Option<int> {
    let body = if s.len() > 0 && s[0] == '+' { s.drop_first() } else { s };
    if body.len() == 0 || !all_digits(body) || digits_value(body) > u32::MAX {
        None
    } else {
        Some(digits_value(body))
    }
}

/// `v.parse::<u32>()`, `None` for an error.
pub fn parse_u32(v: &[char]) -> (r: Option<u32>)
    ensures
        r matches Some(x) ==> parse_u32_spec(v@) == Some(x as int),
        r is None ==> parse_u32_spec(v@) is None,
{
    let hi = v.len();
    let mut start: usize = 0;
    if hi > 0 && v[0] == '+' {
        start = 1;
    }
    let ghost body = v@.subrange(start as int, hi as int);
    assert(body =~= (if v@.len() > 0 && v@[0] == '+' { v@.drop_first() } else { v@ }));
    if start == hi {
        return None;
    }
    let limit: u64 = 4294967295u64;
    let mut acc: u64 = 0;
    let mut i = start;
    while i < hi
        invariant
            start <= i <= hi == v@.len(),
            start < hi,
            body == v@.subrange(start as int, hi as int),
            body == (if v@.len() > 0 && v@[0] == '+' { v@.drop_first() } else { v@ }),
            limit == u32::MAX,
            forall|k: int| start <= k < i ==> is_digit(#[trigger] v@[k]),
            acc == digits_value(v@.subrange(start as int, i as int)),
            acc <= limit,
        decreases hi - i,
    {
        let c = v[i];
        if !('0' <= c && c <= '9') {
            assert(!is_digit(body[i - start]));
            return None;
        }
        let d = (c as u32 - '0' as u32) as u64;
        proof {
            assert(v@.subrange(start as int, i + 1).drop_last() =~= v@.subrange(start as int, i as int));
        }
        if acc > (limit - d) / 10 {
            proof {
                assert(10 * acc + d > limit) by (nonlinear_arith)
                    requires
                        acc > (limit - d) / 10,
                        d <= 9,
                        d <= limit,
                ;
                let w = v@.subrange(start as int, i + 1);
                if all_digits(body) {
                    lemma_digits_value_mono(body, i + 1 - start);
                    assert(body.subrange(0, i + 1 - start) =~= w);
                    assert(digits_value(w) == 10 * acc + d);
                }
            }
            return None;
        }
        proof {
            assert(10 * acc + d <= limit) by (nonlinear_arith)
                requires
                    acc <= (limit - d) / 10,
                    d <= limit,
            ;
        }
        acc = acc * 10 + d;
        i += 1;
    }
    assert(v@.subrange(start as int, i as int) =~= body);
    Some(acc as u32)
}

/// The lines of a text, trimmed, blank ones left out.
pub open spec fn nonblank_lines(output: Seq<char>) -> Seq<Seq<char>> {
    lines(output).map_values(|l: Seq<char>| trim(l)).filter(|l: Seq<char>| l.len() > 0)
}

/// The lines of a text, trimmed, blank ones left out.
pub fn nonblank_trimmed_lines(output: &str) -> (r: Vec<String>)
    ensures
        views(r@) == nonblank_lines(output@),
{
    let v = to_chars(output);
    assert(v@.subrange(0, v@.len() as int) =~= v@);
    let ranges = line_ranges(v.as_slice(), 0);
    let ghost ls = lines(v@);
    let ghost tm = ls.map_values(|l: Seq<char>| trim(l));
    let ghost nz = |l: Seq<char>| l.len() > 0;
    let mut names: Vec<String> = Vec::new();
    let mut k: usize = 0;
    while k < ranges.len()
        invariant
            k <= ranges@.len() == ls.len(),
            v@ == output@,
            ls == lines(v@),
            tm == ls.map_values(|l: Seq<char>| trim(l)),
            nz == (|l: Seq<char>| l.len() > 0),
            forall|q: int|
                0 <= q < ranges@.len() ==> 0 <= (#[trigger] ranges@[q]).0 <= ranges@[q].1 <= v@.len()
                    && v@.subrange(ranges@[q].0 as int, ranges@[q].1 as int) == ls[q],
            views(names@) == tm.subrange(0, k as int).filter(nz),
        decreases ranges@.len() - k,
    {
        let (lo, hi) = ranges[k];
        let (a, b) = trim_bounds(v.as_slice(), lo, hi);
        proof {
            assert(tm.subrange(0, k + 1) =~= tm.subrange(0, k as int).push(tm[k as int]));
            tm.subrange(0, k as int).lemma_filter_push(tm[k as int], nz);
        }
        if a < b {
            let name = string_of(v.as_slice(), a, b);
            proof {
                lemma_views_push(names@, name);
            }
            names.push(name);
        }
        k += 1;
    }
    assert(tm.subrange(0, k as int) =~= tm);
    names
}

/// The first `max` bytes of `body`, or all of it when it is shorter. The
/// cut must fall between two characters.
pub fn byte_prefix(body: &str, max: usize) -> (r: &str)
    requires
        body.spec_bytes().len() <= max || is_char_boundary(
            body.spec_bytes(),
            max as int,
        ),
    ensures
        r.spec_bytes() == body.spec_bytes().subrange(
            0,
            if body.spec_bytes().len() <= max {
                body.spec_bytes().len() as int
            } else {
                max as int
            },
        ),
{
    if body.as_bytes().len() <= max {
        assert(body.spec_bytes().subrange(0, body.spec_bytes().len() as int) =~= body.spec_bytes());
        return body;
    }
    let (head, _) = body.split_at(max);
    head
}

} // verus!
