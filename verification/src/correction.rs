//! Reading the corrections a model returns for a batch of utterances.

use std::collections::HashMap;

use vstd::prelude::*;
use vstd::utf8::encode_utf8;

use crate::text::{
    find_from, find_seq, find_seq_from, lemma_find_from, line_ranges, lines, parse_i64,
    parse_i64_spec, string_of, to_chars, trim, trim_bounds, utf8_len_below,
};

verus! {

broadcast use vstd::std_specs::hash::group_hash_axioms;

/// The correction one response line carries: `[<id>] <text>`, where a short
/// `Speaker: ` prefix (under 40 bytes before the `": "`) is dropped and an
/// empty text carries nothing.
pub open spec fn correction_of_line(line: Seq<char>) -> Option<(i64, Seq<char>)> {
    let t = trim(line);
    if t.len() == 0 || t[0] != '[' {
        None
    } else {
        let rest = t.drop_first();
        match find_from(rest, ']', 0) {
            None => None,
            Some(be) => match parse_i64_spec(rest.subrange(0, be)) {
                None => None,
                Some(id) => {
                    let corrected = trim(rest.subrange(be + 1, rest.len() as int));
                    let text = match find_seq_from(corrected, seq![':', ' '], 0) {
                        Some(p) => if encode_utf8(corrected.subrange(0, p)).len() < 40 {
                            corrected.subrange(p + 2, corrected.len() as int)
                        } else {
                            corrected
                        },
                        None => corrected,
                    };
                    if text.len() == 0 {
                        None
                    } else {
                        Some((id as i64, text))
                    }
                },
            },
        }
    }
}

/// Corrections of a sequence of lines; a later line for the same id wins.
pub open spec fn corrections(ls: Seq<Seq<char>>) -> Map<i64, Seq<char>>
    decreases ls.len(),
{
    if ls.len() == 0 {
        Map::empty()
    } else {
        let m = corrections(ls.drop_last());
        match correction_of_line(ls.last()) {
            Some(c) => m.insert(c.0, c.1),
            None => m,
        }
    }
}

fn correction_of_range(v: &[char], lo: usize, hi: usize) -> (r: Option<(i64, String)>)
    requires
        lo <= hi <= v@.len(),
    ensures
        r matches Some(c) ==> correction_of_line(v@.subrange(lo as int, hi as int)) == Some(
            (c.0, c.1@),
        ),
        r is None ==> correction_of_line(v@.subrange(lo as int, hi as int)) is None,
{
    let ghost line = v@.subrange(lo as int, hi as int);
    let (a, b) = trim_bounds(v, lo, hi);
    let ghost t = trim(line);
    if a == b || v[a] != '[' {
        return None;
    }
    let ghost rest = t.drop_first();
    assert(rest =~= v@.subrange(a + 1, b as int));
    let mut k = a + 1;
    while k < b && v[k] != ']'
        invariant
            a + 1 <= k <= b <= v@.len(),
            rest == v@.subrange(a + 1, b as int),
            find_from(rest, ']', 0) == find_from(rest, ']', k - a - 1),
        decreases b - k,
    {
        k += 1;
    }
    if k == b {
        return None;
    }
    let ghost be = (k - a - 1) as int;
    assert(find_from(rest, ']', 0) == Some(be));
    assert(rest.subrange(0, be) =~= v@.subrange(a + 1, k as int));
    let id = match parse_i64(v, a + 1, k) {
        Some(x) => x,
        None => {
            return None;
        },
    };
    let (c0, c1) = trim_bounds(v, k + 1, b);
    assert(rest.subrange(be + 1, rest.len() as int) =~= v@.subrange(k + 1, b as int));
    let ghost corrected = v@.subrange(c0 as int, c1 as int);
    let needle = [':', ' '];
    assert(needle@ =~= seq![':', ' ']);
    let cs = &v[c0..c1];
    assert(cs@ =~= corrected);
    let mut t0 = c0;
    match find_seq(cs, needle.as_slice(), 0) {
        Some(p) => {
            proof {
                crate::text::lemma_find_seq_from(corrected, seq![':', ' '], 0);
                assert(corrected.subrange(0, p as int) =~= v@.subrange(c0 as int, c0 + p));
            }
            if utf8_len_below(v, c0, c0 + p, 40) {
                t0 = c0 + p + 2;
                assert(corrected.subrange(p + 2, corrected.len() as int) =~= v@.subrange(
                    t0 as int,
                    c1 as int,
                ));
            }
        },
        None => {},
    }
    if t0 == c1 {
        return None;
    }
    Some((id, string_of(v, t0, c1)))
}

/// Parse model response lines of the form `[123] corrected text` into a map
/// from utterance id to corrected text.
pub fn parse_correction_response(response: &str) -> (r: HashMap<i64, String>)
    ensures
        r@.dom() == corrections(lines(response@)).dom(),
        forall|id: i64| #[trigger] r@.contains_key(id) ==> r@[id]@ == corrections(lines(response@))[id],
{
    let v = to_chars(response);
    assert(v@.subrange(0, v@.len() as int) =~= v@);
    let ranges = line_ranges(v.as_slice(), 0);
    let ghost ls = lines(response@);
    let mut out: HashMap<i64, String> = HashMap::new();
    let mut k: usize = 0;
    while k < ranges.len()
        invariant
            k <= ranges@.len(),
            ranges@.len() == ls.len(),
            ls == lines(v@.subrange(0, v@.len() as int)),
            forall|q: int|
                0 <= q < ranges@.len() ==> (#[trigger] ranges@[q]).0 <= ranges@[q].1 <= v@.len()
                    && v@.subrange(ranges@[q].0 as int, ranges@[q].1 as int) == ls[q],
            out@.dom() == corrections(ls.subrange(0, k as int)).dom(),
            forall|id: i64| #[trigger]
                out@.contains_key(id) ==> out@[id]@ == corrections(ls.subrange(0, k as int))[id],
        decreases ranges@.len() - k,
    {
        let (lo, hi) = ranges[k];
        let c = correction_of_range(v.as_slice(), lo, hi);
        proof {
            let p = ls.subrange(0, k + 1);
            assert(p.drop_last() =~= ls.subrange(0, k as int));
            assert(p.last() == ls[k as int]);
        }
        match c {
            Some((id, text)) => {
                out.insert(id, text);
            },
            None => {},
        }
        k += 1;
    }
    assert(ls.subrange(0, k as int) =~= ls);
    out
}

} // verus!
