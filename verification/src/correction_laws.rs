//! What a correction line gives, stated over the parts the line is made of.

use vstd::prelude::*;
use vstd::utf8::encode_utf8;

use crate::correction::correction_of_line;
use crate::text::{
    all_digits, contains, find_from, find_seq_from, is_digit, is_ws, lead_ws, occurs_at,
    parse_i64_spec, trail_ws, trim, trim_end, trim_start, unsigned_part,
};

verus! {

proof fn lemma_find_from_first(s: Seq<char>, c: char, from: int, j: int)
    requires
        0 <= from <= j < s.len(),
        s[j] == c,
        forall|k: int| from <= k < j ==> s[k] != c,
    ensures
        find_from(s, c, from) == Some(j),
    decreases j - from,
{
    if from < j {
        lemma_find_from_first(s, c, from + 1, j);
    }
}

proof fn lemma_find_seq_first(hay: Seq<char>, needle: Seq<char>, from: int, j: int)
    requires
        0 <= from <= j,
        occurs_at(hay, needle, j),
        forall|k: int| from <= k < j ==> !occurs_at(hay, needle, k),
    ensures
        find_seq_from(hay, needle, from) == Some(j),
    decreases j - from,
{
    if from < j {
        lemma_find_seq_first(hay, needle, from + 1, j);
    }
}

/// A text that neither starts nor ends with whitespace is its own trim.
proof fn lemma_trim_unchanged(s: Seq<char>)
    requires
        s.len() > 0,
        !is_ws(s[0]),
        !is_ws(s.last()),
    ensures
        trim(s) == s,
{
    assert(lead_ws(s) == 0);
    assert(trim_start(s) =~= s);
    assert(trail_ws(s) == 0);
    assert(trim_end(s) =~= s);
}

proof fn lemma_id_text_no_bracket(id_text: Seq<char>, id: int)
    requires
        parse_i64_spec(id_text) == Some(id),
    ensures
        forall|k: int| 0 <= k < id_text.len() ==> id_text[k] != ']',
{
    assert forall|k: int| 0 <= k < id_text.len() implies id_text[k] != ']' by {
        let body = unsigned_part(id_text);
        assert(all_digits(body));
        if id_text.len() > 0 && (id_text[0] == '-' || id_text[0] == '+') {
            if k > 0 {
                assert(id_text[k] == body[k - 1]);
                assert(is_digit(body[k - 1]));
            }
        } else {
            assert(is_digit(body[k]));
        }
    }
}

proof fn lemma_one_space_trimmed(p: Seq<char>, t: Seq<char>)
    requires
        p.len() > 0 ==> !is_ws(p[0]),
        t.len() > 0,
        !is_ws(t.last()),
    ensures
        trim(seq![' '] + p + seq![':', ' '] + t) == p + seq![':', ' '] + t,
{
    let x = p + seq![':', ' '] + t;
    let after = seq![' '] + x;
    assert(x[0] == (if p.len() > 0 { p[0] } else { ':' }));
    assert(after.drop_first() =~= x);
    assert(lead_ws(x) == 0);
    assert(lead_ws(after) == 1);
    assert(trim_start(after) =~= x);
    assert(x.last() == t.last());
    assert(trail_ws(x) == 0);
    assert(trim_end(x) =~= x);
    assert(seq![' '] + p + seq![':', ' '] + t =~= after);
    assert(trim(after) == x);
}

proof fn lemma_first_separator(p: Seq<char>, t: Seq<char>)
    requires
        !contains(p, seq![':', ' ']),
    ensures
        find_seq_from(p + seq![':', ' '] + t, seq![':', ' '], 0) == Some(p.len() as int),
{
    let x = p + seq![':', ' '] + t;
    let needle = seq![':', ' '];
    let n = p.len() as int;
    assert(x.subrange(n, n + 2) =~= needle);
    assert forall|k: int| 0 <= k < n implies !occurs_at(x, needle, k) by {
        if occurs_at(x, needle, k) {
            if k + 2 <= n {
                assert(p.subrange(k, k + 2) =~= x.subrange(k, k + 2));
                assert(occurs_at(p, needle, k));
            } else {
                assert(x[k + 1] == ':');
            }
        }
    }
    lemma_find_seq_first(x, needle, 0, n);
}

/// A speaker prefix is dropped: for the line `[id] P: T`, where the id
/// text reads as `id`, the prefix `P` is shorter than 40 bytes, holds no
/// `": "` and does not start with whitespace, and the text `T` is not empty
/// and does not end with whitespace, the correction for `id` is exactly
/// `T`, without the prefix.
pub proof fn lemma_speaker_prefix_dropped(id_text: Seq<char>, id: i64, p: Seq<char>, t: Seq<char>)
    requires
        parse_i64_spec(id_text) == Some(id as int),
        !contains(p, seq![':', ' ']),
        encode_utf8(p).len() < 40,
        p.len() > 0 ==> !is_ws(p[0]),
        t.len() > 0,
        !is_ws(t.last()),
    ensures
        correction_of_line(seq!['['] + id_text + seq![']', ' '] + p + seq![':', ' '] + t) == Some(
            (id, t),
        ),
{
    let x = p + seq![':', ' '] + t;
    let line = seq!['['] + id_text + seq![']', ' '] + p + seq![':', ' '] + t;
    assert(line =~= seq!['['] + id_text + seq![']'] + (seq![' '] + x));
    assert(line[0] == '[');
    assert(line.last() == t.last());
    lemma_trim_unchanged(line);
    let rest = line.drop_first();
    assert(rest =~= id_text + seq![']'] + (seq![' '] + x));
    lemma_id_text_no_bracket(id_text, id as int);
    let be = id_text.len() as int;
    assert(rest[be] == ']');
    lemma_find_from_first(rest, ']', 0, be);
    assert(rest.subrange(0, be) =~= id_text);
    assert(rest.subrange(be + 1, rest.len() as int) =~= seq![' '] + x);
    lemma_one_space_trimmed(p, t);
    lemma_first_separator(p, t);
    let n = p.len() as int;
    assert(x.subrange(0, n) =~= p);
    assert(x.subrange(n + 2, x.len() as int) =~= t);
    let corrected = trim(rest.subrange(be + 1, rest.len() as int));
    assert(seq![' '] + p + seq![':', ' '] + t =~= seq![' '] + x);
    assert(corrected == x);
    assert(trim(line) == line);
    assert(trim(line).drop_first() == rest);
    assert(find_from(rest, ']', 0) == Some(be));
    assert(parse_i64_spec(rest.subrange(0, be)) == Some(id as int));
    assert(find_seq_from(corrected, seq![':', ' '], 0) == Some(n));
    assert(encode_utf8(corrected.subrange(0, n)).len() < 40);
    assert(corrected.subrange(n + 2, corrected.len() as int) == t);
}

} // verus!
