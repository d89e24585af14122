//! JSON values and the recursive merge of a settings patch into the
//! stored settings.

use vstd::prelude::*;

use crate::text::{push_char, str_eq, to_chars};

verus! {

/// A JSON value. Numbers are kept as their JSON text; an object's keys are
/// distinct (see [`json_wf`]).
#[derive(Debug)]
pub enum Json {
    Null,
    Bool(bool),
    Number(String),
    Str(String),
    Array(Vec<Json>),
    Object(Vec<(String, Json)>),
}

/// Position of the entry with key `k`.
pub open spec fn key_index(es: Seq<(String, Json)>, k: Seq<char>) -> Option<int> {
    if exists|i: int| 0 <= i < es.len() && es[i].0@ == k {
        Some(choose|i: int| 0 <= i < es.len() && es[i].0@ == k)
    } else {
        None
    }
}

/// No two entries share a key.
pub open spec fn keys_unique(es: Seq<(String, Json)>) -> bool {
    forall|i: int, j: int| 0 <= i < j < es.len() ==> es[i].0@ != es[j].0@
}

/// Every object in the value, at any depth, has distinct keys.
pub open spec fn json_wf(j: Json) -> bool
    decreases j, 0nat,
{
    match j {
        Json::Array(items) => items_wf(items@, items@.len() as int),
        Json::Object(es) => keys_unique(es@) && entries_wf(es@, es@.len() as int),
        _ => true,
    }
}

/// The first `n` items are well formed.
pub open spec fn items_wf(s: Seq<Json>, n: int) -> bool
    decreases s, n,
{
    if n <= 0 || n > s.len() {
        true
    } else {
        items_wf(s, n - 1) && json_wf(s[n - 1])
    }
}

/// The values of the first `n` entries are well formed.
pub open spec fn entries_wf(s: Seq<(String, Json)>, n: int) -> bool
    decreases s, n,
{
    if n <= 0 || n > s.len() {
        true
    } else {
        entries_wf(s, n - 1) && json_wf(s[n - 1].1)
    }
}

/// Two values hold the same JSON: same kind, same texts, same items and
/// entries in the same order.
pub open spec fn same_json(a: Json, b: Json) -> bool
    decreases a, 0nat,
{
    match (a, b) {
        (Json::Null, Json::Null) => true,
        (Json::Bool(x), Json::Bool(y)) => x == y,
        (Json::Number(x), Json::Number(y)) => x@ == y@,
        (Json::Str(x), Json::Str(y)) => x@ == y@,
        (Json::Array(xs), Json::Array(ys)) => xs@.len() == ys@.len() && same_items(
            xs@,
            ys@,
            xs@.len() as int,
        ),
        (Json::Object(xs), Json::Object(ys)) => xs@.len() == ys@.len() && same_entries(
            xs@,
            ys@,
            xs@.len() as int,
        ),
        _ => false,
    }
}

/// The first `n` items of the two lists hold the same JSON.
pub open spec fn same_items(xs: Seq<Json>, ys: Seq<Json>, n: int) -> bool
    decreases xs, n,
{
    if n <= 0 || n > xs.len() || n > ys.len() {
        n <= 0
    } else {
        same_items(xs, ys, n - 1) && same_json(xs[n - 1], ys[n - 1])
    }
}

/// The first `n` entries of the two lists have the same keys and hold the
/// same JSON.
pub open spec fn same_entries(xs: Seq<(String, Json)>, ys: Seq<(String, Json)>, n: int) -> bool
    decreases xs, n,
{
    if n <= 0 || n > xs.len() || n > ys.len() {
        n <= 0
    } else {
        same_entries(xs, ys, n - 1) && xs[n - 1].0@ == ys[n - 1].0@ && same_json(
            xs[n - 1].1,
            ys[n - 1].1,
        )
    }
}

proof fn lemma_items_wf(s: Seq<Json>, n: int)
    requires
        0 <= n <= s.len(),
    ensures
        items_wf(s, n) <==> forall|k: int| 0 <= k < n ==> #[trigger] json_wf(s[k]),
    decreases n,
{
    if n > 0 {
        lemma_items_wf(s, n - 1);
        assert(items_wf(s, n) == (items_wf(s, n - 1) && json_wf(s[n - 1])));
        if items_wf(s, n) {
            assert forall|k: int| 0 <= k < n implies #[trigger] json_wf(s[k]) by {
                if k < n - 1 {
                    assert(json_wf(s[k]));
                }
            }
        }
        if forall|k: int| 0 <= k < n ==> #[trigger] json_wf(s[k]) {
            assert(json_wf(s[n - 1]));
            assert(items_wf(s, n - 1));
        }
    }
}

proof fn lemma_entries_wf(s: Seq<(String, Json)>, n: int)
    requires
        0 <= n <= s.len(),
    ensures
        entries_wf(s, n) <==> forall|k: int| 0 <= k < n ==> #[trigger] json_wf(s[k].1),
    decreases n,
{
    if n > 0 {
        lemma_entries_wf(s, n - 1);
        assert(entries_wf(s, n) == (entries_wf(s, n - 1) && json_wf(s[n - 1].1)));
        if entries_wf(s, n) {
            assert forall|k: int| 0 <= k < n implies #[trigger] json_wf(s[k].1) by {
                if k < n - 1 {
                    assert(json_wf(s[k].1));
                }
            }
        }
        if forall|k: int| 0 <= k < n ==> #[trigger] json_wf(s[k].1) {
            assert(json_wf(s[n - 1].1));
            assert(entries_wf(s, n - 1));
        }
    }
}

proof fn lemma_same_items(xs: Seq<Json>, ys: Seq<Json>, n: int)
    requires
        0 <= n <= xs.len(),
        n <= ys.len(),
    ensures
        same_items(xs, ys, n) <==> forall|k: int| 0 <= k < n ==> #[trigger] same_json(xs[k], ys[k]),
    decreases n,
{
    if n > 0 {
        lemma_same_items(xs, ys, n - 1);
        assert(same_items(xs, ys, n) == (same_items(xs, ys, n - 1) && same_json(xs[n - 1], ys[n - 1])));
        if same_items(xs, ys, n) {
            assert forall|k: int| 0 <= k < n implies #[trigger] same_json(xs[k], ys[k]) by {
                if k < n - 1 {
                    assert(same_json(xs[k], ys[k]));
                }
            }
        }
        if forall|k: int| 0 <= k < n ==> #[trigger] same_json(xs[k], ys[k]) {
            assert(same_json(xs[n - 1], ys[n - 1]));
            assert(same_items(xs, ys, n - 1));
        }
    }
}

proof fn lemma_same_entries_intro(xs: Seq<(String, Json)>, ys: Seq<(String, Json)>, n: int)
    requires
        0 <= n <= xs.len(),
        n <= ys.len(),
        forall|k: int|
            #![trigger xs[k]]
            0 <= k < n ==> xs[k].0@ == ys[k].0@ && same_json(xs[k].1, ys[k].1),
    ensures
        same_entries(xs, ys, n),
    decreases n,
{
    if n > 0 {
        assert(same_json(xs[n - 1].1, ys[n - 1].1));
        lemma_same_entries_intro(xs, ys, n - 1);
    }
}

proof fn lemma_same_entries_elim(xs: Seq<(String, Json)>, ys: Seq<(String, Json)>, n: int)
    requires
        0 <= n <= xs.len(),
        n <= ys.len(),
        same_entries(xs, ys, n),
    ensures
        forall|k: int|
            #![trigger xs[k]]
            0 <= k < n ==> xs[k].0@ == ys[k].0@ && same_json(xs[k].1, ys[k].1),
    decreases n,
{
    if n > 0 {
        lemma_same_entries_elim(xs, ys, n - 1);
        assert forall|k: int|
            #![trigger xs[k]]
            0 <= k < n implies xs[k].0@ == ys[k].0@ && same_json(xs[k].1, ys[k].1) by {
            if k < n - 1 {
                assert(same_json(xs[k].1, ys[k].1));
            }
        }
    }
}

/// The value at key `k` of an object's entries, or null.
pub open spec fn value_at(es: Seq<(String, Json)>, k: Seq<char>) -> Json {
    match key_index(es, k) {
        Some(i) => es[i].1,
        None => Json::Null,
    }
}

/// `r` is the patch `p` merged into `b`: when both are objects, `r` is an
/// object with the keys of both, each key of the patch holding its value
/// merged into the base's value at that key (null when the base has none)
/// and every other key the base's value; otherwise `r` is the patch.
pub open spec fn is_merge(b: Json, p: Json, r: Json) -> bool
    decreases p, 0nat,
{
    match (b, p) {
        (Json::Object(be), Json::Object(pe)) => match r {
            Json::Object(re) => {
                &&& keys_unique(re@)
                &&& forall|k: Seq<char>|
                    (#[trigger] key_index(re@, k) is Some) <==> (key_index(be@, k) is Some
                        || key_index(pe@, k) is Some)
                &&& merged_prefix(be@, pe@, re@, pe@.len() as int)
                &&& forall|j: int|
                    #![trigger be@[j]]
                    0 <= j < be@.len() && key_index(pe@, be@[j].0@) is None ==> same_json(
                        value_at(re@, be@[j].0@),
                        be@[j].1,
                    )
            },
            _ => false,
        },
        _ => same_json(r, p),
    }
}

/// Each of the first `n` keys of the patch holds, in `re`, its value
/// merged into the base's value at that key.
pub open spec fn merged_prefix(be: Seq<(String, Json)>, pe: Seq<(String, Json)>, re: Seq<(String, Json)>, n: int) -> bool
    decreases pe, n,
{
    if n <= 0 || n > pe.len() {
        true
    } else {
        merged_prefix(be, pe, re, n - 1) && is_merge(
            value_at(be, pe[n - 1].0@),
            pe[n - 1].1,
            value_at(re, pe[n - 1].0@),
        )
    }
}

proof fn lemma_merged_prefix_intro(be: Seq<(String, Json)>, pe: Seq<(String, Json)>, re: Seq<(String, Json)>, n: int)
    requires
        0 <= n <= pe.len(),
        forall|q: int|
            #![trigger pe[q]]
            0 <= q < n ==> is_merge(value_at(be, pe[q].0@), pe[q].1, value_at(re, pe[q].0@)),
    ensures
        merged_prefix(be, pe, re, n),
    decreases n,
{
    if n > 0 {
        assert(is_merge(value_at(be, pe[n - 1].0@), pe[n - 1].1, value_at(re, pe[n - 1].0@)));
        lemma_merged_prefix_intro(be, pe, re, n - 1);
    }
}

proof fn lemma_key_index(es: Seq<(String, Json)>, i: int)
    requires
        keys_unique(es),
        0 <= i < es.len(),
    ensures
        key_index(es, es[i].0@) == Some(i),
{
    assert(exists|j: int| 0 <= j < es.len() && es[j].0@ == es[i].0@);
    let j = choose|j: int| 0 <= j < es.len() && es[j].0@ == es[i].0@;
    if j != i {
        if j < i {
            assert(es[j].0@ != es[i].0@);
        } else {
            assert(es[i].0@ != es[j].0@);
        }
    }
}

fn entry_position(es: &Vec<(String, Json)>, key: &str) -> (r: Option<usize>)
    ensures
        r matches Some(j) ==> j < es@.len() && es@[j as int].0@ == key@,
        r is None ==> key_index(es@, key@) is None,
{
    let mut j: usize = 0;
    while j < es.len()
        invariant
            j <= es@.len(),
            forall|q: int| #![trigger es@[q]] 0 <= q < j ==> es@[q].0@ != key@,
        decreases es@.len() - j,
    {
        if str_eq(es[j].0.as_str(), key) {
            return Some(j);
        }
        j += 1;
    }
    proof {
        if exists|q: int| 0 <= q < es@.len() && es@[q].0@ == key@ {
            let q = choose|q: int| 0 <= q < es@.len() && es@[q].0@ == key@;
            assert(es@[q].0@ != key@);
        }
    }
    None
}

/// A copy of a value.
pub fn clone_json(v: &Json) -> (r: Json)
    ensures
        same_json(r, *v),
        json_wf(*v) ==> json_wf(r),
    decreases v,
{
    match v {
        Json::Null => Json::Null,
        Json::Bool(b) => Json::Bool(*b),
        Json::Number(n) => Json::Number(n.clone()),
        Json::Str(s) => Json::Str(s.clone()),
        Json::Array(items) => {
            proof {
                lemma_items_wf(items@, items@.len() as int);
            }
            let mut out: Vec<Json> = Vec::new();
            let mut i: usize = 0;
            while i < items.len()
                invariant
                    i <= items@.len(),
                    out@.len() == i,
                    *v == Json::Array(*items),
                    json_wf(*v) ==> forall|k: int| 0 <= k < items@.len() ==> #[trigger] json_wf(items@[k]),
                    forall|k: int| 0 <= k < i ==> #[trigger] same_json(out@[k], items@[k]),
                    json_wf(*v) ==> forall|k: int| 0 <= k < i ==> #[trigger] json_wf(out@[k]),
                decreases items@.len() - i,
            {
                proof {
                    vstd::std_specs::vec::axiom_vec_index_decreases(*items, i as int);
                    assert(decreases_to!(*v => (*v)->Array_0));
                }
                let c = clone_json(&items[i]);
                out.push(c);
                i += 1;
            }
            proof {
                lemma_same_items(out@, items@, items@.len() as int);
                lemma_items_wf(out@, out@.len() as int);
            }
            Json::Array(out)
        },
        Json::Object(es) => {
            proof {
                lemma_entries_wf(es@, es@.len() as int);
            }
            let mut out: Vec<(String, Json)> = Vec::new();
            let mut i: usize = 0;
            while i < es.len()
                invariant
                    i <= es@.len(),
                    out@.len() == i,
                    *v == Json::Object(*es),
                    json_wf(*v) ==> forall|k: int|
                        #![trigger es@[k]]
                        0 <= k < es@.len() ==> json_wf(es@[k].1),
                    forall|k: int|
                        #![trigger out@[k]]
                        0 <= k < i ==> out@[k].0@ == es@[k].0@ && same_json(out@[k].1, es@[k].1),
                    json_wf(*v) ==> forall|k: int|
                        #![trigger out@[k]]
                        0 <= k < i ==> json_wf(out@[k].1),
                decreases es@.len() - i,
            {
                proof {
                    vstd::std_specs::vec::axiom_vec_index_decreases(*es, i as int);
                    assert(decreases_to!(*v => (*v)->Object_0));
                    assert(decreases_to!(*v => es@[i as int].1));
                }
                let c = clone_json(&es[i].1);
                let key = es[i].0.clone();
                assert(key@ == es@[i as int].0@);
                let ghost before = out@;
                out.push((key, c));
                assert(out@[i as int].0@ == es@[i as int].0@);
                assert(out@[i as int].1 == c);
                assert(forall|k: int| 0 <= k < i ==> out@[k] == before[k]);
                assert forall|k: int|
                    #![trigger out@[k]]
                    0 <= k < i + 1 implies out@[k].0@ == es@[k].0@ && same_json(out@[k].1, es@[k].1) by {
                    if k < i {
                        assert(out@[k] == before[k]);
                    }
                }
                i += 1;
            }
            proof {
                lemma_same_entries_intro(out@, es@, es@.len() as int);
                lemma_entries_wf(out@, out@.len() as int);
                if json_wf(*v) {
                    assert(keys_unique(es@));
                    assert forall|a: int, b: int| 0 <= a < b < out@.len() implies out@[a].0@
                        != out@[b].0@ by {
                        assert(out@[a].0@ == es@[a].0@);
                        assert(out@[b].0@ == es@[b].0@);
                    }
                }
            }
            Json::Object(out)
        },
    }
}

proof fn lemma_same_keys(xs: Seq<(String, Json)>, ys: Seq<(String, Json)>)
    requires
        xs.len() == ys.len(),
        forall|a: int| #![trigger xs[a]] 0 <= a < xs.len() ==> xs[a].0@ == ys[a].0@,
    ensures
        forall|k: Seq<char>| (#[trigger] key_index(xs, k) is Some) <==> (key_index(ys, k) is Some),
{
    assert forall|k: Seq<char>| (#[trigger] key_index(xs, k) is Some) <==> (key_index(ys, k) is Some) by {
        if exists|a: int| 0 <= a < xs.len() && xs[a].0@ == k {
            let a = choose|a: int| 0 <= a < xs.len() && xs[a].0@ == k;
            assert(ys[a].0@ == k);
        }
        if exists|a: int| 0 <= a < ys.len() && ys[a].0@ == k {
            let a = choose|a: int| 0 <= a < ys.len() && ys[a].0@ == k;
            assert(xs[a].0@ == k);
        }
    }
}

/// Replacing the value of an existing key changes only that key's value.
proof fn lemma_value_at_set(es: Seq<(String, Json)>, j: int, e: (String, Json))
    requires
        keys_unique(es),
        0 <= j < es.len(),
        e.0@ == es[j].0@,
    ensures
        keys_unique(es.update(j, e)),
        value_at(es.update(j, e), e.0@) == e.1,
        forall|k: Seq<char>|
            (#[trigger] key_index(es.update(j, e), k) is Some) <==> (key_index(es, k) is Some),
        forall|k: Seq<char>| k != e.0@ ==> #[trigger] value_at(es.update(j, e), k) == value_at(es, k),
{
    let u = es.update(j, e);
    assert forall|a: int, b: int| 0 <= a < b < u.len() implies u[a].0@ != u[b].0@ by {
        assert(es[a].0@ != es[b].0@);
    }
    lemma_key_index(u, j);
    lemma_same_keys(u, es);
    assert forall|k: Seq<char>| k != e.0@ implies #[trigger] value_at(u, k) == value_at(es, k) by {
        if key_index(es, k) is Some {
            let a = key_index(es, k).unwrap();
            assert(es[a].0@ == k);
            lemma_key_index(es, a);
            assert(a != j);
            assert(u[a] == es[a]);
            lemma_key_index(u, a);
        }
    }
}

/// Adding an entry with a new key leaves every other key's value alone.
proof fn lemma_value_at_push(es: Seq<(String, Json)>, e: (String, Json))
    requires
        keys_unique(es),
        key_index(es, e.0@) is None,
    ensures
        keys_unique(es.push(e)),
        value_at(es.push(e), e.0@) == e.1,
        forall|k: Seq<char>|
            (#[trigger] key_index(es.push(e), k) is Some) <==> (key_index(es, k) is Some || k
                == e.0@),
        forall|k: Seq<char>| k != e.0@ ==> #[trigger] value_at(es.push(e), k) == value_at(es, k),
{
    let u = es.push(e);
    assert forall|a: int, b: int| 0 <= a < b < u.len() implies u[a].0@ != u[b].0@ by {
        if b == es.len() {
            if es[a].0@ == e.0@ {
                assert(exists|q: int| 0 <= q < es.len() && es[q].0@ == e.0@);
            }
        } else {
            assert(es[a].0@ != es[b].0@);
        }
    }
    lemma_key_index(u, es.len() as int);
    assert forall|k: Seq<char>|
        (#[trigger] key_index(u, k) is Some) <==> (key_index(es, k) is Some || k == e.0@) by {
        if exists|a: int| 0 <= a < u.len() && u[a].0@ == k {
            let a = choose|a: int| 0 <= a < u.len() && u[a].0@ == k;
            if a < es.len() {
                assert(es[a].0@ == k);
            }
        }
        if exists|a: int| 0 <= a < es.len() && es[a].0@ == k {
            let a = choose|a: int| 0 <= a < es.len() && es[a].0@ == k;
            assert(u[a].0@ == k);
        }
    }
    assert forall|k: Seq<char>| k != e.0@ implies #[trigger] value_at(u, k) == value_at(es, k) by {
        if key_index(es, k) is Some {
            let a = key_index(es, k).unwrap();
            assert(es[a].0@ == k);
            assert(u[a] == es[a]);
            lemma_key_index(u, a);
        }
    }
}

fn clone_entries(es: &Vec<(String, Json)>) -> (r: Vec<(String, Json)>)
    requires
        keys_unique(es@),
        forall|k: int| #![trigger es@[k]] 0 <= k < es@.len() ==> json_wf(es@[k].1),
    ensures
        r@.len() == es@.len(),
        keys_unique(r@),
        forall|k: int|
            #![trigger r@[k]]
            0 <= k < r@.len() ==> r@[k].0@ == es@[k].0@ && same_json(r@[k].1, es@[k].1) && json_wf(
                r@[k].1,
            ),
{
    let mut out: Vec<(String, Json)> = Vec::new();
    let mut i: usize = 0;
    while i < es.len()
        invariant
            i <= es@.len(),
            out@.len() == i,
            forall|k: int| #![trigger es@[k]] 0 <= k < es@.len() ==> json_wf(es@[k].1),
            forall|k: int|
                #![trigger out@[k]]
                0 <= k < i ==> out@[k].0@ == es@[k].0@ && same_json(out@[k].1, es@[k].1) && json_wf(
                    out@[k].1,
                ),
        decreases es@.len() - i,
    {
        let c = clone_json(&es[i].1);
        let key = es[i].0.clone();
        let ghost before = out@;
        assert(json_wf(es@[i as int].1));
        out.push((key, c));
        assert forall|k: int|
            #![trigger out@[k]]
            0 <= k < i + 1 implies out@[k].0@ == es@[k].0@ && same_json(out@[k].1, es@[k].1)
                && json_wf(out@[k].1) by {
            if k < i {
                assert(out@[k] == before[k]);
            }
        }
        i += 1;
    }
    assert forall|a: int, b: int| 0 <= a < b < out@.len() implies out@[a].0@ != out@[b].0@ by {
        assert(out@[a].0@ == es@[a].0@);
        assert(out@[b].0@ == es@[b].0@);
    }
    out
}

/// The patch merged into the base (see [`is_merge`]): objects are merged
/// key by key, recursively; any other patch replaces the base.
pub fn deep_merge(base: &Json, patch: &Json) -> (r: Json)
    requires
        json_wf(*base),
        json_wf(*patch),
    ensures
        is_merge(*base, *patch, r),
        json_wf(r),
    decreases patch,
{
    match (base, patch) {
        (Json::Object(be), Json::Object(pe)) => {
            proof {
                lemma_entries_wf(be@, be@.len() as int);
                lemma_entries_wf(pe@, pe@.len() as int);
            }
            let mut merged = clone_entries(be);
            proof {
                lemma_same_keys(merged@, be@);
                assert forall|j: int|
                    #![trigger be@[j]]
                    0 <= j < be@.len() implies same_json(value_at(merged@, be@[j].0@), be@[j].1) by {
                    lemma_key_index(merged@, j);
                    assert(merged@[j].0@ == be@[j].0@);
                }
            }
            let mut i: usize = 0;
            while i < pe.len()
                invariant
                    i <= pe@.len(),
                    *patch == Json::Object(*pe),
                    keys_unique(be@),
                    keys_unique(pe@),
                    forall|k: int| #![trigger be@[k]] 0 <= k < be@.len() ==> json_wf(be@[k].1),
                    forall|k: int| #![trigger pe@[k]] 0 <= k < pe@.len() ==> json_wf(pe@[k].1),
                    keys_unique(merged@),
                    forall|k: int| #![trigger merged@[k]] 0 <= k < merged@.len() ==> json_wf(merged@[k].1),
                    forall|k: Seq<char>|
                        (#[trigger] key_index(merged@, k) is Some) <==> (key_index(be@, k) is Some
                            || exists|q: int| 0 <= q < i && pe@[q].0@ == k),
                    forall|q: int|
                        #![trigger pe@[q]]
                        0 <= q < i ==> is_merge(
                            value_at(be@, pe@[q].0@),
                            pe@[q].1,
                            value_at(merged@, pe@[q].0@),
                        ),
                    forall|j: int|
                        #![trigger be@[j]]
                        0 <= j < be@.len() && (forall|q: int| 0 <= q < i ==> pe@[q].0@ != be@[j].0@)
                            ==> same_json(value_at(merged@, be@[j].0@), be@[j].1),
                decreases pe@.len() - i,
            {
                proof {
                    vstd::std_specs::vec::axiom_vec_index_decreases(*pe, i as int);
                    assert(decreases_to!(*patch => (*patch)->Object_0));
                    assert(json_wf(pe@[i as int].1));
                }
                let key = pe[i].0.as_str();
                let m = match entry_position(be, key) {
                    Some(j) => {
                        proof {
                            lemma_key_index(be@, j as int);
                            assert(json_wf(be@[j as int].1));
                        }
                        deep_merge(&be[j].1, &pe[i].1)
                    },
                    None => deep_merge(&Json::Null, &pe[i].1),
                };
                assert(is_merge(value_at(be@, key@), pe@[i as int].1, m));
                let ghost before = merged@;
                let entry = (pe[i].0.clone(), m);
                assert(entry.0@ == key@);
                match entry_position(&merged, key) {
                    Some(j) => {
                        proof {
                            lemma_value_at_set(before, j as int, entry);
                        }
                        merged.set(j, entry);
                        assert(merged@ == before.update(j as int, entry));
                    },
                    None => {
                        proof {
                            lemma_value_at_push(before, entry);
                        }
                        merged.push(entry);
                        assert(merged@ == before.push(entry));
                    },
                }
                proof {
                    assert(value_at(merged@, key@) == m);
                    assert forall|q: int| #![trigger pe@[q]] 0 <= q < i implies pe@[q].0@ != key@ by {
                        assert(pe@[q].0@ != pe@[i as int].0@);
                    }
                    assert forall|k: int| #![trigger merged@[k]] 0 <= k < merged@.len() implies json_wf(
                        merged@[k].1,
                    ) by {
                        if merged@[k] != entry {
                            if k < before.len() {
                                assert(merged@[k] == before[k]);
                            }
                        }
                    }
                    assert forall|k: Seq<char>|
                        (#[trigger] key_index(merged@, k) is Some) <==> (key_index(be@, k) is Some
                            || exists|q: int| 0 <= q < i + 1 && pe@[q].0@ == k) by {
                        if k == key@ {
                            assert(pe@[i as int].0@ == k);
                        } else if exists|q: int| 0 <= q < i + 1 && pe@[q].0@ == k {
                            let q = choose|q: int| 0 <= q < i + 1 && pe@[q].0@ == k;
                            assert(q < i);
                        }
                    }
                    assert forall|q: int|
                        #![trigger pe@[q]]
                        0 <= q < i + 1 implies is_merge(
                        value_at(be@, pe@[q].0@),
                        pe@[q].1,
                        value_at(merged@, pe@[q].0@),
                    ) by {
                        if q < i {
                            assert(pe@[q].0@ != key@);
                            assert(value_at(merged@, pe@[q].0@) == value_at(before, pe@[q].0@));
                        }
                    }
                    assert forall|j: int|
                        #![trigger be@[j]]
                        0 <= j < be@.len() && (forall|q: int| 0 <= q < i + 1 ==> pe@[q].0@ != be@[j].0@)
                            implies same_json(value_at(merged@, be@[j].0@), be@[j].1) by {
                        assert(pe@[i as int].0@ != be@[j].0@);
                        assert(value_at(merged@, be@[j].0@) == value_at(before, be@[j].0@));
                    }
                }
                i += 1;
            }
            proof {
                lemma_merged_prefix_intro(be@, pe@, merged@, pe@.len() as int);
                lemma_entries_wf(merged@, merged@.len() as int);
                assert forall|j: int|
                    #![trigger be@[j]]
                    0 <= j < be@.len() && key_index(pe@, be@[j].0@) is None implies same_json(
                    value_at(merged@, be@[j].0@),
                    be@[j].1,
                ) by {
                    assert forall|q: int| 0 <= q < pe@.len() implies pe@[q].0@ != be@[j].0@ by {
                        if pe@[q].0@ == be@[j].0@ {
                            assert(exists|a: int| 0 <= a < pe@.len() && pe@[a].0@ == be@[j].0@);
                        }
                    }
                }
            }
            Json::Object(merged)
        },
        _ => clone_json(patch),
    }
}

impl Json {
    /// The value at `key` of an object; `None` for a missing key or a value
    /// that is not an object.
    pub fn get(&self, key: &str) -> (r: Option<&Json>)
        ensures
            match *self {
                Json::Object(es) => keys_unique(es@) ==> match r {
                    Some(v) => key_index(es@, key@) is Some && *v == value_at(es@, key@),
                    None => key_index(es@, key@) is None,
                },
                _ => r is None,
            },
    {
        match self {
            Json::Object(es) => match entry_position(es, key) {
                Some(j) => {
                    proof {
                        if keys_unique(es@) {
                            lemma_key_index(es@, j as int);
                        }
                    }
                    Some(&es[j].1)
                },
                None => None,
            },
            _ => None,
        }
    }
}

/// Hexadecimal digit of `n` (below 16), lower case.
pub open spec fn hex_digit(n: u32) -> char {
    if n < 10 {
        ((48 + n) as u8) as char
    } else {
        ((87 + n) as u8) as char
    }
}

/// A character inside a JSON string: quote and backslash escaped with a
/// backslash, control characters written as `\u00XX`, others as they are.
pub open spec fn escape_char(c: char) -> Seq<char> {
    if c == '"' {
        seq!['\\', '"']
    } else if c == '\\' {
        seq!['\\', '\\']
    } else if (c as u32) < 0x20 {
        seq!['\\', 'u', '0', '0', hex_digit((c as u32) / 16), hex_digit((c as u32) % 16)]
    } else {
        seq![c]
    }
}

/// The characters of `s`, each escaped for a JSON string.
pub open spec fn escaped(s: Seq<char>) -> Seq<char>
    decreases s.len(),
{
    if s.len() == 0 {
        Seq::empty()
    } else {
        escaped(s.drop_last()) + escape_char(s.last())
    }
}

/// `s` as a JSON string literal.
pub open spec fn quoted(s: Seq<char>) -> Seq<char> {
    seq!['"'] + escaped(s) + seq!['"']
}

/// The JSON text of a value, without whitespace; numbers are written as
/// the text they hold.
pub open spec fn json_text(j: Json) -> Seq<char>
    decreases j, 0nat,
{
    match j {
        Json::Null => "null"@,
        Json::Bool(b) => if b {
            "true"@
        } else {
            "false"@
        },
        Json::Number(n) => n@,
        Json::Str(s) => quoted(s@),
        Json::Array(items) => seq!['['] + items_text(items@, items@.len() as int) + seq![']'],
        Json::Object(es) => seq!['{'] + entries_text(es@, es@.len() as int) + seq!['}'],
    }
}

/// The first `n` items, comma separated.
pub open spec fn items_text(s: Seq<Json>, n: int) -> Seq<char>
    decreases s, n,
{
    if n <= 0 || n > s.len() {
        Seq::empty()
    } else {
        items_text(s, n - 1) + (if n > 1 {
            seq![',']
        } else {
            Seq::empty()
        }) + json_text(s[n - 1])
    }
}

/// The first `n` entries as `"key":value`, comma separated.
pub open spec fn entries_text(s: Seq<(String, Json)>, n: int) -> Seq<char>
    decreases s, n,
{
    if n <= 0 || n > s.len() {
        Seq::empty()
    } else {
        entries_text(s, n - 1) + (if n > 1 {
            seq![',']
        } else {
            Seq::empty()
        }) + quoted(s[n - 1].0@) + seq![':'] + json_text(s[n - 1].1)
    }
}

fn hex_char(n: u32) -> (r: char)
    requires
        n < 16,
    ensures
        r == hex_digit(n),
{
    if n < 10 {
        ((48 + n) as u8) as char
    } else {
        ((87 + n) as u8) as char
    }
}

fn push_escape_char(out: &mut String, c: char)
    ensures
        final(out)@ == old(out)@ + escape_char(c),
{
    if c == '"' {
        push_char(out, '\\');
        push_char(out, '"');
    } else if c == '\\' {
        push_char(out, '\\');
        push_char(out, '\\');
    } else if (c as u32) < 0x20 {
        let n = c as u32;
        push_char(out, '\\');
        push_char(out, 'u');
        push_char(out, '0');
        push_char(out, '0');
        let hi = hex_char(n / 16);
        push_char(out, hi);
        let lo = hex_char(n % 16);
        push_char(out, lo);
    } else {
        push_char(out, c);
    }
    assert(final(out)@ =~= old(out)@ + escape_char(c));
}

fn push_quoted(out: &mut String, s: &str)
    ensures
        final(out)@ == old(out)@ + quoted(s@),
{
    let v = to_chars(s);
    push_char(out, '"');
    let mut i: usize = 0;
    while i < v.len()
        invariant
            i <= v@.len(),
            v@ == s@,
            out@ == old(out)@ + seq!['"'] + escaped(v@.subrange(0, i as int)),
        decreases v@.len() - i,
    {
        assert(v@.subrange(0, i + 1).drop_last() =~= v@.subrange(0, i as int));
        push_escape_char(out, v[i]);
        assert(out@ =~= old(out)@ + seq!['"'] + escaped(v@.subrange(0, i + 1)));
        i += 1;
    }
    push_char(out, '"');
    assert(v@.subrange(0, v@.len() as int) =~= s@);
    assert(out@ =~= old(out)@ + quoted(s@));
}

/// Appends the JSON text of `j` (see [`json_text`]).
fn push_json_text(out: &mut String, j: &Json)
    ensures
        final(out)@ == old(out)@ + json_text(*j),
    decreases j,
{
    match j {
        Json::Null => {
            out.append("null");
        },
        Json::Bool(b) => {
            if *b {
                out.append("true");
            } else {
                out.append("false");
            }
        },
        Json::Number(n) => {
            out.append(n.as_str());
        },
        Json::Str(s) => {
            push_quoted(out, s.as_str());
        },
        Json::Array(items) => {
            push_char(out, '[');
            let mut i: usize = 0;
            while i < items.len()
                invariant
                    i <= items@.len(),
                    *j == Json::Array(*items),
                    out@ == old(out)@ + seq!['['] + items_text(items@, i as int),
                decreases items@.len() - i,
            {
                let ghost before = out@;
                if i > 0 {
                    push_char(out, ',');
                }
                proof {
                    vstd::std_specs::vec::axiom_vec_index_decreases(*items, i as int);
                    assert(decreases_to!(*j => (*j)->Array_0));
                }
                push_json_text(out, &items[i]);
                assert(out@ =~= old(out)@ + seq!['['] + items_text(items@, i + 1));
                i += 1;
            }
            push_char(out, ']');
            assert(out@ =~= old(out)@ + json_text(*j));
        },
        Json::Object(es) => {
            push_char(out, '{');
            let mut i: usize = 0;
            while i < es.len()
                invariant
                    i <= es@.len(),
                    *j == Json::Object(*es),
                    out@ == old(out)@ + seq!['{'] + entries_text(es@, i as int),
                decreases es@.len() - i,
            {
                if i > 0 {
                    push_char(out, ',');
                }
                push_quoted(out, es[i].0.as_str());
                push_char(out, ':');
                proof {
                    vstd::std_specs::vec::axiom_vec_index_decreases(*es, i as int);
                    assert(decreases_to!(*j => (*j)->Object_0));
                    assert(decreases_to!(es@[i as int] => es@[i as int].1));
                }
                push_json_text(out, &es[i].1);
                assert(out@ =~= old(out)@ + seq!['{'] + entries_text(es@, i + 1));
                i += 1;
            }
            push_char(out, '}');
            assert(out@ =~= old(out)@ + json_text(*j));
        },
    }
}

/// The JSON text of a value (see [`json_text`]).
pub fn to_json_text(j: &Json) -> (r: String)
    ensures
        r@ == json_text(*j),
{
    let mut out = String::new();
    push_json_text(&mut out, j);
    assert(out@ =~= json_text(*j));
    out
}

} // verus!
