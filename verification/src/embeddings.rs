//! Bag-of-words text embedding: the words of a text and the vector
//! positions they hash to, and the sizes of the neural embedding models.

use vstd::prelude::*;
use vstd::utf8::*;

use crate::text::{alphanumeric, is_alphanumeric, lowercase, str_eq, string_of, to_chars, to_lowercase};

verus! {

/// 2^64, the modulus of `u64` wrapping arithmetic.
pub open spec fn word_modulus() -> int {
    0x1_0000_0000_0000_0000
}

/// The djb2 hash of a byte string: start at 5381, and for each byte
/// multiply by 33 and add the byte, modulo 2^64.
pub open spec fn djb2(b: Seq<u8>) -> int
    decreases b.len(),
{
    if b.len() == 0 {
        5381
    } else {
        (djb2(b.drop_last()) * 33 + b.last()) % word_modulus()
    }
}

/// djb2 hash of the UTF-8 bytes of `s`.
pub fn simple_hash(s: &str) -> (r: u64)
    ensures
        r == djb2(encode_utf8(s@)),
{
    let bytes = s.as_bytes();
    let mut hash: u64 = 5381;
    let mut i: usize = 0;
    while i < bytes.len()
        invariant
            i <= bytes@.len(),
            bytes@ == encode_utf8(s@),
            hash == djb2(bytes@.subrange(0, i as int)),
        decreases bytes@.len() - i,
    {
        let b = bytes[i];
        let m = hash.wrapping_mul(33);
        let next = m.wrapping_add(b as u64);
        proof {
            assert(bytes@.subrange(0, i + 1).drop_last() =~= bytes@.subrange(0, i as int));
            assert(bytes@.subrange(0, i + 1).last() == b);
            assert(m == (hash * 33) % word_modulus());
            vstd::arithmetic::div_mod::lemma_add_mod_noop(hash * 33, b as int, word_modulus());
            assert((b as int) % word_modulus() == b as int);
            assert(next == (m + b as int) % word_modulus());
        }
        hash = next;
        i += 1;
    }
    assert(bytes@.subrange(0, i as int) =~= bytes@);
    hash
}

/// Position of the first character from `from` on that is not
/// alphanumeric.
pub open spec fn next_separator(s: Seq<char>, from: int) -> Option<int>
    decreases s.len() - from,
{
    if from < 0 || from >= s.len() {
        None
    } else if !alphanumeric(s[from]) {
        Some(from)
    } else {
        next_separator(s, from + 1)
    }
}

/// `s[from..].split(|c| !c.is_alphanumeric())`: the runs between
/// separators, empty ones included.
pub open spec fn pieces_from(s: Seq<char>, from: int) -> Seq<Seq<char>>
    decreases s.len() + 1 - from,
{
    if from < 0 || from > s.len() {
        Seq::empty()
    } else {
        match next_separator(s, from) {
            None => seq![s.subrange(from, s.len() as int)],
            Some(j) => if from <= j < s.len() {
                seq![s.subrange(from, j)] + pieces_from(s, j + 1)
            } else {
                Seq::empty()
            },
        }
    }
}

/// A piece that counts as a word: more than two bytes long.
pub open spec fn is_word(w: Seq<char>) -> bool {
    encode_utf8(w).len() > 2
}

/// The words of a text: the alphanumeric runs of its lowercase form that
/// are more than two bytes long, in order.
pub open spec fn words(text: Seq<char>) -> Seq<Seq<char>> {
    pieces_from(lowercase(text), 0).filter(|w: Seq<char>| is_word(w))
}

/// The two vector positions a word adds to: its hash, and its hash times
/// 31 (wrapping), each modulo the dimension.
pub open spec fn feature_of(w: Seq<char>, dim: int) -> (int, int) {
    let h = djb2(encode_utf8(w));
    (h % dim, ((h * 31) % word_modulus()) % dim)
}

proof fn lemma_next_separator(s: Seq<char>, from: int)
    requires
        0 <= from,
    ensures
        next_separator(s, from) matches Some(j) ==> from <= j < s.len() && !alphanumeric(s[j]),
        next_separator(s, from) is None ==> forall|j: int| from <= j < s.len() ==> alphanumeric(s[j]),
    decreases s.len() - from,
{
    if from < s.len() && alphanumeric(s[from]) {
        lemma_next_separator(s, from + 1);
    }
}

/// Dimension of the bag-of-words vectors.
pub const BAG_OF_WORDS_DIM: usize = 384;

/// Embedding that hashes each word of a text into a fixed-size vector.
#[derive(Debug, Clone)]
pub struct BagOfWordsEmbedder {
    dim: usize,
}

impl BagOfWordsEmbedder {
    /// Number of positions of the vectors.
    pub closed spec fn dim(&self) -> nat {
        self.dim as nat
    }

    pub fn new() -> (r: Self)
        ensures
            r.dim() == BAG_OF_WORDS_DIM,
    {
        BagOfWordsEmbedder { dim: BAG_OF_WORDS_DIM }
    }

    pub fn dimension(&self) -> (r: usize)
        ensures
            r == self.dim(),
    {
        self.dim
    }

    /// The embedder's name in the settings.
    pub fn name(&self) -> (r: &'static str)
        ensures
            r@ == "bag-of-words"@,
    {
        "bag-of-words"
    }

    /// For each word of `text`, in order, the position that gets one unit
    /// and the position that gets half a unit before the vector is
    /// normalized.
    pub fn features(&self, text: &str) -> (r: Vec<(usize, usize)>)
        requires
            self.dim() > 0,
        ensures
            r@.map_values(|p: (usize, usize)| (p.0 as int, p.1 as int)) == words(text@).map_values(
                |w: Seq<char>| feature_of(w, self.dim() as int),
            ),
    {
        let lower = to_lowercase(text);
        let v = to_chars(lower.as_str());
        let ghost s = v@;
        let ghost wf = |w: Seq<char>| is_word(w);
        let ghost fv = |w: Seq<char>| feature_of(w, self.dim() as int);
        let ghost pv = |p: (usize, usize)| (p.0 as int, p.1 as int);
        let n = v.len();
        let mut out: Vec<(usize, usize)> = Vec::new();
        let mut from: usize = 0;
        assert(out@.map_values(pv) =~= Seq::<Seq<char>>::empty().map_values(fv));
        loop
            invariant
                from <= n == s.len(),
                s == v@,
                s == lowercase(text@),
                self.dim() > 0,
                wf == (|w: Seq<char>| is_word(w)),
                fv == (|w: Seq<char>| feature_of(w, self.dim() as int)),
                pv == (|p: (usize, usize)| (p.0 as int, p.1 as int)),
                pieces_from(s, 0).filter(wf).map_values(fv) == out@.map_values(pv) + pieces_from(
                    s,
                    from as int,
                ).filter(wf).map_values(fv),
            decreases n + 1 - from,
        {
            let mut j = from;
            while j < n && is_alphanumeric(v[j])
                invariant
                    from <= j <= n == s.len(),
                    s == v@,
                    next_separator(s, from as int) == next_separator(s, j as int),
                decreases n - j,
            {
                j += 1;
            }
            proof {
                lemma_next_separator(s, from as int);
            }
            let word = string_of(v.as_slice(), from, j);
            let ghost w = word@;
            let ghost before = out@.map_values(pv);
            let ghost rest = if j < n {
                pieces_from(s, j + 1)
            } else {
                Seq::empty()
            };
            assert(pieces_from(s, from as int) == seq![w] + rest);
            assert((seq![w] + rest).filter(wf) == seq![w].filter(wf) + rest.filter(wf)) by {
                Seq::filter_distributes_over_add(seq![w], rest, wf);
            }
            let bytes = word.as_str().as_bytes();
            if bytes.len() > 2 {
                let h = simple_hash(word.as_str());
                let first = (h % (self.dim as u64)) as usize;
                let second = (h.wrapping_mul(31) % (self.dim as u64)) as usize;
                out.push((first, second));
                proof {
                    assert(bytes@ == encode_utf8(w));
                    assert(encode_utf8(w).len() > 2);
                    assert(is_word(w));
                    assert(wf(w));
                    assert(seq![w].filter(wf) == seq![w]) by {
                        reveal(Seq::filter);
                        assert(seq![w].drop_last() =~= Seq::<Seq<char>>::empty());
                        assert(Seq::<Seq<char>>::empty().filter(wf) =~= Seq::<Seq<char>>::empty());
                        assert(seq![w].last() == w);
                    }
                    assert(out@.map_values(pv) =~= before.push(fv(w)));
                    assert((seq![w] + rest.filter(wf)).map_values(fv) =~= seq![fv(w)]
                        + rest.filter(wf).map_values(fv));
                    assert(before + (seq![w] + rest.filter(wf)).map_values(fv) =~= out@.map_values(
                        pv,
                    ) + rest.filter(wf).map_values(fv));
                }
            } else {
                proof {
                    assert(bytes@ == encode_utf8(w));
                    assert(encode_utf8(w).len() <= 2);
                    assert(!is_word(w));
                    assert(!wf(w));
                    assert(seq![w].filter(wf) =~= Seq::<Seq<char>>::empty()) by {
                        reveal(Seq::filter);
                        assert(seq![w].drop_last() =~= Seq::<Seq<char>>::empty());
                        assert(Seq::<Seq<char>>::empty().filter(wf) =~= Seq::<Seq<char>>::empty());
                        assert(seq![w].last() == w);
                    }
                    assert(seq![w].filter(wf) + rest.filter(wf) =~= rest.filter(wf));
                }
            }
            if j >= n {
                proof {
                    assert(rest.filter(wf) =~= Seq::<Seq<char>>::empty()) by {
                        reveal(Seq::filter);
                    }
                    assert(out@.map_values(pv) + Seq::<Seq<char>>::empty().map_values(fv)
                        =~= out@.map_values(pv));
                    assert(pieces_from(s, 0).filter(wf).map_values(fv) =~= out@.map_values(pv));
                }
                return out;
            }
            from = j + 1;
        }
    }
}

impl Default for BagOfWordsEmbedder {
    fn default() -> (r: Self)
        ensures
            r.dim() == BAG_OF_WORDS_DIM,
    {
        BagOfWordsEmbedder::new()
    }
}

/// Models served by the neural embedder; any other model id falls back to
/// bag of words.
pub open spec fn is_neural_embedding_model(model_id: Seq<char>) -> bool {
    model_id == "all-minilm"@ || model_id == "gemma-embed"@ || model_id == "bge-m3"@
}

/// Whether `model_id` names a neural embedding model.
pub fn uses_neural_embedder(model_id: &str) -> (r: bool)
    ensures
        r == is_neural_embedding_model(model_id@),
{
    str_eq(model_id, "all-minilm") || str_eq(model_id, "gemma-embed") || str_eq(model_id, "bge-m3")
}

/// Vector size of an embedding model; 384 for unknown ones.
pub open spec fn embedding_dim_of(model_id: Seq<char>) -> nat {
    if model_id == "all-minilm"@ {
        384
    } else if model_id == "gemma-embed"@ {
        768
    } else if model_id == "bge-m3"@ {
        1024
    } else {
        384
    }
}

pub fn embedding_dim(model_id: &str) -> (r: usize)
    ensures
        r == embedding_dim_of(model_id@),
{
    if str_eq(model_id, "all-minilm") {
        384
    } else if str_eq(model_id, "gemma-embed") {
        768
    } else if str_eq(model_id, "bge-m3") {
        1024
    } else {
        384
    }
}

} // verus!
