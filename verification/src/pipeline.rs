//! The transcription pipeline's decisions: when buffered speech is sent to
//! transcription, what text an utterance gets, and which speaker it is
//! given.

use vstd::prelude::*;

use crate::text::{lowercase, str_eq, to_lowercase, trim, trimmed};

verus! {

/// What to do with an incoming chunk of audio.
#[derive(Debug, Clone, Copy, PartialEq, Eq, Structural)]
pub enum GateAction {
    /// Speech: add the chunk to the buffer.
    Append,
    /// Speech that fills the buffer: add the chunk, transcribe the buffer,
    /// and empty it.
    AppendAndTranscribe,
    /// Silence long enough after speech: transcribe the buffer and empty it.
    Transcribe,
    /// Silence long enough after too little speech: empty the buffer.
    Discard,
    /// Silence: nothing to do yet.
    Wait,
}

/// Tracks buffered speech and the silence after it, in samples, and
/// decides when an utterance is complete.
#[derive(Debug, Clone)]
pub struct SpeechGate {
    pub buffered: usize,
    pub silence: usize,
    /// Silence that ends an utterance.
    pub pause_samples: usize,
    /// Shortest utterance worth transcribing.
    pub min_samples: usize,
    /// Longest utterance before it is cut.
    pub max_samples: usize,
}

/// Buffered samples, silent samples and the action once a chunk has come
/// in. Speech is buffered, and the buffer is handed on when it reaches the
/// longest length; silence is counted, and once it reaches the pause length
/// after some speech the buffer is transcribed when it holds at least the
/// shortest length, else dropped.
pub open spec fn gate_step(g: SpeechGate, chunk_len: nat, is_speech: bool) -> (nat, nat, GateAction) {
    if is_speech {
        let b = (g.buffered + chunk_len) as nat;
        if b >= g.max_samples {
            (0, 0, GateAction::AppendAndTranscribe)
        } else {
            (b, 0, GateAction::Append)
        }
    } else {
        let s = (g.silence + chunk_len) as nat;
        if g.buffered > 0 && s >= g.pause_samples {
            (0, 0, if g.buffered >= g.min_samples { GateAction::Transcribe } else { GateAction::Discard })
        } else {
            (g.buffered as nat, s, GateAction::Wait)
        }
    }
}

impl SpeechGate {
    /// A gate with nothing buffered.
    pub fn new(pause_samples: usize, min_samples: usize, max_samples: usize) -> (r: Self)
        ensures
            r.buffered == 0 && r.silence == 0,
            r.pause_samples == pause_samples,
            r.min_samples == min_samples,
            r.max_samples == max_samples,
    {
        SpeechGate { buffered: 0, silence: 0, pause_samples, min_samples, max_samples }
    }

    /// Takes a chunk of `chunk_len` samples that the voice detector did or
    /// did not find speech in.
    pub fn on_chunk(&mut self, chunk_len: usize, is_speech: bool) -> (r: GateAction)
        requires
            old(self).buffered + chunk_len <= usize::MAX,
            old(self).silence + chunk_len <= usize::MAX,
        ensures
            (final(self).buffered as nat, final(self).silence as nat, r) == gate_step(
                *old(self),
                chunk_len as nat,
                is_speech,
            ),
            final(self).pause_samples == old(self).pause_samples,
            final(self).min_samples == old(self).min_samples,
            final(self).max_samples == old(self).max_samples,
    {
        if is_speech {
            self.buffered = self.buffered + chunk_len;
            self.silence = 0;
            if self.buffered >= self.max_samples {
                self.buffered = 0;
                GateAction::AppendAndTranscribe
            } else {
                GateAction::Append
            }
        } else {
            self.silence = self.silence + chunk_len;
            if self.buffered > 0 && self.silence >= self.pause_samples {
                let long_enough = self.buffered >= self.min_samples;
                self.buffered = 0;
                self.silence = 0;
                if long_enough {
                    GateAction::Transcribe
                } else {
                    GateAction::Discard
                }
            } else {
                GateAction::Wait
            }
        }
    }

    /// Whether the speech still buffered when the stream ends is
    /// transcribed: when there is some, and enough.
    pub fn flush(&self) -> (r: bool)
        ensures
            r == (self.buffered > 0 && self.buffered >= self.min_samples),
    {
        self.buffered > 0 && self.buffered >= self.min_samples
    }
}

/// After a speech chunk the buffer is empty or shorter than the longest
/// utterance; silence never adds to it; every transcription or drop
/// empties it and resets the silence; a buffer is transcribed only when it
/// is long enough, and dropped only when it is not.
pub proof fn lemma_gate_bounds(g: SpeechGate, chunk_len: nat, is_speech: bool)
    ensures
        ({
            let (b, s, a) = gate_step(g, chunk_len, is_speech);
            &&& is_speech ==> (b == 0 || b < g.max_samples) && s == 0
            &&& a == GateAction::Wait ==> b == g.buffered
            &&& (a == GateAction::Transcribe || a == GateAction::Discard || a
                == GateAction::AppendAndTranscribe) ==> b == 0 && s == 0
            &&& a == GateAction::Transcribe ==> g.buffered >= g.min_samples
            &&& a == GateAction::Discard ==> g.buffered < g.min_samples
        }),
{
}

/// Texts of the segments joined with spaces.
pub open spec fn joined(texts: Seq<Seq<char>>) -> Seq<char>
    decreases texts.len(),
{
    if texts.len() == 0 {
        Seq::empty()
    } else if texts.len() == 1 {
        texts[0]
    } else {
        joined(texts.drop_last()) + " "@ + texts.last()
    }
}

/// The text of an utterance from the texts of its segments: joined with
/// spaces and trimmed; none when that is empty, or when it repeats the
/// previous utterance (compared trimmed and lowercased).
pub open spec fn utterance_text_of(texts: Seq<Seq<char>>, last: Option<Seq<char>>) -> Option<Seq<char>> {
    let t = trim(joined(texts));
    if t.len() == 0 {
        None
    } else if last matches Some(p) && lowercase(trim(t)) == lowercase(trim(p)) {
        None
    } else {
        Some(t)
    }
}

/// The text of an utterance (see [`utterance_text_of`]).
pub fn utterance_text(texts: &Vec<String>, last_text: Option<&str>) -> (r: Option<String>)
    ensures
        match r {
            Some(t) => utterance_text_of(
                crate::text::views(texts@),
                match last_text {
                    Some(p) => Some(p@),
                    None => None,
                },
            ) == Some(t@),
            None => utterance_text_of(
                crate::text::views(texts@),
                match last_text {
                    Some(p) => Some(p@),
                    None => None,
                },
            ) is None,
        },
{
    let ghost ts = crate::text::views(texts@);
    let mut all = String::new();
    let mut k: usize = 0;
    while k < texts.len()
        invariant
            k <= texts@.len(),
            ts == crate::text::views(texts@),
            all@ == joined(ts.subrange(0, k as int)),
        decreases texts@.len() - k,
    {
        if k > 0 {
            all.append(" ");
        }
        all.append(texts[k].as_str());
        proof {
            let s = ts.subrange(0, k + 1);
            assert(s.drop_last() =~= ts.subrange(0, k as int));
            assert(s.last() == texts@[k as int]@);
            if k == 0 {
                assert(s =~= seq![texts@[0]@]);
            }
        }
        k += 1;
    }
    assert(ts.subrange(0, k as int) =~= ts);
    let t = trimmed(all.as_str());
    if t.as_str().is_empty() {
        return None;
    }
    if let Some(prev) = last_text {
        let a = to_lowercase(trimmed(t.as_str()).as_str());
        let b = to_lowercase(trimmed(prev).as_str());
        if str_eq(a.as_str(), b.as_str()) {
            return None;
        }
    }
    Some(t)
}

/// Milliseconds of the turns given to `speaker`.
pub open spec fn coverage(turns: Seq<(Seq<char>, u64, u64)>, speaker: Seq<char>) -> int
    decreases turns.len(),
{
    if turns.len() == 0 {
        0
    } else {
        coverage(turns.drop_last(), speaker) + if turns.last().0 == speaker {
            turns.last().2 - turns.last().1
        } else {
            0
        }
    }
}

pub open spec fn turn_text(t: (String, u64, u64)) -> (Seq<char>, u64, u64) {
    (t.0@, t.1, t.2)
}

pub open spec fn turn_texts(turns: Seq<(String, u64, u64)>) -> Seq<(Seq<char>, u64, u64)> {
    turns.map_values(|t: (String, u64, u64)| turn_text(t))
}

proof fn lemma_coverage_nonneg(turns: Seq<(Seq<char>, u64, u64)>, speaker: Seq<char>)
    requires
        forall|i: int| 0 <= i < turns.len() ==> turns[i].1 <= turns[i].2,
    ensures
        0 <= coverage(turns, speaker),
    decreases turns.len(),
{
    if turns.len() > 0 {
        lemma_coverage_nonneg(turns.drop_last(), speaker);
    }
}

proof fn lemma_coverage_bound(turns: Seq<(Seq<char>, u64, u64)>, speaker: Seq<char>, bound: int)
    requires
        forall|i: int| 0 <= i < turns.len() ==> turns[i].1 <= turns[i].2,
        forall|s: Seq<char>| #[trigger] coverage(turns, s) <= bound,
        0 <= bound,
    ensures
        forall|k: int| 0 <= k <= turns.len() ==> #[trigger] coverage(turns.subrange(0, k), speaker) <= bound,
{
    assert forall|k: int| 0 <= k <= turns.len() implies #[trigger] coverage(turns.subrange(0, k), speaker) <= bound by {
        lemma_coverage_prefix(turns, speaker, k);
    }
}

proof fn lemma_coverage_prefix(turns: Seq<(Seq<char>, u64, u64)>, speaker: Seq<char>, k: int)
    requires
        forall|i: int| 0 <= i < turns.len() ==> turns[i].1 <= turns[i].2,
        0 <= k <= turns.len(),
    ensures
        coverage(turns.subrange(0, k), speaker) <= coverage(turns, speaker),
    decreases turns.len() - k,
{
    if k < turns.len() {
        lemma_coverage_prefix(turns, speaker, k + 1);
        let s = turns.subrange(0, k + 1);
        assert(s.drop_last() =~= turns.subrange(0, k));
    } else {
        assert(turns.subrange(0, k) =~= turns);
    }
}

fn coverage_of(turns: &Vec<(String, u64, u64)>, speaker: &str) -> (r: u64)
    requires
        forall|i: int| 0 <= i < turns@.len() ==> turns@[i].1 <= turns@[i].2,
        forall|s: Seq<char>| #[trigger] coverage(turn_texts(turns@), s) <= u64::MAX,
    ensures
        r == coverage(turn_texts(turns@), speaker@),
{
    let ghost tv = turn_texts(turns@);
    proof {
        lemma_coverage_bound(tv, speaker@, u64::MAX as int);
    }
    let mut total: u64 = 0;
    let mut i: usize = 0;
    while i < turns.len()
        invariant
            i <= turns@.len(),
            tv == turn_texts(turns@),
            forall|q: int| 0 <= q < turns@.len() ==> turns@[q].1 <= turns@[q].2,
            forall|k: int| 0 <= k <= tv.len() ==> #[trigger] coverage(tv.subrange(0, k), speaker@) <= u64::MAX,
            total == coverage(tv.subrange(0, i as int), speaker@),
        decreases turns@.len() - i,
    {
        let ghost s = tv.subrange(0, i + 1);
        assert(s.drop_last() =~= tv.subrange(0, i as int));
        assert(s.last() == turn_text(turns@[i as int]));
        assert(coverage(s, speaker@) <= u64::MAX);
        if str_eq(turns[i].0.as_str(), speaker) {
            total = total + (turns[i].2 - turns[i].1);
        }
        i += 1;
    }
    assert(tv.subrange(0, i as int) =~= tv);
    total
}

/// The speaker with the most coverage among the diarizer's turns
/// (speaker, start ms, end ms): no other speaker has more; `None` when
/// there are no turns.
pub fn dominant_speaker(turns: &Vec<(String, u64, u64)>) -> (r: Option<String>)
    requires
        forall|i: int| 0 <= i < turns@.len() ==> turns@[i].1 <= turns@[i].2,
        forall|s: Seq<char>| #[trigger] coverage(turn_texts(turns@), s) <= u64::MAX,
    ensures
        r is None <==> turns@.len() == 0,
        r matches Some(w) ==> (exists|i: int| 0 <= i < turns@.len() && turns@[i].0@ == w@) && forall|
            i: int,
        |
            0 <= i < turns@.len() ==> coverage(
                turn_texts(turns@),
                turns@[i].0@,
            ) <= coverage(turn_texts(turns@), w@),
{
    if turns.len() == 0 {
        return None;
    }
    let ghost tv = turn_texts(turns@);
    let mut best: usize = 0;
    let mut best_cov = coverage_of(turns, turns[0].0.as_str());
    let mut i: usize = 1;
    while i < turns.len()
        invariant
            1 <= i <= turns@.len(),
            best < turns@.len(),
            tv == turn_texts(turns@),
            forall|q: int| 0 <= q < turns@.len() ==> turns@[q].1 <= turns@[q].2,
            forall|s: Seq<char>| #[trigger] coverage(tv, s) <= u64::MAX,
            best_cov == coverage(tv, turns@[best as int].0@),
            forall|q: int| 0 <= q < i ==> coverage(tv, turns@[q].0@) <= best_cov,
        decreases turns@.len() - i,
    {
        let c = coverage_of(turns, turns[i].0.as_str());
        if c > best_cov {
            best = i;
            best_cov = c;
        }
        i += 1;
    }
    Some(turns[best].0.as_str().to_owned())
}

} // verus!
