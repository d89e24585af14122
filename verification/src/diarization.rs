//! Speaker turns: where the speaker changes in a recording, and the names
//! given to speakers during a session.

use vstd::prelude::*;

use crate::config::DiarizationConfig;
use crate::text::{decimal, push_decimal, str_eq};

verus! {

/// Sample rate of the audio the diarizer reads.
pub const SAMPLE_RATE: u64 = 16000;

/// Length in milliseconds of one analysis window.
pub const WINDOW_MS: u64 = 500;

/// Samples in one analysis window.
pub const WINDOW_SAMPLES: usize = 8000;

/// A stretch of audio given to one speaker.
#[derive(Debug, Clone)]
pub struct SpeakerTurn {
    pub start_ms: u64,
    pub end_ms: u64,
    pub speaker_id: String,
}

/// Label of the speaker with index `k` (counted from zero).
pub open spec fn speaker_label(k: nat) -> Seq<char> {
    "Speaker "@ + decimal(k + 1)
}

/// A turn by its numbers: start, end, and speaker index.
pub type TurnView = (nat, nat, nat);

/// Turns closed, current speaker, and start of the current turn after
/// the first `k` windows; `changes[i]` says that the speaker changes at
/// window `i` (never at the first window).
pub open spec fn turn_state(changes: Seq<bool>, k: int, max_speakers: nat) -> (Seq<TurnView>, nat, nat)
    decreases k,
{
    if k <= 0 {
        (Seq::empty(), 0, 0)
    } else {
        let (turns, speaker, start) = turn_state(changes, k - 1, max_speakers);
        let i = k - 1;
        let t = (i * 500) as nat;
        if i > 0 && changes[i] {
            (
                if t > start { turns.push((start, t, speaker)) } else { turns },
                ((speaker + 1) % max_speakers) as nat,
                t,
            )
        } else {
            (turns, speaker, start)
        }
    }
}

/// Length in milliseconds of `samples` samples at 16 kHz.
pub open spec fn duration_ms(samples: nat) -> nat {
    samples * 1000 / 16000
}

/// The speaker turns of a recording of `samples` samples whose speaker
/// changes at the windows flagged in `changes`.
pub open spec fn speaker_turns(changes: Seq<bool>, samples: nat, max_speakers: nat) -> Seq<TurnView> {
    let (turns, speaker, start) = turn_state(changes, changes.len() as int, max_speakers);
    let total = duration_ms(samples);
    if total > start {
        turns.push((start, total, speaker))
    } else {
        turns
    }
}

pub open spec fn turn_view(t: SpeakerTurn) -> (nat, nat, Seq<char>) {
    (t.start_ms as nat, t.end_ms as nat, t.speaker_id@)
}

pub open spec fn labelled(t: TurnView) -> (nat, nat, Seq<char>) {
    (t.0, t.1, speaker_label(t.2))
}

proof fn lemma_turn_state_bounds(changes: Seq<bool>, k: int, max_speakers: nat)
    requires
        0 <= k <= changes.len(),
        max_speakers > 0 || forall|i: int| 0 <= i < changes.len() ==> !changes[i],
    ensures
        ({
            let (turns, speaker, start) = turn_state(changes, k, max_speakers);
            &&& start <= if k > 0 { (k - 1) * 500 } else { 0 }
            &&& (max_speakers > 0 ==> speaker < max_speakers)
            &&& speaker == 0 || max_speakers > 0
        }),
    decreases k,
{
    if k > 0 {
        lemma_turn_state_bounds(changes, k - 1, max_speakers);
    }
}

fn speaker_id(speaker: u8) -> (r: String)
    requires
        speaker < 255,
    ensures
        r@ == speaker_label(speaker as nat),
{
    let mut r = "Speaker ".to_owned();
    push_decimal(&mut r, (speaker + 1) as u64);
    r
}

/// Diarizer that gives a new speaker to each sharp change of loudness.
#[derive(Debug, Clone)]
pub struct EnergyDiarizer {
    pub max_speakers: u8,
}

impl EnergyDiarizer {
    pub fn new(config: &DiarizationConfig) -> (r: Self)
        ensures
            r.max_speakers == config.max_speakers,
    {
        EnergyDiarizer { max_speakers: config.max_speakers }
    }

    /// The diarizer's name in the settings.
    pub fn name(&self) -> (r: &'static str)
        ensures
            r@ == "energy"@,
    {
        "energy"
    }

    /// The speaker turns of a recording of `samples` samples, cut into
    /// windows of [`WINDOW_SAMPLES`]; `changes[i]` says that the loudness
    /// of window `i` differs sharply from that of the window before. Each
    /// change closes the current turn, when it is not empty, and passes to
    /// the next speaker, round robin over `max_speakers`.
    pub fn segment_turns(&self, changes: &[bool], samples: usize) -> (r: Vec<SpeakerTurn>)
        requires
            self.max_speakers > 0 || forall|i: int| 0 <= i < changes@.len() ==> !changes@[i],
            changes@.len() * 500 <= u64::MAX,
            samples * 1000 <= u64::MAX,
        ensures
            r@.map_values(|t: SpeakerTurn| turn_view(t)) == speaker_turns(
                changes@,
                samples as nat,
                self.max_speakers as nat,
            ).map_values(|t: TurnView| labelled(t)),
    {
        let ghost max = self.max_speakers as nat;
        let mut turns: Vec<SpeakerTurn> = Vec::new();
        let mut speaker: u8 = 0;
        let mut start: u64 = 0;
        let mut i: usize = 0;
        while i < changes.len()
            invariant
                i <= changes@.len(),
                changes@.len() * 500 <= u64::MAX,
                max == self.max_speakers as nat,
                self.max_speakers > 0 || forall|j: int| 0 <= j < changes@.len() ==> !changes@[j],
                ({
                    let (ts, sp, st) = turn_state(changes@, i as int, max);
                    &&& turns@.map_values(|t: SpeakerTurn| turn_view(t)) == ts.map_values(
                        |t: TurnView| labelled(t),
                    )
                    &&& speaker as nat == sp
                    &&& start as nat == st
                }),
            decreases changes@.len() - i,
        {
            proof {
                lemma_turn_state_bounds(changes@, i as int, max);
                lemma_turn_state_bounds(changes@, i + 1, max);
            }
            let t: u64 = (i as u64) * WINDOW_MS;
            if i > 0 && changes[i] {
                if t > start {
                    let ghost before = turns@.map_values(|t: SpeakerTurn| turn_view(t));
                    let id = speaker_id(speaker);
                    let turn = SpeakerTurn { start_ms: start, end_ms: t, speaker_id: id };
                    turns.push(turn);
                    assert(turns@.map_values(|t: SpeakerTurn| turn_view(t)) =~= before.push(
                        labelled((start as nat, t as nat, speaker as nat)),
                    ));
                    let ghost (ts, sp, st) = turn_state(changes@, i as int, max);
                    assert(ts.push((st, t as nat, sp)).map_values(|t: TurnView| labelled(t))
                        =~= ts.map_values(|t: TurnView| labelled(t)).push(
                        labelled((st, t as nat, sp)),
                    ));
                }
                speaker = (speaker + 1) % self.max_speakers;
                start = t;
            }
            i += 1;
        }
        proof {
            lemma_turn_state_bounds(changes@, i as int, max);
        }
        let total: u64 = (samples as u64) * 1000 / SAMPLE_RATE;
        if total > start {
            let ghost before = turns@.map_values(|t: SpeakerTurn| turn_view(t));
            let id = speaker_id(speaker);
            turns.push(SpeakerTurn { start_ms: start, end_ms: total, speaker_id: id });
            assert(turns@.map_values(|t: SpeakerTurn| turn_view(t)) =~= before.push(
                labelled((start as nat, total as nat, speaker as nat)),
            ));
            let ghost (ts, sp, st) = turn_state(changes@, i as int, max);
            assert(ts.push((st, total as nat, sp)).map_values(|t: TurnView| labelled(t))
                =~= ts.map_values(|t: TurnView| labelled(t)).push(labelled((st, total as nat, sp))));
        }
        turns
    }
}

/// `turns` cut `[0, total]` into non-empty stretches, each starting where
/// the one before ends; no turns at all when `total` is 0.
pub open spec fn tiles(turns: Seq<TurnView>, total: nat) -> bool {
    if total == 0 {
        turns.len() == 0
    } else {
        &&& turns.len() > 0
        &&& turns[0].0 == 0
        &&& turns.last().1 == total
        &&& forall|i: int| 0 <= i < turns.len() ==> #[trigger] turns[i].0 < turns[i].1
        &&& forall|i: int| 0 <= i < turns.len() - 1 ==> #[trigger] turns[i].1 == turns[i + 1].0
    }
}

proof fn lemma_turn_state_tiles(changes: Seq<bool>, k: int, max_speakers: nat)
    requires
        0 <= k <= changes.len(),
    ensures
        ({
            let (turns, speaker, start) = turn_state(changes, k, max_speakers);
            &&& start <= if k > 0 { (k - 1) * 500 } else { 0 }
            &&& turns.len() == 0 ==> start == 0
            &&& turns.len() > 0 ==> turns[0].0 == 0 && turns.last().1 == start
            &&& forall|i: int| 0 <= i < turns.len() ==> #[trigger] turns[i].0 < turns[i].1
            &&& forall|i: int| 0 <= i < turns.len() - 1 ==> #[trigger] turns[i].1 == turns[i + 1].0
        }),
    decreases k,
{
    if k > 0 {
        lemma_turn_state_tiles(changes, k - 1, max_speakers);
        let (turns, speaker, start) = turn_state(changes, k - 1, max_speakers);
        let i = k - 1;
        let t = (i * 500) as nat;
        if i > 0 && changes[i] {
            assert(t > start);
            let nt = turns.push((start, t, speaker));
            assert(nt.last() == (start, t, speaker));
            assert forall|j: int| 0 <= j < nt.len() implies #[trigger] nt[j].0 < nt[j].1 by {
                if j < turns.len() {
                    assert(nt[j] == turns[j]);
                }
            }
            assert forall|j: int| 0 <= j < nt.len() - 1 implies #[trigger] nt[j].1 == nt[j + 1].0 by {
                if j < turns.len() - 1 {
                    assert(nt[j] == turns[j] && nt[j + 1] == turns[j + 1]);
                } else {
                    assert(nt[j] == turns.last());
                }
            }
            if turns.len() > 0 {
                assert(nt[0] == turns[0]);
            }
        }
    }
}

/// When the recording is cut into windows of [`WINDOW_SAMPLES`], one change
/// flag per window (the last window possibly shorter), the speaker turns
/// follow each other without gap or overlap and cover the whole recording,
/// from 0 to its length in milliseconds.
pub proof fn lemma_turns_cover_recording(changes: Seq<bool>, samples: nat, max_speakers: nat)
    requires
        changes.len() == (samples + 7999) / 8000,
    ensures
        tiles(speaker_turns(changes, samples, max_speakers), duration_ms(samples)),
{
    let n = changes.len() as int;
    lemma_turn_state_tiles(changes, n, max_speakers);
    let (turns, speaker, start) = turn_state(changes, n, max_speakers);
    let total = duration_ms(samples);
    if n > 0 {
        assert((n - 1) * 500 <= samples * 1000 / 16000) by (nonlinear_arith)
            requires
                n == (samples + 7999) / 8000,
                n > 0,
        ;
    } else {
        assert(samples == 0);
    }
    assert(start <= total);
    if total > start {
        let nt = turns.push((start, total, speaker));
        assert(nt.last() == (start, total, speaker));
        assert forall|j: int| 0 <= j < nt.len() implies #[trigger] nt[j].0 < nt[j].1 by {
            if j < turns.len() {
                assert(nt[j] == turns[j]);
            }
        }
        assert forall|j: int| 0 <= j < nt.len() - 1 implies #[trigger] nt[j].1 == nt[j + 1].0 by {
            if j < turns.len() - 1 {
                assert(nt[j] == turns[j] && nt[j + 1] == turns[j + 1]);
            } else {
                assert(nt[j] == turns.last());
            }
        }
        if turns.len() > 0 {
            assert(nt[0] == turns[0]);
        }
        assert(tiles(nt, total));
    } else {
        if turns.len() > 0 {
            assert(turns[turns.len() - 1].0 < turns[turns.len() - 1].1);
        }
        assert(tiles(turns, total));
    }
}

/// Position of the first pair from `from` on whose key is `k`.
pub open spec fn first_key(s: Seq<(String, String)>, k: Seq<char>, from: int) -> Option<int>
    decreases s.len() - from,
{
    if from < 0 || from >= s.len() {
        None
    } else if s[from].0@ == k {
        Some(from)
    } else {
        first_key(s, k, from + 1)
    }
}

proof fn lemma_first_key_found(s: Seq<(String, String)>, k: Seq<char>, from: int)
    requires
        0 <= from,
    ensures
        first_key(s, k, from) matches Some(i) ==> from <= i < s.len() && s[i].0@ == k,
        first_key(s, k, from) is None ==> forall|j: int| from <= j < s.len() ==> s[j].0@ != k,
    decreases s.len() - from,
{
    if from < s.len() && s[from].0@ != k {
        lemma_first_key_found(s, k, from + 1);
    }
}

proof fn lemma_first_key_push(s: Seq<(String, String)>, x: (String, String), k: Seq<char>, from: int)
    requires
        0 <= from <= s.len(),
    ensures
        first_key(s.push(x), k, from) == match first_key(s, k, from) {
            Some(i) => Some(i),
            None => if x.0@ == k { Some(s.len() as int) } else { None },
        },
    decreases s.len() - from,
{
    if from < s.len() {
        assert(s.push(x)[from] == s[from]);
        if s[from].0@ != k {
            lemma_first_key_push(s, x, k, from + 1);
        }
    } else {
        assert(s.push(x)[from] == x);
        assert(first_key(s.push(x), k, from + 1) is None);
    }
}

proof fn lemma_first_key_update(s: Seq<(String, String)>, i: int, x: (String, String), k: Seq<char>, from: int)
    requires
        0 <= from,
        0 <= i < s.len(),
        s[i].0@ == x.0@,
    ensures
        first_key(s.update(i, x), k, from) == first_key(s, k, from),
    decreases s.len() - from,
{
    if from < s.len() {
        if s[from].0@ != k {
            lemma_first_key_update(s, i, x, k, from + 1);
        }
    }
}

/// The names given to speakers during a session.
#[derive(Debug, Clone)]
pub struct SpeakerRegistry {
    names: Vec<(String, String)>,
}

/// The name recorded for `speaker_id`, if any.
pub open spec fn name_in(s: Seq<(String, String)>, speaker_id: Seq<char>) -> Option<Seq<char>> {
    match first_key(s, speaker_id, 0) {
        Some(i) => Some(s[i].1@),
        None => None,
    }
}

impl View for SpeakerRegistry {
    type V = Map<Seq<char>, Seq<char>>;

    /// Speaker id to name.
    closed spec fn view(&self) -> Map<Seq<char>, Seq<char>> {
        Map::new(
            |k: Seq<char>| name_in(self.names@, k) is Some,
            |k: Seq<char>| name_in(self.names@, k).unwrap(),
        )
    }
}

impl SpeakerRegistry {
    /// A registry with no names.
    pub fn new() -> (r: Self)
        ensures
            r@ == Map::<Seq<char>, Seq<char>>::empty(),
    {
        let r = SpeakerRegistry { names: Vec::new() };
        assert(r@ =~= Map::<Seq<char>, Seq<char>>::empty());
        r
    }

    fn position(&self, speaker_id: &str) -> (r: Option<usize>)
        ensures
            r matches Some(i) ==> first_key(self.names@, speaker_id@, 0) == Some(i as int) && i
                < self.names@.len(),
            r is None ==> first_key(self.names@, speaker_id@, 0) is None,
    {
        let mut i: usize = 0;
        while i < self.names.len()
            invariant
                i <= self.names@.len(),
                first_key(self.names@, speaker_id@, 0) == first_key(self.names@, speaker_id@, i as int),
            decreases self.names@.len() - i,
        {
            if str_eq(self.names[i].0.as_str(), speaker_id) {
                return Some(i);
            }
            i += 1;
        }
        None
    }

    /// Gives `speaker_id` the name `name`, replacing any name it had.
    pub fn assign_name(&mut self, speaker_id: &str, name: &str)
        ensures
            final(self)@ == old(self)@.insert(speaker_id@, name@),
    {
        let ghost s0 = self.names@;
        let entry = (speaker_id.to_owned(), name.to_owned());
        match self.position(speaker_id) {
            Some(i) => {
                proof {
                    lemma_first_key_found(s0, speaker_id@, 0);
                }
                self.names[i] = entry;
                proof {
                    assert(self.names@ == s0.update(i as int, entry));
                    assert forall|k: Seq<char>| k != speaker_id@ implies name_in(self.names@, k)
                        == name_in(s0, k) by {
                        lemma_first_key_update(s0, i as int, entry, k, 0);
                        lemma_first_key_found(s0, k, 0);
                    }
                    lemma_first_key_update(s0, i as int, entry, speaker_id@, 0);
                    assert(name_in(self.names@, speaker_id@) == Some(name@));
                    assert(self@ =~= old(self)@.insert(speaker_id@, name@));
                }
            },
            None => {
                self.names.push(entry);
                proof {
                    assert forall|k: Seq<char>| k != speaker_id@ implies name_in(self.names@, k)
                        == name_in(s0, k) by {
                        lemma_first_key_push(s0, entry, k, 0);
                        lemma_first_key_found(s0, k, 0);
                        if first_key(s0, k, 0) is Some {
                            let j = first_key(s0, k, 0).unwrap();
                            assert(self.names@[j] == s0[j]);
                        }
                    }
                    lemma_first_key_push(s0, entry, speaker_id@, 0);
                    assert(self.names@[s0.len() as int] == entry);
                    assert(name_in(self.names@, speaker_id@) == Some(name@));
                    assert(self@ =~= old(self)@.insert(speaker_id@, name@));
                }
            },
        }
    }

    /// The name given to `speaker_id`, if any.
    pub fn get_name(&self, speaker_id: &str) -> (r: Option<&str>)
        ensures
            r matches Some(n) ==> self@.contains_key(speaker_id@) && self@[speaker_id@] == n@,
            r is None ==> !self@.contains_key(speaker_id@),
    {
        match self.position(speaker_id) {
            Some(i) => Some(self.names[i].1.as_str()),
            None => None,
        }
    }

    /// The name given to `speaker_id`, or the id itself when it has none.
    pub fn resolve(&self, speaker_id: &str) -> (r: String)
        ensures
            r@ == if self@.contains_key(speaker_id@) {
                self@[speaker_id@]
            } else {
                speaker_id@
            },
    {
        match self.get_name(speaker_id) {
            Some(n) => n.to_owned(),
            None => speaker_id.to_owned(),
        }
    }
}

impl Default for SpeakerRegistry {
    fn default() -> (r: Self)
        ensures
            r@ == Map::<Seq<char>, Seq<char>>::empty(),
    {
        SpeakerRegistry::new()
    }
}

/// Naming a speaker and reading the name back gives the name; the names of
/// other speakers do not change.
pub proof fn lemma_assign_then_resolve(before: Map<Seq<char>, Seq<char>>, after: Map<Seq<char>, Seq<char>>, id: Seq<char>, name: Seq<char>, other: Seq<char>)
    requires
        after == before.insert(id, name),
    ensures
        after.contains_key(id) && after[id] == name,
        other != id ==> (after.contains_key(other) == before.contains_key(other) && (
        before.contains_key(other) ==> after[other] == before[other])),
{
}

} // verus!
