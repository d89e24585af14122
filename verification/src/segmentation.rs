//! Speaker segmentation with a neural model: the overlapping windows the
//! model reads, and the speaker turns built from the speaker that
//! dominates each sample.

use vstd::prelude::*;

use crate::diarization::{labelled, speaker_label, turn_view, SpeakerTurn, TurnView};
use crate::text::push_decimal;

verus! {

/// Samples in one window given to the segmentation model (ten seconds).
pub const SEGMENT_WINDOW_SAMPLES: usize = 160000;

/// Distance between the starts of two windows (half a window).
pub const SEGMENT_STEP_SAMPLES: usize = 80000;

/// Fewest samples (half a second at 16 kHz) the model is run on; shorter
/// audio has no speaker segments.
pub const MIN_SEGMENTATION_SAMPLES: usize = 8000;

/// Shortest turn kept when the speaker changes, in milliseconds.
pub const MIN_SEGMENT_MS: u64 = 500;

/// The windows from sample `start` on: each ten seconds long (the last one
/// cut at the end), each starting half a window after the one before,
/// the last one reaching the end.
pub open spec fn windows_from(start: nat, total: nat) -> Seq<(nat, nat)>
    decreases total - start,
{
    if start >= total {
        Seq::empty()
    } else {
        let end = if start + 160000 < total { start + 160000 } else { total };
        if end == total {
            seq![(start, end)]
        } else {
            seq![(start, end)] + windows_from(start + 80000, total)
        }
    }
}

/// The windows read for `total` samples of audio: none when the audio is
/// shorter than [`MIN_SEGMENTATION_SAMPLES`], so that it gets no speaker
/// segments, otherwise those of [`windows_from`].
pub open spec fn planned_windows(total: nat) -> Seq<(nat, nat)> {
    if total < MIN_SEGMENTATION_SAMPLES {
        Seq::empty()
    } else {
        windows_from(0, total)
    }
}

pub open spec fn ranges_view(v: Seq<(usize, usize)>) -> Seq<(nat, nat)> {
    v.map_values(|p: (usize, usize)| (p.0 as nat, p.1 as nat))
}

/// The windows over `total` samples (see [`windows_from`]).
pub fn segmentation_windows(total: usize) -> (r: Vec<(usize, usize)>)
    requires
        total <= usize::MAX - SEGMENT_WINDOW_SAMPLES,
    ensures
        ranges_view(r@) == windows_from(0, total as nat),
{
    let mut out: Vec<(usize, usize)> = Vec::new();
    let mut start: usize = 0;
    assert(ranges_view(out@) + windows_from(0, total as nat) =~= windows_from(0, total as nat));
    while start < total
        invariant
            start <= total,
            total <= usize::MAX - SEGMENT_WINDOW_SAMPLES,
            ranges_view(out@) + windows_from(start as nat, total as nat) == windows_from(
                0,
                total as nat,
            ),
        decreases total - start,
    {
        let end = if start + SEGMENT_WINDOW_SAMPLES < total {
            start + SEGMENT_WINDOW_SAMPLES
        } else {
            total
        };
        let ghost before = ranges_view(out@);
        let ghost rest = windows_from(start as nat, total as nat);
        out.push((start, end));
        assert(ranges_view(out@) =~= before.push((start as nat, end as nat)));
        if end == total {
            assert(rest == seq![(start as nat, end as nat)]);
            assert(ranges_view(out@) + windows_from(total as nat, total as nat) =~= before + rest);
            start = total;
        } else {
            assert(rest == seq![(start as nat, end as nat)] + windows_from(
                (start + SEGMENT_STEP_SAMPLES) as nat,
                total as nat,
            ));
            assert(ranges_view(out@) + windows_from(
                (start + SEGMENT_STEP_SAMPLES) as nat,
                total as nat,
            ) =~= before + rest);
            start = start + SEGMENT_STEP_SAMPLES;
        }
    }
    assert(ranges_view(out@) + windows_from(start as nat, total as nat) =~= ranges_view(out@));
    out
}

/// The windows the model reads for `total` samples (see
/// [`planned_windows`]).
pub fn diarization_windows(total: usize) -> (r: Vec<(usize, usize)>)
    requires
        total <= usize::MAX - SEGMENT_WINDOW_SAMPLES,
    ensures
        ranges_view(r@) == planned_windows(total as nat),
{
    if total < MIN_SEGMENTATION_SAMPLES {
        let r: Vec<(usize, usize)> = Vec::new();
        assert(ranges_view(r@) =~= Seq::<(nat, nat)>::empty());
        r
    } else {
        segmentation_windows(total)
    }
}

/// Milliseconds at sample `i` (16 kHz).
pub open spec fn sample_ms(i: nat) -> nat {
    i * 1000 / 16000
}

/// Turns closed, current speaker, start of the current turn and last
/// speaker seen, after the first `k` samples; `labels[i]` is the speaker
/// that dominates sample `i`, or `None` when no window covered it. A
/// change of speaker closes the current turn, which is kept when it lasts
/// at least [`MIN_SEGMENT_MS`].
pub open spec fn label_state(labels: Seq<Option<usize>>, k: int) -> (Seq<TurnView>, nat, nat, nat)
    decreases k,
{
    if k <= 0 {
        (Seq::empty(), 0, 0, 0)
    } else {
        let (segs, cur, st, prev) = label_state(labels, k - 1);
        let i = k - 1;
        match labels[i] {
            None => (segs, cur, st, prev),
            Some(d) => if i == 0 {
                (segs, d as nat, 0, d as nat)
            } else if d as nat != cur {
                let end = sample_ms(i as nat);
                (
                    if end >= st + 500 { segs.push((st, end, cur)) } else { segs },
                    d as nat,
                    end,
                    d as nat,
                )
            } else {
                (segs, cur, st, d as nat)
            },
        }
    }
}

/// The speaker turns of a recording from the dominant speaker of each
/// sample; the last turn runs to the end of the recording.
pub open spec fn label_turns(labels: Seq<Option<usize>>) -> Seq<TurnView> {
    let (segs, cur, st, prev) = label_state(labels, labels.len() as int);
    let total = sample_ms(labels.len());
    if total > st {
        segs.push((st, total, prev))
    } else {
        segs
    }
}

proof fn lemma_label_state_bounds(labels: Seq<Option<usize>>, k: int)
    requires
        0 <= k <= labels.len(),
    ensures
        ({
            let (segs, cur, st, prev) = label_state(labels, k);
            &&& st <= if k > 0 { sample_ms((k - 1) as nat) } else { 0 }
            &&& cur <= usize::MAX
            &&& prev <= usize::MAX
        }),
    decreases k,
{
    if k > 0 {
        lemma_label_state_bounds(labels, k - 1);
        assert(sample_ms((k - 1) as nat) >= if k > 1 { sample_ms((k - 2) as nat) } else { 0 })
            by (nonlinear_arith)
            requires
                k >= 1,
        ;
    }
}

fn label_of(speaker: usize) -> (r: String)
    requires
        (speaker as nat) < u64::MAX,
    ensures
        r@ == speaker_label(speaker as nat),
{
    let mut r = "Speaker ".to_owned();
    push_decimal(&mut r, speaker as u64 + 1);
    r
}

/// The speaker turns from the dominant speaker of each sample (see
/// [`label_turns`]).
pub fn turns_from_labels(labels: &[Option<usize>]) -> (r: Vec<SpeakerTurn>)
    requires
        labels@.len() * 1000 <= u64::MAX,
        forall|i: int| 0 <= i < labels@.len() ==> (#[trigger] labels@[i] matches Some(d) ==> (d as nat) < u64::MAX),
    ensures
        r@.map_values(|t: SpeakerTurn| turn_view(t)) == label_turns(labels@).map_values(
            |t: TurnView| labelled(t),
        ),
{
    let mut turns: Vec<SpeakerTurn> = Vec::new();
    let mut cur: usize = 0;
    let mut st: u64 = 0;
    let mut prev: usize = 0;
    let mut i: usize = 0;
    while i < labels.len()
        invariant
            i <= labels@.len(),
            labels@.len() * 1000 <= u64::MAX,
            forall|j: int| 0 <= j < labels@.len() ==> (#[trigger] labels@[j] matches Some(d) ==> (d as nat) < u64::MAX),
            ({
                let (segs, c, s, p) = label_state(labels@, i as int);
                &&& turns@.map_values(|t: SpeakerTurn| turn_view(t)) == segs.map_values(
                    |t: TurnView| labelled(t),
                )
                &&& cur as nat == c
                &&& st as nat == s
                &&& prev as nat == p
            }),
            (cur as nat) < u64::MAX,
            (prev as nat) < u64::MAX,
        decreases labels@.len() - i,
    {
        proof {
            lemma_label_state_bounds(labels@, i as int);
        }
        match labels[i] {
            None => {},
            Some(d) => {
                assert(labels@[i as int] == Some(d));
                if i == 0 {
                    cur = d;
                    st = 0;
                    prev = d;
                } else if d != cur {
                    let end: u64 = (i as u64) * 1000 / 16000;
                    assert(end as nat == sample_ms(i as nat));
                    if end >= st && end - st >= MIN_SEGMENT_MS {
                        let ghost before = turns@.map_values(|t: SpeakerTurn| turn_view(t));
                        let ghost (segs, c, s, p) = label_state(labels@, i as int);
                        let id = label_of(cur);
                        turns.push(SpeakerTurn { start_ms: st, end_ms: end, speaker_id: id });
                        assert(turns@.map_values(|t: SpeakerTurn| turn_view(t)) =~= before.push(
                            labelled((st as nat, end as nat, cur as nat)),
                        ));
                        assert(segs.push((s, end as nat, c)).map_values(|t: TurnView| labelled(t))
                            =~= segs.map_values(|t: TurnView| labelled(t)).push(
                            labelled((s, end as nat, c)),
                        ));
                    }
                    cur = d;
                    st = end;
                    prev = d;
                } else {
                    prev = d;
                }
            },
        }
        i += 1;
    }
    proof {
        lemma_label_state_bounds(labels@, i as int);
    }
    let total: u64 = (labels.len() as u64) * 1000 / 16000;
    assert(total as nat == sample_ms(labels@.len()));
    if total > st {
        let ghost before = turns@.map_values(|t: SpeakerTurn| turn_view(t));
        let ghost (segs, c, s, p) = label_state(labels@, i as int);
        let id = label_of(prev);
        turns.push(SpeakerTurn { start_ms: st, end_ms: total, speaker_id: id });
        assert(turns@.map_values(|t: SpeakerTurn| turn_view(t)) =~= before.push(
            labelled((st as nat, total as nat, prev as nat)),
        ));
        assert(segs.push((s, total as nat, p)).map_values(|t: TurnView| labelled(t))
            =~= segs.map_values(|t: TurnView| labelled(t)).push(labelled((s, total as nat, p))));
    }
    turns
}

} // verus!
