//! Audio devices and silence: how an input device is described, where the
//! silent stretches of a recording are, and which samples survive trimming.

use vstd::prelude::*;

use crate::text::{contains, contains_chars, decimal, lowercase, push_decimal, str_eq, to_chars, to_lowercase};

verus! {

/// An audio input device.
#[derive(Debug, Clone)]
pub struct AudioDeviceInfo {
    pub index: usize,
    pub name: String,
    /// "loopback" for virtual devices that carry system audio, else
    /// "microphone".
    pub device_type: String,
    pub sample_rate: Option<u32>,
    pub channels: Option<u16>,
}

/// A device is a loopback when its lowercased name mentions BlackHole or
/// loopback.
pub open spec fn is_loopback_name(name: Seq<char>) -> bool {
    contains(lowercase(name), "blackhole"@) || contains(lowercase(name), "loopback"@)
}

/// The name shown for device `index`: its own, or `Device {index}` when it
/// has none.
pub open spec fn device_name_of(index: nat, name: Option<Seq<char>>) -> Seq<char> {
    match name {
        Some(n) => n,
        None => "Device "@ + decimal(index),
    }
}

/// Describes input device `index`, from its name (if it could be read) and
/// its default input format (sample rate and channels, if known).
pub fn describe_device(index: usize, name: Option<String>, format: Option<(u32, u16)>) -> (r: AudioDeviceInfo)
    ensures
        r.index == index,
        r.name@ == device_name_of(
            index as nat,
            match name {
                Some(n) => Some(n@),
                None => None,
            },
        ),
        r.device_type@ == (if is_loopback_name(r.name@) { "loopback"@ } else { "microphone"@ }),
        r.sample_rate == (match format {
            Some(f) => Some(f.0),
            None => None,
        }),
        r.channels == (match format {
            Some(f) => Some(f.1),
            None => None,
        }),
{
    let name = match name {
        Some(n) => n,
        None => {
            let mut n = "Device ".to_owned();
            push_decimal(&mut n, index as u64);
            n
        },
    };
    let lower = to_lowercase(name.as_str());
    let lv = to_chars(lower.as_str());
    let loopback = contains_chars(lv.as_slice(), to_chars("blackhole").as_slice()) || contains_chars(
        lv.as_slice(),
        to_chars("loopback").as_slice(),
    );
    let device_type = if loopback {
        "loopback".to_owned()
    } else {
        "microphone".to_owned()
    };
    let (sample_rate, channels) = match format {
        Some(f) => (Some(f.0), Some(f.1)),
        None => (None, None),
    };
    AudioDeviceInfo { index, name, device_type, sample_rate, channels }
}

/// System audio capture through ScreenCaptureKit exists on macOS only.
pub fn can_use_screencapturekit(os: &str) -> (r: bool)
    ensures
        r == (os@ == "macos"@),
{
    str_eq(os, "macos")
}

/// A silent stretch of a recording.
#[derive(Debug, Clone, Copy)]
pub struct SilentRegion {
    pub start_ms: u64,
    pub end_ms: u64,
    pub duration_ms: u64,
}

/// Length in milliseconds of one analysis window.
pub const SILENCE_WINDOW_MS: u64 = 100;

/// The regions found in the first `k` windows, and the start of the
/// silence still open after them; `silent[i]` says whether window `i`
/// (from `i * 100` ms) is below the threshold.
pub open spec fn silence_state(silent: Seq<bool>, k: int, min_ms: nat) -> (Seq<(nat, nat)>, Option<nat>)
    decreases k,
{
    if k <= 0 {
        (Seq::empty(), None)
    } else {
        let (regions, open) = silence_state(silent, k - 1, min_ms);
        let t = ((k - 1) * 100) as nat;
        if silent[k - 1] {
            (regions, if open is None { Some(t) } else { open })
        } else {
            match open {
                Some(start) => (
                    if t - start >= min_ms { regions.push((start, t)) } else { regions },
                    None,
                ),
                None => (regions, None),
            }
        }
    }
}

/// The silent regions of a recording of `total_ms` milliseconds: maximal
/// runs of silent windows that last at least `min_ms`, a run that reaches
/// the end closing at `total_ms`.
pub open spec fn silent_regions_of(silent: Seq<bool>, total_ms: nat, min_ms: nat) -> Seq<(nat, nat)> {
    let (regions, open) = silence_state(silent, silent.len() as int, min_ms);
    match open {
        Some(start) => if total_ms - start >= min_ms {
            regions.push((start, total_ms))
        } else {
            regions
        },
        None => regions,
    }
}

pub open spec fn region_view(r: SilentRegion) -> (nat, nat) {
    (r.start_ms as nat, r.end_ms as nat)
}

proof fn lemma_silence_state_bounds(silent: Seq<bool>, k: int, min_ms: nat)
    requires
        0 <= k <= silent.len(),
    ensures
        silence_state(silent, k, min_ms).1 matches Some(s) ==> s <= (k - 1) * 100,
        forall|j: int|
            0 <= j < silence_state(silent, k, min_ms).0.len() ==> #[trigger] silence_state(
                silent,
                k,
                min_ms,
            ).0[j].0 <= silence_state(silent, k, min_ms).0[j].1 <= (k - 1) * 100,
    decreases k,
{
    if k > 0 {
        lemma_silence_state_bounds(silent, k - 1, min_ms);
    }
}

/// Every region lasts at least the minimum, and the regions come in
/// order without overlapping; a silence still open starts after them all.
pub open spec fn regions_ordered(rs: Seq<(nat, nat)>, min_ms: nat) -> bool {
    &&& forall|j: int| 0 <= j < rs.len() ==> #[trigger] rs[j].0 + min_ms <= rs[j].1
    &&& forall|i: int, j: int| 0 <= i < j < rs.len() ==> #[trigger] rs[i].1 <= #[trigger] rs[j].0
}

proof fn lemma_silence_state_ordered(silent: Seq<bool>, k: int, min_ms: nat)
    requires
        0 <= k <= silent.len(),
    ensures
        regions_ordered(silence_state(silent, k, min_ms).0, min_ms),
        silence_state(silent, k, min_ms).1 matches Some(s) ==> forall|j: int|
            0 <= j < silence_state(silent, k, min_ms).0.len() ==> #[trigger] silence_state(
                silent,
                k,
                min_ms,
            ).0[j].1 <= s,
    decreases k,
{
    if k > 0 {
        lemma_silence_state_ordered(silent, k - 1, min_ms);
        lemma_silence_state_bounds(silent, k - 1, min_ms);
        let (rs, open) = silence_state(silent, k - 1, min_ms);
        let t = ((k - 1) * 100) as nat;
        if silent[k - 1] && open is None {
            assert forall|j: int| 0 <= j < rs.len() implies #[trigger] rs[j].1 <= t by {
                assert(rs[j].0 <= rs[j].1 <= (k - 2) * 100);
            }
        }
    }
}

/// The silent regions found are each at least `min_ms` long, in order and
/// disjoint, and end by `total_ms` when the last run reaches the end.
pub proof fn lemma_silent_regions_ordered(silent: Seq<bool>, total_ms: nat, min_ms: nat)
    requires
        silence_state(silent, silent.len() as int, min_ms).1 matches Some(s) ==> s <= total_ms,
    ensures
        regions_ordered(silent_regions_of(silent, total_ms, min_ms), min_ms),
{
    lemma_silence_state_ordered(silent, silent.len() as int, min_ms);
    let (rs, open) = silence_state(silent, silent.len() as int, min_ms);
    match open {
        Some(start) => {
            if total_ms - start >= min_ms {
                let r2 = rs.push((start, total_ms));
                assert forall|i: int, j: int| 0 <= i < j < r2.len() implies #[trigger] r2[i].1
                    <= #[trigger] r2[j].0 by {
                    if j == rs.len() {
                        assert(r2[i] == rs[i]);
                    } else {
                        assert(r2[i] == rs[i] && r2[j] == rs[j]);
                    }
                }
                assert forall|j: int| 0 <= j < r2.len() implies #[trigger] r2[j].0 + min_ms
                    <= r2[j].1 by {
                    if j < rs.len() {
                        assert(r2[j] == rs[j]);
                    }
                }
            }
        },
        None => {},
    }
}

/// The silent regions of a recording, from a flag for each 100 ms window
/// telling whether its level is below the threshold. A region opens at the
/// first silent window of a run and closes at the first window that is not
/// silent, or at `total_ms` when the run reaches the end; it is kept when
/// it lasts at least `min_duration_ms`. Each region's duration is its end
/// minus its start.
pub fn silent_regions(silent: &[bool], total_ms: u64, min_duration_ms: u64) -> (r: Vec<SilentRegion>)
    requires
        silent@.len() * 100 <= u64::MAX,
        silence_state(silent@, silent@.len() as int, min_duration_ms as nat).1 matches Some(s) ==> s
            <= total_ms,
    ensures
        r@.map_values(|x: SilentRegion| region_view(x)) == silent_regions_of(
            silent@,
            total_ms as nat,
            min_duration_ms as nat,
        ),
        forall|j: int|
            0 <= j < r@.len() ==> (#[trigger] r@[j]).duration_ms == r@[j].end_ms - r@[j].start_ms,
{
    let ghost min = min_duration_ms as nat;
    let mut regions: Vec<SilentRegion> = Vec::new();
    let mut open: Option<u64> = None;
    let mut i: usize = 0;
    while i < silent.len()
        invariant
            i <= silent@.len(),
            silent@.len() * 100 <= u64::MAX,
            min == min_duration_ms as nat,
            ({
                let (rs, op) = silence_state(silent@, i as int, min);
                &&& regions@.map_values(|x: SilentRegion| region_view(x)) == rs
                &&& (match open {
                    Some(s) => op == Some(s as nat),
                    None => op is None,
                })
            }),
            forall|j: int|
                0 <= j < regions@.len() ==> (#[trigger] regions@[j]).duration_ms == regions@[j].end_ms
                    - regions@[j].start_ms,
        decreases silent@.len() - i,
    {
        proof {
            lemma_silence_state_bounds(silent@, i as int, min);
        }
        let t: u64 = (i as u64) * SILENCE_WINDOW_MS;
        if silent[i] {
            if open.is_none() {
                open = Some(t);
            }
        } else {
            match open {
                Some(start) => {
                    let duration = t - start;
                    if duration >= min_duration_ms {
                        let ghost before = regions@.map_values(|x: SilentRegion| region_view(x));
                        regions.push(SilentRegion { start_ms: start, end_ms: t, duration_ms: duration });
                        assert(regions@.map_values(|x: SilentRegion| region_view(x)) =~= before.push(
                            (start as nat, t as nat),
                        ));
                    }
                    open = None;
                },
                None => {},
            }
        }
        i += 1;
    }
    match open {
        Some(start) => {
            let duration = total_ms - start;
            if duration >= min_duration_ms {
                let ghost before = regions@.map_values(|x: SilentRegion| region_view(x));
                regions.push(SilentRegion { start_ms: start, end_ms: total_ms, duration_ms: duration });
                assert(regions@.map_values(|x: SilentRegion| region_view(x)) =~= before.push(
                    (start as nat, total_ms as nat),
                ));
            }
        },
        None => {},
    }
    regions
}

/// The copy plan of a trim, region by region from `k` on, starting at
/// sample `pos`: each region lets the samples from `pos` up to its start be
/// copied, then moves `pos` to its end; the samples from the last `pos` on
/// are copied at the end. Regions are given as sample ranges, their ends
/// clamped to `total`.
pub open spec fn kept_from(skips: Seq<(nat, nat)>, k: int, pos: nat, total: nat) -> Seq<(nat, nat)>
    decreases skips.len() - k,
{
    if k < 0 || k >= skips.len() {
        if pos < total {
            seq![(pos, total)]
        } else {
            Seq::empty()
        }
    } else {
        let (s, e) = skips[k];
        let stop = if s < total { s } else { total };
        let rest = kept_from(skips, k + 1, e, total);
        if pos < stop {
            seq![(pos, stop)] + rest
        } else {
            rest
        }
    }
}

/// The sample range of a region: its start and end times times
/// `samples_per_ms`, the end clamped to `total`.
pub open spec fn skip_of(r: SilentRegion, samples_per_ms: nat, total: nat) -> (nat, nat) {
    let e = (r.end_ms as nat) * samples_per_ms;
    ((r.start_ms as nat) * samples_per_ms, if e < total { e } else { total })
}

pub open spec fn skips_of(regions: Seq<SilentRegion>, samples_per_ms: nat, total: nat) -> Seq<(nat, nat)> {
    regions.map_values(|r: SilentRegion| skip_of(r, samples_per_ms, total))
}

/// The ranges of sample positions that a trim copies, in order, from a
/// recording of `total` samples with `samples_per_ms` samples per
/// millisecond (all channels), cutting out `regions` in the order given.
pub fn kept_ranges(regions: &[SilentRegion], samples_per_ms: usize, total: usize) -> (r: Vec<(usize, usize)>)
    requires
        forall|j: int|
            0 <= j < regions@.len() ==> (#[trigger] regions@[j]).start_ms <= usize::MAX
                && regions@[j].end_ms <= usize::MAX && regions@[j].start_ms * samples_per_ms
                <= usize::MAX && regions@[j].end_ms * samples_per_ms <= usize::MAX,
    ensures
        r@.map_values(|p: (usize, usize)| (p.0 as nat, p.1 as nat)) == kept_from(
            skips_of(regions@, samples_per_ms as nat, total as nat),
            0,
            0,
            total as nat,
        ),
{
    let ghost skips = skips_of(regions@, samples_per_ms as nat, total as nat);
    let ghost pv = |p: (usize, usize)| (p.0 as nat, p.1 as nat);
    let mut out: Vec<(usize, usize)> = Vec::new();
    let mut pos: usize = 0;
    let mut k: usize = 0;
    assert(out@.map_values(pv) =~= Seq::<(nat, nat)>::empty());
    while k < regions.len()
        invariant
            k <= regions@.len(),
            skips == skips_of(regions@, samples_per_ms as nat, total as nat),
            pv == (|p: (usize, usize)| (p.0 as nat, p.1 as nat)),
            forall|j: int|
                0 <= j < regions@.len() ==> (#[trigger] regions@[j]).start_ms <= usize::MAX
                    && regions@[j].end_ms <= usize::MAX && regions@[j].start_ms * samples_per_ms
                    <= usize::MAX && regions@[j].end_ms * samples_per_ms <= usize::MAX,
            kept_from(skips, 0, 0, total as nat) == out@.map_values(pv) + kept_from(
                skips,
                k as int,
                pos as nat,
                total as nat,
            ),
        decreases regions@.len() - k,
    {
        let r = regions[k];
        assert(regions@[k as int] == r);
        let s = (r.start_ms as usize) * samples_per_ms;
        let e0 = (r.end_ms as usize) * samples_per_ms;
        let e = if e0 < total { e0 } else { total };
        let stop = if s < total { s } else { total };
        assert(skips[k as int] == (s as nat, e as nat));
        if pos < stop {
            let ghost before = out@.map_values(pv);
            out.push((pos, stop));
            assert(out@.map_values(pv) =~= before.push((pos as nat, stop as nat)));
            assert(before + (seq![(pos as nat, stop as nat)] + kept_from(
                skips,
                k + 1,
                e as nat,
                total as nat,
            )) =~= out@.map_values(pv) + kept_from(skips, k + 1, e as nat, total as nat));
        }
        pos = e;
        k += 1;
    }
    if pos < total {
        let ghost before = out@.map_values(pv);
        out.push((pos, total));
        assert(out@.map_values(pv) =~= before.push((pos as nat, total as nat)));
        assert(before + seq![(pos as nat, total as nat)] =~= out@.map_values(pv));
    } else {
        assert(out@.map_values(pv) + Seq::<(nat, nat)>::empty() =~= out@.map_values(pv));
    }
    out
}

} // verus!
