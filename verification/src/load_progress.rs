//! The progress shown while a local model loads: a watchdog that decides
//! when the first-run download is over, and the phase and fraction done at
//! each tick. Times are milliseconds on one clock; the fraction is exact,
//! as a numerator over a denominator.

use vstd::prelude::*;

use crate::local_engine::{expected_cache_bytes_of, expected_hf_cache_bytes};

verus! {

/// What the loader is doing.
#[derive(Debug, Clone, Copy, PartialEq, Eq, Structural)]
pub enum LoadPhase {
    /// Fetching the weights (first run only).
    Downloading,
    Quantizing,
    SavingCache,
    WarmingUp,
    LoadingFiles,
    LoadingWeights,
}

/// The label of a phase; a download with a known size also shows how many
/// gigabytes of how many have arrived.
pub fn phase_label(phase: LoadPhase) -> (r: &'static str)
    ensures
        r@ == phase_label_of(phase),
{
    match phase {
        LoadPhase::Downloading => "Downloading model weights",
        LoadPhase::Quantizing => "Quantizing weights",
        LoadPhase::SavingCache => "Saving quantized cache",
        LoadPhase::WarmingUp => "Warming up",
        LoadPhase::LoadingFiles => "Loading model files",
        LoadPhase::LoadingWeights => "Loading weights to GPU",
    }
}

pub open spec fn phase_label_of(phase: LoadPhase) -> Seq<char> {
    match phase {
        LoadPhase::Downloading => "Downloading model weights"@,
        LoadPhase::Quantizing => "Quantizing weights"@,
        LoadPhase::SavingCache => "Saving quantized cache"@,
        LoadPhase::WarmingUp => "Warming up"@,
        LoadPhase::LoadingFiles => "Loading model files"@,
        LoadPhase::LoadingWeights => "Loading weights to GPU"@,
    }
}

/// What the ticker remembers between ticks.
#[derive(Debug, Clone, Copy)]
pub struct ProgressState {
    /// When the download was judged finished.
    pub download_done_at_ms: Option<u64>,
    /// Largest cache size seen so far.
    pub last_dl_bytes: u64,
    /// When that size last grew.
    pub last_dl_changed_at_ms: u64,
    /// Whether a download was visibly under way at some tick; the lower
    /// half of the bar is then kept for it.
    pub had_download_phase: bool,
}

/// One tick's estimate: the phase, the bytes downloaded and expected (for
/// a download), and the fraction done, `numerator / denominator`.
#[derive(Debug, Clone, Copy)]
pub struct LoadProgress {
    pub phase: LoadPhase,
    pub bytes: u64,
    pub expected: u64,
    pub numerator: u128,
    pub denominator: u128,
}

/// Milliseconds from `since` to `now`; zero when `since` is later.
pub open spec fn elapsed(now: u64, since: u64) -> nat {
    if now > since {
        (now - since) as nat
    } else {
        0
    }
}

/// The estimate after the download: time-based over the phase's share of
/// the expected seconds, counted from the end of the download (or from
/// the start). A first run that showed a download uses 50–95 % of the bar
/// and its eta less a minute (at least a minute); otherwise 0–95 % and the
/// whole eta (at least a second).
pub open spec fn timed_progress(st: ProgressState, now: u64, started: u64, eta: u64, first: bool) -> (LoadPhase, nat, nat) {
    let phase_started = match st.download_done_at_ms {
        Some(t) => t,
        None => started,
    };
    let reserved = first && st.had_download_phase;
    let phase_eta: nat = if reserved {
        if eta >= 120 { (eta - 60) as nat } else { 60 }
    } else {
        if eta >= 1 { eta as nat } else { 1 }
    };
    let d = phase_eta * 1000;
    let e = elapsed(now, phase_started);
    let f = if e < d { e } else { d };
    let phase = if first {
        if 10 * f < 4 * d {
            LoadPhase::Quantizing
        } else if 10 * f < 8 * d {
            LoadPhase::SavingCache
        } else {
            LoadPhase::WarmingUp
        }
    } else {
        if 100 * f < 30 * d {
            LoadPhase::LoadingFiles
        } else if 100 * f < 85 * d {
            LoadPhase::LoadingWeights
        } else {
            LoadPhase::WarmingUp
        }
    };
    if reserved {
        (phase, 50 * d + 45 * f, 100 * d)
    } else {
        (phase, 95 * f, 100 * d)
    }
}

/// The state and estimate of one tick. While a first run's download is
/// not known to be over and the model's cache can be measured
/// (`cache_bytes`), the watchdog records growth of the cache; the download
/// is over when the cache reaches 95 % of its expected size, or has some
/// bytes and has not grown for more than five seconds. A download seen at
/// least two seconds after the start counts as visible. Until it is over
/// the estimate is the download's share, at most half. A cache that cannot
/// be measured ends the download phase at once.
pub open spec fn progress_step(
    st: ProgressState,
    now: u64,
    started: u64,
    eta: u64,
    first: bool,
    expected: Option<u64>,
    cache_bytes: Option<u64>,
) -> (ProgressState, (LoadPhase, nat, nat, nat, nat)) {
    if first && st.download_done_at_ms is None {
        match cache_bytes {
            Some(cur) => {
                let grown = cur > st.last_dl_bytes;
                let last = if grown { cur } else { st.last_dl_bytes };
                let changed = if grown { now } else { st.last_dl_changed_at_ms };
                let by_size = match expected {
                    Some(x) => 100 * cur >= 95 * x,
                    None => false,
                };
                let stable = cur > 0 && elapsed(now, changed) > 5000;
                if by_size || stable {
                    let st2 = ProgressState {
                        download_done_at_ms: Some(now),
                        last_dl_bytes: last,
                        last_dl_changed_at_ms: changed,
                        had_download_phase: st.had_download_phase || elapsed(now, started) >= 2000,
                    };
                    let (p, n, d) = timed_progress(st2, now, started, eta, first);
                    (st2, (p, 0, 0, n, d))
                } else {
                    let st2 = ProgressState {
                        download_done_at_ms: None,
                        last_dl_bytes: last,
                        last_dl_changed_at_ms: changed,
                        had_download_phase: true,
                    };
                    let x: nat = match expected {
                        Some(x) => x as nat,
                        None => 0,
                    };
                    let (n, d): (nat, nat) = if x == 0 {
                        (0, 1)
                    } else if 2 * cur >= x {
                        (1, 2)
                    } else {
                        (cur as nat, x)
                    };
                    (st2, (LoadPhase::Downloading, cur as nat, x, n, d))
                }
            },
            None => {
                let st2 = ProgressState { download_done_at_ms: Some(now), ..st };
                let (p, n, d) = timed_progress(st2, now, started, eta, first);
                (st2, (p, 0, 0, n, d))
            },
        }
    } else {
        let (p, n, d) = timed_progress(st, now, started, eta, first);
        (st, (p, 0, 0, n, d))
    }
}

pub open spec fn progress_view(p: LoadProgress) -> (LoadPhase, nat, nat, nat, nat) {
    (p.phase, p.bytes as nat, p.expected as nat, p.numerator as nat, p.denominator as nat)
}

impl ProgressState {
    /// The state before the first tick, at `now_ms`.
    pub fn new(now_ms: u64) -> (r: Self)
        ensures
            r.download_done_at_ms is None,
            r.last_dl_bytes == 0,
            r.last_dl_changed_at_ms == now_ms,
            !r.had_download_phase,
    {
        ProgressState {
            download_done_at_ms: None,
            last_dl_bytes: 0,
            last_dl_changed_at_ms: now_ms,
            had_download_phase: false,
        }
    }
}

fn elapsed_ms(now: u64, since: u64) -> (r: u64)
    ensures
        r == elapsed(now, since),
{
    if now > since {
        now - since
    } else {
        0
    }
}

fn timed(st: &ProgressState, now_ms: u64, started_ms: u64, eta_total: u64, first: bool) -> (r: LoadProgress)
    ensures
        progress_view(r) == ({
            let (p, n, d) = timed_progress(*st, now_ms, started_ms, eta_total, first);
            (p, 0nat, 0nat, n, d)
        }),
{
    let phase_started = match st.download_done_at_ms {
        Some(t) => t,
        None => started_ms,
    };
    let reserved = first && st.had_download_phase;
    let phase_eta: u64 = if reserved {
        if eta_total >= 120 {
            eta_total - 60
        } else {
            60
        }
    } else {
        if eta_total >= 1 {
            eta_total
        } else {
            1
        }
    };
    let d: u128 = (phase_eta as u128) * 1000;
    let e: u128 = elapsed_ms(now_ms, phase_started) as u128;
    let f: u128 = if e < d {
        e
    } else {
        d
    };
    let phase = if first {
        if 10 * f < 4 * d {
            LoadPhase::Quantizing
        } else if 10 * f < 8 * d {
            LoadPhase::SavingCache
        } else {
            LoadPhase::WarmingUp
        }
    } else {
        if 100 * f < 30 * d {
            LoadPhase::LoadingFiles
        } else if 100 * f < 85 * d {
            LoadPhase::LoadingWeights
        } else {
            LoadPhase::WarmingUp
        }
    };
    if reserved {
        LoadProgress {
            phase,
            bytes: 0,
            expected: 0,
            numerator: 50 * d + 45 * f,
            denominator: 100 * d,
        }
    } else {
        LoadProgress { phase, bytes: 0, expected: 0, numerator: 95 * f, denominator: 100 * d }
    }
}

/// One tick of the progress estimate of a model load (see
/// [`progress_step`]): `now_ms` and `started_ms` are times on one clock,
/// `eta_total` the expected seconds, and `cache_bytes` the size of the
/// model's download cache when it can be measured.
pub fn estimate_progress(
    state: &mut ProgressState,
    now_ms: u64,
    started_ms: u64,
    eta_total: u64,
    is_first_run: bool,
    model_id: &str,
    cache_bytes: Option<u64>,
) -> (r: LoadProgress)
    ensures
        (*final(state), progress_view(r)) == progress_step(
            *old(state),
            now_ms,
            started_ms,
            eta_total,
            is_first_run,
            expected_cache_bytes_of(model_id@),
            cache_bytes,
        ),
{
    let expected = expected_hf_cache_bytes(model_id);
    if is_first_run && state.download_done_at_ms.is_none() {
        match cache_bytes {
            Some(cur) => {
                if cur > state.last_dl_bytes {
                    state.last_dl_bytes = cur;
                    state.last_dl_changed_at_ms = now_ms;
                }
                let by_size = match expected {
                    Some(x) => (cur as u128) * 100 >= (x as u128) * 95,
                    None => false,
                };
                let stable = cur > 0 && elapsed_ms(now_ms, state.last_dl_changed_at_ms) > 5000;
                if by_size || stable {
                    state.download_done_at_ms = Some(now_ms);
                    if elapsed_ms(now_ms, started_ms) >= 2000 {
                        state.had_download_phase = true;
                    }
                    timed(state, now_ms, started_ms, eta_total, is_first_run)
                } else {
                    state.had_download_phase = true;
                    let x: u64 = match expected {
                        Some(x) => x,
                        None => 0,
                    };
                    let (n, d): (u128, u128) = if x == 0 {
                        (0, 1)
                    } else if (cur as u128) * 2 >= x as u128 {
                        (1, 2)
                    } else {
                        (cur as u128, x as u128)
                    };
                    LoadProgress {
                        phase: LoadPhase::Downloading,
                        bytes: cur,
                        expected: x,
                        numerator: n,
                        denominator: d,
                    }
                }
            },
            None => {
                state.download_done_at_ms = Some(now_ms);
                timed(state, now_ms, started_ms, eta_total, is_first_run)
            },
        }
    } else {
        timed(state, now_ms, started_ms, eta_total, is_first_run)
    }
}

/// The estimate never claims completion: the fraction is at most 95 %,
/// and once a visible download is over it is at least half.
pub proof fn lemma_progress_bounds(
    st: ProgressState,
    now: u64,
    started: u64,
    eta: u64,
    first: bool,
    expected: Option<u64>,
    cache_bytes: Option<u64>,
)
    ensures
        ({
            let (st2, (p, b, x, n, d)) = progress_step(st, now, started, eta, first, expected, cache_bytes);
            &&& d > 0
            &&& 100 * n <= 95 * d
            &&& (first && st2.had_download_phase && p != LoadPhase::Downloading) ==> 2 * n >= d
        }),
{
}

} // verus!
