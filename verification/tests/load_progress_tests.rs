use gravai::load_progress::{estimate_progress, phase_label, LoadPhase, LoadProgress, ProgressState};

fn frac(p: &LoadProgress) -> f64 {
    p.numerator as f64 / p.denominator as f64
}

const NOW: u64 = 1_000_000;

#[test]
fn cached_load_progress_uses_full_range() {
    // Not a first run: the bar is not split for a download.
    let started = NOW;
    let mut state = ProgressState::new(started);
    let p0 = estimate_progress(&mut state, NOW, started, 50, false, "gemma-4-e2b", None);
    assert!(frac(&p0) < 0.05, "expected near-zero start, got {}", frac(&p0));

    // 25 s after the start.
    let earlier = NOW - 25_000;
    let mut state = ProgressState::new(earlier);
    let p = estimate_progress(&mut state, NOW, earlier, 50, false, "gemma-4-e2b", None);
    assert!(frac(&p) > 0.4 && frac(&p) < 0.6, "halfway through 50 s eta: {}", frac(&p));
    let label = phase_label(p.phase);
    assert!(label.contains("Loading") || label.contains("Warming"));
}

#[test]
fn first_run_with_no_observed_download_uses_full_range() {
    let started = NOW;
    let mut state = ProgressState::new(started);
    state.download_done_at_ms = Some(started);
    state.had_download_phase = false;
    let p0 = estimate_progress(&mut state, NOW, started, 360, true, "gemma-4-e4b", None);
    assert!(frac(&p0) < 0.05, "expected near-zero start, got {}", frac(&p0));

    // About 150 s into the 360 s eta.
    let earlier = NOW - 150_000;
    let mut state = ProgressState::new(earlier);
    state.download_done_at_ms = Some(earlier);
    state.had_download_phase = false;
    let p = estimate_progress(&mut state, NOW, earlier, 360, true, "gemma-4-e4b", None);
    assert!(frac(&p) > 0.30 && frac(&p) < 0.55, "midway through 360 s eta: {}", frac(&p));
}

#[test]
fn first_run_with_visible_download_reserves_lower_half() {
    let started = NOW - 120_000;
    let mut state = ProgressState::new(started);
    state.download_done_at_ms = Some(NOW - 60_000);
    state.had_download_phase = true;
    let p = estimate_progress(&mut state, NOW, started, 360, true, "gemma-4-e4b", None);
    assert!(frac(&p) >= 0.50, "should be at least 50 % after download: {}", frac(&p));
    assert!(frac(&p) < 0.95, "should not yet be at the cap: {}", frac(&p));
}

#[test]
fn download_phase_tracks_cache_growth() {
    let started = NOW;
    let mut state = ProgressState::new(started);
    // 1 GB of the 9.5 GB expected, three seconds in.
    let p = estimate_progress(&mut state, NOW + 3_000, started, 240, true, "gemma-4-e2b", Some(1_000_000_000));
    assert_eq!(p.phase, LoadPhase::Downloading);
    assert_eq!((p.bytes, p.expected), (1_000_000_000, 9_500_000_000));
    assert_eq!((p.numerator, p.denominator), (1_000_000_000, 9_500_000_000));
    assert!(state.had_download_phase);
    assert_eq!(state.last_dl_changed_at_ms, NOW + 3_000);
    // The cache stops growing: still downloading for five seconds, then done.
    let p = estimate_progress(&mut state, NOW + 8_000, started, 240, true, "gemma-4-e2b", Some(1_000_000_000));
    assert_eq!(p.phase, LoadPhase::Downloading);
    let p = estimate_progress(&mut state, NOW + 8_001, started, 240, true, "gemma-4-e2b", Some(1_000_000_000));
    assert_eq!(p.phase, LoadPhase::Quantizing);
    assert_eq!(state.download_done_at_ms, Some(NOW + 8_001));
    // Right after a visible download the bar stands at half.
    assert_eq!(p.numerator * 2, p.denominator);
}

#[test]
fn download_share_is_capped_at_half() {
    let mut state = ProgressState::new(NOW);
    let p = estimate_progress(&mut state, NOW, NOW, 240, true, "gemma-4-e2b", Some(9_000_000_000));
    assert_eq!(p.phase, LoadPhase::Downloading);
    assert_eq!((p.numerator, p.denominator), (1, 2));
    // 95 % of the expected size ends the download; a quick one is not
    // counted as visible.
    let mut state = ProgressState::new(NOW);
    let p = estimate_progress(&mut state, NOW + 1_000, NOW, 240, true, "gemma-4-e2b", Some(9_025_000_000));
    assert_eq!(p.phase, LoadPhase::Quantizing);
    assert!(!state.had_download_phase);
}

#[test]
fn unmeasurable_cache_skips_the_download() {
    let mut state = ProgressState::new(NOW);
    let p = estimate_progress(&mut state, NOW, NOW, 240, true, "qwen3-4b", None);
    assert_eq!(p.phase, LoadPhase::Quantizing);
    assert_eq!(state.download_done_at_ms, Some(NOW));
    assert_eq!(phase_label(LoadPhase::WarmingUp), "Warming up");
}
