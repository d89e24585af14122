use gravai::config::WebrtcVadConfig;
use gravai::vad::{is_speech_ratio, padded_frame, vad_mode_for, VadAggressiveness, WebrtcVad};

#[test]
fn webrtc_vad_creates() {
    let config = WebrtcVadConfig::default();
    let vad = WebrtcVad::new(&config);
    assert!(vad.is_ok());
}

#[test]
fn silence_is_not_speech() {
    let config = WebrtcVadConfig::default();
    let mut vad = WebrtcVad::new(&config).unwrap();
    let silence = vec![0i16; 480]; // 30ms at 16kHz
    assert!(!vad.is_speech(&silence));
}

#[test]
fn empty_chunk_is_not_speech() {
    let mut vad = WebrtcVad::new(&WebrtcVadConfig::default()).unwrap();
    assert!(!vad.is_speech(&[]));
    assert_eq!(vad.count_speech_frames(&[]), (0, 0));
}

#[test]
fn chunk_is_cut_into_padded_frames() {
    let mut vad = WebrtcVad::new(&WebrtcVadConfig::default()).unwrap();
    let (speech, total) = vad.count_speech_frames(&vec![0i16; 1000]);
    assert_eq!(total, 3);
    assert!(speech <= total);
    let (_, total) = vad.count_speech_frames(&vec![0i16; 960]);
    assert_eq!(total, 2);
}

#[test]
fn aggressiveness_levels_map_to_modes() {
    assert_eq!(vad_mode_for(0), VadAggressiveness::Quality);
    assert_eq!(vad_mode_for(1), VadAggressiveness::LowBitrate);
    assert_eq!(vad_mode_for(2), VadAggressiveness::Aggressive);
    assert_eq!(vad_mode_for(3), VadAggressiveness::VeryAggressive);
    assert_eq!(vad_mode_for(-1), VadAggressiveness::VeryAggressive);
}

#[test]
fn half_the_frames_make_speech() {
    assert!(is_speech_ratio(1, 2));
    assert!(is_speech_ratio(2, 3));
    assert!(!is_speech_ratio(1, 3));
    assert!(!is_speech_ratio(0, 0));
    assert!(is_speech_ratio(5, 5));
}

#[test]
fn last_frame_is_zero_padded() {
    let samples = [1i16, 2, 3, 4, 5];
    assert_eq!(padded_frame(&samples, 0, 3), vec![1, 2, 3]);
    assert_eq!(padded_frame(&samples, 3, 3), vec![4, 5, 0]);
    assert_eq!(padded_frame(&samples, 6, 2), vec![0, 0]);
}

#[test]
fn detector_is_named() {
    let vad = WebrtcVad::new(&WebrtcVadConfig::default()).unwrap();
    assert_eq!(vad.name(), "webrtc");
}
