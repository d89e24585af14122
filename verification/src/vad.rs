//! Voice activity detection with the WebRTC detector: a chunk of 16 kHz
//! audio is cut into 30 ms frames, each frame is classified, and the chunk
//! counts as speech when at least half of its frames do.

use vstd::prelude::*;

use webrtc_vad::{SampleRate, Vad, VadMode};

use crate::config::WebrtcVadConfig;

verus! {

#[verifier::external_type_specification]
#[verifier::external_body]
pub struct ExVad(Vad);

/// Sample rate the detector is fed with, in Hz.
pub const VAD_SAMPLE_RATE: usize = 16000;

/// Length of one analysed frame, in milliseconds.
pub const FRAME_DURATION_MS: usize = 30;

/// How restrictive the detector is in reporting speech.
#[derive(Debug, Clone, Copy, PartialEq, Eq, Structural)]
pub enum VadAggressiveness {
    Quality,
    LowBitrate,
    Aggressive,
    VeryAggressive,
}

/// The configured aggressiveness level: 0, 1 and 2 name the first three
/// modes; anything else is the most aggressive one.
pub open spec fn aggressiveness_of(level: i32) -> VadAggressiveness {
    if level == 0 {
        VadAggressiveness::Quality
    } else if level == 1 {
        VadAggressiveness::LowBitrate
    } else if level == 2 {
        VadAggressiveness::Aggressive
    } else {
        VadAggressiveness::VeryAggressive
    }
}

/// Maps the configured aggressiveness level to a detector mode.
pub fn vad_mode_for(level: i32) -> (r: VadAggressiveness)
    ensures
        r == aggressiveness_of(level),
{
    match level {
        0 => VadAggressiveness::Quality,
        1 => VadAggressiveness::LowBitrate,
        2 => VadAggressiveness::Aggressive,
        _ => VadAggressiveness::VeryAggressive,
    }
}

/// Creates a detector for 16 kHz input in the given mode, through
/// `webrtc_vad::Vad::new_with_rate_and_mode`. Nothing is claimed of the
/// detector beyond its existence: its state lives in the C library.
#[verifier::external_body]
fn new_detector(mode: VadAggressiveness) -> (r: Vad) {
    let m = match mode {
        VadAggressiveness::Quality => VadMode::Quality,
        VadAggressiveness::LowBitrate => VadMode::LowBitrate,
        VadAggressiveness::Aggressive => VadMode::Aggressive,
        VadAggressiveness::VeryAggressive => VadMode::VeryAggressive,
    };
    Vad::new_with_rate_and_mode(SampleRate::Rate16kHz, m)
}

/// Classifies one frame through `webrtc_vad::Vad::is_voice_segment`, which
/// reads the first sample of the frame (so the frame is not empty). The
/// verdict depends on the detector's internal state, so nothing is claimed
/// of it.
#[verifier::external_body]
fn classify_frame(vad: &mut Vad, frame: &[i16]) -> (r: Result<bool, ()>)
    requires
        frame.len() > 0,
{
    vad.is_voice_segment(frame)
}

/// Number of frames of `frame` samples that cover `len` samples, the last
/// one padded.
pub open spec fn frame_count(len: nat, frame: nat) -> nat {
    if frame == 0 {
        0
    } else {
        ((len + frame - 1) / (frame as int)) as nat
    }
}

/// The `frame` samples of `samples` from `start` on, zero-padded past the
/// end of the input.
pub open spec fn window(samples: Seq<i16>, start: int, frame: nat) -> Seq<i16> {
    Seq::new(
        frame,
        |i: int|
            if start + i < samples.len() {
                samples[start + i]
            } else {
                0i16
            },
    )
}

/// Number of frames of `heard` that the detector judged to be speech.
pub open spec fn voiced_count(heard: Seq<(Seq<i16>, bool)>) -> nat
    decreases heard.len(),
{
    if heard.len() == 0 {
        0
    } else {
        voiced_count(heard.drop_last()) + if heard.last().1 {
            1nat
        } else {
            0nat
        }
    }
}

/// `heard` holds the frames of `samples`, cut at every `frame` samples
/// from the start, in order (see [`window`]), each with a verdict.
pub open spec fn frames_of(heard: Seq<(Seq<i16>, bool)>, samples: Seq<i16>, frame: nat) -> bool {
    &&& heard.len() == frame_count(samples.len(), frame)
    &&& forall|k: int| 0 <= k < heard.len() ==> (#[trigger] heard[k]).0 == window(samples, k * frame, frame)
}

/// A chunk is speech when at least half of its frames are (and it has
/// frames at all).
pub open spec fn speech_verdict(speech: nat, total: nat) -> bool {
    total > 0 && 2 * speech >= total
}

/// Decides a chunk from its frame counts (see [`speech_verdict`]).
pub fn is_speech_ratio(speech: u64, total: u64) -> (r: bool)
    requires
        speech <= total,
    ensures
        r == speech_verdict(speech as nat, total as nat),
{
    total > 0 && speech >= total - speech
}

/// Copies the frame of `frame` samples from `start` on (see [`window`]).
pub fn padded_frame(samples: &[i16], start: usize, frame: usize) -> (r: Vec<i16>)
    requires
        start + frame <= usize::MAX,
    ensures
        r@ == window(samples@, start as int, frame as nat),
{
    let mut out: Vec<i16> = Vec::new();
    let mut i: usize = 0;
    while i < frame
        invariant
            i <= frame,
            start + frame <= usize::MAX,
            out@.len() == i,
            forall|j: int|
                0 <= j < i ==> out@[j] == (if start + j < samples@.len() {
                    samples@[start + j]
                } else {
                    0i16
                }),
        decreases frame - i,
    {
        if start + i < samples.len() {
            out.push(samples[start + i]);
        } else {
            out.push(0i16);
        }
        i += 1;
    }
    out
}

/// A WebRTC voice detector fed with 16 kHz samples in 30 ms frames.
pub struct WebrtcVad {
    vad: Vad,
    frame_size: usize,
    mode: Ghost<VadAggressiveness>,
    heard: Ghost<Seq<(Seq<i16>, bool)>>,
}

impl WebrtcVad {
    /// Samples per analysed frame.
    pub closed spec fn frame_len(&self) -> nat {
        self.frame_size as nat
    }

    /// The mode the detector was created in.
    pub closed spec fn mode(&self) -> VadAggressiveness {
        self.mode@
    }

    /// Every frame handed to the detector so far, in order, with the verdict
    /// it counted as (a frame the detector refuses counts as silence).
    pub closed spec fn heard(&self) -> Seq<(Seq<i16>, bool)> {
        self.heard@
    }

    /// A detector in the mode that the configured aggressiveness level
    /// names. Creating it does not fail: the detector library only aborts
    /// when it cannot allocate.
    pub fn new(config: &WebrtcVadConfig) -> (r: Result<Self, String>)
        ensures
            r matches Ok(v) && v.frame_len() == 480 && v.mode() == aggressiveness_of(
                config.aggressiveness,
            ) && v.heard().len() == 0,
    {
        let mode = vad_mode_for(config.aggressiveness);
        let vad = new_detector(mode);
        let frame_size = VAD_SAMPLE_RATE * FRAME_DURATION_MS / 1000;
        Ok(WebrtcVad { vad, frame_size, mode: Ghost(mode), heard: Ghost(Seq::empty()) })
    }

    /// Classifies each 30 ms frame of the chunk, the last one zero-padded,
    /// and returns how many frames were speech and how many there were:
    /// the frames handed to the detector are those of the chunk in order
    /// (see [`frames_of`]), and the count of speech is that of their
    /// verdicts. A frame that the detector refuses counts as silence. (A
    /// slice of `i16` never holds more than `isize::MAX / 2` samples.)
    pub fn count_speech_frames(&mut self, samples: &[i16]) -> (r: (u64, u64))
        requires
            old(self).frame_len() == 480,
            samples@.len() <= usize::MAX / 2,
        ensures
            final(self).frame_len() == 480,
            final(self).mode() == old(self).mode(),
            final(self).heard().subrange(0, old(self).heard().len() as int) == old(self).heard(),
            frames_of(
                final(self).heard().subrange(
                    old(self).heard().len() as int,
                    final(self).heard().len() as int,
                ),
                samples@,
                480,
            ),
            r.0 == voiced_count(
                final(self).heard().subrange(
                    old(self).heard().len() as int,
                    final(self).heard().len() as int,
                ),
            ),
            r.1 == frame_count(samples@.len(), 480),
            r.0 <= r.1,
    {
        let size = self.frame_size;
        let mut speech: u64 = 0;
        let mut total: u64 = 0;
        let mut start: usize = 0;
        let ghost h0 = self.heard@;
        while start < samples.len()
            invariant
                self.frame_size == 480,
                self.mode == old(self).mode,
                h0 == old(self).heard@,
                size == 480,
                start % 480 == 0,
                start <= samples@.len() + 479,
                samples@.len() <= usize::MAX / 2,
                total == start / 480,
                speech <= total,
                self.heard@.len() == h0.len() + total,
                self.heard@.subrange(0, h0.len() as int) == h0,
                forall|k: int|
                    0 <= k < total ==> (#[trigger] self.heard@[h0.len() + k]).0 == window(
                        samples@,
                        k * 480,
                        480,
                    ),
                speech == voiced_count(self.heard@.subrange(h0.len() as int, self.heard@.len() as int)),
            decreases samples@.len() + 480 - start,
        {
            let frame = padded_frame(samples, start, size);
            let voiced = match classify_frame(&mut self.vad, frame.as_slice()) {
                Ok(v) => v,
                Err(_) => false,
            };
            let ghost before = self.heard@;
            proof {
                self.heard@ = self.heard@.push((frame@, voiced));
                assert(self.heard@.subrange(h0.len() as int, self.heard@.len() as int).drop_last()
                    =~= before.subrange(h0.len() as int, before.len() as int));
                assert(self.heard@.subrange(0, h0.len() as int) =~= before.subrange(
                    0,
                    h0.len() as int,
                ));
                assert((total as int) * 480 == start as int);
            }
            if voiced {
                speech += 1;
            }
            total += 1;
            start += size;
        }
        proof {
            let n = samples@.len();
            assert(start / 480 == (n + 479) / 480) by (nonlinear_arith)
                requires
                    start % 480 == 0,
                    n <= start,
                    start < n + 480,
                    start <= n + 479,
            ;
            let added = self.heard@.subrange(h0.len() as int, self.heard@.len() as int);
            assert forall|k: int| 0 <= k < added.len() implies (#[trigger] added[k]).0 == window(
                samples@,
                k * 480,
                480,
            ) by {
                assert(added[k] == self.heard@[h0.len() + k]);
            }
        }
        (speech, total)
    }

    /// Whether at least half of the chunk's 30 ms frames are speech: the
    /// frames of the chunk are handed to the detector in order, and the
    /// verdict is taken from their verdicts (see [`count_speech_frames`]).
    pub fn is_speech(&mut self, samples: &[i16]) -> (r: bool)
        requires
            old(self).frame_len() == 480,
            samples@.len() <= usize::MAX / 2,
        ensures
            final(self).frame_len() == 480,
            final(self).mode() == old(self).mode(),
            final(self).heard().subrange(0, old(self).heard().len() as int) == old(self).heard(),
            frames_of(
                final(self).heard().subrange(
                    old(self).heard().len() as int,
                    final(self).heard().len() as int,
                ),
                samples@,
                480,
            ),
            r == speech_verdict(
                voiced_count(
                    final(self).heard().subrange(
                        old(self).heard().len() as int,
                        final(self).heard().len() as int,
                    ),
                ),
                frame_count(samples@.len(), 480),
            ),
    {
        let (speech, total) = self.count_speech_frames(samples);
        is_speech_ratio(speech, total)
    }

    /// The detector keeps no state between chunks that needs clearing.
    pub fn reset(&mut self)
        ensures
            final(self).frame_len() == old(self).frame_len(),
            final(self).mode() == old(self).mode(),
            final(self).heard() == old(self).heard(),
    {
    }

    pub fn name(&self) -> (r: &'static str)
        ensures
            r@ == "webrtc"@,
    {
        proof {
            reveal_strlit("webrtc");
        }
        "webrtc"
    }
}

} // verus!
