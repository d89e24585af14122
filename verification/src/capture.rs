//! Capture decisions: which input device the microphone uses, whether a
//! source needs resampling for transcription, when the volume meter
//! reports, which app's audio the system capture follows, and how
//! per-channel buffers are interleaved.

use vstd::prelude::*;

use crate::text::str_eq;

verus! {

/// Sample rate that transcription takes, in Hz.
pub const TRANSCRIPTION_RATE: u32 = 16000;

/// The microphone device to open.
#[derive(Debug, Clone, Copy, PartialEq, Eq, Structural)]
pub enum MicDevice {
    /// The system's default input device.
    Default,
    /// The input device at this position in the host's list.
    Index(usize),
}

pub open spec fn mic_device_of(device_index: i32, device_count: nat, has_default: bool) -> Result<MicDevice, Seq<char>> {
    if device_index < 0 {
        if has_default {
            Ok(MicDevice::Default)
        } else {
            Err("No default input device"@)
        }
    } else if (device_index as nat) < device_count {
        Ok(MicDevice::Index(device_index as usize))
    } else {
        Err("Device index out of range"@)
    }
}

/// The device for the configured index: a negative index means the
/// default device; otherwise the index must name one of the
/// `device_count` input devices.
pub fn pick_input_device(device_index: i32, device_count: usize, has_default: bool) -> (r: Result<MicDevice, String>)
    ensures
        match r {
            Ok(d) => mic_device_of(device_index, device_count as nat, has_default) == Ok::<
                MicDevice,
                Seq<char>,
            >(d),
            Err(m) => mic_device_of(device_index, device_count as nat, has_default) == Err::<
                MicDevice,
                Seq<char>,
            >(m@),
        },
{
    if device_index < 0 {
        if has_default {
            Ok(MicDevice::Default)
        } else {
            Err("No default input device".to_owned())
        }
    } else if (device_index as u64) < (device_count as u64) {
        Ok(MicDevice::Index(device_index as usize))
    } else {
        Err("Device index out of range".to_owned())
    }
}

/// A source is resampled for transcription unless it already is 16 kHz
/// mono.
pub fn needs_resampling(sample_rate: u32, channels: u16) -> (r: bool)
    ensures
        r == (sample_rate != TRANSCRIPTION_RATE || channels != 1),
{
    sample_rate != TRANSCRIPTION_RATE || channels != 1
}

/// Counts captured frames and reports a volume level every `interval`
/// frames.
#[derive(Debug, Clone, Copy)]
pub struct VolumeMeter {
    pub counter: u64,
    pub interval: u64,
}

impl VolumeMeter {
    pub fn new(interval: u64) -> (r: Self)
        ensures
            r.counter == 0,
            r.interval == interval,
    {
        VolumeMeter { counter: 0, interval }
    }

    /// Takes a block of `samples` interleaved samples of `channels`
    /// channels; whether to report the level now, which restarts the count.
    pub fn on_block(&mut self, samples: u64, channels: u16) -> (r: bool)
        requires
            channels > 0,
            old(self).counter + samples / (channels as u64) <= u64::MAX,
        ensures
            final(self).interval == old(self).interval,
            r == (old(self).counter + samples / (channels as u64) >= old(self).interval),
            final(self).counter == (if r {
                0
            } else {
                old(self).counter + samples / (channels as u64)
            }),
    {
        self.counter = self.counter + samples / (channels as u64);
        if self.counter >= self.interval {
            self.counter = 0;
            true
        } else {
            false
        }
    }
}

/// The app the system capture follows: none when no bundle id is
/// configured.
pub fn app_filter(app_bundle_id: &str) -> (r: Option<String>)
    ensures
        r is None <==> app_bundle_id@.len() == 0,
        r matches Some(b) ==> b@ == app_bundle_id@,
{
    if app_bundle_id.is_empty() {
        None
    } else {
        Some(app_bundle_id.to_owned())
    }
}

/// Position of the first running app with the wanted bundle id.
pub open spec fn app_position(bundle_ids: Seq<Seq<char>>, wanted: Seq<char>, i: int) -> Option<int>
    decreases bundle_ids.len() - i,
{
    if i < 0 || i >= bundle_ids.len() {
        None
    } else if bundle_ids[i] == wanted {
        Some(i)
    } else {
        app_position(bundle_ids, wanted, i + 1)
    }
}

/// Which running app to capture, by its position among the running apps'
/// bundle ids; `None` (capture all system audio) when it is not running.
pub fn find_capture_app(bundle_ids: &Vec<String>, wanted: &str) -> (r: Option<usize>)
    ensures
        match r {
            Some(i) => app_position(crate::text::views(bundle_ids@), wanted@, 0) == Some(i as int),
            None => app_position(crate::text::views(bundle_ids@), wanted@, 0) is None,
        },
{
    let ghost ids = crate::text::views(bundle_ids@);
    let mut i: usize = 0;
    while i < bundle_ids.len()
        invariant
            i <= bundle_ids@.len(),
            ids == crate::text::views(bundle_ids@),
            app_position(ids, wanted@, 0) == app_position(ids, wanted@, i as int),
        decreases bundle_ids@.len() - i,
    {
        if str_eq(bundle_ids[i].as_str(), wanted) {
            return Some(i);
        }
        i += 1;
    }
    None
}

/// The interleaving of per-channel buffers: as many frames as the first
/// channel has, each frame taking one sample from every channel in order,
/// `fill` where a channel is shorter.
pub open spec fn interleaved<T>(per_channel: Seq<Seq<T>>, fill: T) -> Seq<T> {
    let c = per_channel.len();
    let frames = if c == 0 { 0 } else { per_channel[0].len() };
    Seq::new(
        frames * c,
        |k: int|
            if k / (c as int) < per_channel[k % (c as int)].len() {
                per_channel[k % (c as int)][k / (c as int)]
            } else {
                fill
            },
    )
}

pub open spec fn channel_views<T>(v: Seq<Vec<T>>) -> Seq<Seq<T>> {
    v.map_values(|b: Vec<T>| b@)
}

/// Interleaves per-channel buffers (see [`interleaved`]).
pub fn interleave<T: Copy>(per_channel: &Vec<Vec<T>>, fill: T) -> (r: Vec<T>)
    requires
        per_channel@.len() > 0 ==> per_channel@[0]@.len() * per_channel@.len() <= usize::MAX,
    ensures
        r@ == interleaved(channel_views(per_channel@), fill),
{
    let c = per_channel.len();
    let ghost pc = channel_views(per_channel@);
    let mut out: Vec<T> = Vec::new();
    if c == 0 {
        assert(out@ =~= interleaved(pc, fill));
        return out;
    }
    let frames = per_channel[0].len();
    let mut i: usize = 0;
    while i < frames
        invariant
            c == per_channel@.len(),
            c > 0,
            frames == per_channel@[0]@.len(),
            frames * c <= usize::MAX,
            i <= frames,
            pc == channel_views(per_channel@),
            out@.len() == i * c,
            forall|k: int|
                0 <= k < i * c ==> out@[k] == (if k / (c as int) < pc[k % (c as int)].len() {
                    pc[k % (c as int)][k / (c as int)]
                } else {
                    fill
                }),
        decreases frames - i,
    {
        let mut j: usize = 0;
        assert(i * c + c <= frames * c) by (nonlinear_arith)
            requires
                i < frames,
        ;
        while j < c
            invariant
                c == per_channel@.len(),
                c > 0,
                i < frames,
                i * c + c <= frames * c,
                frames * c <= usize::MAX,
                j <= c,
                pc == channel_views(per_channel@),
                out@.len() == i * c + j,
                forall|k: int|
                    0 <= k < i * c + j ==> out@[k] == (if k / (c as int) < pc[k % (c as int)].len() {
                        pc[k % (c as int)][k / (c as int)]
                    } else {
                        fill
                    }),
            decreases c - j,
        {
            let ch = &per_channel[j];
            let s = if i < ch.len() {
                ch[i]
            } else {
                fill
            };
            proof {
                let k = i * c + j;
                assert(k / (c as int) == i as int && k % (c as int) == j as int) by (nonlinear_arith)
                    requires
                        k == i * c + j,
                        0 <= j < c,
                        0 <= i,
                ;
                assert(pc[j as int] == per_channel@[j as int]@);
            }
            out.push(s);
            j += 1;
        }
        assert((i + 1) * c == i * c + c) by (nonlinear_arith);
        i += 1;
    }
    assert(out@ =~= interleaved(pc, fill));
    out
}

} // verus!
