//! Capture presets: saved bundles of audio source and recording settings.

use vstd::prelude::*;

use crate::profiles::{is_v4_uuid_text, new_uuid};
use crate::text::str_eq;

verus! {

/// A capture preset. Gains are in percent (100 leaves the level as it is).
#[derive(Debug, Clone)]
pub struct CapturePreset {
    pub id: String,
    pub name: String,
    pub description: String,
    pub mic_enabled: bool,
    pub mic_gain_percent: u32,
    pub sys_enabled: bool,
    pub sys_gain_percent: u32,
    pub sample_rate: u32,
    pub bit_depth: u16,
    pub channels: u16,
    pub export_format: String,
    pub output_folder: Option<String>,
}

impl Default for CapturePreset {
    /// The standard preset, under a fresh random id.
    fn default() -> (r: Self)
        ensures
            is_v4_uuid_text(r.id@),
            r.name@ == "Default"@,
            r.description@ == "Standard recording preset"@,
            r.mic_enabled && r.mic_gain_percent == 100,
            r.sys_enabled && r.sys_gain_percent == 100,
            r.sample_rate == 48000 && r.bit_depth == 24 && r.channels == 2,
            r.export_format@ == "wav"@,
            r.output_folder is None,
    {
        CapturePreset {
            id: new_uuid(),
            name: "Default".to_owned(),
            description: "Standard recording preset".to_owned(),
            mic_enabled: true,
            mic_gain_percent: 100,
            sys_enabled: true,
            sys_gain_percent: 100,
            sample_rate: 48000,
            bit_depth: 24,
            channels: 2,
            export_format: "wav".to_owned(),
            output_folder: None,
        }
    }
}

/// The preset shipped with the app at position `i` of [`builtin_presets`].
pub open spec fn is_builtin_preset(p: CapturePreset, i: int) -> bool {
    &&& p.output_folder is None
    &&& if i == 0 {
        &&& p.id@ == "meeting"@ && p.name@ == "Meeting"@
        &&& p.description@ == "Balanced for video calls"@
        &&& p.mic_enabled == true && p.mic_gain_percent == 100
        &&& p.sys_enabled == true && p.sys_gain_percent == 100
        &&& p.sample_rate == 48000 && p.bit_depth == 16 && p.channels == 1
        &&& p.export_format@ == "m4a-aac"@
    } else if i == 1 {
        &&& p.id@ == "podcast"@ && p.name@ == "Podcast"@
        &&& p.description@ == "High-quality stereo recording"@
        &&& p.mic_enabled == true && p.mic_gain_percent == 120
        &&& p.sys_enabled == false && p.sys_gain_percent == 100
        &&& p.sample_rate == 48000 && p.bit_depth == 24 && p.channels == 2
        &&& p.export_format@ == "wav"@
    } else if i == 2 {
        &&& p.id@ == "streaming"@ && p.name@ == "Streaming"@
        &&& p.description@ == "Capture mic + game/app audio"@
        &&& p.mic_enabled == true && p.mic_gain_percent == 100
        &&& p.sys_enabled == true && p.sys_gain_percent == 80
        &&& p.sample_rate == 48000 && p.bit_depth == 24 && p.channels == 2
        &&& p.export_format@ == "wav"@
    } else if i == 3 {
        &&& p.id@ == "interview"@ && p.name@ == "Interview"@
        &&& p.description@ == "Mono, speech-optimized"@
        &&& p.mic_enabled == true && p.mic_gain_percent == 110
        &&& p.sys_enabled == true && p.sys_gain_percent == 100
        &&& p.sample_rate == 48000 && p.bit_depth == 24 && p.channels == 1
        &&& p.export_format@ == "wav"@
    } else {
        &&& p.id@ == "minimal"@ && p.name@ == "Minimal"@
        &&& p.description@ == "Low resource usage"@
        &&& p.mic_enabled == true && p.mic_gain_percent == 100
        &&& p.sys_enabled == false && p.sys_gain_percent == 100
        &&& p.sample_rate == 16000 && p.bit_depth == 16 && p.channels == 1
        &&& p.export_format@ == "m4a-aac"@
    }
}

fn preset(
    id: &str,
    name: &str,
    description: &str,
    mic_enabled: bool,
    mic_gain_percent: u32,
    sys_enabled: bool,
    sys_gain_percent: u32,
    sample_rate: u32,
    bit_depth: u16,
    channels: u16,
    export_format: &str,
) -> (r: CapturePreset)
    ensures
        r.id@ == id@ && r.name@ == name@ && r.description@ == description@,
        r.mic_enabled == mic_enabled && r.mic_gain_percent == mic_gain_percent,
        r.sys_enabled == sys_enabled && r.sys_gain_percent == sys_gain_percent,
        r.sample_rate == sample_rate && r.bit_depth == bit_depth && r.channels == channels,
        r.export_format@ == export_format@,
        r.output_folder is None,
{
    CapturePreset {
        id: id.to_owned(),
        name: name.to_owned(),
        description: description.to_owned(),
        mic_enabled,
        mic_gain_percent,
        sys_enabled,
        sys_gain_percent,
        sample_rate,
        bit_depth,
        channels,
        export_format: export_format.to_owned(),
        output_folder: None,
    }
}

/// The presets that ship with the app.
pub fn builtin_presets() -> (r: Vec<CapturePreset>)
    ensures
        r@.len() == 5,
        forall|i: int| 0 <= i < 5 ==> is_builtin_preset(#[trigger] r@[i], i),
{
    let mut r: Vec<CapturePreset> = Vec::new();
    r.push(preset("meeting", "Meeting", "Balanced for video calls", true, 100, true, 100, 48000, 16, 1, "m4a-aac"));
    r.push(preset("podcast", "Podcast", "High-quality stereo recording", true, 120, false, 100, 48000, 24, 2, "wav"));
    r.push(preset("streaming", "Streaming", "Capture mic + game/app audio", true, 100, true, 80, 48000, 24, 2, "wav"));
    r.push(preset("interview", "Interview", "Mono, speech-optimized", true, 110, true, 100, 48000, 24, 1, "wav"));
    r.push(preset("minimal", "Minimal", "Low resource usage", true, 100, false, 100, 16000, 16, 1, "m4a-aac"));
    r
}

/// Presets by id, and which one is active.
#[derive(Debug, Clone)]
pub struct PresetStore {
    pub presets: Vec<CapturePreset>,
    pub active_preset_id: Option<String>,
}

impl PresetStore {
    /// No two presets share an id.
    pub open spec fn wf(&self) -> bool {
        forall|i: int, j: int|
            0 <= i < j < self.presets@.len() ==> self.presets@[i].id@ != self.presets@[j].id@
    }

    /// The store of a first run: the built-in presets, none active.
    pub fn with_builtins() -> (r: Self)
        ensures
            r.wf(),
            r.presets@.len() == 5,
            forall|i: int| 0 <= i < 5 ==> is_builtin_preset(#[trigger] r.presets@[i], i),
            r.active_preset_id is None,
    {
        let presets = builtin_presets();
        proof {
            reveal_strlit("meeting");
            reveal_strlit("podcast");
            reveal_strlit("streaming");
            reveal_strlit("interview");
            reveal_strlit("minimal");
            assert(is_builtin_preset(presets@[0], 0));
            assert(is_builtin_preset(presets@[1], 1));
            assert(is_builtin_preset(presets@[2], 2));
            assert(is_builtin_preset(presets@[3], 3));
            assert(is_builtin_preset(presets@[4], 4));
            assert("meeting"@[0] != "podcast"@[0] && "meeting"@[0] != "streaming"@[0]
                && "meeting"@[0] != "interview"@[0] && "meeting"@[1] != "minimal"@[1]);
            assert("podcast"@[0] != "streaming"@[0] && "podcast"@[0] != "interview"@[0]
                && "podcast"@[0] != "minimal"@[0]);
            assert("streaming"@[0] != "interview"@[0] && "streaming"@[0] != "minimal"@[0]);
            assert("interview"@[0] != "minimal"@[0]);
        }
        PresetStore { presets, active_preset_id: None }
    }

    /// Make `preset_id` the active preset and return it; `None`, with
    /// nothing changed, when there is no such preset.
    pub fn activate(&mut self, preset_id: &str) -> (r: Option<&CapturePreset>)
        requires
            old(self).wf(),
        ensures
            final(self).presets == old(self).presets,
            (exists|i: int|
                0 <= i < old(self).presets@.len() && old(self).presets@[i].id@ == preset_id@)
                <==> r is Some,
            r matches Some(p) ==> p.id@ == preset_id@ && old(self).presets@.contains(*p) && (
            final(self).active_preset_id matches Some(a) && a@ == preset_id@),
            r is None ==> final(self).active_preset_id == old(self).active_preset_id,
    {
        let mut i: usize = 0;
        while i < self.presets.len()
            invariant
                i <= self.presets@.len(),
                self.presets == old(self).presets,
                self.active_preset_id == old(self).active_preset_id,
                forall|k: int| 0 <= k < i ==> self.presets@[k].id@ != preset_id@,
            decreases self.presets@.len() - i,
        {
            if str_eq(self.presets[i].id.as_str(), preset_id) {
                self.active_preset_id = Some(preset_id.to_owned());
                return Some(&self.presets[i]);
            }
            i += 1;
        }
        None
    }
}

} // verus!
