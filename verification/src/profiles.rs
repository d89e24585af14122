//! Profiles: named bundles of settings for different contexts.

use vstd::prelude::*;

use crate::text::str_eq;

verus! {

/// A profile bundles several settings into a switchable context.
#[derive(Debug, Clone)]
pub struct Profile {
    pub id: String,
    pub name: String,
    pub description: String,
    /// Capture preset id.
    pub preset_id: Option<String>,
    pub transcription_engine: Option<String>,
    pub transcription_model: Option<String>,
    pub transcription_language: Option<String>,
    pub diarization_enabled: Option<bool>,
    pub sentiment_enabled: Option<bool>,
    pub echo_suppression_enabled: Option<bool>,
    pub llm_provider: Option<String>,
    pub llm_model: Option<String>,
    /// Shortcut set id.
    pub shortcut_set_id: Option<String>,
}

/// A lower-case hexadecimal digit.
pub open spec fn is_hex_lower(c: char) -> bool {
    ('0' <= c && c <= '9') || ('a' <= c && c <= 'f')
}

/// The hyphenated text of a version-4 UUID: 36 characters, hyphens at
/// positions 8, 13, 18 and 23, lower-case hexadecimal digits elsewhere,
/// the version digit `4` at position 14 and a variant digit among `8`,
/// `9`, `a`, `b` at position 19.
pub open spec fn is_v4_uuid_text(s: Seq<char>) -> bool {
    &&& s.len() == 36
    &&& forall|i: int|
        0 <= i < 36 ==> if i == 8 || i == 13 || i == 18 || i == 23 {
            s[i] == '-'
        } else {
            is_hex_lower(#[trigger] s[i])
        }
    &&& s[14] == '4'
    &&& (s[19] == '8' || s[19] == '9' || s[19] == 'a' || s[19] == 'b')
}

/// A random version-4 UUID (`uuid::Uuid::new_v4`) in its hyphenated text
/// (`Display`, which writes the hyphenated lower-case form). Its digits are
/// random; only the shape of the text is stated.
#[verifier::external_body]
pub(crate) fn new_uuid() -> (r: String)
    ensures
        is_v4_uuid_text(r@),
{
    uuid::Uuid::new_v4().to_string()
}

pub open spec fn opt_view(o: Option<String>) -> Option<Seq<char>> {
    match o {
        Some(s) => Some(s@),
        None => None,
    }
}

/// Every override of the profile is unset.
pub open spec fn no_overrides(p: Profile) -> bool {
    &&& p.preset_id is None
    &&& p.transcription_engine is None
    &&& p.transcription_model is None
    &&& p.transcription_language is None
    &&& p.diarization_enabled is None
    &&& p.sentiment_enabled is None
    &&& p.echo_suppression_enabled is None
    &&& p.llm_provider is None
    &&& p.llm_model is None
    &&& p.shortcut_set_id is None
}

impl Default for Profile {
    /// A profile with a fresh random id and no overrides.
    fn default() -> (r: Self)
        ensures
            is_v4_uuid_text(r.id@),
            r.name@ == "Default"@,
            r.description@ == "Standard profile"@,
            no_overrides(r),
    {
        Profile {
            id: new_uuid(),
            name: "Default".to_owned(),
            description: "Standard profile".to_owned(),
            preset_id: None,
            transcription_engine: None,
            transcription_model: None,
            transcription_language: None,
            diarization_enabled: None,
            sentiment_enabled: None,
            echo_suppression_enabled: None,
            llm_provider: None,
            llm_model: None,
            shortcut_set_id: None,
        }
    }
}

/// The profile shipped with the app at position `i` of [`builtin_profiles`].
pub open spec fn is_builtin_profile(p: Profile, i: int) -> bool {
    &&& p.transcription_engine is None
    &&& p.transcription_language is None
    &&& p.llm_provider is None
    &&& p.llm_model is None
    &&& p.shortcut_set_id is None
    &&& if i == 0 {
        &&& p.id@ == "meeting"@ && p.name@ == "Meeting"@
        &&& p.description@ == "Optimized for video calls"@
        &&& opt_view(p.preset_id) == Some("meeting"@)
        &&& opt_view(p.transcription_model) == Some("medium"@)
        &&& p.diarization_enabled == Some(true)
        &&& p.sentiment_enabled == Some(true)
        &&& p.echo_suppression_enabled is None
    } else if i == 1 {
        &&& p.id@ == "podcast"@ && p.name@ == "Podcast"@
        &&& p.description@ == "High-quality recording focus"@
        &&& opt_view(p.preset_id) == Some("podcast"@)
        &&& opt_view(p.transcription_model) == Some("large-v3"@)
        &&& p.diarization_enabled == Some(true)
        &&& p.sentiment_enabled is None
        &&& p.echo_suppression_enabled is None
    } else {
        &&& p.id@ == "minimal"@ && p.name@ == "Minimal"@
        &&& p.description@ == "Low resource usage"@
        &&& opt_view(p.preset_id) == Some("minimal"@)
        &&& opt_view(p.transcription_model) == Some("tiny"@)
        &&& p.diarization_enabled == Some(false)
        &&& p.sentiment_enabled is None
        &&& p.echo_suppression_enabled == Some(false)
    }
}

/// The profiles that ship with the app.
pub fn builtin_profiles() -> (r: Vec<Profile>)
    ensures
        r@.len() == 3,
        forall|i: int| 0 <= i < 3 ==> is_builtin_profile(#[trigger] r@[i], i),
{
    let mut r = Vec::new();
    r.push(
        Profile {
            id: "meeting".to_owned(),
            name: "Meeting".to_owned(),
            description: "Optimized for video calls".to_owned(),
            preset_id: Some("meeting".to_owned()),
            transcription_model: Some("medium".to_owned()),
            diarization_enabled: Some(true),
            sentiment_enabled: Some(true),
            ..Default::default()
        },
    );
    r.push(
        Profile {
            id: "podcast".to_owned(),
            name: "Podcast".to_owned(),
            description: "High-quality recording focus".to_owned(),
            preset_id: Some("podcast".to_owned()),
            transcription_model: Some("large-v3".to_owned()),
            diarization_enabled: Some(true),
            ..Default::default()
        },
    );
    r.push(
        Profile {
            id: "minimal".to_owned(),
            name: "Minimal".to_owned(),
            description: "Low resource usage".to_owned(),
            preset_id: Some("minimal".to_owned()),
            transcription_model: Some("tiny".to_owned()),
            diarization_enabled: Some(false),
            echo_suppression_enabled: Some(false),
            ..Default::default()
        },
    );
    r
}

/// Profiles by id, and which one is active.
#[derive(Debug, Clone)]
pub struct ProfileStore {
    pub profiles: Vec<Profile>,
    pub active_profile_id: Option<String>,
}

impl ProfileStore {
    /// No two profiles share an id.
    pub open spec fn wf(&self) -> bool {
        forall|i: int, j: int|
            0 <= i < j < self.profiles@.len() ==> self.profiles@[i].id@ != self.profiles@[j].id@
    }

    /// The store of a first run: the built-in profiles, none active.
    pub fn with_builtins() -> (r: Self)
        ensures
            r.wf(),
            r.profiles@.len() == 3,
            forall|i: int| 0 <= i < 3 ==> is_builtin_profile(#[trigger] r.profiles@[i], i),
            r.active_profile_id is None,
    {
        let profiles = builtin_profiles();
        proof {
            reveal_strlit("meeting");
            reveal_strlit("podcast");
            reveal_strlit("minimal");
            assert("meeting"@[0] != "podcast"@[0]);
            assert("podcast"@[0] != "minimal"@[0]);
            assert("meeting"@[1] != "minimal"@[1]);
        }
        assert(is_builtin_profile(profiles@[0], 0));
        assert(is_builtin_profile(profiles@[1], 1));
        assert(is_builtin_profile(profiles@[2], 2));
        ProfileStore { profiles, active_profile_id: None }
    }

    /// Make `profile_id` the active profile and return it; `None`, with
    /// nothing changed, when there is no such profile.
    pub fn activate(&mut self, profile_id: &str) -> (r: Option<&Profile>)
        requires
            old(self).wf(),
        ensures
            final(self).profiles == old(self).profiles,
            (exists|i: int|
                0 <= i < old(self).profiles@.len() && old(self).profiles@[i].id@ == profile_id@)
                <==> r is Some,
            r matches Some(p) ==> p.id@ == profile_id@ && old(self).profiles@.contains(*p)
                && opt_view(final(self).active_profile_id) == Some(profile_id@),
            r is None ==> final(self).active_profile_id == old(self).active_profile_id,
    {
        let mut i: usize = 0;
        while i < self.profiles.len()
            invariant
                i <= self.profiles@.len(),
                self.profiles == old(self).profiles,
                self.active_profile_id == old(self).active_profile_id,
                forall|k: int| 0 <= k < i ==> self.profiles@[k].id@ != profile_id@,
            decreases self.profiles@.len() - i,
        {
            if str_eq(self.profiles[i].id.as_str(), profile_id) {
                self.active_profile_id = Some(profile_id.to_owned());
                return Some(&self.profiles[i]);
            }
            i += 1;
        }
        None
    }
}

} // verus!
