//! Transcription support: the hallucination filter applied to what the
//! speech model returns, the checks on a model file before it is loaded,
//! and the settings of the HTTP provider.

use vstd::prelude::*;

use crate::config::TranscriptionConfig;
use crate::error::GravaiError;
use crate::text::{
    contains_str, decimal, lemma_views_push, lowercase, push_decimal, string_of, to_chars,
    to_lowercase, trim, trim_bounds, trimmed, views,
};

verus! {

/// `char::is_ascii_punctuation`.
pub open spec fn is_ascii_punct(c: char) -> bool {
    ||| ('!' <= c && c <= '/')
    ||| (':' <= c && c <= '@')
    ||| ('[' <= c && c <= '`')
    ||| ('{' <= c && c <= '~')
}

fn ascii_punct(c: char) -> (r: bool)
    ensures
        r == is_ascii_punct(c),
{
    ('!' <= c && c <= '/') || (':' <= c && c <= '@') || ('[' <= c && c <= '`') || ('{' <= c && c
        <= '~')
}

/// Number of leading ASCII punctuation characters.
pub open spec fn lead_punct(s: Seq<char>) -> nat
    decreases s.len(),
{
    if s.len() > 0 && is_ascii_punct(s[0]) {
        1 + lead_punct(s.drop_first())
    } else {
        0
    }
}

/// Number of trailing ASCII punctuation characters.
pub open spec fn trail_punct(s: Seq<char>) -> nat
    decreases s.len(),
{
    if s.len() > 0 && is_ascii_punct(s.last()) {
        1 + trail_punct(s.drop_last())
    } else {
        0
    }
}

/// `trim_matches(char::is_ascii_punctuation)`.
pub open spec fn trim_punct(s: Seq<char>) -> Seq<char> {
    let t = s.subrange(lead_punct(s) as int, s.len() as int);
    t.subrange(0, t.len() - trail_punct(t))
}

/// Text as the hallucination lists compare it: lowercased, trimmed, and
/// with ASCII punctuation removed from both ends.
pub open spec fn normalized(text: Seq<char>) -> Seq<char> {
    trim_punct(trim(lowercase(text)))
}

proof fn lemma_lead_punct_bound(s: Seq<char>)
    ensures
        lead_punct(s) <= s.len(),
    decreases s.len(),
{
    if s.len() > 0 && is_ascii_punct(s[0]) {
        lemma_lead_punct_bound(s.drop_first());
    }
}

proof fn lemma_trail_punct_bound(s: Seq<char>)
    ensures
        trail_punct(s) <= s.len(),
    decreases s.len(),
{
    if s.len() > 0 && is_ascii_punct(s.last()) {
        lemma_trail_punct_bound(s.drop_last());
    }
}

/// Lowercases, trims, and strips ASCII punctuation from both ends.
pub fn normalize_text(text: &str) -> (r: String)
    ensures
        r@ == normalized(text@),
{
    let lower = to_lowercase(text);
    let v = to_chars(lower.as_str());
    let (lo, hi) = trim_bounds(v.as_slice(), 0, v.len());
    assert(v@.subrange(0, v@.len() as int) =~= v@);
    let ghost s = v@.subrange(lo as int, hi as int);
    let mut a = lo;
    while a < hi && ascii_punct(v[a])
        invariant
            lo <= a <= hi <= v@.len(),
            s == v@.subrange(lo as int, hi as int),
            lead_punct(s) == (a - lo) + lead_punct(v@.subrange(a as int, hi as int)),
        decreases hi - a,
    {
        assert(v@.subrange(a as int, hi as int).drop_first() =~= v@.subrange(a + 1, hi as int));
        a += 1;
    }
    assert(lead_punct(v@.subrange(a as int, hi as int)) == 0);
    let ghost t = s.subrange(lead_punct(s) as int, s.len() as int);
    assert(t =~= v@.subrange(a as int, hi as int));
    let mut b = hi;
    while b > a && ascii_punct(v[b - 1])
        invariant
            lo <= a <= b <= hi <= v@.len(),
            t == v@.subrange(a as int, hi as int),
            trail_punct(t) == (hi - b) + trail_punct(v@.subrange(a as int, b as int)),
        decreases b - a,
    {
        assert(v@.subrange(a as int, b as int).drop_last() =~= v@.subrange(a as int, b - 1));
        b -= 1;
    }
    assert(trail_punct(v@.subrange(a as int, b as int)) == 0);
    assert(trim_punct(s) =~= v@.subrange(a as int, b as int));
    string_of(v.as_slice(), a, b)
}

/// The lowercased texts of a list of strings.
pub open spec fn lowered(v: Seq<String>) -> Seq<Seq<char>> {
    views(v).map_values(|s: Seq<char>| lowercase(s))
}

fn lowercase_all(v: &Vec<String>) -> (r: Vec<String>)
    ensures
        views(r@) == lowered(v@),
{
    let mut r: Vec<String> = Vec::new();
    let mut k: usize = 0;
    while k < v.len()
        invariant
            k <= v@.len(),
            views(r@) == lowered(v@).subrange(0, k as int),
        decreases v@.len() - k,
    {
        let x = to_lowercase(v[k].as_str());
        proof {
            lemma_views_push(r@, x);
        }
        r.push(x);
        assert(views(r@) =~= lowered(v@).subrange(0, k + 1));
        k += 1;
    }
    assert(lowered(v@).subrange(0, k as int) =~= lowered(v@));
    r
}

/// The lists of phrases the speech model produces on silence or noise.
#[derive(Debug, Clone)]
pub struct HallucinationFilter {
    blocklist: Vec<String>,
    repeat_blocklist: Vec<String>,
}

impl HallucinationFilter {
    /// Phrases dropped wherever they come, lowercased.
    pub closed spec fn blocked(&self) -> Seq<Seq<char>> {
        views(self.blocklist@)
    }

    /// Phrases dropped when they repeat, lowercased.
    pub closed spec fn repeat_blocked(&self) -> Seq<Seq<char>> {
        views(self.repeat_blocklist@)
    }

    /// The filter of a transcription configuration, its lists lowercased.
    pub fn new(config: &TranscriptionConfig) -> (r: Self)
        ensures
            r.blocked() == lowered(config.hallucination_blocklist@),
            r.repeat_blocked() == lowered(config.hallucination_repeat_blocklist@),
    {
        HallucinationFilter {
            blocklist: lowercase_all(&config.hallucination_blocklist),
            repeat_blocklist: lowercase_all(&config.hallucination_repeat_blocklist),
        }
    }

    /// Whether `text`, normalized, is on the blocklist.
    pub fn is_hallucination(&self, text: &str) -> (r: bool)
        ensures
            r == self.blocked().contains(normalized(text@)),
    {
        let t = normalize_text(text);
        contains_str(&self.blocklist, t.as_str())
    }

    /// Whether `text`, normalized, is on the repeat blocklist.
    pub fn is_repeat_hallucination(&self, text: &str) -> (r: bool)
        ensures
            r == self.repeat_blocked().contains(normalized(text@)),
    {
        let t = normalize_text(text);
        contains_str(&self.repeat_blocklist, t.as_str())
    }

    /// The text of a segment the model returned: trimmed, and dropped when
    /// it is empty or a hallucination.
    pub fn accept(&self, raw: &str) -> (r: Option<String>)
        ensures
            match r {
                Some(t) => t@ == trim(raw@) && trim(raw@).len() > 0 && !self.blocked().contains(
                    normalized(trim(raw@)),
                ),
                None => trim(raw@).len() == 0 || self.blocked().contains(normalized(trim(raw@))),
            },
    {
        let t = trimmed(raw);
        if t.as_str().is_empty() {
            return None;
        }
        if self.is_hallucination(t.as_str()) {
            return None;
        }
        Some(t)
    }
}

/// File name of a Whisper model in the models directory.
pub open spec fn whisper_model_file_name(model: Seq<char>) -> Seq<char> {
    "ggml-"@ + model + ".bin"@
}

/// `ggml-{model}.bin`.
pub fn whisper_model_file(model: &str) -> (r: String)
    ensures
        r@ == whisper_model_file_name(model@),
{
    let mut r = "ggml-".to_owned();
    r.append(model);
    r.append(".bin");
    r
}

/// Smallest size in bytes of a model file that is not a broken download.
pub const MIN_MODEL_BYTES: u64 = 1_000_000;

pub open spec fn missing_model_message(model: Seq<char>) -> Seq<char> {
    "Whisper '"@ + model + "' model not found. Go to Settings → Models to download it."@
}

pub open spec fn corrupted_model_message(model: Seq<char>, size: nat) -> Seq<char> {
    "Whisper '"@ + model + "' model appears corrupted ("@ + decimal(size)
        + " bytes). Delete it in Settings → Models and re-download."@
}

/// Checks a Whisper model file before it is loaded: it must exist and be
/// at least [`MIN_MODEL_BYTES`] long.
pub fn check_whisper_model(model: &str, exists: bool, file_size: u64) -> (r: Result<(), GravaiError>)
    ensures
        !exists ==> (r matches Err(GravaiError::Model(m)) && m@ == missing_model_message(model@)),
        exists && file_size < MIN_MODEL_BYTES ==> (r matches Err(GravaiError::Model(m)) && m@
            == corrupted_model_message(model@, file_size as nat)),
        exists && file_size >= MIN_MODEL_BYTES ==> r is Ok,
{
    if !exists {
        let mut m = "Whisper '".to_owned();
        m.append(model);
        m.append("' model not found. Go to Settings → Models to download it.");
        return Err(GravaiError::Model(m));
    }
    if file_size < MIN_MODEL_BYTES {
        let mut m = "Whisper '".to_owned();
        m.append(model);
        m.append("' model appears corrupted (");
        push_decimal(&mut m, file_size);
        m.append(" bytes). Delete it in Settings → Models and re-download.");
        return Err(GravaiError::Model(m));
    }
    Ok(())
}

/// Settings of an external HTTP transcription endpoint.
#[derive(Debug, Clone)]
pub struct HttpTranscriptionConfig {
    /// Base URL of the transcription service.
    pub base_url: String,
    /// API key, when the service needs one.
    pub api_key: Option<String>,
    /// Model to request, in the service's own terms.
    pub model: Option<String>,
    /// Language hint.
    pub language: Option<String>,
    /// Request timeout in seconds.
    pub timeout_seconds: u32,
}

impl Default for HttpTranscriptionConfig {
    fn default() -> (r: Self)
        ensures
            r.base_url@ == "http://localhost:9000"@,
            r.api_key is None,
            r.model is None,
            r.language matches Some(l) && l@ == "en"@,
            r.timeout_seconds == 30,
    {
        HttpTranscriptionConfig {
            base_url: "http://localhost:9000".to_owned(),
            api_key: None,
            model: None,
            language: Some("en".to_owned()),
            timeout_seconds: 30,
        }
    }
}

/// A transcription provider that sends audio to an HTTP endpoint; it does
/// not transcribe yet and answers every request with an error.
#[derive(Debug, Clone)]
pub struct HttpTranscriptionProvider {
    pub config: HttpTranscriptionConfig,
}

pub open spec fn http_unavailable_message() -> Seq<char> {
    "HTTP transcription provider not yet implemented. Configure 'whisper' engine in settings for on-device transcription."@
}

impl HttpTranscriptionProvider {
    pub fn new(config: HttpTranscriptionConfig) -> (r: Self)
        ensures
            r.config == config,
    {
        HttpTranscriptionProvider { config }
    }

    /// The provider's name in the settings.
    pub fn name(&self) -> (r: &'static str)
        ensures
            r@ == "http"@,
    {
        "http"
    }

    /// What a transcription request is answered: always the provider error.
    pub fn transcribe_error(&self) -> (r: GravaiError)
        ensures
            r matches GravaiError::Provider(m) && m@ == http_unavailable_message(),
    {
        GravaiError::Provider(
            "HTTP transcription provider not yet implemented. Configure 'whisper' engine in settings for on-device transcription.".to_owned(),
        )
    }
}

} // verus!
