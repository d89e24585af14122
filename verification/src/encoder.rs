//! Audio export formats.

use vstd::prelude::*;

use crate::text::{decimal, push_decimal, str_eq, contains, contains_chars, to_chars};

verus! {

/// Supported export formats.
#[derive(Debug, Clone, Copy, PartialEq, Eq, Structural)]
pub enum ExportFormat {
    Wav,
    Aiff,
    Caf,
    M4aAac,
    M4aAlac,
}

/// The format a config string names; anything unknown is WAV.
pub open spec fn format_named(s: Seq<char>) -> ExportFormat {
    if s == "aiff"@ {
        ExportFormat::Aiff
    } else if s == "caf"@ {
        ExportFormat::Caf
    } else if s == "m4a-aac"@ {
        ExportFormat::M4aAac
    } else if s == "m4a-alac"@ {
        ExportFormat::M4aAlac
    } else {
        ExportFormat::Wav
    }
}

pub open spec fn extension_of(f: ExportFormat) -> Seq<char> {
    match f {
        ExportFormat::Wav => "wav"@,
        ExportFormat::Aiff => "aiff"@,
        ExportFormat::Caf => "caf"@,
        ExportFormat::M4aAac | ExportFormat::M4aAlac => "m4a"@,
    }
}

impl ExportFormat {
    /// The format a config string names; anything unknown is WAV.
    pub fn parse(s: &str) -> (r: Self)
        ensures
            r == format_named(s@),
    {
        if str_eq(s, "aiff") {
            ExportFormat::Aiff
        } else if str_eq(s, "caf") {
            ExportFormat::Caf
        } else if str_eq(s, "m4a-aac") {
            ExportFormat::M4aAac
        } else if str_eq(s, "m4a-alac") {
            ExportFormat::M4aAlac
        } else {
            ExportFormat::Wav
        }
    }

    /// File extension of the format.
    pub fn extension(&self) -> (r: &'static str)
        ensures
            r@ == extension_of(*self),
    {
        match self {
            ExportFormat::Wav => "wav",
            ExportFormat::Aiff => "aiff",
            ExportFormat::Caf => "caf",
            ExportFormat::M4aAac | ExportFormat::M4aAlac => "m4a",
        }
    }
}

/// The name by which the settings choose a format.
pub open spec fn config_name_of(f: ExportFormat) -> Seq<char> {
    match f {
        ExportFormat::Wav => "wav"@,
        ExportFormat::Aiff => "aiff"@,
        ExportFormat::Caf => "caf"@,
        ExportFormat::M4aAac => "m4a-aac"@,
        ExportFormat::M4aAlac => "m4a-alac"@,
    }
}

/// Every format is parsed back from its settings name.
pub proof fn lemma_parse_config_name(f: ExportFormat)
    ensures
        format_named(config_name_of(f)) == f,
{
    reveal_strlit("wav");
    reveal_strlit("aiff");
    reveal_strlit("caf");
    reveal_strlit("m4a-aac");
    reveal_strlit("m4a-alac");
    let n = config_name_of(f);
    assert(n.len() == 4 ==> n != "wav"@ && n != "caf"@);
    assert("wav"@[0] != "aiff"@[0] && "wav"@[0] != "caf"@[0] && "wav"@[0] != "m4a-aac"@[0]);
    assert("caf"@[0] != "aiff"@[0]);
    assert("m4a-alac"@.len() != "m4a-aac"@.len());
    assert("m4a-aac"@.len() != "aiff"@.len() && "m4a-aac"@.len() != "caf"@.len());
    assert("m4a-alac"@.len() != "aiff"@.len() && "m4a-alac"@.len() != "caf"@.len());
}

/// Data format and file format that `afconvert` is given for a format.
pub open spec fn afconvert_formats_of(f: ExportFormat) -> (Seq<char>, Seq<char>) {
    match f {
        ExportFormat::Aiff => ("BEI24"@, "AIFF"@),
        ExportFormat::Caf => ("lpcm"@, "caff"@),
        ExportFormat::M4aAac => ("aac"@, "m4af"@),
        ExportFormat::M4aAlac => ("alac"@, "m4af"@),
        ExportFormat::Wav => ("LEI24"@, "WAVE"@),
    }
}

fn afconvert_formats(f: ExportFormat) -> (r: (&'static str, &'static str))
    ensures
        (r.0@, r.1@) == afconvert_formats_of(f),
{
    match f {
        ExportFormat::Aiff => ("BEI24", "AIFF"),
        ExportFormat::Caf => ("lpcm", "caff"),
        ExportFormat::M4aAac => ("aac", "m4af"),
        ExportFormat::M4aAlac => ("alac", "m4af"),
        ExportFormat::Wav => ("LEI24", "WAVE"),
    }
}

/// The arguments of the `afconvert` run that converts `source` into
/// `output`: data and file format, and for AAC a bit rate in bits per
/// second when one is set.
pub open spec fn afconvert_args_of(source: Seq<char>, output: Seq<char>, f: ExportFormat, aac_bitrate_kbps: nat) -> Seq<Seq<char>> {
    let base = seq![
        source,
        output,
        "-d"@,
        afconvert_formats_of(f).0,
        "-f"@,
        afconvert_formats_of(f).1,
    ];
    if f == ExportFormat::M4aAac && aac_bitrate_kbps > 0 {
        base + seq!["-b"@, decimal(aac_bitrate_kbps * 1000)]
    } else {
        base
    }
}

fn owned(s: &str) -> (r: String)
    ensures
        r@ == s@,
{
    s.to_owned()
}

pub fn afconvert_args(source: &str, output: &str, format: ExportFormat, aac_bitrate_kbps: u32) -> (r: Vec<String>)
    requires
        aac_bitrate_kbps * 1000 <= u32::MAX,
    ensures
        crate::text::views(r@) == afconvert_args_of(source@, output@, format, aac_bitrate_kbps as nat),
{
    let (df, ff) = afconvert_formats(format);
    let mut r: Vec<String> = Vec::new();
    r.push(owned(source));
    r.push(owned(output));
    r.push(owned("-d"));
    r.push(owned(df));
    r.push(owned("-f"));
    r.push(owned(ff));
    if format == ExportFormat::M4aAac && aac_bitrate_kbps > 0 {
        r.push(owned("-b"));
        let mut b = String::new();
        push_decimal(&mut b, (aac_bitrate_kbps * 1000) as u64);
        r.push(b);
    }
    assert(crate::text::views(r@) =~= afconvert_args_of(source@, output@, format, aac_bitrate_kbps as nat));
    r
}

/// How an export to a format is made: WAV is copied, every other format
/// is converted by `afconvert`, which only macOS has.
#[derive(Debug, Clone, PartialEq, Eq, Structural)]
pub enum ExportMethod {
    Copy,
    Convert,
    Unsupported,
}

pub open spec fn export_method_of(f: ExportFormat, has_afconvert: bool) -> ExportMethod {
    if f == ExportFormat::Wav {
        ExportMethod::Copy
    } else if has_afconvert {
        ExportMethod::Convert
    } else {
        ExportMethod::Unsupported
    }
}

/// How to export to `format` on a system that has `afconvert` or not.
pub fn export_method(format: ExportFormat, has_afconvert: bool) -> (r: ExportMethod)
    ensures
        r == export_method_of(format, has_afconvert),
{
    if format == ExportFormat::Wav {
        ExportMethod::Copy
    } else if has_afconvert {
        ExportMethod::Convert
    } else {
        ExportMethod::Unsupported
    }
}

/// The formats offered, by settings name and label: WAV always, and the
/// others when `afconvert` is there.
pub open spec fn available_formats_of(has_afconvert: bool) -> Seq<(Seq<char>, Seq<char>)> {
    if has_afconvert {
        seq![
            ("wav"@, "WAV (PCM)"@),
            ("aiff"@, "AIFF"@),
            ("caf"@, "CAF"@),
            ("m4a-aac"@, "M4A (AAC)"@),
            ("m4a-alac"@, "M4A (ALAC)"@),
        ]
    } else {
        seq![("wav"@, "WAV (PCM)"@)]
    }
}

pub fn available_formats(has_afconvert: bool) -> (r: Vec<(&'static str, &'static str)>)
    ensures
        r@.map_values(|p: (&'static str, &'static str)| (p.0@, p.1@)) == available_formats_of(has_afconvert),
{
    let mut r: Vec<(&'static str, &'static str)> = Vec::new();
    r.push(("wav", "WAV (PCM)"));
    if has_afconvert {
        r.push(("aiff", "AIFF"));
        r.push(("caf", "CAF"));
        r.push(("m4a-aac", "M4A (AAC)"));
        r.push(("m4a-alac", "M4A (ALAC)"));
    }
    assert(r@.map_values(|p: (&'static str, &'static str)| (p.0@, p.1@)) =~= available_formats_of(has_afconvert));
    r
}

/// `char::eq_ignore_ascii_case` over whole strings.
pub open spec fn ascii_lower(c: char) -> char {
    if 'A' <= c && c <= 'Z' {
        ((c as u32) + 32) as char
    } else {
        c
    }
}

pub open spec fn eq_ignore_ascii_case(a: Seq<char>, b: Seq<char>) -> bool {
    a.len() == b.len() && forall|i: int| 0 <= i < a.len() ==> ascii_lower(#[trigger] a[i]) == ascii_lower(b[i])
}

/// Position of the last `.` of a file name, if any.
pub open spec fn last_dot(name: Seq<char>, k: int) -> Option<int>
    decreases k,
{
    if k <= 0 {
        None
    } else if name[k - 1] == '.' {
        Some(k - 1)
    } else {
        last_dot(name, k - 1)
    }
}

/// `Path::extension` of a file name: what follows its last `.`, unless
/// that `.` is the name's first character.
pub open spec fn extension_in(name: Seq<char>) -> Option<Seq<char>> {
    match last_dot(name, name.len() as int) {
        Some(p) => if p > 0 {
            Some(name.subrange(p + 1, name.len() as int))
        } else {
            None
        },
        None => None,
    }
}

/// A recording track of a session: a `.wav` file (any case) whose name does
/// not mention "trimmed".
pub open spec fn is_track_file_name(name: Seq<char>) -> bool {
    (extension_in(name) matches Some(e) && eq_ignore_ascii_case(e, "wav"@)) && !contains(
        name,
        "trimmed"@,
    )
}

fn lower_ascii(c: char) -> (r: char)
    ensures
        r == ascii_lower(c),
{
    if 'A' <= c && c <= 'Z' {
        ((c as u8) + 32) as char
    } else {
        c
    }
}

fn same_ignoring_ascii_case(a: &[char], b: &[char]) -> (r: bool)
    ensures
        r == eq_ignore_ascii_case(a@, b@),
{
    if a.len() != b.len() {
        return false;
    }
    let mut i: usize = 0;
    while i < a.len()
        invariant
            i <= a@.len() == b@.len(),
            forall|q: int| 0 <= q < i ==> ascii_lower(#[trigger] a@[q]) == ascii_lower(b@[q]),
        decreases a@.len() - i,
    {
        if lower_ascii(a[i]) != lower_ascii(b[i]) {
            return false;
        }
        i += 1;
    }
    true
}

/// Whether the file name `name` is a recording track of a session.
pub fn is_track_file(name: &str) -> (r: bool)
    ensures
        r == is_track_file_name(name@),
{
    let v = to_chars(name);
    let mut k = v.len();
    while k > 0 && v[k - 1] != '.'
        invariant
            k <= v@.len(),
            v@ == name@,
            last_dot(v@, v@.len() as int) == last_dot(v@, k as int),
        decreases k,
    {
        k -= 1;
    }
    if k <= 1 {
        return false;
    }
    let p = k - 1;
    let ext = crate::text::chars_of(v.as_slice(), p + 1, v.len());
    let wav = to_chars("wav");
    if !same_ignoring_ascii_case(ext.as_slice(), wav.as_slice()) {
        return false;
    }
    !contains_chars(v.as_slice(), to_chars("trimmed").as_slice())
}

/// What merging a session's tracks takes: nothing to merge is an error,
/// one track is exported as it is, several are mixed first.
#[derive(Debug, Clone, PartialEq, Eq, Structural)]
pub enum MergePlan {
    ExportSingle,
    MixTracks,
}

pub open spec fn merge_plan_of(track_count: nat) -> Result<MergePlan, Seq<char>> {
    if track_count == 0 {
        Err("No WAV files found in session"@)
    } else if track_count == 1 {
        Ok(MergePlan::ExportSingle)
    } else {
        Ok(MergePlan::MixTracks)
    }
}

pub fn merge_plan(track_count: usize) -> (r: Result<MergePlan, String>)
    ensures
        match r {
            Ok(p) => merge_plan_of(track_count as nat) == Ok::<MergePlan, Seq<char>>(p),
            Err(m) => merge_plan_of(track_count as nat) == Err::<MergePlan, Seq<char>>(m@),
        },
{
    if track_count == 0 {
        Err("No WAV files found in session".to_owned())
    } else if track_count == 1 {
        Ok(MergePlan::ExportSingle)
    } else {
        Ok(MergePlan::MixTracks)
    }
}

/// Sample rate and channel count of a mix: the highest of the tracks'.
pub fn mix_format(tracks: &[(u32, u16)]) -> (r: (u32, u16))
    ensures
        forall|i: int| 0 <= i < tracks@.len() ==> tracks@[i].0 <= r.0 && tracks@[i].1 <= r.1,
        r.0 == 0 || exists|i: int| 0 <= i < tracks@.len() && tracks@[i].0 == r.0,
        r.1 == 0 || exists|i: int| 0 <= i < tracks@.len() && tracks@[i].1 == r.1,
{
    let mut rate: u32 = 0;
    let mut channels: u16 = 0;
    let mut i: usize = 0;
    while i < tracks.len()
        invariant
            i <= tracks@.len(),
            forall|k: int| 0 <= k < i ==> tracks@[k].0 <= rate && tracks@[k].1 <= channels,
            rate == 0 || exists|k: int| 0 <= k < i && tracks@[k].0 == rate,
            channels == 0 || exists|k: int| 0 <= k < i && tracks@[k].1 == channels,
        decreases tracks@.len() - i,
    {
        if tracks[i].0 > rate {
            rate = tracks[i].0;
        }
        if tracks[i].1 > channels {
            channels = tracks[i].1;
        }
        i += 1;
    }
    (rate, channels)
}

} // verus!
