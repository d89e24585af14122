//! Model files the app downloads: where they go and where they come from.

use vstd::prelude::*;

use crate::config::{in_data_dir, join_path, path_join};
use crate::text::{str_eq, views};
use crate::transcription::{whisper_model_file, whisper_model_file_name};

verus! {

/// `~/.gravai/models`, or `None` when the home directory is unknown.
pub fn models_dir() -> (r: Option<String>)
    ensures
        r matches Some(p) ==> in_data_dir(p@, "models"@),
{
    crate::config::models_dir()
}

/// A model file to fetch when it is missing.
#[derive(Debug, Clone)]
pub struct ModelDownload {
    /// Where the file goes.
    pub path: String,
    /// Where it is fetched from.
    pub url: String,
    /// What the progress display calls it.
    pub label: String,
}

pub open spec fn whisper_url(model: Seq<char>) -> Seq<char> {
    "https://huggingface.co/ggerganov/whisper.cpp/resolve/main/"@ + whisper_model_file_name(model)
}

pub open spec fn silero_url() -> Seq<char> {
    "https://github.com/snakers4/silero-vad/raw/master/src/silero_vad/data/silero_vad.onnx"@
}

/// The downloads the app needs: the Whisper model of the settings, and
/// the Silero voice detector when it is the configured engine.
pub open spec fn required_downloads_of(dir: Seq<char>, whisper_model: Seq<char>, vad_engine: Seq<char>) -> Seq<(Seq<char>, Seq<char>, Seq<char>)> {
    seq![
        (
            path_join(dir, whisper_model_file_name(whisper_model)),
            whisper_url(whisper_model),
            "Whisper "@ + whisper_model,
        ),
    ] + if vad_engine == "silero"@ {
        seq![(path_join(dir, "silero_vad.onnx"@), silero_url(), "Silero VAD"@)]
    } else {
        Seq::empty()
    }
}

pub open spec fn download_view(d: ModelDownload) -> (Seq<char>, Seq<char>, Seq<char>) {
    (d.path@, d.url@, d.label@)
}

/// The downloads needed in the models directory `dir` (see
/// [`required_downloads_of`]).
pub fn required_downloads(dir: &str, whisper_model: &str, vad_engine: &str) -> (r: Vec<ModelDownload>)
    ensures
        r@.map_values(|d: ModelDownload| download_view(d)) == required_downloads_of(
            dir@,
            whisper_model@,
            vad_engine@,
        ),
{
    let file = whisper_model_file(whisper_model);
    let mut url = "https://huggingface.co/ggerganov/whisper.cpp/resolve/main/".to_owned();
    url.append(file.as_str());
    let mut label = "Whisper ".to_owned();
    label.append(whisper_model);
    let mut r: Vec<ModelDownload> = Vec::new();
    r.push(ModelDownload { path: join_path(dir, file.as_str()), url, label });
    if str_eq(vad_engine, "silero") {
        r.push(
            ModelDownload {
                path: join_path(dir, "silero_vad.onnx"),
                url: "https://github.com/snakers4/silero-vad/raw/master/src/silero_vad/data/silero_vad.onnx".to_owned(),
                label: "Silero VAD".to_owned(),
            },
        );
    }
    assert(r@.map_values(|d: ModelDownload| download_view(d)) =~= required_downloads_of(
        dir@,
        whisper_model@,
        vad_engine@,
    ));
    r
}

} // verus!
