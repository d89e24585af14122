//! Error kinds and their messages.

use vstd::prelude::*;

verus! {

/// Errors of the library, by the part of the app they come from.
#[derive(Debug, Clone)]
pub enum GravaiError {
    Audio(String),
    Transcription(String),
    Storage(String),
    Config(String),
    Model(String),
    Permission(String),
    Provider(String),
    Session(String),
    NotFound(String),
    Internal(String),
}

/// The message shown for an error: its kind, a colon, and its detail.
pub open spec fn error_message(e: GravaiError) -> Seq<char> {
    match e {
        GravaiError::Audio(m) => "Audio error: "@ + m@,
        GravaiError::Transcription(m) => "Transcription error: "@ + m@,
        GravaiError::Storage(m) => "Storage error: "@ + m@,
        GravaiError::Config(m) => "Config error: "@ + m@,
        GravaiError::Model(m) => "Model error: "@ + m@,
        GravaiError::Permission(m) => "Permission error: "@ + m@,
        GravaiError::Provider(m) => "Provider error: "@ + m@,
        GravaiError::Session(m) => "Session error: "@ + m@,
        GravaiError::NotFound(m) => "Not found: "@ + m@,
        GravaiError::Internal(m) => "Internal error: "@ + m@,
    }
}

fn prefixed(prefix: &str, m: &String) -> (r: String)
    ensures
        r@ == prefix@ + m@,
{
    let mut r = prefix.to_owned();
    r.append(m.as_str());
    r
}

impl GravaiError {
    /// The message of the error (what `Display` prints).
    pub fn to_string(&self) -> (r: String)
        ensures
            r@ == error_message(*self),
    {
        match self {
            GravaiError::Audio(m) => prefixed("Audio error: ", m),
            GravaiError::Transcription(m) => prefixed("Transcription error: ", m),
            GravaiError::Storage(m) => prefixed("Storage error: ", m),
            GravaiError::Config(m) => prefixed("Config error: ", m),
            GravaiError::Model(m) => prefixed("Model error: ", m),
            GravaiError::Permission(m) => prefixed("Permission error: ", m),
            GravaiError::Provider(m) => prefixed("Provider error: ", m),
            GravaiError::Session(m) => prefixed("Session error: ", m),
            GravaiError::NotFound(m) => prefixed("Not found: ", m),
            GravaiError::Internal(m) => prefixed("Internal error: ", m),
        }
    }
}

} // verus!
