//! Meeting assistant core: configuration, automations, transcript processing,
//! meeting detection and export logic.

pub mod text;
pub mod summarization;
pub mod correction;
pub mod config;
pub mod automations;
pub mod profiles;
pub mod shortcuts;
pub mod session;
pub mod error;
pub mod encoder;
pub mod detector;
pub mod calendar;
pub mod calendar_store;
pub mod transcription;
pub mod diarization;
pub mod segmentation;
pub mod emotions;
pub mod embeddings;
pub mod local_engine;
pub mod chat;
pub mod audio;
pub mod capture;
pub mod health;
pub mod logs;
pub mod export;
pub mod storage;
pub mod presets;
pub mod pipeline;
pub mod models;
pub mod json;
pub mod vad;
pub mod load_progress;
pub mod prompts;
pub mod markdown_laws;
pub mod correction_laws;
