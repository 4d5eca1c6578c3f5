//! Core of a floating meeting transcriber and translator: the timeline, the
//! meeting files, the session state machine and the text they are made of.

pub mod text;
pub mod text_laws;
pub mod timeline;
pub mod timeline_laws;
pub mod lang;
pub mod lang_laws;
pub mod error;
pub mod fbank;
pub mod path;
pub mod text_map;
pub mod store;
pub mod store_laws;
pub mod config;
pub mod config_laws;
pub mod split;
pub mod split_laws;
pub mod gemini;
pub mod labels;
pub mod session;
pub mod session_laws;
pub mod readout;
pub mod diarization;
pub mod diarization_laws;
pub mod audio;
pub mod diarize;
pub mod diarize_laws;
pub mod order;
pub mod models;
pub mod commands;
pub mod commands_laws;
