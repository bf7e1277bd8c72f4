//! User settings and the choices offered by the status menu.
use std::path::PathBuf;
use vstd::prelude::*;

verus! {

/// A capture device, by identifier and display name.
#[derive(Debug, Clone)]
pub struct AudioDevice {
    pub id: String,
    pub name: String,
}

/// A choice made in the status menu.
#[derive(Debug, Clone)]
pub enum TrayAction {
    Quit,
    /// Use this microphone; `None` means the system default.
    SelectMic(Option<String>),
    ToggleRecording,
}

/// A watched input directory and where its transcripts and processed files go.
#[derive(Debug, Clone)]
pub struct WatchPair {
    pub input_dir: PathBuf,
    pub output_dir: PathBuf,
    pub processed_dir: PathBuf,
}

/// The directories watched for files to transcribe.
#[derive(Debug, Clone)]
pub struct AutoTranscribeConfig {
    pub watches: Vec<WatchPair>,
}

/// The persistent settings.
#[derive(Debug, Clone)]
pub struct Config {
    pub selected_mic: Option<String>,
    pub model: String,
    pub recordings_dir: PathBuf,
    pub vocabulary: Vec<String>,
    pub auto_transcribe: Option<AutoTranscribeConfig>,
}

/// The model used when none is configured.
pub const DEFAULT_MODEL: &'static str = "small";

/// Where recordings go when nothing else is configured.
pub const DEFAULT_RECORDINGS_DIR: &'static str = ".recordings";

/// Where model files are kept.
pub const DEFAULT_MODELS_DIR: &'static str = ".models";

/// Relies on `PathBuf::from` for a `&str`.
#[verifier::external_body]
fn path_from(s: &str) -> (r: PathBuf) {
    PathBuf::from(s)
}

/// The directory that model files are downloaded to.
pub fn default_models_dir() -> PathBuf {
    path_from(DEFAULT_MODELS_DIR)
}

impl Default for Config {
    fn default() -> (r: Self)
        ensures
            r.selected_mic is None,
            r.model@ == DEFAULT_MODEL@,
            r.vocabulary@.len() == 0,
            r.auto_transcribe is None,
    {
        Config {
            selected_mic: None,
            model: DEFAULT_MODEL.to_owned(),
            recordings_dir: path_from(DEFAULT_RECORDINGS_DIR),
            vocabulary: Vec::new(),
            auto_transcribe: None,
        }
    }
}

} // verus!
