//! Transcription settings and export formats.

use vstd::prelude::*;
use crate::text::{lowercase_of, opt_text, owned, text_eq, to_lower};

verus! {

/// Settings for a speech-to-text model.
#[derive(Debug, Clone)]
pub struct WhisperConfig {
    /// Path of the model file.
    pub model_path: String,
    /// Language code; `None` detects it.
    pub language: Option<String>,
    /// Whether to translate into English.
    pub translate: bool,
    /// Worker threads.
    pub n_threads: i32,
    /// Whether to produce word-level timestamps.
    pub word_timestamps: bool,
    /// Longest segment in characters; 0 does not split.
    pub max_segment_len: usize,
}

/// The settings as plain values.
pub open spec fn config_model(c: WhisperConfig) -> (Seq<char>, Option<Seq<char>>, bool, i32, bool, usize) {
    (c.model_path@, opt_text(c.language), c.translate, c.n_threads, c.word_timestamps, c.max_segment_len)
}

/// The default settings with the model at `path`: English, no translation,
/// 4 threads, word timestamps, no splitting.
pub open spec fn default_config_at(path: Seq<char>) -> (Seq<char>, Option<Seq<char>>, bool, i32, bool, usize) {
    (path, Some("en"@), false, 4i32, true, 0usize)
}

impl WhisperConfig {
    /// The default settings with the model at `model_path`.
    pub fn with_model(model_path: &str) -> (r: WhisperConfig)
        ensures
            config_model(r) == default_config_at(model_path@),
    {
        WhisperConfig {
            model_path: owned(model_path),
            language: Some(owned("en")),
            translate: false,
            n_threads: 4,
            word_timestamps: true,
            max_segment_len: 0,
        }
    }

    /// The same settings, detecting the language.
    pub fn auto_detect_language(self) -> (r: WhisperConfig)
        ensures
            config_model(r) == (config_model(self).0, None::<Seq<char>>, config_model(self).2,
                config_model(self).3, config_model(self).4, config_model(self).5),
    {
        let mut c = self;
        c.language = None;
        c
    }

    /// The same settings with `n` threads.
    pub fn with_threads(self, n: i32) -> (r: WhisperConfig)
        ensures
            config_model(r) == (config_model(self).0, config_model(self).1, config_model(self).2,
                n, config_model(self).4, config_model(self).5),
    {
        let mut c = self;
        c.n_threads = n;
        c
    }
}

impl Default for WhisperConfig {
    fn default() -> (r: WhisperConfig)
        ensures
            config_model(r) == default_config_at("models/ggml-base.en.bin"@),
    {
        WhisperConfig::with_model("models/ggml-base.en.bin")
    }
}

/// Failures of the transcription model.
#[derive(Debug, Clone, PartialEq, Eq)]
pub enum WhisperError {
    /// No model file at the path.
    ModelNotFound(String),
    /// The model could not be loaded.
    LoadError(String),
    /// Transcription failed.
    TranscriptionError(String),
    /// The audio is not in a usable format.
    InvalidAudio(String),
}

/// A loaded transcription model.
#[derive(Debug, Clone)]
pub struct WhisperModel {
    config: WhisperConfig,
}

impl WhisperModel {
    /// The settings it was loaded with.
    pub closed spec fn cfg(&self) -> WhisperConfig {
        self.config
    }

    /// Loads the model that `config` names; `model_file_exists` says whether
    /// its file is present. A missing file is reported with its path.
    pub fn load(config: WhisperConfig, model_file_exists: bool) -> (r: Result<WhisperModel, WhisperError>)
        ensures
            model_file_exists ==> (r matches Ok(m) && config_model(m.cfg()) == config_model(
                config,
            )),
            !model_file_exists ==> (r matches Err(WhisperError::ModelNotFound(p)) && p@
                == config.model_path@),
    {
        if !model_file_exists {
            return Err(WhisperError::ModelNotFound(config.model_path.clone()));
        }
        Ok(WhisperModel { config })
    }

    /// The settings it was loaded with.
    pub fn config(&self) -> (r: &WhisperConfig)
        ensures
            *r == self.cfg(),
    {
        &self.config
    }
}

/// Transcript output formats.
#[derive(Debug, Clone, Copy, PartialEq, Eq, Structural)]
pub enum ExportFormat {
    Json,
    JsonPretty,
    Srt,
    Vtt,
    Text,
}

/// The format an already lower-cased name stands for.
pub open spec fn format_named(s: Seq<char>) -> Option<ExportFormat> {
    if s == "json"@ {
        Some(ExportFormat::Json)
    } else if s == "json-pretty"@ || s == "json_pretty"@ {
        Some(ExportFormat::JsonPretty)
    } else if s == "srt"@ {
        Some(ExportFormat::Srt)
    } else if s == "vtt"@ || s == "webvtt"@ {
        Some(ExportFormat::Vtt)
    } else if s == "txt"@ || s == "text"@ {
        Some(ExportFormat::Text)
    } else {
        None
    }
}

/// The format named by an already lower-cased `name`.
pub fn format_from_lowercase(name: &str) -> (r: Option<ExportFormat>)
    ensures
        r == format_named(name@),
{
    if text_eq(name, "json") {
        Some(ExportFormat::Json)
    } else if text_eq(name, "json-pretty") || text_eq(name, "json_pretty") {
        Some(ExportFormat::JsonPretty)
    } else if text_eq(name, "srt") {
        Some(ExportFormat::Srt)
    } else if text_eq(name, "vtt") || text_eq(name, "webvtt") {
        Some(ExportFormat::Vtt)
    } else if text_eq(name, "txt") || text_eq(name, "text") {
        Some(ExportFormat::Text)
    } else {
        None
    }
}

impl ExportFormat {
    /// The file extension of the format.
    pub fn extension(&self) -> (r: &'static str)
        ensures
            r@ == match *self {
                ExportFormat::Json | ExportFormat::JsonPretty => "json"@,
                ExportFormat::Srt => "srt"@,
                ExportFormat::Vtt => "vtt"@,
                ExportFormat::Text => "txt"@,
            },
    {
        match self {
            ExportFormat::Json | ExportFormat::JsonPretty => "json",
            ExportFormat::Srt => "srt",
            ExportFormat::Vtt => "vtt",
            ExportFormat::Text => "txt",
        }
    }

    /// The format named by `s`, in any letter case.
    pub fn from_str(s: &str) -> (r: Option<ExportFormat>)
        ensures
            r == format_named(lowercase_of(s@)),
    {
        let lowered = to_lower(s);
        format_from_lowercase(lowered.as_str())
    }
}

/// What a session export produces.
#[derive(Debug, Clone)]
pub struct ExportConfig {
    /// Directory the session's output directory is created in.
    pub output_dir: String,
    /// One reconstructed track per speaker.
    pub per_user_wav: bool,
    /// One mixed track of all speakers.
    pub mixed_wav: bool,
    /// One transcription-ready chunk per segment.
    pub prepare_for_stt: bool,
    /// Transcript formats written.
    pub transcript_formats: Vec<ExportFormat>,
}

impl Default for ExportConfig {
    fn default() -> (r: ExportConfig)
        ensures
            r.output_dir@ == "exports"@,
            r.per_user_wav,
            r.mixed_wav,
            r.prepare_for_stt,
            r.transcript_formats@ == seq![ExportFormat::JsonPretty, ExportFormat::Vtt],
    {
        let mut formats: Vec<ExportFormat> = Vec::new();
        formats.push(ExportFormat::JsonPretty);
        formats.push(ExportFormat::Vtt);
        assert(formats@ =~= seq![ExportFormat::JsonPretty, ExportFormat::Vtt]);
        ExportConfig {
            output_dir: owned("exports"),
            per_user_wav: true,
            mixed_wav: true,
            prepare_for_stt: true,
            transcript_formats: formats,
        }
    }
}

/// A user's stored preferences.
#[derive(Debug, Clone)]
pub struct UserSetting {
    pub user_id: String,
    pub guild_id: String,
    /// The name shown for the user in transcripts.
    pub transcribe_name: Option<String>,
    pub created_at: String,
    pub updated_at: String,
}

} // verus!
