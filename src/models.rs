//! Speech-to-text model catalogue and language settings used by the
//! offline transcription stage.

use vstd::prelude::*;
use crate::text::{lowercase_of, opt_text, owned, text_eq, to_lower};

verus! {

/// Directory that holds downloaded models.
pub const MODELS_DIR: &'static str = "models/whisper";

/// The available model sizes.
#[derive(Debug, Clone, Copy, PartialEq, Eq, Structural)]
pub enum WhisperModel {
    Tiny,
    Base,
    Small,
    Medium,
    Large,
}

/// The model file's name.
pub open spec fn model_file_name(m: WhisperModel) -> Seq<char> {
    match m {
        WhisperModel::Tiny => "ggml-tiny.bin"@,
        WhisperModel::Base => "ggml-base.bin"@,
        WhisperModel::Small => "ggml-small.bin"@,
        WhisperModel::Medium => "ggml-medium.bin"@,
        WhisperModel::Large => "ggml-large-v3.bin"@,
    }
}

/// The model's name as users type it, in lower case.
pub open spec fn model_name(m: WhisperModel) -> Seq<char> {
    match m {
        WhisperModel::Tiny => "tiny"@,
        WhisperModel::Base => "base"@,
        WhisperModel::Small => "small"@,
        WhisperModel::Medium => "medium"@,
        WhisperModel::Large => "large"@,
    }
}

/// The model whose lower-case name is `s`, if any.
pub open spec fn model_named(s: Seq<char>) -> Option<WhisperModel> {
    if s == "tiny"@ {
        Some(WhisperModel::Tiny)
    } else if s == "base"@ {
        Some(WhisperModel::Base)
    } else if s == "small"@ {
        Some(WhisperModel::Small)
    } else if s == "medium"@ {
        Some(WhisperModel::Medium)
    } else if s == "large"@ {
        Some(WhisperModel::Large)
    } else {
        None
    }
}

impl WhisperModel {
    /// Where the model file can be downloaded.
    pub fn hf_url(&self) -> (r: &'static str)
        ensures
            r@ == match *self {
                WhisperModel::Tiny => "https://huggingface.co/ggerganov/whisper.cpp/resolve/main/ggml-tiny.bin"@,
                WhisperModel::Base => "https://huggingface.co/ggerganov/whisper.cpp/resolve/main/ggml-base.bin"@,
                WhisperModel::Small => "https://huggingface.co/ggerganov/whisper.cpp/resolve/main/ggml-small.bin"@,
                WhisperModel::Medium => "https://huggingface.co/ggerganov/whisper.cpp/resolve/main/ggml-medium.bin"@,
                WhisperModel::Large => "https://huggingface.co/ggerganov/whisper.cpp/resolve/main/ggml-large-v3.bin"@,
            },
    {
        match self {
            WhisperModel::Tiny => "https://huggingface.co/ggerganov/whisper.cpp/resolve/main/ggml-tiny.bin",
            WhisperModel::Base => "https://huggingface.co/ggerganov/whisper.cpp/resolve/main/ggml-base.bin",
            WhisperModel::Small => "https://huggingface.co/ggerganov/whisper.cpp/resolve/main/ggml-small.bin",
            WhisperModel::Medium => "https://huggingface.co/ggerganov/whisper.cpp/resolve/main/ggml-medium.bin",
            WhisperModel::Large => "https://huggingface.co/ggerganov/whisper.cpp/resolve/main/ggml-large-v3.bin",
        }
    }

    /// The model file's name.
    pub fn filename(&self) -> (r: &'static str)
        ensures
            r@ == model_file_name(*self),
    {
        match self {
            WhisperModel::Tiny => "ggml-tiny.bin",
            WhisperModel::Base => "ggml-base.bin",
            WhisperModel::Small => "ggml-small.bin",
            WhisperModel::Medium => "ggml-medium.bin",
            WhisperModel::Large => "ggml-large-v3.bin",
        }
    }

    /// Approximate size of the model file in megabytes.
    pub fn size_mb(&self) -> (r: u64)
        ensures
            r == match *self {
                WhisperModel::Tiny => 75u64,
                WhisperModel::Base => 142u64,
                WhisperModel::Small => 466u64,
                WhisperModel::Medium => 1500u64,
                WhisperModel::Large => 3100u64,
            },
    {
        match self {
            WhisperModel::Tiny => 75,
            WhisperModel::Base => 142,
            WhisperModel::Small => 466,
            WhisperModel::Medium => 1500,
            WhisperModel::Large => 3100,
        }
    }

    /// The model's lower-case name.
    pub fn name(&self) -> (r: &'static str)
        ensures
            r@ == model_name(*self),
    {
        match self {
            WhisperModel::Tiny => "tiny",
            WhisperModel::Base => "base",
            WhisperModel::Small => "small",
            WhisperModel::Medium => "medium",
            WhisperModel::Large => "large",
        }
    }
}

/// The model named by an already lower-cased `name`.
pub fn parse_model_name(name: &str) -> (r: Option<WhisperModel>)
    ensures
        r == model_named(name@),
{
    if text_eq(name, "tiny") {
        Some(WhisperModel::Tiny)
    } else if text_eq(name, "base") {
        Some(WhisperModel::Base)
    } else if text_eq(name, "small") {
        Some(WhisperModel::Small)
    } else if text_eq(name, "medium") {
        Some(WhisperModel::Medium)
    } else if text_eq(name, "large") {
        Some(WhisperModel::Large)
    } else {
        None
    }
}

/// The model named by `s`, in any letter case; otherwise a message that
/// lists the names.
pub fn model_from_name(s: &str) -> (r: Result<WhisperModel, String>)
    ensures
        match model_named(lowercase_of(s@)) {
            Some(m) => r == Ok::<WhisperModel, String>(m),
            None => r matches Err(msg) && msg@ == "Unknown model: "@ + s@
                + ". Use tiny, base, small, medium, or large"@,
        },
{
    let lowered = to_lower(s);
    match parse_model_name(lowered.as_str()) {
        Some(m) => Ok(m),
        None => {
            let mut msg = String::from_str("Unknown model: ");
            msg.append(s);
            msg.append(". Use tiny, base, small, medium, or large");
            Err(msg)
        },
    }
}

impl std::str::FromStr for WhisperModel {
    type Err = String;

    fn from_str(s: &str) -> Result<WhisperModel, String> {
        model_from_name(s)
    }
}

/// The directory that holds downloaded models.
pub fn models_dir() -> (r: String)
    ensures
        r@ == MODELS_DIR@,
{
    owned(MODELS_DIR)
}

/// Where the file of `model` lives.
pub fn model_path(model: WhisperModel) -> (r: String)
    ensures
        r@ == MODELS_DIR@ + "/"@ + model_file_name(model),
{
    let mut p = models_dir();
    p.append("/");
    p.append(model.filename());
    p
}

/// Language settings for transcription.
#[derive(Debug, Clone)]
pub struct LanguageConfig {
    /// Language hint; `None` detects the language of each segment.
    pub language: Option<String>,
    /// Whether to translate into English.
    pub translate: bool,
}

/// The settings as plain values: language hint and translation.
pub open spec fn language_model(c: LanguageConfig) -> (Option<Seq<char>>, bool) {
    (opt_text(c.language), c.translate)
}

impl LanguageConfig {
    /// Mixed German and English: detect the language, keep it.
    pub fn german_english_mixed() -> (r: LanguageConfig)
        ensures
            language_model(r) == (None::<Seq<char>>, false),
    {
        LanguageConfig { language: None, translate: false }
    }

    /// Mostly German.
    pub fn german_primary() -> (r: LanguageConfig)
        ensures
            language_model(r) == (Some("de"@), false),
    {
        LanguageConfig { language: Some(owned("de")), translate: false }
    }

    /// Mostly English.
    pub fn english_primary() -> (r: LanguageConfig)
        ensures
            language_model(r) == (Some("en"@), false),
    {
        LanguageConfig { language: Some(owned("en")), translate: false }
    }

    /// Detect the language and translate everything into English.
    pub fn translate_to_english() -> (r: LanguageConfig)
        ensures
            language_model(r) == (None::<Seq<char>>, true),
    {
        LanguageConfig { language: None, translate: true }
    }
}

impl Default for LanguageConfig {
    fn default() -> (r: LanguageConfig)
        ensures
            language_model(r) == (None::<Seq<char>>, false),
    {
        LanguageConfig::german_english_mixed()
    }
}

/// The settings a language mode names: "de"/"german", "en"/"english",
/// "translate", anything else (or nothing) the mixed default.
pub open spec fn language_mode(mode: Option<Seq<char>>) -> (Option<Seq<char>>, bool) {
    match mode {
        Some(m) => if m == "de"@ || m == "german"@ {
            (Some("de"@), false)
        } else if m == "en"@ || m == "english"@ {
            (Some("en"@), false)
        } else if m == "translate"@ {
            (None, true)
        } else {
            (None, false)
        },
        None => (None, false),
    }
}

/// The language settings for a mode given by the user.
pub fn parse_language_mode(mode: Option<&str>) -> (r: LanguageConfig)
    ensures
        language_model(r) == language_mode(
            match mode {
                Some(m) => Some(m@),
                None => None::<Seq<char>>,
            },
        ),
{
    match mode {
        Some(m) => {
            if text_eq(m, "de") || text_eq(m, "german") {
                LanguageConfig::german_primary()
            } else if text_eq(m, "en") || text_eq(m, "english") {
                LanguageConfig::english_primary()
            } else if text_eq(m, "translate") {
                LanguageConfig::translate_to_english()
            } else {
                LanguageConfig::german_english_mixed()
            }
        },
        None => LanguageConfig::german_english_mixed(),
    }
}

/// Failures of model management and transcription.
#[derive(Debug, Clone, PartialEq, Eq)]
pub enum WhisperError {
    Io(String),
    Download(String),
    Init(String),
    Transcription(String),
}

/// Failures while preparing a session's audio for transcription.
#[derive(Debug, Clone, PartialEq, Eq)]
pub enum TranscribeError {
    Io(String),
    SessionNotFound(String),
    UsersNotFound,
    UserNotFound(String),
    NoAudioData,
    ParseError(String),
    SsrcMapError,
}

} // verus!
