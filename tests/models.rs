use voice_recorder::models::{model_path, models_dir, parse_language_mode, WhisperModel};
use voice_recorder::transcription::{ExportConfig, ExportFormat, WhisperConfig, WhisperError, WhisperModel as Model};

#[test]
fn test_model_parsing() {
    assert_eq!("tiny".parse::<WhisperModel>().unwrap(), WhisperModel::Tiny);
    assert_eq!("SMALL".parse::<WhisperModel>().unwrap(), WhisperModel::Small);
    assert!("invalid".parse::<WhisperModel>().is_err());
}

#[test]
fn test_model_paths() {
    assert!(model_path(WhisperModel::Tiny).contains("ggml-tiny.bin"));
}

#[test]
fn test_whisper_config_default() {
    let config = WhisperConfig::default();
    assert_eq!(config.language, Some("en".to_string()));
    assert!(!config.translate);
    assert!(config.word_timestamps);
}

#[test]
fn test_whisper_config_builder() {
    let config = WhisperConfig::with_model("path/to/model.bin")
        .auto_detect_language()
        .with_threads(8);

    assert_eq!(config.model_path, "path/to/model.bin");
    assert_eq!(config.language, None);
    assert_eq!(config.n_threads, 8);
}

#[test]
fn test_export_config_default() {
    let config = ExportConfig::default();
    assert!(config.per_user_wav);
    assert!(config.mixed_wav);
    assert!(config.prepare_for_stt);
}

#[test]
fn model_catalogue() {
    assert_eq!(models_dir(), "models/whisper");
    assert_eq!(model_path(WhisperModel::Large), "models/whisper/ggml-large-v3.bin");
    assert_eq!(WhisperModel::Medium.size_mb(), 1500);
    assert_eq!(WhisperModel::Base.filename(), "ggml-base.bin");
    assert!(WhisperModel::Tiny.hf_url().ends_with("/ggml-tiny.bin"));
    assert_eq!(WhisperModel::Large.name(), "large");
    let err = "Huge".parse::<WhisperModel>().unwrap_err();
    assert_eq!(err, "Unknown model: Huge. Use tiny, base, small, medium, or large");
}

#[test]
fn language_modes() {
    assert_eq!(parse_language_mode(Some("german")).language, Some("de".to_string()));
    assert_eq!(parse_language_mode(Some("en")).language, Some("en".to_string()));
    assert!(parse_language_mode(Some("translate")).translate);
    let d = parse_language_mode(Some("DE"));
    assert_eq!(d.language, None);
    assert!(!d.translate);
    assert_eq!(parse_language_mode(None).language, None);
}

#[test]
fn export_formats() {
    assert_eq!(ExportFormat::from_str("SRT"), Some(ExportFormat::Srt));
    assert_eq!(ExportFormat::from_str("WebVTT"), Some(ExportFormat::Vtt));
    assert_eq!(ExportFormat::from_str("json_pretty"), Some(ExportFormat::JsonPretty));
    assert_eq!(ExportFormat::from_str("Text"), Some(ExportFormat::Text));
    assert_eq!(ExportFormat::from_str("pdf"), None);
    assert_eq!(ExportFormat::JsonPretty.extension(), "json");
    assert_eq!(ExportFormat::Text.extension(), "txt");
    assert_eq!(ExportConfig::default().transcript_formats, vec![ExportFormat::JsonPretty, ExportFormat::Vtt]);
}

#[test]
fn model_load_reports_missing_file() {
    let cfg = WhisperConfig::with_model("nowhere.bin");
    assert_eq!(Model::load(cfg.clone(), false).err(), Some(WhisperError::ModelNotFound("nowhere.bin".to_string())));
    let m = Model::load(cfg, true).unwrap();
    assert_eq!(m.config().model_path, "nowhere.bin");
}
