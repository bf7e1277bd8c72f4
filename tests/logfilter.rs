use dictate::logfilter::{contains_text, is_noisy_metal_log, starts_with_text};
use dictate::settings::Config;
use std::path::PathBuf;

#[test]
fn metal_noise_is_recognised() {
    assert!(is_noisy_metal_log("ggml_metal_init: allocating"));
    assert!(is_noisy_metal_log("ggml_backend_metal_buffer_type"));
    assert!(is_noisy_metal_log("set GGML_METAL_PATH_RESOURCES first"));
    assert!(is_noisy_metal_log("loading ggml-metal.metal"));
    assert!(is_noisy_metal_log("using Metal backend"));
    assert!(is_noisy_metal_log("found Metal GPU family"));
    assert!(is_noisy_metal_log("init ggml_backend_metal ok"));
    assert!(!is_noisy_metal_log("whisper_init_state: kv self size"));
    assert!(!is_noisy_metal_log(" ggml_metal_init"));
    assert!(!is_noisy_metal_log(""));
}

#[test]
fn prefix_and_infix_search() {
    assert!(starts_with_text("abc", ""));
    assert!(starts_with_text("abc", "ab"));
    assert!(!starts_with_text("ab", "abc"));
    assert!(contains_text("abc", ""));
    assert!(contains_text("xxabcxx", "abc"));
    assert!(contains_text("abc", "abc"));
    assert!(!contains_text("abxc", "abc"));
}

#[test]
fn default_config() {
    let c = Config::default();
    assert_eq!(c.model, "small");
    assert_eq!(c.recordings_dir, PathBuf::from(".recordings"));
    assert!(c.selected_mic.is_none());
    assert!(c.vocabulary.is_empty());
    assert!(c.auto_transcribe.is_none());
}
