use dictate::model::{available_models, format_size, model_info, LanguageSupport, GIB, MIB};

#[test]
fn sizes_are_labelled() {
    assert_eq!(format_size(75 * MIB), "75 MB");
    assert_eq!(format_size(466 * MIB), "466 MB");
    assert_eq!(format_size((3 * GIB) / 2), "1.5 GB");
    assert_eq!(format_size((29 * GIB) / 10), "2.9 GB");
    assert_eq!(format_size(10 * GIB), "10 GB");
    assert_eq!(format_size(0), "0 MB");
    assert_eq!(format_size(MIB / 2), "0 MB");
    assert_eq!(format_size(3 * MIB / 2), "2 MB");
    assert_eq!(format_size(GIB + GIB / 20), "1.0 GB");
}

#[test]
fn catalog_lists_models_in_order() {
    let names: Vec<&str> = available_models().iter().map(|m| m.name).collect();
    assert_eq!(names, vec!["turbo", "tiny", "base", "small", "medium", "large"]);
}

#[test]
fn model_info_finds_by_name() {
    let info = model_info("tiny").unwrap();
    assert_eq!(info.filename, "ggml-tiny.bin");
    assert_eq!(info.size_bytes, 75 * MIB);
    assert_eq!(
        info.url,
        "https://huggingface.co/ggerganov/whisper.cpp/resolve/main/ggml-tiny.bin"
    );
    assert_eq!(info.languages.label(), "multilingual");
    assert_eq!(LanguageSupport::English.label(), "english");
}

#[test]
fn unknown_model_lists_choices() {
    let err = model_info("huge").unwrap_err();
    assert_eq!(
        err.message(),
        "unknown model 'huge'. Try: turbo, tiny, base, small, medium, large"
    );
}
