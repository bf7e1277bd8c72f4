use dictate::storage::{
    is_illegal_filename_char, next_recording_paths, processed_path_for_input,
    recording_file_names, sanitize_filename_component, transcript_file_name,
    transcript_path_for_input, transcript_path_for_output_dir, PathError,
};
use std::path::PathBuf;
use tempfile::tempdir;

#[test]
fn next_recording_paths_create_in_dir() {
    let dir = tempdir().unwrap();
    let (audio, text) = next_recording_paths(&dir.path().to_path_buf(), "2024-06-01T12-00-00.000+0000");
    assert!(audio.starts_with(dir.path()));
    assert!(text.starts_with(dir.path()));
    assert!(audio.extension().unwrap_or_default() == "m4a");
    assert!(text.extension().unwrap_or_default() == "md");
}

#[test]
fn transcript_path_for_output_dir_uses_stem() {
    let dir = tempdir().unwrap();
    let input = dir.path().join("2024-06-01T12-00-00.m4a");
    let output_dir = dir.path().join("out");
    let out = transcript_path_for_output_dir(&input, &output_dir).unwrap();
    assert_eq!(out, output_dir.join("2024-06-01T12-00-00.md"));
}

#[test]
fn processed_path_for_input_preserves_filename() {
    let dir = tempdir().unwrap();
    let input = dir.path().join("sample.m4a");
    let processed_dir = dir.path().join("processed");
    let out = processed_path_for_input(&input, &processed_dir).unwrap();
    assert_eq!(out, processed_dir.join("sample.m4a"));
}

#[test]
fn transcript_path_for_output_dir_sanitizes_illegal_chars() {
    let dir = tempdir().unwrap();
    let input = dir.path().join("2026-01-22T16:19:59.m4a");
    let output_dir = dir.path().join("out");
    let out = transcript_path_for_output_dir(&input, &output_dir).unwrap();
    assert_eq!(out, output_dir.join("2026-01-22T16-19-59.md"));
}

#[test]
fn processed_path_for_input_sanitizes_illegal_chars() {
    let dir = tempdir().unwrap();
    let input = dir.path().join("clip:01.m4a");
    let processed_dir = dir.path().join("processed");
    let out = processed_path_for_input(&input, &processed_dir).unwrap();
    assert_eq!(out, processed_dir.join("clip-01.m4a"));
}

#[test]
fn transcript_beside_input() {
    let out = transcript_path_for_input(&PathBuf::from("dir/talk.m4a")).unwrap();
    assert_eq!(out, PathBuf::from("dir/talk.md"));
}

#[test]
fn paths_without_file_name_are_errors() {
    assert_eq!(
        transcript_path_for_output_dir(&PathBuf::from("/"), &PathBuf::from("out")),
        Err(PathError::NoFileName)
    );
    assert_eq!(
        processed_path_for_input(&PathBuf::from("/"), &PathBuf::from("processed")),
        Err(PathError::NoFileName)
    );
    assert_eq!(transcript_path_for_input(&PathBuf::from("/")), Err(PathError::NoParent));
}

#[test]
fn sanitize_replaces_every_illegal_char() {
    assert_eq!(
        sanitize_filename_component("a<b>c:d\"e/f\\g|h?i*j\u{1}k\u{7f}l"),
        "a-b-c-d-e-f-g-h-i-j-k-l"
    );
    assert_eq!(sanitize_filename_component("plain name é"), "plain name é");
    assert!(is_illegal_filename_char('\n'));
    assert!(!is_illegal_filename_char('-'));
}

#[test]
fn file_names_from_stamp_and_stem() {
    let (audio, text) = recording_file_names("2024-06-01T12-00-00.000+0000");
    assert_eq!(audio, "2024-06-01T12-00-00.000+0000.m4a");
    assert_eq!(text, "2024-06-01T12-00-00.000+0000.md");
    assert_eq!(transcript_file_name("a:b"), "a-b.md");
}
