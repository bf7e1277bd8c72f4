use dictate::inference::{
    fallback_step, language_mode, normalize_prompt, run_with_fallback, vocabulary_prompt,
    AttemptOutcome, Backend, FallbackStep, LanguageMode,
};
use dictate::ingest::{is_m4a, is_m4a_extension, stability_verdict, ProgressFilter, StabilityVerdict};
use dictate::orchestrator::{AutoJobSpec, HotkeyAction, Orchestrator, TrayState, WorkerEvent};
use dictate::queue::{HotkeyJob, Job};
use std::cell::Cell;
use std::path::PathBuf;

#[test]
fn empty_accelerated_result_is_retried_on_cpu() {
    let calls = Cell::new(0);
    let (result, backend, attempts) = run_with_fallback(
        || {
            calls.set(calls.get() + 1);
            AttemptOutcome::Succeeded { text: String::new(), segments: 0 }
        },
        || {
            calls.set(calls.get() + 1);
            AttemptOutcome::Succeeded { text: "hello there".to_string(), segments: 2 }
        },
    );
    assert_eq!(result, Ok("hello there".to_string()));
    assert_eq!(backend, Backend::Cpu);
    assert_eq!(attempts, 2);
    assert_eq!(calls.get(), 2);
}

#[test]
fn failed_accelerated_attempt_is_retried_on_cpu() {
    let (result, backend, attempts) = run_with_fallback(
        || AttemptOutcome::Failed("device lost".to_string()),
        || AttemptOutcome::Failed("cpu failed".to_string()),
    );
    assert_eq!(result, Err("cpu failed".to_string()));
    assert_eq!(backend, Backend::Cpu);
    assert_eq!(attempts, 2);
}

#[test]
fn accelerated_success_is_final() {
    let (result, backend, attempts) = run_with_fallback(
        || AttemptOutcome::Succeeded { text: "one two".to_string(), segments: 1 },
        || -> AttemptOutcome { panic!("cpu must not run") },
    );
    assert_eq!(result, Ok("one two".to_string()));
    assert_eq!(backend, Backend::Accelerated);
    assert_eq!(attempts, 1);
}

#[test]
fn cpu_result_with_no_segments_is_final() {
    match fallback_step(Backend::Cpu, AttemptOutcome::Succeeded { text: String::new(), segments: 0 }) {
        FallbackStep::Finish(Ok(text), Backend::Cpu) => assert_eq!(text, ""),
        other => panic!("unexpected {other:?}"),
    }
}

#[test]
fn language_modes() {
    assert_eq!(language_mode(None), LanguageMode::Default);
    assert_eq!(language_mode(Some("   ")), LanguageMode::Default);
    assert_eq!(language_mode(Some(" AuTo ")), LanguageMode::Detect);
    assert_eq!(language_mode(Some(" en ")), LanguageMode::Fixed("en".to_string()));
    assert_eq!(language_mode(Some("autos")), LanguageMode::Fixed("autos".to_string()));
}

#[test]
fn prompts_are_trimmed() {
    assert_eq!(normalize_prompt(None), None);
    assert_eq!(normalize_prompt(Some(" \t ")), None);
    assert_eq!(normalize_prompt(Some("  Dictate  ")), Some("Dictate".to_string()));
}

#[test]
fn vocabulary_prompt_joins_trimmed_words() {
    let words = vec![" Dictate ".to_string(), "   ".to_string(), "Whisper".to_string()];
    assert_eq!(vocabulary_prompt(&words), Some("Vocabulary: Dictate, Whisper".to_string()));
    assert_eq!(vocabulary_prompt(&vec![" ".to_string()]), None);
    assert_eq!(vocabulary_prompt(&Vec::new()), None);
}

#[test]
fn size_change_between_polls_is_not_stable() {
    assert_eq!(stability_verdict(&vec![100, 120]), StabilityVerdict::Changed);
    assert_eq!(stability_verdict(&vec![100, 100, 101]), StabilityVerdict::Changed);
    assert_eq!(stability_verdict(&vec![100, 100]), StabilityVerdict::PollAgain);
    assert_eq!(stability_verdict(&vec![100, 100, 100]), StabilityVerdict::Stable);
    assert_eq!(stability_verdict(&vec![]), StabilityVerdict::PollAgain);
}

#[test]
fn m4a_extension_in_any_case() {
    assert!(is_m4a(&PathBuf::from("in/clip.M4A")));
    assert!(is_m4a(&PathBuf::from("clip.m4a")));
    assert!(!is_m4a(&PathBuf::from("clip.mp3")));
    assert!(!is_m4a(&PathBuf::from("m4a")));
    assert!(is_m4a_extension(Some("m4A")));
    assert!(!is_m4a_extension(None));
}

#[test]
fn progress_repeats_are_dropped_and_clamped() {
    let mut f = ProgressFilter::new();
    assert_eq!(f.report(5), Some(5));
    assert_eq!(f.report(5), None);
    assert_eq!(f.report(150), Some(100));
    assert_eq!(f.report(-3), Some(0));
    assert_eq!(f.report(5), Some(5));
}

fn detected(path: &str) -> WorkerEvent {
    WorkerEvent::AutoFileDetected {
        key: path.to_string(),
        spec: AutoJobSpec {
            input_path: PathBuf::from(path),
            output_dir: PathBuf::from("out"),
            processed_dir: PathBuf::from("processed"),
        },
    }
}

#[test]
fn same_path_detected_twice_is_queued_once() {
    let mut orch = Orchestrator::new();
    assert!(orch.handle_worker(detected("in/a.m4a")).is_none());
    assert!(orch.handle_worker(detected("in/a.m4a")).is_none());
    assert_eq!(orch.auto_queue_len(), 1);
    assert!(orch.handle_worker(detected("in/b.m4a")).is_none());
    assert_eq!(orch.auto_queue_len(), 2);
}

#[test]
fn detected_job_gets_derived_paths_and_starts_when_model_ready() {
    let mut orch = Orchestrator::new();
    assert_eq!(orch.status(), TrayState::Downloading { progress: None });
    assert!(orch.handle_worker(WorkerEvent::ModelProgress(40)).is_none());
    assert_eq!(orch.status(), TrayState::Downloading { progress: Some(40) });
    assert!(orch.handle_worker(detected("in/clip:1.m4a")).is_none());
    match orch.handle_worker(WorkerEvent::ModelReady(PathBuf::from("m.bin"))) {
        Some(Job::Auto(job)) => {
            assert_eq!(job.output_path, PathBuf::from("out/clip-1.md"));
            assert_eq!(job.processed_path, PathBuf::from("processed/clip-1.m4a"));
        }
        other => panic!("unexpected {other:?}"),
    }
    assert_eq!(orch.status(), TrayState::Transcribing { progress: None });
    assert!(orch.handle_worker(detected("in/clip:1.m4a")).is_none());
    assert_eq!(orch.auto_queue_len(), 0);
    assert!(orch
        .handle_worker(WorkerEvent::AutoTranscriptionDone { key: "in/clip:1.m4a".to_string() })
        .is_none());
    assert!(orch.is_idle());
    assert!(orch.handle_worker(detected("in/clip:1.m4a")).is_some());
}

#[test]
fn hotkey_flow_through_orchestrator() {
    let mut orch = Orchestrator::new();
    assert_eq!(orch.handle_hotkey(), HotkeyAction::Ignore);
    assert!(orch.handle_worker(WorkerEvent::ModelReady(PathBuf::from("m.bin"))).is_none());
    assert!(orch.is_idle());
    assert!(orch.handle_worker(detected("in/a.m4a")).is_some());
    assert_eq!(orch.handle_hotkey(), HotkeyAction::StartRecording);
    orch.recording_started();
    assert_eq!(orch.status(), TrayState::Recording);
    assert_eq!(orch.handle_hotkey(), HotkeyAction::StopRecording);
    orch.recording_stopped();
    assert_eq!(orch.status(), TrayState::Transcribing { progress: None });
    let job = HotkeyJob { audio_path: PathBuf::from("r.m4a"), text_path: PathBuf::from("r.md") };
    assert!(orch.handle_worker(WorkerEvent::HotkeyRecordingReady(job)).is_none());
    assert!(orch.handle_worker(detected("in/b.m4a")).is_none());
    assert!(matches!(
        orch.handle_worker(WorkerEvent::AutoTranscriptionDone { key: "in/a.m4a".to_string() }),
        Some(Job::Hotkey(_))
    ));
    assert_eq!(orch.handle_hotkey(), HotkeyAction::Ignore);
    assert!(orch.handle_worker(WorkerEvent::TranscriptionProgress(30)).is_none());
    assert_eq!(orch.status(), TrayState::Transcribing { progress: Some(30) });
    assert!(matches!(
        orch.handle_worker(WorkerEvent::HotkeyTranscriptionDone { text: "hi".to_string() }),
        Some(Job::Auto(_))
    ));
}

#[test]
fn failed_recording_returns_to_idle() {
    let mut orch = Orchestrator::new();
    assert!(orch.handle_worker(WorkerEvent::ModelReady(PathBuf::from("m.bin"))).is_none());
    assert_eq!(orch.handle_hotkey(), HotkeyAction::StartRecording);
    orch.recording_failed();
    assert!(orch.is_idle());
    assert_eq!(orch.handle_hotkey(), HotkeyAction::StartRecording);
    orch.recording_started();
    orch.recording_stopped();
    assert!(orch
        .handle_worker(WorkerEvent::HotkeyRecordingError("encode failed".to_string()))
        .is_none());
    assert!(orch.is_idle());
    assert!(orch.handle_worker(WorkerEvent::ModelError("x".to_string())).is_none());
    assert_eq!(orch.status(), TrayState::Idle);
}

#[test]
fn recording_error_lets_waiting_file_job_start() {
    let mut orch = Orchestrator::new();
    assert!(orch.handle_worker(WorkerEvent::ModelReady(PathBuf::from("m.bin"))).is_none());
    assert_eq!(orch.handle_hotkey(), HotkeyAction::StartRecording);
    orch.recording_started();
    assert!(orch.handle_worker(detected("in/a.m4a")).is_none());
    assert_eq!(orch.auto_queue_len(), 1);
    orch.recording_stopped();
    assert!(matches!(
        orch.handle_worker(WorkerEvent::HotkeyRecordingError("encode failed".to_string())),
        Some(Job::Auto(_))
    ));
    assert_eq!(orch.auto_queue_len(), 0);
}

#[test]
fn non_m4a_detection_is_ignored() {
    let mut orch = Orchestrator::new();
    assert!(orch.handle_worker(detected("in/a.wav")).is_none());
    assert_eq!(orch.auto_queue_len(), 0);
    assert!(orch.handle_worker(detected("in/a.wav")).is_none());
    assert!(orch.handle_worker(detected("in/a.M4A")).is_none());
    assert_eq!(orch.auto_queue_len(), 1);
}

#[test]
fn prompt_trimming_matches_unicode_whitespace() {
    let cases = [
        "\u{3000}word\u{a0}",
        "\u{85}\u{2028}a b\u{2029}\u{205f}",
        "\u{200b}kept\u{200b}",
        "\t\n\u{b}\u{c}\r x \u{2000}\u{200a}\u{202f}\u{1680}",
    ];
    for case in cases {
        assert_eq!(normalize_prompt(Some(case)), Some(case.trim().to_string()));
    }
    assert_eq!(normalize_prompt(Some("\u{3000} \u{a0}")), None);
}
