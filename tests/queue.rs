use dictate::queue::{AutoJob, HotkeyJob, Job, JobKind, JobQueue};
use std::path::PathBuf;

fn auto_job(name: &str) -> AutoJob {
    AutoJob {
        input_path: PathBuf::from(name),
        output_path: PathBuf::from("out.md"),
        processed_path: PathBuf::from("processed.m4a"),
    }
}

fn hotkey_job() -> HotkeyJob {
    HotkeyJob {
        audio_path: PathBuf::from("rec.m4a"),
        text_path: PathBuf::from("rec.md"),
    }
}

#[test]
fn hotkey_blocks_auto_until_complete() {
    let mut queue = JobQueue::new();
    let auto_job = AutoJob {
        input_path: PathBuf::from("in.m4a"),
        output_path: PathBuf::from("out.md"),
        processed_path: PathBuf::from("processed.m4a"),
    };
    queue.enqueue_auto(auto_job);
    assert!(queue.begin_hotkey_session());
    assert!(queue.next_job().is_none());

    let hotkey_job = HotkeyJob {
        audio_path: PathBuf::from("rec.m4a"),
        text_path: PathBuf::from("rec.md"),
    };
    assert!(queue.enqueue_hotkey(hotkey_job));
    assert!(matches!(queue.next_job(), Some(Job::Hotkey(_))));
    queue.complete_active(JobKind::Hotkey);
    assert!(matches!(queue.next_job(), Some(Job::Auto(_))));
}

#[test]
fn hotkey_priority_over_auto() {
    let mut queue = JobQueue::new();
    queue.enqueue_auto(AutoJob {
        input_path: PathBuf::from("in.m4a"),
        output_path: PathBuf::from("out.md"),
        processed_path: PathBuf::from("processed.m4a"),
    });
    assert!(queue.begin_hotkey_session());
    assert!(queue.enqueue_hotkey(HotkeyJob {
        audio_path: PathBuf::from("rec.m4a"),
        text_path: PathBuf::from("rec.md"),
    }));
    assert!(matches!(queue.next_job(), Some(Job::Hotkey(_))));
}

#[test]
fn hotkey_session_rejects_second_start() {
    let mut queue = JobQueue::new();
    assert!(queue.begin_hotkey_session());
    assert!(!queue.begin_hotkey_session());
}

#[test]
fn session_reopens_after_cancel_or_hotkey_completion() {
    let mut queue = JobQueue::new();
    assert!(queue.begin_hotkey_session());
    queue.complete_active(JobKind::Auto);
    assert!(!queue.begin_hotkey_session());
    queue.cancel_hotkey_session();
    assert!(!queue.hotkey_session_active());
    assert!(queue.begin_hotkey_session());
    assert!(queue.enqueue_hotkey(hotkey_job()));
    assert!(matches!(queue.next_job(), Some(Job::Hotkey(_))));
    assert!(!queue.begin_hotkey_session());
    queue.complete_active(JobKind::Hotkey);
    assert!(queue.begin_hotkey_session());
}

#[test]
fn stale_hotkey_completion_keeps_session() {
    let mut queue = JobQueue::new();
    assert!(queue.begin_hotkey_session());
    queue.complete_active(JobKind::Hotkey);
    assert!(queue.hotkey_session_active());
    assert_eq!(queue.active_kind(), None);
}

#[test]
fn stale_auto_completion_keeps_running_hotkey_job() {
    let mut queue = JobQueue::new();
    assert!(queue.begin_hotkey_session());
    assert!(queue.enqueue_hotkey(hotkey_job()));
    assert!(queue.next_job().is_some());
    queue.complete_active(JobKind::Auto);
    assert_eq!(queue.active_kind(), Some(JobKind::Hotkey));
    assert!(queue.hotkey_session_active());
}

#[test]
fn second_pending_recording_is_refused() {
    let mut queue = JobQueue::new();
    assert!(queue.enqueue_hotkey(hotkey_job()));
    assert!(!queue.enqueue_hotkey(hotkey_job()));
}

#[test]
fn one_job_at_a_time_in_fifo_order() {
    let mut queue = JobQueue::new();
    queue.enqueue_auto(auto_job("a.m4a"));
    queue.enqueue_auto(auto_job("b.m4a"));
    match queue.next_job() {
        Some(Job::Auto(job)) => assert_eq!(job.input_path, PathBuf::from("a.m4a")),
        other => panic!("unexpected {other:?}"),
    }
    assert!(queue.next_job().is_none());
    assert_eq!(queue.auto_queue_len(), 1);
    queue.complete_active(JobKind::Auto);
    match queue.next_job() {
        Some(Job::Auto(job)) => assert_eq!(job.input_path, PathBuf::from("b.m4a")),
        other => panic!("unexpected {other:?}"),
    }
    queue.complete_active(JobKind::Auto);
    assert!(queue.next_job().is_none());
}

#[test]
fn end_to_end_session_then_auto() {
    let mut queue = JobQueue::new();
    queue.enqueue_auto(auto_job("a.m4a"));
    assert!(queue.begin_hotkey_session());
    assert!(queue.next_job().is_none());
    assert!(queue.enqueue_hotkey(hotkey_job()));
    match queue.next_job() {
        Some(Job::Hotkey(job)) => assert_eq!(job.audio_path, PathBuf::from("rec.m4a")),
        other => panic!("unexpected {other:?}"),
    }
    queue.complete_active(JobKind::Hotkey);
    match queue.next_job() {
        Some(Job::Auto(job)) => assert_eq!(job.input_path, PathBuf::from("a.m4a")),
        other => panic!("unexpected {other:?}"),
    }
}

#[test]
fn cancel_drops_pending_recording_and_unblocks_auto() {
    let mut queue = JobQueue::default();
    queue.enqueue_auto(auto_job("a.m4a"));
    assert!(queue.begin_hotkey_session());
    assert!(queue.enqueue_hotkey(hotkey_job()));
    queue.cancel_hotkey_session();
    assert!(matches!(queue.next_job(), Some(Job::Auto(_))));
}
