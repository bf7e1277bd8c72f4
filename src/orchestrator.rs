//! The decisions of the single thread that owns all session state: what each
//! worker event changes, which job starts next, and which status shows.
use crate::queue::{AutoJob, HotkeyJob, Job, JobKind, JobQueue, QueueState};
use crate::ingest::{extension_of, is_m4a, m4a_extension};
use crate::storage::{
    file_name_of, file_stem_of, joined, processed_path_for_input, sanitized,
    transcript_path_for_output_dir,
};
use std::path::PathBuf;
use vstd::prelude::*;

verus! {

/// What the status indicator shows, in priority order.
#[derive(Debug, Clone, Copy, PartialEq, Eq, Structural)]
pub enum TrayState {
    Idle,
    Recording,
    Transcribing { progress: Option<u8> },
    Downloading { progress: Option<u8> },
}

/// A detected input file and the directories its outputs go to.
#[derive(Debug, Clone)]
pub struct AutoJobSpec {
    pub input_path: PathBuf,
    pub output_dir: PathBuf,
    pub processed_dir: PathBuf,
}

/// A message from a worker thread to the owning thread.
#[derive(Debug)]
pub enum WorkerEvent {
    ModelReady(PathBuf),
    ModelProgress(u8),
    ModelError(String),
    HotkeyRecordingReady(HotkeyJob),
    HotkeyRecordingError(String),
    /// A stable input file; `key` is its path as text.
    AutoFileDetected { key: String, spec: AutoJobSpec },
    TranscriptionProgress(u8),
    HotkeyTranscriptionDone { text: String },
    HotkeyTranscriptionError(String),
    /// `key` is the input path as text, as it was detected.
    AutoTranscriptionDone { key: String },
    AutoTranscriptionError { key: String, error: String },
    Error(String),
}

/// What a hotkey press asks for.
#[derive(Debug, Clone, Copy, PartialEq, Eq, Structural)]
pub enum HotkeyAction {
    /// Stop the running capture.
    StopRecording,
    /// Start a capture: a session has been opened.
    StartRecording,
    /// Nothing: the model is still downloading or a session is in flight.
    Ignore,
}

/// The abstract state of an [`Orchestrator`].
pub ghost struct OrchState {
    pub queue: QueueState,
    pub inflight: Set<Seq<char>>,
    pub model_ready: bool,
    pub downloading: bool,
    pub download_progress: Option<u8>,
    pub recording: bool,
    pub hotkey_pending: bool,
    pub progress: Option<u8>,
}

impl OrchState {
    /// The state after trying to start the next job, and the job started.
    pub open spec fn dispatch(self) -> (OrchState, Option<Job>) {
        if !self.model_ready {
            (self, None)
        } else {
            match self.queue.next_pick() {
                None => (self, None),
                Some(job) => (
                    (OrchState {
                        queue: self.queue.next(),
                        hotkey_pending: if job is Hotkey {
                            false
                        } else {
                            self.hotkey_pending
                        },
                        progress: None,
                        ..self
                    }),
                    Some(job),
                ),
            }
        }
    }

    /// A detected file with path text `key`: ignored while a job for the same
    /// key is in flight; else marked in flight, queued, and dispatch is tried.
    pub open spec fn detect(self, key: Seq<char>, job: AutoJob) -> (OrchState, Option<Job>) {
        if self.inflight.contains(key) {
            (self, None)
        } else {
            (OrchState {
                inflight: self.inflight.insert(key),
                queue: self.queue.enqueue_auto(job),
                ..self
            }).dispatch()
        }
    }

    /// A job of `kind` finished (or failed); a file job's key leaves the
    /// in-flight set; dispatch is tried.
    pub open spec fn finish(self, kind: JobKind, key: Option<Seq<char>>) -> (OrchState, Option<Job>) {
        (OrchState {
            inflight: match key {
                Some(k) => self.inflight.remove(k),
                None => self.inflight,
            },
            progress: None,
            queue: self.queue.complete(kind),
            ..self
        }).dispatch()
    }

    /// The status shown: recording, then transcribing (a recording awaits
    /// its transcript or a job runs), then downloading, then idle.
    pub open spec fn status(self) -> TrayState {
        if self.recording {
            TrayState::Recording
        } else if self.hotkey_pending || self.queue.active is Some {
            TrayState::Transcribing { progress: self.progress }
        } else if self.downloading {
            TrayState::Downloading { progress: self.download_progress }
        } else {
            TrayState::Idle
        }
    }
}

/// The job for a detected input: transcript in the output directory under
/// the sanitized stem with `.md`, processed copy under the sanitized file
/// name; none when the input has no file name.
pub open spec fn detection_job(spec: AutoJobSpec) -> Option<AutoJob> {
    match (file_stem_of(spec.input_path), file_name_of(spec.input_path)) {
        (Some(stem), Some(name)) => Some(
            AutoJob {
                input_path: spec.input_path,
                output_path: joined(spec.output_dir, sanitized(stem) + ".md"@),
                processed_path: joined(spec.processed_dir, sanitized(name)),
            },
        ),
        _ => None,
    }
}

/// The outcome of a detection of `spec` with path text `key` that took `s`
/// to `t` and started `r`: nothing for an input that is not M4A or whose
/// paths cannot be derived; else the detection of its job.
pub open spec fn detected(s: OrchState, key: Seq<char>, spec: AutoJobSpec, t: OrchState, r: Option<Job>) -> bool {
    if !(extension_of(spec.input_path) matches Some(e) && m4a_extension(e)) {
        t == s && r is None
    } else {
        match detection_job(spec) {
            None => t == s && r is None,
            Some(job) => (t, r) == s.detect(key, job),
        }
    }
}

/// The session state owned by the event loop.
pub struct Orchestrator {
    queue: JobQueue,
    inflight: Vec<String>,
    model_path: Option<PathBuf>,
    downloading_model: bool,
    model_download_progress: Option<u8>,
    recording: bool,
    hotkey_pending: bool,
    transcription_progress: Option<u8>,
}

/// The set of texts in a list.
pub open spec fn key_set(v: Seq<String>) -> Set<Seq<char>> {
    Set::new(|k: Seq<char>| exists|i: int| 0 <= i < v.len() && #[trigger] v[i]@ == k)
}

/// No text occurs twice in the list.
pub open spec fn distinct_keys(v: Seq<String>) -> bool {
    forall|i: int, j: int| 0 <= i < v.len() && 0 <= j < v.len() && i != j ==> #[trigger] v[i]@ != #[trigger] v[j]@
}

impl View for Orchestrator {
    type V = OrchState;

    closed spec fn view(&self) -> OrchState {
        OrchState {
            queue: self.queue@,
            inflight: key_set(self.inflight@),
            model_ready: self.model_path is Some,
            downloading: self.downloading_model,
            download_progress: self.model_download_progress,
            recording: self.recording,
            hotkey_pending: self.hotkey_pending,
            progress: self.transcription_progress,
        }
    }
}

/// Position of `key` in the list, if it is there.
fn find_key(v: &Vec<String>, key: &String) -> (r: Option<usize>)
    ensures
        match r {
            Some(i) => i < v@.len() && v@[i as int]@ == key@,
            None => !key_set(v@).contains(key@),
        },
{
    let mut i: usize = 0;
    while i < v.len()
        invariant
            i <= v@.len(),
            forall|j: int| 0 <= j < i ==> v@[j]@ != key@,
        decreases v.len() - i,
    {
        if v[i] == *key {
            return Some(i);
        }
        i = i + 1;
    }
    None
}

impl Orchestrator {
    /// Well-formedness: no path text is in flight twice.
    pub closed spec fn wf(&self) -> bool {
        distinct_keys(self.inflight@)
    }

    /// The state at start-up: the model is being fetched, nothing else runs.
    pub fn new() -> (r: Self)
        ensures
            r.wf(),
            r@.queue == QueueState::initial(),
            r@.inflight == Set::<Seq<char>>::empty(),
            !r@.model_ready,
            r@.downloading,
            r@.download_progress is None,
            !r@.recording,
            !r@.hotkey_pending,
            r@.progress is None,
    {
        let r = Orchestrator {
            queue: JobQueue::new(),
            inflight: Vec::new(),
            model_path: None,
            downloading_model: true,
            model_download_progress: None,
            recording: false,
            hotkey_pending: false,
            transcription_progress: None,
        };
        assert(key_set(r.inflight@) =~= Set::<Seq<char>>::empty());
        r
    }

    /// The model file, once it is ready.
    pub fn model_path(&self) -> (r: Option<&PathBuf>)
        ensures
            r is Some == self@.model_ready,
    {
        self.model_path.as_ref()
    }

    /// The status to show.
    pub fn status(&self) -> (r: TrayState)
        ensures
            r == self@.status(),
    {
        if self.recording {
            TrayState::Recording
        } else if self.hotkey_pending || self.queue.active_kind().is_some() {
            TrayState::Transcribing { progress: self.transcription_progress }
        } else if self.downloading_model {
            TrayState::Downloading { progress: self.model_download_progress }
        } else {
            TrayState::Idle
        }
    }

    /// Whether nothing is recording, transcribing or downloading.
    pub fn is_idle(&self) -> (r: bool)
        ensures
            r == (self@.status() == TrayState::Idle),
    {
        !self.recording && !self.hotkey_pending && self.queue.active_kind().is_none()
            && !self.downloading_model
    }

    /// The number of file jobs waiting.
    pub fn auto_queue_len(&self) -> (r: usize)
        ensures
            r == self@.queue.autos.len(),
    {
        self.queue.auto_queue_len()
    }

    /// Starts the next runnable job, if the model is ready and the scheduler
    /// hands one out; returns it for a worker to run.
    pub fn maybe_start_transcription(&mut self) -> (r: Option<Job>)
        requires
            old(self).wf(),
        ensures
            final(self).wf(),
            (final(self)@, r) == old(self)@.dispatch(),
    {
        if self.model_path.is_none() {
            return None;
        }
        let job = self.queue.next_job();
        match job {
            None => None,
            Some(job) => {
                if let Job::Hotkey(_) = job {
                    self.hotkey_pending = false;
                }
                self.transcription_progress = None;
                Some(job)
            },
        }
    }

    /// Handles a hotkey press: stops a running capture; is ignored while the
    /// model downloads or a session is in flight; else opens a session.
    pub fn handle_hotkey(&mut self) -> (r: HotkeyAction)
        requires
            old(self).wf(),
        ensures
            final(self).wf(),
            old(self)@.recording ==> r == HotkeyAction::StopRecording && final(self)@ == old(self)@,
            !old(self)@.recording && old(self)@.downloading ==> r == HotkeyAction::Ignore
                && final(self)@ == old(self)@,
            !old(self)@.recording && !old(self)@.downloading ==> {
                &&& r == (if old(self)@.queue.session {
                    HotkeyAction::Ignore
                } else {
                    HotkeyAction::StartRecording
                })
                &&& final(self)@ == (OrchState { queue: old(self)@.queue.begin(), ..old(self)@ })
            },
    {
        if self.recording {
            return HotkeyAction::StopRecording;
        }
        if self.downloading_model {
            return HotkeyAction::Ignore;
        }
        if self.queue.begin_hotkey_session() {
            HotkeyAction::StartRecording
        } else {
            HotkeyAction::Ignore
        }
    }

    /// A capture has started.
    pub fn recording_started(&mut self)
        requires
            old(self).wf(),
        ensures
            final(self).wf(),
            final(self)@ == (OrchState { recording: true, ..old(self)@ }),
    {
        self.recording = true;
    }

    /// A capture could not start: the session is cancelled.
    pub fn recording_failed(&mut self)
        requires
            old(self).wf(),
        ensures
            final(self).wf(),
            final(self)@ == (OrchState { queue: old(self)@.queue.cancel(), ..old(self)@ }),
    {
        self.queue.cancel_hotkey_session();
    }

    /// The capture stopped; its recording is being encoded.
    pub fn recording_stopped(&mut self)
        requires
            old(self).wf(),
        ensures
            final(self).wf(),
            final(self)@ == (OrchState {
                recording: false,
                hotkey_pending: true,
                progress: None,
                ..old(self)@
            }),
    {
        self.recording = false;
        self.hotkey_pending = true;
        self.transcription_progress = None;
    }

    /// Handles a detected file with path text `key`: ignored while the same
    /// key is in flight; else its job is queued and dispatch is tried.
    pub fn enqueue_auto_job(&mut self, key: String, job: AutoJob) -> (r: Option<Job>)
        requires
            old(self).wf(),
        ensures
            final(self).wf(),
            (final(self)@, r) == old(self)@.detect(key@, job),
    {
        if find_key(&self.inflight, &key).is_some() {
            return None;
        }
        let ghost before = self.inflight@;
        let ghost kv = key@;
        self.inflight.push(key);
        proof {
            let after = self.inflight@;
            assert(after.len() == before.len() + 1);
            assert(after[before.len() as int]@ == kv);
            assert forall|k: Seq<char>| key_set(after).contains(k) == key_set(before).insert(kv).contains(k) by {
                if key_set(after).contains(k) {
                    let j = choose|j: int| 0 <= j < after.len() && #[trigger] after[j]@ == k;
                    if j < before.len() {
                        assert(after[j] == before[j]);
                    }
                }
                if key_set(before).contains(k) {
                    let j = choose|j: int| 0 <= j < before.len() && #[trigger] before[j]@ == k;
                    assert(after[j] == before[j]);
                }
            }
            assert(key_set(after) =~= key_set(before).insert(kv));
            assert forall|i: int, j: int|
                0 <= i < self.inflight@.len() && 0 <= j < self.inflight@.len() && i != j
                implies #[trigger] self.inflight@[i]@ != #[trigger] self.inflight@[j]@ by {
                if i < before.len() && j < before.len() {
                    assert(self.inflight@[i] == before[i]);
                    assert(self.inflight@[j] == before[j]);
                } else if i < before.len() {
                    assert(self.inflight@[i] == before[i]);
                } else {
                    assert(self.inflight@[j] == before[j]);
                }
            }
        }
        self.queue.enqueue_auto(job);
        self.maybe_start_transcription()
    }

    /// Removes `key` from the in-flight set.
    fn forget_key(&mut self, key: &String)
        requires
            old(self).wf(),
        ensures
            final(self).wf(),
            final(self)@ == (OrchState { inflight: old(self)@.inflight.remove(key@), ..old(self)@ }),
    {
        let ghost before = self.inflight@;
        match find_key(&self.inflight, key) {
            None => {
                assert(key_set(before).remove(key@) =~= key_set(before));
            },
            Some(i) => {
                self.inflight.remove(i);
                proof {
                    let after = self.inflight@;
                    assert forall|k: Seq<char>| key_set(after).contains(k) == key_set(before).remove(key@).contains(k) by {
                        if key_set(after).contains(k) {
                            let j = choose|j: int| 0 <= j < after.len() && #[trigger] after[j]@ == k;
                            if j < i {
                                assert(after[j] == before[j]);
                                assert(j != i);
                            } else {
                                assert(after[j] == before[j + 1]);
                            }
                        }
                        if key_set(before).remove(key@).contains(k) {
                            let j = choose|j: int| 0 <= j < before.len() && #[trigger] before[j]@ == k;
                            assert(j != i);
                            if j < i {
                                assert(after[j] == before[j]);
                            } else {
                                assert(after[j - 1] == before[j]);
                            }
                        }
                    }
                    assert(key_set(after) =~= key_set(before).remove(key@));
                    assert forall|a: int, b: int|
                        0 <= a < after.len() && 0 <= b < after.len() && a != b
                        implies #[trigger] after[a]@ != #[trigger] after[b]@ by {
                        let a2 = if a < i { a } else { a + 1 };
                        let b2 = if b < i { b } else { b + 1 };
                        assert(after[a] == before[a2]);
                        assert(after[b] == before[b2]);
                    }
                }
            },
        }
    }

    /// Handles a worker event; returns the job to start, if any.
    pub fn handle_worker(&mut self, event: WorkerEvent) -> (r: Option<Job>)
        requires
            old(self).wf(),
        ensures
            final(self).wf(),
            match event {
                WorkerEvent::ModelReady(_) => (final(self)@, r) == (OrchState {
                    model_ready: true,
                    downloading: false,
                    download_progress: None,
                    ..old(self)@
                }).dispatch(),
                WorkerEvent::ModelProgress(p) => r is None && final(self)@ == (OrchState {
                    download_progress: Some(p),
                    ..old(self)@
                }),
                WorkerEvent::ModelError(_) => r is None && final(self)@ == (OrchState {
                    downloading: false,
                    download_progress: None,
                    ..old(self)@
                }),
                WorkerEvent::HotkeyRecordingReady(job) => (final(self)@, r) == (OrchState {
                    queue: old(self)@.queue.enqueue_hotkey(job),
                    ..old(self)@
                }).dispatch(),
                WorkerEvent::HotkeyRecordingError(_) => (final(self)@, r) == (OrchState {
                    queue: old(self)@.queue.cancel(),
                    hotkey_pending: false,
                    ..old(self)@
                }).dispatch(),
                WorkerEvent::AutoFileDetected { key, spec } => detected(old(self)@, key@, spec, final(self)@, r),
                WorkerEvent::TranscriptionProgress(p) => r is None && final(self)@ == (OrchState {
                    progress: Some(p),
                    ..old(self)@
                }),
                WorkerEvent::HotkeyTranscriptionDone { .. } => (final(self)@, r) == old(
                    self,
                )@.finish(JobKind::Hotkey, None),
                WorkerEvent::HotkeyTranscriptionError(_) => (final(self)@, r) == old(
                    self,
                )@.finish(JobKind::Hotkey, None),
                WorkerEvent::AutoTranscriptionDone { key } => (final(self)@, r) == old(
                    self,
                )@.finish(JobKind::Auto, Some(key@)),
                WorkerEvent::AutoTranscriptionError { key, .. } => (final(self)@, r) == old(
                    self,
                )@.finish(JobKind::Auto, Some(key@)),
                WorkerEvent::Error(_) => r is None && final(self)@ == old(self)@,
            },
    {
        match event {
            WorkerEvent::ModelReady(path) => {
                self.model_path = Some(path);
                self.downloading_model = false;
                self.model_download_progress = None;
                self.maybe_start_transcription()
            },
            WorkerEvent::ModelProgress(pct) => {
                self.model_download_progress = Some(pct);
                None
            },
            WorkerEvent::ModelError(_) => {
                self.downloading_model = false;
                self.model_download_progress = None;
                None
            },
            WorkerEvent::HotkeyRecordingReady(job) => {
                let _ = self.queue.enqueue_hotkey(job);
                self.maybe_start_transcription()
            },
            WorkerEvent::HotkeyRecordingError(_) => {
                self.queue.cancel_hotkey_session();
                self.hotkey_pending = false;
                self.maybe_start_transcription()
            },
            WorkerEvent::AutoFileDetected { key, spec } => self.handle_detected(key, spec),
            WorkerEvent::TranscriptionProgress(pct) => {
                self.transcription_progress = Some(pct);
                None
            },
            WorkerEvent::HotkeyTranscriptionDone { .. } | WorkerEvent::HotkeyTranscriptionError(
                _,
            ) => {
                self.transcription_progress = None;
                self.queue.complete_active(JobKind::Hotkey);
                self.maybe_start_transcription()
            },
            WorkerEvent::AutoTranscriptionDone { key } | WorkerEvent::AutoTranscriptionError {
                key,
                ..
            } => {
                self.forget_key(&key);
                self.transcription_progress = None;
                self.queue.complete_active(JobKind::Auto);
                self.maybe_start_transcription()
            },
            WorkerEvent::Error(_) => None,
        }
    }

    /// A detected input: checks its extension, derives its transcript and
    /// processed paths and queues its job; an input that is not M4A or whose
    /// paths cannot be derived is dropped.
    fn handle_detected(&mut self, key: String, spec: AutoJobSpec) -> (r: Option<Job>)
        requires
            old(self).wf(),
        ensures
            final(self).wf(),
            detected(old(self)@, key@, spec, final(self)@, r),
    {
        if !is_m4a(&spec.input_path) {
            return None;
        }
        let output_path = match transcript_path_for_output_dir(&spec.input_path, &spec.output_dir) {
            Ok(p) => p,
            Err(_) => return None,
        };
        let processed_path = match processed_path_for_input(&spec.input_path, &spec.processed_dir) {
            Ok(p) => p,
            Err(_) => return None,
        };
        let job = AutoJob { input_path: spec.input_path, output_path, processed_path };
        self.enqueue_auto_job(key, job)
    }
}

/// Once a path text is in flight, a second detection of it queues nothing
/// and changes nothing, until its job finishes.
pub proof fn duplicate_detection_ignored(s: OrchState, key: Seq<char>, first: AutoJob, second: AutoJob)
    ensures
        s.detect(key, first).0.inflight.contains(key),
        s.detect(key, first).0.detect(key, second) == (s.detect(key, first).0, None::<Job>),
{
}

} // verus!
