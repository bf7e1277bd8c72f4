//! The job scheduler: one interactive ("hotkey") slot, a FIFO of background
//! ("auto") jobs, and at most one job running at a time.
use std::collections::VecDeque;
use std::path::PathBuf;
use vstd::prelude::*;

verus! {

/// The two kinds of transcription work.
#[derive(Debug, Clone, Copy, PartialEq, Eq, Structural)]
pub enum JobKind {
    Hotkey,
    Auto,
}

/// A transcription of a just-finished interactive recording.
#[derive(Debug, Clone)]
pub struct HotkeyJob {
    pub audio_path: PathBuf,
    pub text_path: PathBuf,
}

/// A transcription of a file found in a watched directory.
#[derive(Debug, Clone)]
pub struct AutoJob {
    pub input_path: PathBuf,
    pub output_path: PathBuf,
    pub processed_path: PathBuf,
}

/// A runnable job, as handed out by [`JobQueue::next_job`].
#[derive(Debug, Clone)]
pub enum Job {
    Hotkey(HotkeyJob),
    Auto(AutoJob),
}

/// The abstract state of a [`JobQueue`].
pub ghost struct QueueState {
    pub session: bool,
    pub pending: Option<HotkeyJob>,
    pub autos: Seq<AutoJob>,
    pub active: Option<JobKind>,
}

/// One operation of the scheduler, for reasoning about sequences of calls.
pub ghost enum QueueOp {
    Begin,
    Cancel,
    EnqueueHotkey(HotkeyJob),
    EnqueueAuto(AutoJob),
    Next,
    Complete(JobKind),
}

impl QueueState {
    /// The empty scheduler: no session, nothing queued, nothing running.
    pub open spec fn initial() -> QueueState {
        QueueState { session: false, pending: None, autos: Seq::empty(), active: None }
    }

    /// A session starts unless one is already open.
    pub open spec fn begin(self) -> QueueState {
        QueueState { session: true, ..self }
    }

    /// The session ends, its recording is dropped, and a running hotkey job is
    /// forgotten.
    pub open spec fn cancel(self) -> QueueState {
        QueueState {
            session: false,
            pending: None,
            active: if self.active == Some(JobKind::Hotkey) {
                None
            } else {
                self.active
            },
            ..self
        }
    }

    /// The recording waits for dispatch, unless another one already waits.
    pub open spec fn enqueue_hotkey(self, job: HotkeyJob) -> QueueState {
        if self.pending is Some {
            self
        } else {
            QueueState { pending: Some(job), ..self }
        }
    }

    /// The file job joins the back of the FIFO.
    pub open spec fn enqueue_auto(self, job: AutoJob) -> QueueState {
        QueueState { autos: self.autos.push(job), ..self }
    }

    /// The job that `next_job` hands out in this state, if any.
    pub open spec fn next_pick(self) -> Option<Job> {
        if self.active is Some {
            None
        } else if self.pending is Some {
            Some(Job::Hotkey(self.pending->0))
        } else if self.session || self.autos.len() == 0 {
            None
        } else {
            Some(Job::Auto(self.autos[0]))
        }
    }

    /// The state after `next_job`.
    pub open spec fn next(self) -> QueueState {
        match self.next_pick() {
            Some(Job::Hotkey(_)) => QueueState {
                pending: None,
                active: Some(JobKind::Hotkey),
                ..self
            },
            Some(Job::Auto(_)) => QueueState {
                autos: self.autos.drop_first(),
                active: Some(JobKind::Auto),
                ..self
            },
            None => self,
        }
    }

    /// The running job of the given kind finishes; finishing the hotkey job
    /// also ends the session. A stale completion changes nothing.
    pub open spec fn complete(self, kind: JobKind) -> QueueState {
        if self.active == Some(kind) {
            QueueState {
                active: None,
                session: if kind == JobKind::Hotkey {
                    false
                } else {
                    self.session
                },
                ..self
            }
        } else {
            self
        }
    }

    /// The state after one operation.
    pub open spec fn apply(self, op: QueueOp) -> QueueState {
        match op {
            QueueOp::Begin => self.begin(),
            QueueOp::Cancel => self.cancel(),
            QueueOp::EnqueueHotkey(job) => self.enqueue_hotkey(job),
            QueueOp::EnqueueAuto(job) => self.enqueue_auto(job),
            QueueOp::Next => self.next(),
            QueueOp::Complete(kind) => self.complete(kind),
        }
    }

    /// The state after a sequence of operations, applied in order.
    pub open spec fn run(self, ops: Seq<QueueOp>) -> QueueState
        decreases ops.len(),
    {
        if ops.len() == 0 {
            self
        } else {
            self.apply(ops[0]).run(ops.drop_first())
        }
    }
}

/// Whether an operation can end a hotkey session.
pub open spec fn ends_session(op: QueueOp) -> bool {
    op is Cancel || op == QueueOp::Complete(JobKind::Hotkey)
}

/// Tracks the hotkey session, the waiting recording, the FIFO of file jobs
/// and the kind of job that is running.
#[derive(Debug)]
pub struct JobQueue {
    hotkey_session_active: bool,
    pending_hotkey: Option<HotkeyJob>,
    auto_queue: VecDeque<AutoJob>,
    active: Option<JobKind>,
}

impl View for JobQueue {
    type V = QueueState;

    closed spec fn view(&self) -> QueueState {
        QueueState {
            session: self.hotkey_session_active,
            pending: self.pending_hotkey,
            autos: self.auto_queue@,
            active: self.active,
        }
    }
}

impl JobQueue {
    pub fn new() -> (r: Self)
        ensures
            r@ == QueueState::initial(),
    {
        let r = JobQueue {
            hotkey_session_active: false,
            pending_hotkey: None,
            auto_queue: VecDeque::new(),
            active: None,
        };
        assert(r@.autos =~= Seq::<AutoJob>::empty());
        r
    }

    /// Opens a hotkey session; refuses (and changes nothing) while one is open.
    pub fn begin_hotkey_session(&mut self) -> (r: bool)
        ensures
            r == !old(self)@.session,
            final(self)@ == old(self)@.begin(),
    {
        if self.hotkey_session_active {
            return false;
        }
        self.hotkey_session_active = true;
        true
    }

    /// Ends the session, dropping any waiting recording; a running hotkey job
    /// stops counting as active.
    pub fn cancel_hotkey_session(&mut self)
        ensures
            final(self)@ == old(self)@.cancel(),
    {
        self.hotkey_session_active = false;
        self.pending_hotkey = None;
        if self.active == Some(JobKind::Hotkey) {
            self.active = None;
        }
    }

    pub fn hotkey_session_active(&self) -> (r: bool)
        ensures
            r == self@.session,
    {
        self.hotkey_session_active
    }

    /// Stores the finished recording for dispatch; refuses a second one.
    pub fn enqueue_hotkey(&mut self, job: HotkeyJob) -> (r: bool)
        ensures
            r == (old(self)@.pending is None),
            final(self)@ == old(self)@.enqueue_hotkey(job),
    {
        if self.pending_hotkey.is_some() {
            return false;
        }
        self.pending_hotkey = Some(job);
        true
    }

    /// Appends a file job to the back of the FIFO.
    pub fn enqueue_auto(&mut self, job: AutoJob)
        ensures
            final(self)@ == old(self)@.enqueue_auto(job),
    {
        self.auto_queue.push_back(job);
    }

    /// Hands out the next runnable job and marks its kind active: nothing while
    /// a job runs; else the waiting recording; else nothing while a session is
    /// open; else the oldest file job.
    pub fn next_job(&mut self) -> (r: Option<Job>)
        ensures
            r == old(self)@.next_pick(),
            final(self)@ == old(self)@.next(),
    {
        if self.active.is_some() {
            return None;
        }
        if let Some(job) = self.pending_hotkey.take() {
            self.active = Some(JobKind::Hotkey);
            return Some(Job::Hotkey(job));
        }
        if self.hotkey_session_active {
            return None;
        }
        if let Some(job) = self.auto_queue.pop_front() {
            self.active = Some(JobKind::Auto);
            return Some(Job::Auto(job));
        }
        None
    }

    pub fn active_kind(&self) -> (r: Option<JobKind>)
        ensures
            r == self@.active,
    {
        self.active
    }

    /// The number of file jobs waiting in the FIFO.
    pub fn auto_queue_len(&self) -> (r: usize)
        ensures
            r == self@.autos.len(),
    {
        self.auto_queue.len()
    }

    /// Marks the running job of `kind` finished; a completion for a kind that
    /// is not running is ignored.
    pub fn complete_active(&mut self, kind: JobKind)
        ensures
            final(self)@ == old(self)@.complete(kind),
    {
        if self.active == Some(kind) {
            self.active = None;
            if kind == JobKind::Hotkey {
                self.hotkey_session_active = false;
            }
        }
    }
}

impl Default for JobQueue {
    fn default() -> (r: Self)
        ensures
            r@ == QueueState::initial(),
    {
        Self::new()
    }
}

/// While a session is open, a second `begin_hotkey_session` is refused after
/// any sequence of operations that neither cancels the session nor completes
/// a hotkey job.
pub proof fn session_blocks_second_begin(s: QueueState, ops: Seq<QueueOp>)
    requires
        s.session,
        forall|i: int| 0 <= i < ops.len() ==> !ends_session(#[trigger] ops[i]),
    ensures
        s.run(ops).session,
    decreases ops.len(),
{
    if ops.len() > 0 {
        assert(!ends_session(ops[0]));
        let rest = ops.drop_first();
        assert forall|i: int| 0 <= i < rest.len() implies !ends_session(#[trigger] rest[i]) by {
            assert(rest[i] == ops[i + 1]);
        }
        session_blocks_second_begin(s.apply(ops[0]), rest);
    }
}

/// Cancelling, or completing the running hotkey job, lets the next
/// `begin_hotkey_session` succeed.
pub proof fn session_reopens_after_end(s: QueueState)
    ensures
        !s.cancel().session,
        s.active == Some(JobKind::Hotkey) ==> !s.complete(JobKind::Hotkey).session,
{
}

/// With nothing running, a waiting recording is dispatched before any queued
/// file job.
pub proof fn hotkey_dispatched_first(s: QueueState)
    requires
        s.pending is Some,
        s.autos.len() > 0,
        s.active is None,
    ensures
        s.next_pick() == Some(Job::Hotkey(s.pending->0)),
        s.next().autos == s.autos,
        s.next().active == Some(JobKind::Hotkey),
{
}

/// While a session is open and its recording is not ready yet, no file job
/// is started, whatever is queued.
pub proof fn session_holds_back_auto(s: QueueState)
    requires
        s.session,
        s.pending is None,
    ensures
        s.next_pick() is None,
        s.next() == s,
{
}

/// A completion for a kind that is not running changes nothing.
pub proof fn stale_completion_ignored(s: QueueState, kind: JobKind)
    requires
        s.active != Some(kind),
    ensures
        s.complete(kind) == s,
{
}

/// The first job that `next_job` hands out along a sequence of operations
/// applied from `s`, if any.
pub open spec fn first_dispatched(s: QueueState, ops: Seq<QueueOp>) -> Option<Job>
    decreases ops.len(),
{
    if ops.len() == 0 {
        None
    } else if ops[0] is Next && s.next_pick() is Some {
        s.next_pick()
    } else {
        first_dispatched(s.apply(ops[0]), ops.drop_first())
    }
}

/// Whether an operation can take away or replace a waiting recording.
pub open spec fn touches_recording(op: QueueOp) -> bool {
    op is Cancel || op is EnqueueHotkey
}

/// A waiting recording is the first job handed out, whatever file jobs are
/// queued or running, along any sequence of operations that neither cancels
/// the session nor enqueues another recording.
pub proof fn hotkey_dispatched_before_queued_auto(s: QueueState, ops: Seq<QueueOp>)
    requires
        s.pending is Some,
        forall|i: int| 0 <= i < ops.len() ==> !touches_recording(#[trigger] ops[i]),
    ensures
        first_dispatched(s, ops) is None || first_dispatched(s, ops) == Some(Job::Hotkey(s.pending->0)),
    decreases ops.len(),
{
    if ops.len() > 0 {
        if !(ops[0] is Next && s.next_pick() is Some) {
            assert(!touches_recording(ops[0]));
            let rest = ops.drop_first();
            assert forall|i: int| 0 <= i < rest.len() implies !touches_recording(#[trigger] rest[i]) by {
                assert(rest[i] == ops[i + 1]);
            }
            assert(s.apply(ops[0]).pending == s.pending);
            hotkey_dispatched_before_queued_auto(s.apply(ops[0]), rest);
        }
    }
}

} // verus!
