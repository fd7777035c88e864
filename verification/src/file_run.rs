//! The steps in which one file is downloaded.
use crate::chunks::{
    build_chunk_queue, choose_manifest, completed_bytes, completed_sum, missing_chunks, saved_view,
    starting_manifest, Chunk, ManifestView, ResumeManifest,
};
use crate::error::{DownloadError, ErrorView};
use crate::tasks::{baseline_set, status_set, AppState, StateView, TaskStatus};
use std::collections::VecDeque;
use vstd::prelude::*;

verus! {

/// A file that is to be downloaded, and how.
pub struct FileJob {
    pub total_size: u64,
    pub chunk_size: u64,
    pub overwrite: bool,
    pub verify_integrity: bool,
    /// The bytes of the task that were there before this file.
    pub global_base: u64,
    /// Whether the task counts the bytes of several files together.
    pub shared: bool,
    /// Whether the task shows that the file is verified.
    pub show_verify_status: bool,
    /// Whether bytes that are already there count as progress.
    pub count_resume_progress: bool,
    pub manifest_id: String,
    pub file_name: String,
}

/// How far the download of a file has come.
#[derive(Debug, Clone, Copy, PartialEq, Eq, Structural)]
pub enum FilePhase {
    /// Nothing was done yet.
    New,
    /// The user may have paused the task.
    AtStart,
    /// It is found out whether the file is there.
    AtOutput,
    /// The place for the file is prepared.
    Preparing,
    /// It is found out whether an incomplete file is there.
    AtPart,
    /// The manifest is read.
    Loading,
    /// The incomplete file is opened.
    Opening,
    /// The chunks are fetched.
    Working,
    /// All chunks are there; the user may have paused the task.
    AtEnd,
    /// The file is to be verified; the user may have paused the task.
    AtVerify,
    /// The file is verified.
    Verifying,
    /// The file is put in its place.
    Publishing,
    /// The download is over.
    Over,
}

/// What has happened since the last step.
pub enum FileEvent {
    /// What was to be done is done.
    Done,
    /// The answer to a question.
    Answer(bool),
    /// The manifest, where there is one that can be read.
    Loaded(Option<ResumeManifest>),
    /// What was to be done has failed.
    Failed(DownloadError),
}

/// What is noted of a task's progress.
#[derive(Debug, Clone, Copy, PartialEq, Eq, Structural)]
pub enum Baseline {
    /// Nothing.
    Keep,
    /// The task starts out with this many bytes.
    Own(u64),
    /// This many bytes are added to those that the task counts together.
    Shared(u64),
}

/// What is to be done next.
pub enum FileAction {
    /// Wait while the task is paused, and restore this status.
    Gate(TaskStatus),
    /// Find out whether a file of the right size stands in the file's place.
    CheckOutput,
    /// Make the folder, note the artifacts, and remove old ones if `discard`.
    Prepare { discard: bool },
    /// Find out whether an incomplete file of the right size is there.
    CheckPart,
    /// Read the manifest.
    LoadManifest,
    /// Open the incomplete file, give it its size, and save this manifest.
    Open(ResumeManifest),
    /// Note the progress, then fetch these chunks.
    Work { manifest: ResumeManifest, queue: VecDeque<Chunk>, already: u64, baseline: Baseline },
    /// Show that the file is verified, if `show`, and wait while the task is paused.
    BeginVerify { show: bool },
    /// Check the authentication code of the file.
    Verify,
    /// Put the file in its place and remove the manifest.
    Publish,
    /// Note the progress; the download is over.
    Skipped(Baseline),
    /// Report this progress, if any; the download is over.
    Finished(Option<u64>),
    /// The download is over, with this error.
    Failed(DownloadError),
}

/// The mathematical form of a `FileJob`.
pub struct JobView {
    pub total_size: u64,
    pub chunk_size: u64,
    pub overwrite: bool,
    pub verify_integrity: bool,
    pub global_base: u64,
    pub shared: bool,
    pub show_verify_status: bool,
    pub count_resume_progress: bool,
    pub manifest_id: Seq<char>,
    pub file_name: Seq<char>,
}

impl View for FileJob {
    type V = JobView;

    open spec fn view(&self) -> JobView {
        JobView {
            total_size: self.total_size,
            chunk_size: self.chunk_size,
            overwrite: self.overwrite,
            verify_integrity: self.verify_integrity,
            global_base: self.global_base,
            shared: self.shared,
            show_verify_status: self.show_verify_status,
            count_resume_progress: self.count_resume_progress,
            manifest_id: self.manifest_id@,
            file_name: self.file_name@,
        }
    }
}

/// The mathematical form of a `FileEvent`.
pub enum EventView {
    Done,
    Answer(bool),
    Loaded(Option<ManifestView>),
    Failed(ErrorView),
}

impl View for FileEvent {
    type V = EventView;

    open spec fn view(&self) -> EventView {
        match self {
            FileEvent::Done => EventView::Done,
            FileEvent::Answer(yes) => EventView::Answer(*yes),
            FileEvent::Loaded(saved) => EventView::Loaded(saved_view(*saved)),
            FileEvent::Failed(error) => EventView::Failed(error@),
        }
    }
}

/// The mathematical form of a `FileAction`.
pub enum ActionView {
    Gate(TaskStatus),
    CheckOutput,
    Prepare { discard: bool },
    CheckPart,
    LoadManifest,
    Open(ManifestView),
    Work { manifest: ManifestView, queue: Seq<Chunk>, already: int, baseline: Baseline },
    BeginVerify { show: bool },
    Verify,
    Publish,
    Skipped(Baseline),
    Finished(Option<u64>),
    Failed(ErrorView),
}

impl View for FileAction {
    type V = ActionView;

    open spec fn view(&self) -> ActionView {
        match self {
            FileAction::Gate(status) => ActionView::Gate(*status),
            FileAction::CheckOutput => ActionView::CheckOutput,
            FileAction::Prepare { discard } => ActionView::Prepare { discard: *discard },
            FileAction::CheckPart => ActionView::CheckPart,
            FileAction::LoadManifest => ActionView::LoadManifest,
            FileAction::Open(manifest) => ActionView::Open(manifest@),
            FileAction::Work { manifest, queue, already, baseline } => ActionView::Work {
                manifest: manifest@,
                queue: queue@,
                already: *already as int,
                baseline: *baseline,
            },
            FileAction::BeginVerify { show } => ActionView::BeginVerify { show: *show },
            FileAction::Verify => ActionView::Verify,
            FileAction::Publish => ActionView::Publish,
            FileAction::Skipped(baseline) => ActionView::Skipped(*baseline),
            FileAction::Finished(report) => ActionView::Finished(*report),
            FileAction::Failed(error) => ActionView::Failed(error@),
        }
    }
}

/// What is noted of the progress of a task where `bytes` of a file are there already. Bytes that
/// are counted together are only added if they count as progress.
pub open spec fn baseline_of(job: JobView, bytes: int) -> Baseline {
    if !job.shared {
        Baseline::Own((job.global_base + bytes) as u64)
    } else if job.count_resume_progress {
        Baseline::Shared(bytes as u64)
    } else {
        Baseline::Keep
    }
}

/// The manifest of a download that starts from nothing.
pub open spec fn fresh_manifest(job: JobView) -> ManifestView {
    starting_manifest(None, job.manifest_id, job.file_name, job.total_size, job.chunk_size)
}

/// The fetching of the chunks that are not there yet.
pub open spec fn work_of(job: JobView, manifest: ManifestView) -> ActionView {
    let total = job.total_size as int;
    let size = job.chunk_size as int;
    let already = completed_sum(manifest.completed, total, size);
    ActionView::Work {
        manifest,
        queue: missing_chunks(total, size, manifest.completed),
        already,
        baseline: if job.shared && already <= 0 {
            Baseline::Keep
        } else {
            baseline_of(job, already)
        },
    }
}

/// Whether an event can happen in a phase.
pub open spec fn expects(phase: FilePhase, event: EventView) -> bool {
    match event {
        EventView::Done => phase != FilePhase::AtOutput && phase != FilePhase::AtPart && phase
            != FilePhase::Loading && phase != FilePhase::Over,
        EventView::Answer(_) => phase == FilePhase::AtOutput || phase == FilePhase::AtPart,
        EventView::Loaded(_) => phase == FilePhase::Loading,
        EventView::Failed(_) => phase != FilePhase::New && phase != FilePhase::Over,
    }
}

/// The next phase of a download, the manifest that it works with, and what is to be done.
pub open spec fn next_step(
    job: JobView,
    phase: FilePhase,
    manifest: ManifestView,
    event: EventView,
) -> (FilePhase, ManifestView, ActionView) {
    let fresh = fresh_manifest(job);
    match event {
        EventView::Failed(error) => (FilePhase::Over, manifest, ActionView::Failed(error)),
        EventView::Loaded(saved) => {
            let resumed = starting_manifest(
                saved,
                job.manifest_id,
                job.file_name,
                job.total_size,
                job.chunk_size,
            );
            (FilePhase::Opening, resumed, ActionView::Open(resumed))
        },
        EventView::Answer(yes) => if phase == FilePhase::AtOutput {
            if yes && !job.overwrite {
                (
                    FilePhase::Over,
                    manifest,
                    ActionView::Skipped(baseline_of(job, job.total_size as int)),
                )
            } else {
                (FilePhase::Preparing, manifest, ActionView::Prepare { discard: job.overwrite })
            }
        } else {
            if yes {
                (FilePhase::Loading, manifest, ActionView::LoadManifest)
            } else {
                (FilePhase::Opening, fresh, ActionView::Open(fresh))
            }
        },
        EventView::Done => match phase {
            FilePhase::New => (
                FilePhase::AtStart,
                manifest,
                ActionView::Gate(TaskStatus::Downloading),
            ),
            FilePhase::AtStart => (FilePhase::AtOutput, manifest, ActionView::CheckOutput),
            FilePhase::Preparing => if job.overwrite {
                (FilePhase::Opening, fresh, ActionView::Open(fresh))
            } else {
                (FilePhase::AtPart, manifest, ActionView::CheckPart)
            },
            FilePhase::Opening => (FilePhase::Working, manifest, work_of(job, manifest)),
            FilePhase::Working => (
                FilePhase::AtEnd,
                manifest,
                ActionView::Gate(TaskStatus::Downloading),
            ),
            FilePhase::AtEnd => if job.verify_integrity {
                (
                    FilePhase::AtVerify,
                    manifest,
                    ActionView::BeginVerify { show: job.show_verify_status },
                )
            } else {
                (FilePhase::Publishing, manifest, ActionView::Publish)
            },
            FilePhase::AtVerify => (FilePhase::Verifying, manifest, ActionView::Verify),
            FilePhase::Verifying => (FilePhase::Publishing, manifest, ActionView::Publish),
            _ => (
                FilePhase::Over,
                manifest,
                ActionView::Finished(
                    if job.shared {
                        None
                    } else {
                        Some((job.global_base + job.total_size) as u64)
                    },
                ),
            ),
        },
    }
}

/// The download of a file.
pub struct FileRun {
    pub job: FileJob,
    pub phase: FilePhase,
    /// What is known of the chunks that are there.
    pub manifest: ResumeManifest,
}

/// Whether the bytes that a manifest lists can be counted in a download.
pub open spec fn countable(job: JobView, manifest: ManifestView) -> bool {
    job.global_base + completed_sum(
        manifest.completed,
        job.total_size as int,
        job.chunk_size as int,
    ) <= u64::MAX
}

/// A manifest that lists nothing can always be counted.
proof fn lemma_nothing_is_countable(total_size: int, chunk_size: int, limit: nat)
    requires
        limit <= total_size <= u64::MAX,
    ensures
        crate::chunks::bytes_started_below(Set::empty(), limit, total_size, chunk_size) == 0,
    decreases limit,
{
    if limit > 0 {
        lemma_nothing_is_countable(total_size, chunk_size, (limit - 1) as nat);
    }
}

impl FileRun {
    /// The file has chunks, and its bytes can be counted.
    pub open spec fn wf(self) -> bool {
        &&& self.job.chunk_size > 0 || self.job.total_size == 0
        &&& self.job.global_base + self.job.total_size <= u64::MAX
        &&& self.phase == FilePhase::Opening ==> countable(self.job@, self.manifest@)
    }

    /// A download of which nothing was done yet.
    pub fn new(job: FileJob) -> (run: FileRun)
        requires
            job.chunk_size > 0 || job.total_size == 0,
            job.global_base + job.total_size <= u64::MAX,
        ensures
            run.wf(),
            run.job == job,
            run.phase == FilePhase::New,
            run.manifest@ == fresh_manifest(job@),
    {
        let manifest = choose_manifest(
            None,
            job.manifest_id.clone(),
            &job.file_name,
            job.total_size,
            job.chunk_size,
        );
        FileRun { job, phase: FilePhase::New, manifest }
    }

    /// A manifest that lists nothing.
    fn fresh(&self) -> (manifest: ResumeManifest)
        ensures
            manifest@ == fresh_manifest(self.job@),
    {
        choose_manifest(
            None,
            self.job.manifest_id.clone(),
            &self.job.file_name,
            self.job.total_size,
            self.job.chunk_size,
        )
    }

    /// What is noted of the progress where `bytes` of the file are there already.
    fn baseline(&self, bytes: u64) -> (baseline: Baseline)
        requires
            self.job.global_base + bytes <= u64::MAX,
        ensures
            baseline == baseline_of(self.job@, bytes as int),
    {
        if !self.job.shared {
            Baseline::Own(self.job.global_base + bytes)
        } else if self.job.count_resume_progress {
            Baseline::Shared(bytes)
        } else {
            Baseline::Keep
        }
    }

    /// Starts to open the incomplete file with this manifest.
    fn open(&mut self, manifest: ResumeManifest) -> (action: FileAction)
        requires
            old(self).wf(),
            countable(old(self).job@, manifest@),
        ensures
            final(self).wf(),
            final(self).job == old(self).job,
            final(self).phase == FilePhase::Opening,
            final(self).manifest@ == manifest@,
            action@ == ActionView::Open(manifest@),
    {
        let saved = manifest.copy();
        self.phase = FilePhase::Opening;
        self.manifest = manifest;
        FileAction::Open(saved)
    }

    /// The fetching of the chunks that are not there yet.
    fn work(&self) -> (action: FileAction)
        requires
            self.wf(),
            self.phase == FilePhase::Opening,
        ensures
            action@ == work_of(self.job@, self.manifest@),
    {
        let already: u64 = completed_bytes(
            &self.manifest.completed,
            self.job.total_size,
            self.job.chunk_size,
        );
        let queue = build_chunk_queue(
            self.job.total_size,
            self.job.chunk_size,
            &self.manifest.completed,
        );
        let baseline = if self.job.shared && already == 0 {
            Baseline::Keep
        } else {
            self.baseline(already)
        };
        FileAction::Work { manifest: self.manifest.copy(), queue, already, baseline }
    }

    /// Goes on after something has happened. Returns what is to be done next.
    pub fn step(&mut self, event: FileEvent) -> (action: FileAction)
        requires
            old(self).wf(),
            expects(old(self).phase, event@),
            event matches FileEvent::Loaded(saved) ==> countable(
                old(self).job@,
                starting_manifest(
                    saved_view(saved),
                    old(self).job@.manifest_id,
                    old(self).job@.file_name,
                    old(self).job.total_size,
                    old(self).job.chunk_size,
                ),
            ),
        ensures
            final(self).wf(),
            final(self).job == old(self).job,
            (final(self).phase, final(self).manifest@, action@) == next_step(
                old(self).job@,
                old(self).phase,
                old(self).manifest@,
                event@,
            ),
    {
        proof {
            lemma_nothing_is_countable(
                self.job.total_size as int,
                self.job.chunk_size as int,
                self.job.total_size as nat,
            );
        }
        match event {
            FileEvent::Failed(error) => {
                self.phase = FilePhase::Over;
                FileAction::Failed(error)
            },
            FileEvent::Loaded(saved) => {
                let manifest = choose_manifest(
                    saved,
                    self.job.manifest_id.clone(),
                    &self.job.file_name,
                    self.job.total_size,
                    self.job.chunk_size,
                );
                self.open(manifest)
            },
            FileEvent::Answer(yes) => if matches!(self.phase, FilePhase::AtOutput) {
                if yes && !self.job.overwrite {
                    self.phase = FilePhase::Over;
                    FileAction::Skipped(self.baseline(self.job.total_size))
                } else {
                    self.phase = FilePhase::Preparing;
                    FileAction::Prepare { discard: self.job.overwrite }
                }
            } else {
                if yes {
                    self.phase = FilePhase::Loading;
                    FileAction::LoadManifest
                } else {
                    let manifest = self.fresh();
                    self.open(manifest)
                }
            },
            FileEvent::Done => match self.phase {
                FilePhase::New => {
                    self.phase = FilePhase::AtStart;
                    FileAction::Gate(TaskStatus::Downloading)
                },
                FilePhase::AtStart => {
                    self.phase = FilePhase::AtOutput;
                    FileAction::CheckOutput
                },
                FilePhase::Preparing => if self.job.overwrite {
                    let manifest = self.fresh();
                    self.open(manifest)
                } else {
                    self.phase = FilePhase::AtPart;
                    FileAction::CheckPart
                },
                FilePhase::Opening => {
                    let action = self.work();
                    self.phase = FilePhase::Working;
                    action
                },
                FilePhase::Working => {
                    self.phase = FilePhase::AtEnd;
                    FileAction::Gate(TaskStatus::Downloading)
                },
                FilePhase::AtEnd => if self.job.verify_integrity {
                    self.phase = FilePhase::AtVerify;
                    FileAction::BeginVerify { show: self.job.show_verify_status }
                } else {
                    self.phase = FilePhase::Publishing;
                    FileAction::Publish
                },
                FilePhase::AtVerify => {
                    self.phase = FilePhase::Verifying;
                    FileAction::Verify
                },
                FilePhase::Verifying => {
                    self.phase = FilePhase::Publishing;
                    FileAction::Publish
                },
                _ => {
                    self.phase = FilePhase::Over;
                    FileAction::Finished(
                        if self.job.shared {
                            None
                        } else {
                            Some(self.job.global_base + self.job.total_size)
                        },
                    )
                },
            },
        }
    }
}

/// The program with what is noted of a task's progress, which has `total` bytes. Where bytes are
/// counted together, `counted` of them are there now.
pub open spec fn baseline_noted(
    state: StateView,
    id: Seq<char>,
    baseline: Baseline,
    counted: u64,
    total: u64,
    now: u128,
) -> StateView {
    match baseline {
        Baseline::Keep => state,
        Baseline::Own(bytes) => baseline_set(state, id, bytes, total, now),
        Baseline::Shared(_) => baseline_set(state, id, counted, total, now),
    }
}

/// The program as the download of a file of a task takes an action. Bytes that are there already
/// are noted before chunks are fetched, or where the file is skipped, and the task shows that the
/// file is verified if it is to.
pub open spec fn action_noted(
    state: StateView,
    id: Seq<char>,
    action: ActionView,
    counted: u64,
    total: u64,
    now: u128,
) -> StateView {
    match action {
        ActionView::Work { baseline, .. } => baseline_noted(
            state,
            id,
            baseline,
            counted,
            total,
            now,
        ),
        ActionView::Skipped(baseline) => baseline_noted(state, id, baseline, counted, total, now),
        ActionView::BeginVerify { show: true } => status_set(state, id, TaskStatus::Verifying, now),
        _ => state,
    }
}

impl AppState {
    /// Notes what is to be seen of an action of the download of a file: its task has `total`
    /// bytes, and `counted` are there now of those that are counted together.
    pub fn note_action(
        &mut self,
        id: &str,
        action: &FileAction,
        counted: u64,
        total: u64,
        now: u128,
    )
        requires
            old(self).wf(),
        ensures
            final(self).wf(),
            final(self)@ == action_noted(old(self)@, id@, action@, counted, total, now),
    {
        let baseline = match action {
            FileAction::Work { baseline, .. } => *baseline,
            FileAction::Skipped(baseline) => *baseline,
            FileAction::BeginVerify { show } => {
                if *show {
                    self.set_status(id, TaskStatus::Verifying, now);
                }
                Baseline::Keep
            },
            _ => Baseline::Keep,
        };
        match baseline {
            Baseline::Keep => {},
            Baseline::Own(bytes) => self.set_progress_baseline(id, bytes, total, now),
            Baseline::Shared(_) => self.set_progress_baseline(id, counted, total, now),
        }
    }
}

/// The bytes that an action adds to those that are counted together.
pub open spec fn bytes_shared(action: ActionView) -> u64 {
    match action {
        ActionView::Work { baseline: Baseline::Shared(bytes), .. } => bytes,
        ActionView::Skipped(Baseline::Shared(bytes)) => bytes,
        _ => 0,
    }
}

/// The bytes that an action adds to those that are counted together.
pub fn shared_bytes(action: &FileAction) -> (bytes: u64)
    ensures
        bytes == bytes_shared(action@),
{
    match action {
        FileAction::Work { baseline: Baseline::Shared(bytes), .. } => *bytes,
        FileAction::Skipped(Baseline::Shared(bytes)) => *bytes,
        _ => 0,
    }
}

/// What a task reports after one of its workers has fetched a chunk: the bytes that are counted
/// together, or those of the file after those that were there before it.
pub fn progress_after_chunk(
    job: &FileJob,
    downloaded: u64,
    shared_downloaded: u64,
) -> (progress: u64)
    requires
        job.shared || job.global_base + downloaded <= u64::MAX,
    ensures
        progress == (if job.shared {
            shared_downloaded as int
        } else {
            job.global_base + downloaded
        }),
{
    if job.shared {
        shared_downloaded
    } else {
        job.global_base + downloaded
    }
}

/// What a worker does next, once it may go on.
pub enum WorkerStep {
    /// It ends.
    Stop,
    /// It fetches this chunk.
    Fetch(Chunk),
}

/// What a worker does next: it ends if the others are to stop or no chunk is left, and otherwise
/// takes the next chunk.
pub fn worker_step(stopped: bool, queue: &mut VecDeque<Chunk>) -> (step: WorkerStep)
    ensures
        match step {
            WorkerStep::Stop => (stopped || old(queue)@.len() == 0) && final(queue)@ == old(
                queue,
            )@,
            WorkerStep::Fetch(chunk) => !stopped && old(queue)@.len() > 0 && chunk == old(queue)@[0]
                && final(queue)@ == old(queue)@.skip(1),
        },
{
    if stopped {
        return WorkerStep::Stop;
    }
    match queue.pop_front() {
        Some(chunk) => WorkerStep::Fetch(chunk),
        None => WorkerStep::Stop,
    }
}

/// The phase of a download after these events, and the manifest that it works with.
pub open spec fn state_after(job: JobView, events: Seq<EventView>) -> (FilePhase, ManifestView)
    decreases events.len(),
{
    if events.len() == 0 {
        (FilePhase::New, fresh_manifest(job))
    } else {
        let before = state_after(job, events.drop_last());
        let step = next_step(job, before.0, before.1, events.last());
        (step.0, step.1)
    }
}

/// What is to be done after these events, of which there is at least one.
pub open spec fn action_after(job: JobView, events: Seq<EventView>) -> ActionView {
    let before = state_after(job, events.drop_last());
    next_step(job, before.0, before.1, events.last()).2
}

/// Whether each event can happen after those before it.
pub open spec fn can_happen(job: JobView, events: Seq<EventView>) -> bool
    decreases events.len(),
{
    events.len() > 0 ==> can_happen(job, events.drop_last()) && expects(
        state_after(job, events.drop_last()).0,
        events.last(),
    )
}

/// The number of phases that come before a phase.
pub open spec fn phase_rank(phase: FilePhase) -> nat {
    match phase {
        FilePhase::New => 0,
        FilePhase::AtStart => 1,
        FilePhase::AtOutput => 2,
        FilePhase::Preparing => 3,
        FilePhase::AtPart => 4,
        FilePhase::Loading => 5,
        FilePhase::Opening => 6,
        FilePhase::Working => 7,
        FilePhase::AtEnd => 8,
        FilePhase::AtVerify => 9,
        FilePhase::Verifying => 10,
        FilePhase::Publishing => 11,
        FilePhase::Over => 12,
    }
}

/// A download is over after at most twelve events: no phase comes twice.
pub proof fn downloads_come_to_an_end(job: JobView, events: Seq<EventView>)
    requires
        can_happen(job, events),
    ensures
        events.len() <= phase_rank(state_after(job, events).0) <= 12,
    decreases events.len(),
{
    if events.len() > 0 {
        downloads_come_to_an_end(job, events.drop_last());
    }
}

/// In a download that has come to the end of its work, the last thing done but for waiting was to
/// fetch the chunks that the manifest did not list, and it succeeded.
proof fn lemma_end_follows_work(job: JobView, events: Seq<EventView>)
    requires
        can_happen(job, events),
        state_after(job, events).0 == FilePhase::AtEnd,
    ensures
        events.len() >= 2,
        events.last() == EventView::Done,
        action_after(job, events.drop_last()) == work_of(job, state_after(job, events).1),
{
    let before = events.drop_last();
    assert(can_happen(job, before));
    assert(before.len() > 0);
    assert(can_happen(job, before.drop_last()));
}

/// A file is put in its place only after the chunks that its manifest did not list were fetched
/// with success and, if that is asked for, after the file was verified with success. Nothing but
/// waiting for the user comes in between.
pub proof fn publishing_follows_work_and_verification(job: JobView, events: Seq<EventView>)
    requires
        events.len() > 0,
        can_happen(job, events),
        action_after(job, events) == ActionView::Publish,
    ensures
        ({
            let n = events.len() as int;
            let work = work_of(job, state_after(job, events).1);
            &&& events[n - 1] == EventView::Done
            &&& if job.verify_integrity {
                &&& n >= 5
                &&& action_after(job, events.take(n - 1)) == ActionView::Verify
                &&& action_after(job, events.take(n - 4)) == work
                &&& events[n - 4] == EventView::Done
            } else {
                &&& n >= 3
                &&& action_after(job, events.take(n - 2)) == work
                &&& events[n - 2] == EventView::Done
            }
        }),
{
    let n = events.len() as int;
    let e1 = events.drop_last();
    assert(e1 == events.take(n - 1));
    assert(e1.len() > 0);
    if job.verify_integrity {
        let e2 = e1.drop_last();
        let e3 = e2.drop_last();
        assert(can_happen(job, e1));
        assert(state_after(job, e1).0 == FilePhase::Verifying);
        assert(can_happen(job, e2));
        assert(state_after(job, e2).0 == FilePhase::AtVerify);
        assert(e2.len() > 0);
        assert(can_happen(job, e3));
        assert(state_after(job, e3).0 == FilePhase::AtEnd);
        lemma_end_follows_work(job, e3);
        assert(e3.drop_last() == events.take(n - 4));
    } else {
        lemma_end_follows_work(job, e1);
        assert(e1.drop_last() == events.take(n - 2));
    }
}

/// Any failure ends the download with that failure.
pub proof fn failures_end_the_download(
    job: JobView,
    phase: FilePhase,
    manifest: ManifestView,
    error: ErrorView,
)
    ensures
        next_step(job, phase, manifest, EventView::Failed(error)) == (
            FilePhase::Over,
            manifest,
            ActionView::Failed(error),
        ),
{
}

/// A file that is complete is neither fetched nor changed, unless it is to be overwritten.
pub proof fn complete_files_are_skipped(job: JobView, manifest: ManifestView)
    requires
        !job.overwrite,
    ensures
        next_step(job, FilePhase::AtOutput, manifest, EventView::Answer(true)) == (
            FilePhase::Over,
            manifest,
            ActionView::Skipped(baseline_of(job, job.total_size as int)),
        ),
{
}

/// A file that is overwritten is fetched from its first byte, whatever is there already.
pub proof fn overwriting_starts_from_nothing(job: JobView, manifest: ManifestView)
    requires
        job.overwrite,
    ensures
        next_step(job, FilePhase::AtOutput, manifest, EventView::Answer(true)).2
            == (ActionView::Prepare { discard: true }),
        next_step(job, FilePhase::Preparing, manifest, EventView::Done).1.completed == Set::<
            u64,
        >::empty(),
{
}

/// What comes after each thing that was done with success, in every download. The first wait is
/// followed by a look at the output. What was prepared is opened, and fetched from nothing, if it
/// is to be overwritten. Otherwise the incomplete file is looked for. What was opened is fetched,
/// and what was fetched is verified if that is asked for, put in its place and reported.
pub proof fn one_thing_follows_another(job: JobView, events: Seq<EventView>)
    requires
        events.len() > 1,
        can_happen(job, events),
        events.last() == EventView::Done,
    ensures
        match action_after(job, events.drop_last()) {
            ActionView::Gate(status) => status == TaskStatus::Downloading && if events.len() == 2 {
                action_after(job, events) == ActionView::CheckOutput
            } else if job.verify_integrity {
                action_after(job, events) == (ActionView::BeginVerify {
                    show: job.show_verify_status,
                })
            } else {
                action_after(job, events) == ActionView::Publish
            },
            ActionView::Prepare { discard } => discard == job.overwrite && if job.overwrite {
                &&& action_after(job, events) matches ActionView::Open(manifest)
                &&& manifest.manifest_id == job.manifest_id
                &&& manifest.file_name == job.file_name
                &&& manifest.total_bytes == job.total_size
                &&& manifest.chunk_size == job.chunk_size
                &&& manifest.completed == Set::<u64>::empty()
            } else {
                action_after(job, events) == ActionView::CheckPart
            },
            ActionView::Open(opened) => action_after(job, events) matches ActionView::Work {
                manifest,
                ..
            } && manifest == opened,
            ActionView::Work { .. } => action_after(job, events) == ActionView::Gate(
                TaskStatus::Downloading,
            ),
            ActionView::BeginVerify { .. } => action_after(job, events) == ActionView::Verify,
            ActionView::Verify => action_after(job, events) == ActionView::Publish,
            ActionView::Publish => action_after(job, events) == ActionView::Finished(
                if job.shared {
                    None
                } else {
                    Some((job.global_base + job.total_size) as u64)
                },
            ),
            _ => false,
        },
{
    let before = events.drop_last();
    let first = before.drop_last();
    assert(can_happen(job, before));
    assert(can_happen(job, first));
    if first.len() > 0 {
        downloads_come_to_an_end(job, first);
        assert(can_happen(job, first.drop_last()));
        assert(state_after(job, first).0 != FilePhase::New);
        assert(state_after(job, before).0 != FilePhase::AtStart);
    }
}

/// What comes after each answer, in every download. A complete file is skipped unless it is to be
/// overwritten, and otherwise the download is prepared. Where an incomplete file of the right size
/// is found, its manifest is read, and where none is, the download starts from nothing.
pub proof fn answers_decide_what_is_done(job: JobView, events: Seq<EventView>)
    requires
        events.len() > 1,
        can_happen(job, events),
        events.last() is Answer,
    ensures
        action_after(job, events.drop_last()) == ActionView::CheckOutput || action_after(
            job,
            events.drop_last(),
        ) == ActionView::CheckPart,
        action_after(job, events.drop_last()) == ActionView::CheckOutput ==> if events.last()
            == EventView::Answer(true) && !job.overwrite {
            action_after(job, events) is Skipped
        } else {
            action_after(job, events) == (ActionView::Prepare { discard: job.overwrite })
        },
        action_after(job, events.drop_last()) == ActionView::CheckPart ==> {
            &&& !job.overwrite
            &&& events.last() == EventView::Answer(true) ==> action_after(job, events)
                == ActionView::LoadManifest
            &&& events.last() == EventView::Answer(false) ==> {
                &&& action_after(job, events) matches ActionView::Open(manifest)
                &&& manifest.manifest_id == job.manifest_id
                &&& manifest.total_bytes == job.total_size
                &&& manifest.chunk_size == job.chunk_size
                &&& manifest.completed == Set::<u64>::empty()
            }
        },
{
    let before = events.drop_last();
    let first = before.drop_last();
    assert(can_happen(job, before));
    assert(can_happen(job, first));
}

/// A manifest is read only where an incomplete file of the right size was found. One that fits is
/// opened as it was saved, and any other counts as one that lists nothing.
pub proof fn fitting_manifests_are_opened(job: JobView, events: Seq<EventView>)
    requires
        events.len() > 1,
        can_happen(job, events),
        events.last() is Loaded,
    ensures
        action_after(job, events.drop_last()) == ActionView::LoadManifest,
        events.drop_last().last() == EventView::Answer(true),
        action_after(job, events) matches ActionView::Open(manifest) && match events.last() {
            EventView::Loaded(Some(saved)) => if saved.manifest_id == job.manifest_id
                && saved.total_bytes == job.total_size && saved.chunk_size == job.chunk_size {
                manifest == saved
            } else {
                manifest.completed == Set::<u64>::empty()
            },
            _ => manifest.completed == Set::<u64>::empty(),
        },
{
    let before = events.drop_last();
    let first = before.drop_last();
    assert(can_happen(job, before));
    assert(can_happen(job, first));
}

/// In every download whose manifest was read and fits, a chunk of the file is fetched exactly if
/// the manifest does not list it. In every other download all chunks are fetched.
pub proof fn only_unlisted_chunks_are_fetched(job: JobView, events: Seq<EventView>, k: int)
    requires
        events.len() > 1,
        can_happen(job, events),
        action_after(job, events) is Work,
        0 <= k,
        k * job.chunk_size < job.total_size,
        0 < job.chunk_size,
    ensures
        ({
            let start = k * job.chunk_size;
            let end = if start + job.chunk_size <= job.total_size {
                start + job.chunk_size - 1
            } else {
                job.total_size - 1
            };
            let chunk = Chunk { start: start as u64, end: end as u64 };
            let queue = action_after(job, events)->queue;
            match events[events.len() - 2] {
                EventView::Loaded(Some(saved)) => if saved.manifest_id == job.manifest_id
                    && saved.total_bytes == job.total_size && saved.chunk_size == job.chunk_size {
                    queue.contains(chunk) <==> !saved.completed.contains(start as u64)
                } else {
                    queue.contains(chunk)
                },
                _ => queue.contains(chunk),
            }
        }),
{
    let before = events.drop_last();
    let first = before.drop_last();
    assert(can_happen(job, before));
    assert(can_happen(job, first));
    assert(before.last() == events[events.len() - 2]);
    let total = job.total_size as int;
    let size = job.chunk_size as int;
    crate::chunks::chunks_start_at_multiples(k, total, size);
    let manifest = state_after(job, before).1;
    crate::chunks::resumed_queue_skips_listed_chunks(total, size, manifest.completed, k);
    assert(crate::chunks::all_chunks(total, size)[k] == crate::chunks::chunk_at(k, total, size));
}

/// What is reported as a download goes on: a file that is counted by itself reports the bytes that
/// are there behind those of the files before it. One that is counted together with others adds
/// the bytes that were there already, if they count as progress and there are any.
pub proof fn bytes_that_are_there_are_reported(job: JobView, events: Seq<EventView>)
    requires
        events.len() > 1,
        can_happen(job, events),
        job.global_base + job.total_size <= u64::MAX,
    ensures
        action_after(job, events) matches ActionView::Skipped(baseline) ==> {
            &&& !job.shared ==> baseline == Baseline::Own((job.global_base + job.total_size) as u64)
            &&& job.shared && job.count_resume_progress ==> baseline == Baseline::Shared(
                job.total_size,
            )
            &&& job.shared && !job.count_resume_progress ==> baseline == Baseline::Keep
        },
        action_after(job, events) matches ActionView::Work { manifest, already, baseline, .. } ==> {
            &&& manifest.completed == Set::<u64>::empty() ==> already == 0
            &&& !job.shared ==> baseline == Baseline::Own((job.global_base + already) as u64)
            &&& job.shared && job.count_resume_progress && already > 0 ==> baseline
                == Baseline::Shared(already as u64)
            &&& job.shared && (!job.count_resume_progress || already <= 0) ==> baseline
                == Baseline::Keep
        },
{
    let before = events.drop_last();
    let first = before.drop_last();
    assert(can_happen(job, before));
    assert(can_happen(job, first));
    crate::chunks::listed_chunks_count_their_bytes(
        Set::empty(),
        0,
        job.total_size as int,
        job.chunk_size as int,
    );
}

/// What the program notes of an action: bytes that are there before chunks are fetched, or where
/// the file is skipped, and that the file is verified if that is to be seen. Every other action
/// leaves the program as it is.
pub proof fn actions_are_noted(
    state: StateView,
    id: Seq<char>,
    action: ActionView,
    counted: u64,
    total: u64,
    now: u128,
)
    ensures
        ({
            let after = action_noted(state, id, action, counted, total, now);
            &&& action matches ActionView::Skipped(Baseline::Own(bytes)) ==> after == baseline_set(
                state,
                id,
                bytes,
                total,
                now,
            ) && bytes_shared(action) == 0
            &&& action matches ActionView::Skipped(Baseline::Shared(bytes)) ==> after
                == baseline_set(state, id, counted, total, now) && bytes_shared(action) == bytes
            &&& action matches ActionView::Skipped(Baseline::Keep) ==> after == state
                && bytes_shared(action) == 0
            &&& action == (ActionView::BeginVerify { show: true }) ==> after == status_set(
                state,
                id,
                TaskStatus::Verifying,
                now,
            )
            &&& action matches ActionView::Work { baseline, .. } ==> after == action_noted(
                state,
                id,
                ActionView::Skipped(baseline),
                counted,
                total,
                now,
            ) && bytes_shared(action) == bytes_shared(ActionView::Skipped(baseline))
            &&& !(action is Skipped || action is Work || action == (ActionView::BeginVerify {
                show: true,
            })) ==> after == state && bytes_shared(action) == 0
        }),
{
}

/// A step of a download that has found an incomplete file of the right size reads its manifest, for
/// every job. One that has read a manifest that fits opens it, and one that has opened a manifest
/// fetches the chunks that it does not list.
pub proof fn steps_resume_what_is_there(run: &mut FileRun, event: FileEvent, action: FileAction)
    requires
        call_ensures(FileRun::step, (run, event), action),
    ensures
        final(run).job == old(run).job,
        old(run).phase == FilePhase::AtPart && event == FileEvent::Answer(true) ==> action
            is LoadManifest && final(run).phase == FilePhase::Loading,
        event matches FileEvent::Loaded(Some(saved)) ==> {
            &&& final(run).phase == FilePhase::Opening
            &&& saved@.manifest_id == old(run).job.manifest_id@ && saved@.total_bytes == old(
                run,
            ).job.total_size && saved@.chunk_size == old(run).job.chunk_size
                ==> final(run).manifest@ == saved@ && action@ == ActionView::Open(saved@)
        },
        old(run).phase == FilePhase::Opening && event is Done ==> (action@ matches ActionView::Work {
            manifest,
            queue,
            ..
        } && manifest == old(run).manifest@ && forall|i: int|
            0 <= i < queue.len() ==> !manifest.completed.contains((#[trigger] queue[i]).start)),
{
    if old(run).phase == FilePhase::Opening && event is Done {
        let total = old(run).job.total_size as int;
        let size = old(run).job.chunk_size as int;
        let manifest = old(run).manifest@;
        let queue = missing_chunks(total, size, manifest.completed);
        let wanted = |chunk: Chunk| !manifest.completed.contains(chunk.start);
        let all = crate::chunks::all_chunks(total, size);
        assert forall|i: int| 0 <= i < queue.len() implies !manifest.completed.contains(
            (#[trigger] queue[i]).start,
        ) by {
            all.lemma_filter_pred(wanted, i);
        }
    }
}

/// A worker takes the chunks in order, one at a time, until none is left or all are to stop.
pub proof fn workers_take_chunks_in_order(
    stopped: bool,
    queue: &mut VecDeque<Chunk>,
    step: WorkerStep,
)
    requires
        call_ensures(worker_step, (stopped, queue), step),
    ensures
        stopped || old(queue)@.len() == 0 ==> step is Stop && final(queue)@ == old(queue)@,
        !stopped && old(queue)@.len() > 0 ==> (step matches WorkerStep::Fetch(chunk) && old(queue)@
            == seq![chunk] + final(queue)@),
{
    if !stopped && old(queue)@.len() > 0 {
        assert(old(queue)@ =~= seq![old(queue)@[0]] + old(queue)@.skip(1));
    }
}

/// A file that is counted by itself reports its own bytes behind those before it, and one that is
/// counted together with others reports the bytes of all.
pub proof fn progress_is_counted(
    job: &FileJob,
    downloaded: u64,
    shared_downloaded: u64,
    progress: u64,
)
    requires
        call_ensures(progress_after_chunk, (job, downloaded, shared_downloaded), progress),
    ensures
        job.shared ==> progress == shared_downloaded,
        !job.shared ==> progress == job.global_base + downloaded,
{
}

} // verus!
