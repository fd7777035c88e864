//! The steps in which a task is run.
use crate::api::FileMetadata;
use crate::file_run::{FileJob, JobView};
use crate::folder::FolderFilePlan;
use crate::folder_run::{FolderRun, Placement};
use crate::settings::TaskSettings;
use crate::tasks::{resolved_set, status_set, untouched, AppState, StateView, TaskStatus};
use vstd::prelude::*;

verus! {

/// How far a task has come.
#[derive(Debug, Clone, Copy, PartialEq, Eq, Structural)]
pub enum TaskPhase {
    /// Nothing was done yet.
    New,
    /// The user may have paused the task.
    AtStart,
    /// The service is asked what the link points to.
    Resolving,
    /// The place for the download is made ready.
    Placing,
    /// The user may have paused the task.
    AtDownload,
    /// The download runs.
    Downloading,
    /// The task is over.
    Over,
}

/// What a task is to do next.
#[derive(Debug, Clone, Copy, PartialEq, Eq, Structural)]
pub enum TaskAction {
    /// Wait while it is paused, and restore this status.
    Gate(TaskStatus),
    /// Show that the link is resolved, and ask the service what it points to.
    Resolve,
    /// Find a name for the file, or make the folder for the files.
    Place,
    /// Note what is downloaded, and download it.
    Download,
    /// It is over.
    Finish,
}

/// What a task does next, once its last step is done.
pub open spec fn next_phase(phase: TaskPhase) -> (TaskPhase, TaskAction) {
    match phase {
        TaskPhase::New => (TaskPhase::AtStart, TaskAction::Gate(TaskStatus::Resolving)),
        TaskPhase::AtStart => (TaskPhase::Resolving, TaskAction::Resolve),
        TaskPhase::Resolving => (TaskPhase::Placing, TaskAction::Place),
        TaskPhase::Placing => (
            TaskPhase::AtDownload,
            TaskAction::Gate(TaskStatus::Downloading),
        ),
        TaskPhase::AtDownload => (TaskPhase::Downloading, TaskAction::Download),
        _ => (TaskPhase::Over, TaskAction::Finish),
    }
}

/// What a task does next, once its last step is done.
pub fn run_download_task(phase: TaskPhase) -> (next: (TaskPhase, TaskAction))
    ensures
        next == next_phase(phase),
{
    match phase {
        TaskPhase::New => (TaskPhase::AtStart, TaskAction::Gate(TaskStatus::Resolving)),
        TaskPhase::AtStart => (TaskPhase::Resolving, TaskAction::Resolve),
        TaskPhase::Resolving => (TaskPhase::Placing, TaskAction::Place),
        TaskPhase::Placing => (
            TaskPhase::AtDownload,
            TaskAction::Gate(TaskStatus::Downloading),
        ),
        TaskPhase::AtDownload => (TaskPhase::Downloading, TaskAction::Download),
        _ => (TaskPhase::Over, TaskAction::Finish),
    }
}

/// What a task was found to download.
pub enum Found {
    /// It is not known yet.
    Unknown,
    /// It has this name and size, and goes to this path.
    Placed { name: String, path: String, size: u64 },
}

/// The mathematical form of a `Found`.
pub enum FoundView {
    Unknown,
    Placed { name: Seq<char>, path: Seq<char>, size: u64 },
}

impl View for Found {
    type V = FoundView;

    open spec fn view(&self) -> FoundView {
        match self {
            Found::Unknown => FoundView::Unknown,
            Found::Placed { name, path, size } => FoundView::Placed {
                name: name@,
                path: path@,
                size: *size,
            },
        }
    }
}

impl Found {
    /// A file that goes to this path.
    pub fn file(metadata: &FileMetadata, path: String) -> (found: Found)
        ensures
            found@ == (FoundView::Placed {
                name: metadata.name@,
                path: path@,
                size: metadata.size,
            }),
    {
        Found::Placed { name: metadata.name.clone(), path, size: metadata.size }
    }

    /// The files of a folder, which are shown at this path.
    pub fn folder(place: &Placement, path: String) -> (found: Found)
        ensures
            found@ == (FoundView::Placed {
                name: place.name@,
                path: path@,
                size: place.total_bytes,
            }),
    {
        Found::Placed { name: place.name.clone(), path, size: place.total_bytes }
    }
}

/// The program as a task takes a step: one that asks the service shows that, one that downloads
/// shows what it downloads, and no other step is seen.
pub open spec fn step_taken(
    state: StateView,
    id: Seq<char>,
    action: TaskAction,
    found: FoundView,
    now: u128,
) -> StateView {
    match (action, found) {
        (TaskAction::Resolve, _) => status_set(state, id, TaskStatus::Resolving, now),
        (TaskAction::Download, FoundView::Placed { name, path, size }) => resolved_set(
            state,
            id,
            name,
            path,
            size,
            now,
        ),
        _ => state,
    }
}

impl AppState {
    /// Takes the next step of a task, once its last step is done. Before it downloads, it must be
    /// known what.
    pub fn step_task(&mut self, id: &str, phase: TaskPhase, found: &Found, now: u128) -> (next: (
        TaskPhase,
        TaskAction,
    ))
        requires
            old(self).wf(),
            phase == TaskPhase::AtDownload ==> found is Placed,
        ensures
            final(self).wf(),
            next == next_phase(phase),
            final(self)@ == step_taken(old(self)@, id@, next.1, found@, now),
    {
        let next = run_download_task(phase);
        match next.1 {
            TaskAction::Resolve => self.set_status(id, TaskStatus::Resolving, now),
            TaskAction::Download => match found {
                Found::Placed { name, path, size } => {
                    self.set_resolved(id, name.clone(), path.clone(), *size, now);
                },
                Found::Unknown => {},
            },
            _ => {},
        }
        next
    }
}

/// A task that asks the service shows that it does, and one that downloads shows that, with the
/// name, the path and the size of what was found, and without an error.
pub proof fn steps_are_shown(
    state: StateView,
    id: Seq<char>,
    phase: TaskPhase,
    found: FoundView,
    now: u128,
)
    requires
        state.tasks.contains_key(id),
        phase == TaskPhase::AtDownload ==> found is Placed,
    ensures
        ({
            let action = next_phase(phase).1;
            let task = step_taken(state, id, action, found, now).tasks[id];
            &&& action == TaskAction::Resolve ==> task.status == TaskStatus::Resolving
            &&& action == TaskAction::Download ==> task.status == TaskStatus::Downloading
                && task.error is None && found == (FoundView::Placed {
                name: task.file_name,
                path: task.output_path,
                size: task.total_bytes,
            })
            &&& action != TaskAction::Resolve && action != TaskAction::Download ==> step_taken(
                state,
                id,
                action,
                found,
                now,
            ) == state
        }),
{
}

/// Before it asks the service and before it downloads, a task stops if the user has paused it.
pub proof fn tasks_can_be_paused_before_work(phase: TaskPhase)
    ensures
        next_phase(phase).1 == TaskAction::Resolve ==> phase == TaskPhase::AtStart && next_phase(
            TaskPhase::New,
        ) == (TaskPhase::AtStart, TaskAction::Gate(TaskStatus::Resolving)),
        next_phase(phase).1 == TaskAction::Download ==> phase == TaskPhase::AtDownload
            && next_phase(TaskPhase::Placing) == (
            TaskPhase::AtDownload,
            TaskAction::Gate(TaskStatus::Downloading),
        ),
{
}

/// The phase of a task that has taken `steps` steps, none of which has failed.
pub open spec fn phase_after(steps: nat) -> TaskPhase
    decreases steps,
{
    if steps == 0 {
        TaskPhase::New
    } else {
        next_phase(phase_after((steps - 1) as nat)).0
    }
}

/// A task that meets with no failure waits for the user, asks the service, makes the place ready,
/// waits again, downloads and is over, in this order and each once.
pub proof fn tasks_take_their_steps_in_order()
    ensures
        next_phase(phase_after(0)).1 == TaskAction::Gate(TaskStatus::Resolving),
        next_phase(phase_after(1)).1 == TaskAction::Resolve,
        next_phase(phase_after(2)).1 == TaskAction::Place,
        next_phase(phase_after(3)).1 == TaskAction::Gate(TaskStatus::Downloading),
        next_phase(phase_after(4)).1 == TaskAction::Download,
        forall|steps: nat| steps >= 5 ==> next_phase(#[trigger] phase_after(steps)).1
            == TaskAction::Finish,
{
    reveal_with_fuel(phase_after, 6);
    assert forall|steps: nat| steps >= 5 implies next_phase(#[trigger] phase_after(steps)).1
        == TaskAction::Finish by {
        lemma_stays_over(steps);
    }
}

proof fn lemma_stays_over(steps: nat)
    requires
        steps >= 5,
    ensures
        phase_after(steps) == TaskPhase::Downloading || phase_after(steps) == TaskPhase::Over,
    decreases steps,
{
    if steps > 5 {
        lemma_stays_over((steps - 1) as nat);
    } else {
        reveal_with_fuel(phase_after, 6);
    }
}

/// The download of the file that a link points to.
pub open spec fn file_job_view(
    size: u64,
    manifest_id: Seq<char>,
    file_name: Seq<char>,
    settings: TaskSettings,
) -> JobView {
    JobView {
        total_size: size,
        chunk_size: settings.chunk_size,
        overwrite: settings.overwrite,
        verify_integrity: settings.verify_integrity,
        global_base: 0,
        shared: false,
        show_verify_status: true,
        count_resume_progress: true,
        manifest_id,
        file_name,
    }
}

/// The download of the file that a link points to, under this name.
pub fn file_job(metadata: &FileMetadata, file_name: String, settings: &TaskSettings) -> (job: FileJob)
    ensures
        job@ == file_job_view(metadata.size, metadata.manifest_id@, file_name@, *settings),
{
    FileJob {
        total_size: metadata.size,
        chunk_size: settings.chunk_size,
        overwrite: settings.overwrite,
        verify_integrity: settings.verify_integrity,
        global_base: 0,
        shared: false,
        show_verify_status: true,
        count_resume_progress: true,
        manifest_id: metadata.manifest_id.clone(),
        file_name,
    }
}

/// The download of one file of a folder in the current round, under this name. The bytes of all
/// files are counted together; only the first round overwrites, and only in it do bytes that are
/// already there count as progress.
pub fn folder_file_job(
    run: &FolderRun,
    file: &FolderFilePlan,
    file_name: String,
    settings: &TaskSettings,
) -> (job: FileJob)
    ensures
        job@ == (JobView {
            overwrite: settings.overwrite && run.attempt == 0,
            shared: true,
            show_verify_status: false,
            count_resume_progress: run.attempt == 0,
            ..file_job_view(file.size, file.manifest_id@, file_name@, *settings)
        }),
{
    FileJob {
        total_size: file.size,
        chunk_size: settings.chunk_size,
        overwrite: run.overwrites(settings.overwrite),
        verify_integrity: settings.verify_integrity,
        global_base: 0,
        shared: true,
        show_verify_status: false,
        count_resume_progress: run.counts_resume_progress(),
        manifest_id: file.manifest_id.clone(),
        file_name,
    }
}

/// A file of its own is counted by itself from its first byte, shows that it is verified, and is
/// downloaded as the settings say.
pub proof fn single_files_are_counted_by_themselves(
    size: u64,
    manifest_id: Seq<char>,
    file_name: Seq<char>,
    settings: TaskSettings,
)
    ensures
        ({
            let job = file_job_view(size, manifest_id, file_name, settings);
            &&& job.total_size == size
            &&& job.manifest_id == manifest_id
            &&& job.file_name == file_name
            &&& job.chunk_size == settings.chunk_size
            &&& job.overwrite == settings.overwrite
            &&& job.verify_integrity == settings.verify_integrity
            &&& !job.shared
            &&& job.global_base == 0
            &&& job.show_verify_status
            &&& job.count_resume_progress
        }),
{
}

/// A step of a task changes no other task.
pub proof fn steps_change_one_task(
    state: StateView,
    id: Seq<char>,
    action: TaskAction,
    found: FoundView,
    now: u128,
    other: Seq<char>,
)
    requires
        other != id,
    ensures
        untouched(state, step_taken(state, id, action, found, now), other),
        step_taken(state, id, action, found, now).controls == state.controls,
        step_taken(state, id, action, found, now).artifacts == state.artifacts,
{
}

/// The files of a folder are counted together. Only in the first round may what is there be
/// overwritten, and only then do bytes that are there count as progress, so that no later round
/// throws away or counts again what an earlier one has fetched.
pub proof fn later_rounds_keep_what_is_there(
    run: &FolderRun,
    file: &FolderFilePlan,
    file_name: String,
    settings: &TaskSettings,
    job: FileJob,
)
    requires
        call_ensures(folder_file_job, (run, file, file_name, settings), job),
    ensures
        run.attempt > 0 ==> !job.overwrite && !job.count_resume_progress,
        run.attempt == 0 ==> job.overwrite == settings.overwrite && job.count_resume_progress,
        job.shared,
        !job.show_verify_status,
        job.total_size == file.size,
        job.chunk_size == settings.chunk_size,
        job.verify_integrity == settings.verify_integrity,
        job.manifest_id@ == file.manifest_id@,
        job.file_name@ == file_name@,
{
    let view = job@;
    assert(view.total_size == job.total_size);
}

} // verus!
