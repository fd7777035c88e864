//! The tasks of the program, and what is done to them.
use crate::link::optional_view;
use crate::settings::{copy_text, PerformanceMode, RetryMode};
use crate::speed::{
    bytes_grow, is_speed, meter_follows_the_bytes, recorded, SpeedMeter, SpeedReading, SpeedSample,
};
use crate::text::views;
use crate::textmap::TextMap;
use vstd::prelude::*;

verus! {

/// The largest number of tasks that run at once.
pub const MAX_ACTIVE_TASKS: usize = 2;

/// How far a task has come.
#[derive(Debug, Clone, Copy, PartialEq, Eq, Structural)]
pub enum TaskStatus {
    Queued,
    Resolving,
    Downloading,
    Paused,
    Verifying,
    Completed,
    Failed,
    Cancelled,
}

impl TaskStatus {
    /// Whether the task has ended.
    pub open spec fn ended(self) -> bool {
        self == TaskStatus::Completed || self == TaskStatus::Failed || self
            == TaskStatus::Cancelled
    }

    /// Whether the task has ended.
    pub fn is_terminal(&self) -> (ended: bool)
        ensures
            ended == self.ended(),
    {
        matches!(*self, TaskStatus::Completed | TaskStatus::Failed | TaskStatus::Cancelled)
    }
}

/// A task as it stands at some time.
#[derive(Debug)]
pub struct TaskSnapshot {
    pub id: String,
    pub url: String,
    pub file_name: String,
    pub output_dir: String,
    pub output_path: String,
    pub current_file: Option<String>,
    pub status: TaskStatus,
    pub total_bytes: u64,
    pub downloaded_bytes: u64,
    /// The speed in bytes per second, given by the bits of a floating-point number.
    pub speed_bits: u64,
    pub connections: usize,
    pub chunk_size_bytes: u64,
    pub overwrite: bool,
    pub verify_integrity: bool,
    pub performance_mode: PerformanceMode,
    pub retry_mode: RetryMode,
    pub error: Option<String>,
    pub created_at: u128,
    pub updated_at: u128,
}

/// The mathematical form of a `TaskSnapshot`.
pub struct TaskView {
    pub id: Seq<char>,
    pub url: Seq<char>,
    pub file_name: Seq<char>,
    pub output_dir: Seq<char>,
    pub output_path: Seq<char>,
    pub current_file: Option<Seq<char>>,
    pub status: TaskStatus,
    pub total_bytes: u64,
    pub downloaded_bytes: u64,
    pub speed_bits: u64,
    pub connections: usize,
    pub chunk_size_bytes: u64,
    pub overwrite: bool,
    pub verify_integrity: bool,
    pub performance_mode: PerformanceMode,
    pub retry_mode: RetryMode,
    pub error: Option<Seq<char>>,
    pub created_at: u128,
    pub updated_at: u128,
}

impl View for TaskSnapshot {
    type V = TaskView;

    open spec fn view(&self) -> TaskView {
        TaskView {
            id: self.id@,
            url: self.url@,
            file_name: self.file_name@,
            output_dir: self.output_dir@,
            output_path: self.output_path@,
            current_file: optional_view(self.current_file),
            status: self.status,
            total_bytes: self.total_bytes,
            downloaded_bytes: self.downloaded_bytes,
            speed_bits: self.speed_bits,
            connections: self.connections,
            chunk_size_bytes: self.chunk_size_bytes,
            overwrite: self.overwrite,
            verify_integrity: self.verify_integrity,
            performance_mode: self.performance_mode,
            retry_mode: self.retry_mode,
            error: optional_view(self.error),
            created_at: self.created_at,
            updated_at: self.updated_at,
        }
    }
}

impl TaskSnapshot {
    /// A snapshot that says the same.
    pub fn copy(&self) -> (task: TaskSnapshot)
        ensures
            task@ == self@,
    {
        TaskSnapshot {
            id: self.id.clone(),
            url: self.url.clone(),
            file_name: self.file_name.clone(),
            output_dir: self.output_dir.clone(),
            output_path: self.output_path.clone(),
            current_file: copy_text(&self.current_file),
            status: self.status,
            total_bytes: self.total_bytes,
            downloaded_bytes: self.downloaded_bytes,
            speed_bits: self.speed_bits,
            connections: self.connections,
            chunk_size_bytes: self.chunk_size_bytes,
            overwrite: self.overwrite,
            verify_integrity: self.verify_integrity,
            performance_mode: self.performance_mode,
            retry_mode: self.retry_mode,
            error: copy_text(&self.error),
            created_at: self.created_at,
            updated_at: self.updated_at,
        }
    }
}

/// What the user wants of a running task.
#[derive(Debug, Clone, Copy, PartialEq, Eq, Structural)]
pub struct TaskControl {
    pub cancelled: bool,
    pub paused: bool,
}

impl TaskControl {
    /// The task is to run.
    pub fn new() -> (control: TaskControl)
        ensures
            control == (TaskControl { cancelled: false, paused: false }),
    {
        TaskControl { cancelled: false, paused: false }
    }

    /// The task is to end, and not to wait any more.
    pub fn cancel(&mut self)
        ensures
            *final(self) == (TaskControl { cancelled: true, paused: false }),
    {
        self.cancelled = true;
        self.paused = false;
    }

    /// The task is to wait.
    pub fn pause(&mut self)
        ensures
            *final(self) == (TaskControl { paused: true, ..*old(self) }),
    {
        self.paused = true;
    }

    /// The task is not to wait any more.
    pub fn resume(&mut self)
        ensures
            *final(self) == (TaskControl { paused: false, ..*old(self) }),
    {
        self.paused = false;
    }

    /// Whether the task is to end.
    pub fn is_cancelled(&self) -> (cancelled: bool)
        ensures
            cancelled == self.cancelled,
    {
        self.cancelled
    }

    /// Whether the task is to wait.
    pub fn is_paused(&self) -> (paused: bool)
        ensures
            paused == self.paused,
    {
        self.paused
    }
}

/// The tasks of the program.
pub struct AppState {
    /// The tasks by their identifiers.
    pub tasks: TextMap<TaskSnapshot>,
    /// What the user wants of those that run.
    pub controls: TextMap<TaskControl>,
    /// The files that tasks have left behind so far.
    pub artifacts: TextMap<Vec<String>>,
    /// How fast tasks go.
    pub speed_meters: TextMap<SpeedMeter>,
}

/// The mathematical form of a `SpeedMeter`: its samples, and the bits of its average.
pub struct MeterView {
    pub samples: Seq<SpeedSample>,
    pub ema_bits: u64,
}

/// The mathematical form of a `SpeedMeter`.
pub open spec fn meter_view(meter: SpeedMeter) -> MeterView {
    MeterView { samples: meter.samples@, ema_bits: meter.ema_bits }
}

/// A meter that starts with this many bytes.
pub open spec fn fresh_meter(bytes: u64, at: u128) -> MeterView {
    MeterView { samples: seq![SpeedSample { at, bytes }], ema_bits: 0 }
}

/// The mathematical form of the program's tasks.
pub struct StateView {
    pub tasks: Map<Seq<char>, TaskView>,
    pub controls: Map<Seq<char>, TaskControl>,
    pub artifacts: Map<Seq<char>, Set<Seq<char>>>,
    pub meters: Map<Seq<char>, MeterView>,
}

/// The tasks, in mathematical form.
pub open spec fn task_views(tasks: Map<Seq<char>, TaskSnapshot>) -> Map<Seq<char>, TaskView> {
    tasks.map_values(|task: TaskSnapshot| task@)
}

/// The meters, in mathematical form.
pub open spec fn meter_views(meters: Map<Seq<char>, SpeedMeter>) -> Map<Seq<char>, MeterView> {
    meters.map_values(|meter: SpeedMeter| meter_view(meter))
}

/// The paths in a list.
pub open spec fn path_set(paths: Seq<String>) -> Set<Seq<char>> {
    views(paths).to_set()
}

/// The files left behind, in mathematical form.
pub open spec fn artifact_views(artifacts: Map<Seq<char>, Vec<String>>) -> Map<
    Seq<char>,
    Set<Seq<char>>,
> {
    artifacts.map_values(|paths: Vec<String>| path_set(paths@))
}

impl View for AppState {
    type V = StateView;

    open spec fn view(&self) -> StateView {
        StateView {
            tasks: task_views(self.tasks@),
            controls: self.controls@,
            artifacts: artifact_views(self.artifacts@),
            meters: meter_views(self.speed_meters@),
        }
    }
}

impl AppState {
    /// Every task stands under its identifier, the files left behind are listed once, and every
    /// meter is in order.
    pub open spec fn wf(self) -> bool {
        &&& self.tasks.wf()
        &&& self.controls.wf()
        &&& self.artifacts.wf()
        &&& self.speed_meters.wf()
        &&& forall|id: Seq<char>| #[trigger]
            self.tasks@.contains_key(id) ==> self.tasks@[id].id@ == id
        &&& forall|id: Seq<char>| #[trigger]
            self.artifacts@.contains_key(id) ==> views(self.artifacts@[id]@).no_duplicates()
        &&& forall|id: Seq<char>| #[trigger]
            self.speed_meters@.contains_key(id) ==> self.speed_meters@[id].wf()
    }
}

/// The program with a task changed, if it is there.
pub open spec fn with_task(state: StateView, id: Seq<char>, task: TaskView) -> StateView {
    if state.tasks.contains_key(id) {
        StateView { tasks: state.tasks.insert(id, task), ..state }
    } else {
        state
    }
}

/// The program with a new task that runs.
pub open spec fn task_inserted(state: StateView, task: TaskView, control: TaskControl) -> StateView {
    StateView {
        tasks: state.tasks.insert(task.id, task),
        controls: state.controls.insert(task.id, control),
        meters: state.meters.insert(task.id, fresh_meter(task.downloaded_bytes, task.created_at)),
        ..state
    }
}

/// The program without the meter of a task.
pub open spec fn without_meter(state: StateView, id: Seq<char>) -> StateView {
    StateView { meters: state.meters.remove(id), ..state }
}

/// The program with another status of a task. Only a task that downloads has a speed, and one
/// that has ended has no meter.
pub open spec fn status_set(
    state: StateView,
    id: Seq<char>,
    status: TaskStatus,
    now: u128,
) -> StateView {
    let task = state.tasks[id];
    let changed = with_task(
        state,
        id,
        TaskView {
            status,
            speed_bits: if status == TaskStatus::Downloading {
                task.speed_bits
            } else {
                0
            },
            updated_at: now,
            ..task
        },
    );
    if status.ended() {
        without_meter(changed, id)
    } else {
        changed
    }
}

/// The program with a task that has met with an error.
pub open spec fn error_set(
    state: StateView,
    id: Seq<char>,
    status: TaskStatus,
    error: Seq<char>,
    now: u128,
) -> StateView {
    let changed = with_task(
        state,
        id,
        TaskView {
            status,
            error: Some(error),
            speed_bits: 0,
            updated_at: now,
            ..state.tasks[id]
        },
    );
    if status.ended() {
        without_meter(changed, id)
    } else {
        changed
    }
}

/// The program with a task of which it is known what is downloaded.
pub open spec fn resolved_set(
    state: StateView,
    id: Seq<char>,
    name: Seq<char>,
    output: Seq<char>,
    total: u64,
    now: u128,
) -> StateView {
    let metered = StateView { meters: state.meters.insert(id, fresh_meter(0, now)), ..state };
    with_task(
        metered,
        id,
        TaskView {
            file_name: name,
            output_path: output,
            total_bytes: total,
            status: TaskStatus::Downloading,
            error: None,
            updated_at: now,
            ..state.tasks[id]
        },
    )
}

/// The program with what a task is doing now.
pub open spec fn current_file_set(
    state: StateView,
    id: Seq<char>,
    current_file: Option<Seq<char>>,
    now: u128,
) -> StateView {
    with_task(state, id, TaskView { current_file, updated_at: now, ..state.tasks[id] })
}

/// The program with the bytes and the speed of a task.
pub open spec fn progress_set(
    state: StateView,
    id: Seq<char>,
    speed_bits: u64,
    downloaded: u64,
    total: u64,
    now: u128,
) -> StateView {
    with_task(
        state,
        id,
        TaskView {
            speed_bits,
            downloaded_bytes: downloaded,
            total_bytes: total,
            updated_at: now,
            ..state.tasks[id]
        },
    )
}

/// The meter of a task, or one that starts now where it has none.
pub open spec fn meter_or_fresh(
    state: StateView,
    id: Seq<char>,
    downloaded: u64,
    now: u128,
) -> MeterView {
    if state.meters.contains_key(id) {
        state.meters[id]
    } else {
        fresh_meter(downloaded, now)
    }
}

/// The program with a sample of a task's bytes, and what it says of the task's speed.
pub open spec fn sampled(state: StateView, id: Seq<char>, downloaded: u64, now: u128) -> (
    StateView,
    SpeedReading,
) {
    let meter = meter_or_fresh(state, id, downloaded, now);
    let (samples, ema_bits, reading) = recorded(
        meter.samples,
        meter.ema_bits,
        SpeedSample { at: now, bytes: downloaded },
    );
    (
        StateView { meters: state.meters.insert(id, MeterView { samples, ema_bits }), ..state },
        reading,
    )
}

/// The program with the bytes that a task starts with: it has no speed, and its meter starts anew.
pub open spec fn baseline_set(
    state: StateView,
    id: Seq<char>,
    downloaded: u64,
    total: u64,
    now: u128,
) -> StateView {
    progress_set(
        StateView { meters: state.meters.insert(id, fresh_meter(downloaded, now)), ..state },
        id,
        0,
        downloaded,
        total,
        now,
    )
}

/// The program with the bytes of a task and its speed, which is the task's average from now on.
pub open spec fn progress_noted(
    state: StateView,
    id: Seq<char>,
    speed_bits: u64,
    downloaded: u64,
    total: u64,
    now: u128,
) -> StateView {
    let settled = if state.meters.contains_key(id) {
        StateView {
            meters: state.meters.insert(
                id,
                MeterView { ema_bits: speed_bits, ..state.meters[id] },
            ),
            ..state
        }
    } else {
        state
    };
    progress_set(settled, id, speed_bits, downloaded, total, now)
}

/// After a task's bytes were sampled and noted, its meter's newest sample tells them, and the speed
/// that the task shows is the meter's average.
pub proof fn shown_speed_is_the_average(
    state: StateView,
    id: Seq<char>,
    speed_bits: u64,
    downloaded: u64,
    total: u64,
    now: u128,
)
    requires
        state.tasks.contains_key(id),
        state.meters.contains_key(id) ==> state.meters[id].samples.len() > 0 && bytes_grow(
            state.meters[id].samples,
        ) && is_speed(state.meters[id].ema_bits),
        is_speed(speed_bits),
        sampled(state, id, downloaded, now).1 matches SpeedReading::Settled(bits) ==> bits
            == speed_bits,
    ensures
        ({
            let after = progress_noted(
                sampled(state, id, downloaded, now).0,
                id,
                speed_bits,
                downloaded,
                total,
                now,
            );
            &&& after.tasks[id].speed_bits == speed_bits
            &&& after.tasks[id].downloaded_bytes == downloaded
            &&& after.tasks[id].total_bytes == total
            &&& after.meters[id].ema_bits == speed_bits
            &&& after.meters[id].samples.len() > 0
            &&& after.meters[id].samples.last().bytes == downloaded
        }),
{
    let meter = meter_or_fresh(state, id, downloaded, now);
    meter_follows_the_bytes(
        meter.samples,
        meter.ema_bits,
        SpeedSample { at: now, bytes: downloaded },
    );
}

proof fn lemma_task_inserted(
    tasks: Map<Seq<char>, TaskSnapshot>,
    id: Seq<char>,
    task: TaskSnapshot,
)
    ensures
        task_views(tasks.insert(id, task)) == task_views(tasks).insert(id, task@),
{
    assert(task_views(tasks.insert(id, task)) =~= task_views(tasks).insert(id, task@));
}

proof fn lemma_meter_inserted(
    meters: Map<Seq<char>, SpeedMeter>,
    id: Seq<char>,
    meter: SpeedMeter,
)
    ensures
        meter_views(meters.insert(id, meter)) == meter_views(meters).insert(id, meter_view(meter)),
{
    assert(meter_views(meters.insert(id, meter)) =~= meter_views(meters).insert(
        id,
        meter_view(meter),
    ));
}

pub(crate) proof fn lemma_meter_removed(meters: Map<Seq<char>, SpeedMeter>, id: Seq<char>)
    ensures
        meter_views(meters.remove(id)) == meter_views(meters).remove(id),
{
    assert(meter_views(meters.remove(id)) =~= meter_views(meters).remove(id));
}

impl AppState {
    /// No tasks.
    pub fn new() -> (state: AppState)
        ensures
            state.wf(),
            state@ == (StateView {
                tasks: Map::empty(),
                controls: Map::empty(),
                artifacts: Map::empty(),
                meters: Map::empty(),
            }),
    {
        let state = AppState {
            tasks: TextMap::new(),
            controls: TextMap::new(),
            artifacts: TextMap::new(),
            speed_meters: TextMap::new(),
        };
        assert(state@.tasks =~= Map::empty());
        assert(state@.artifacts =~= Map::empty());
        assert(state@.meters =~= Map::empty());
        state
    }

    /// Makes the meter of a task start with this many bytes.
    fn restart_meter(&mut self, id: &str, bytes: u64, now: u128)
        requires
            old(self).wf(),
        ensures
            final(self).wf(),
            final(self)@ == (StateView {
                meters: old(self)@.meters.insert(id@, fresh_meter(bytes, now)),
                ..old(self)@
            }),
    {
        let meter = SpeedMeter::new(bytes, now);
        proof {
            lemma_meter_inserted(self.speed_meters@, id@, meter);
        }
        self.speed_meters.insert(id.to_string(), meter);
    }

    /// Takes away the meter of a task.
    fn drop_meter(&mut self, id: &str)
        requires
            old(self).wf(),
        ensures
            final(self).wf(),
            final(self)@ == without_meter(old(self)@, id@),
    {
        proof {
            lemma_meter_removed(self.speed_meters@, id@);
        }
        self.speed_meters.remove(id);
    }

    /// Adds a task that runs.
    pub fn insert_task(&mut self, task: TaskSnapshot, control: TaskControl)
        requires
            old(self).wf(),
        ensures
            final(self).wf(),
            final(self)@ == task_inserted(old(self)@, task@, control),
    {
        let id = task.id.clone();
        let created_at = task.created_at;
        let downloaded_bytes = task.downloaded_bytes;
        proof {
            lemma_task_inserted(self.tasks@, id@, task);
        }
        self.tasks.insert(id.clone(), task);
        self.controls.insert(id.clone(), control);
        self.restart_meter(&id, downloaded_bytes, created_at);
    }

    /// Changes the status of a task.
    pub fn set_status(&mut self, id: &str, status: TaskStatus, now: u128)
        requires
            old(self).wf(),
        ensures
            final(self).wf(),
            final(self)@ == status_set(old(self)@, id@, status, now),
    {
        match self.tasks.get_mut(id) {
            Some(task) => {
                task.status = status;
                if !matches!(status, TaskStatus::Downloading) {
                    task.speed_bits = 0;
                }
                task.updated_at = now;
            },
            None => {},
        }
        proof {
            if old(self).tasks@.contains_key(id@) {
                lemma_task_inserted(old(self).tasks@, id@, self.tasks@[id@]);
            }
        }
        if status.is_terminal() {
            self.drop_meter(id);
        }
    }

    /// Notes that a task has met with an error.
    pub fn set_error(&mut self, id: &str, status: TaskStatus, error: String, now: u128)
        requires
            old(self).wf(),
        ensures
            final(self).wf(),
            final(self)@ == error_set(old(self)@, id@, status, error@, now),
    {
        match self.tasks.get_mut(id) {
            Some(task) => {
                task.status = status;
                task.error = Some(error);
                task.speed_bits = 0;
                task.updated_at = now;
            },
            None => {},
        }
        proof {
            if old(self).tasks@.contains_key(id@) {
                lemma_task_inserted(old(self).tasks@, id@, self.tasks@[id@]);
            }
        }
        if status.is_terminal() {
            self.drop_meter(id);
        }
    }

    /// Notes what a task downloads.
    pub fn set_resolved(&mut self, id: &str, name: String, output: String, total: u64, now: u128)
        requires
            old(self).wf(),
        ensures
            final(self).wf(),
            final(self)@ == resolved_set(old(self)@, id@, name@, output@, total, now),
    {
        self.restart_meter(id, 0, now);
        let ghost before = self.tasks@;
        match self.tasks.get_mut(id) {
            Some(task) => {
                task.file_name = name;
                task.output_path = output;
                task.total_bytes = total;
                task.status = TaskStatus::Downloading;
                task.error = None;
                task.updated_at = now;
            },
            None => {},
        }
        proof {
            if before.contains_key(id@) {
                lemma_task_inserted(before, id@, self.tasks@[id@]);
            }
        }
    }

    /// Notes what a task is doing now.
    pub fn set_current_file(&mut self, id: &str, current_file: Option<String>, now: u128)
        requires
            old(self).wf(),
        ensures
            final(self).wf(),
            final(self)@ == current_file_set(old(self)@, id@, optional_view(current_file), now),
    {
        match self.tasks.get_mut(id) {
            Some(task) => {
                task.current_file = current_file;
                task.updated_at = now;
            },
            None => {},
        }
        proof {
            if old(self).tasks@.contains_key(id@) {
                lemma_task_inserted(old(self).tasks@, id@, self.tasks@[id@]);
            }
        }
    }

    /// Notes the bytes and the speed of a task.
    fn set_speed_and_progress(
        &mut self,
        id: &str,
        speed_bits: u64,
        downloaded: u64,
        total: u64,
        now: u128,
    )
        requires
            old(self).wf(),
        ensures
            final(self).wf(),
            final(self)@ == progress_set(old(self)@, id@, speed_bits, downloaded, total, now),
    {
        match self.tasks.get_mut(id) {
            Some(task) => {
                task.speed_bits = speed_bits;
                task.downloaded_bytes = downloaded;
                task.total_bytes = total;
                task.updated_at = now;
            },
            None => {},
        }
        proof {
            if old(self).tasks@.contains_key(id@) {
                lemma_task_inserted(old(self).tasks@, id@, self.tasks@[id@]);
            }
        }
    }

    /// Samples the bytes of a task. What comes back says how its speed is found; the progress is
    /// noted with `set_progress` once it is.
    pub fn sample_progress(&mut self, id: &str, downloaded: u64, now: u128) -> (reading:
        SpeedReading)
        requires
            old(self).wf(),
        ensures
            final(self).wf(),
            (final(self)@, reading) == sampled(old(self)@, id@, downloaded, now),
    {
        if !self.speed_meters.contains(id) {
            self.restart_meter(id, downloaded, now);
        }
        let ghost before = self.speed_meters@;
        assert(self@.meters.contains_key(id@));
        assert(self@.meters[id@] == meter_or_fresh(old(self)@, id@, downloaded, now));
        assert(self@.meters[id@] == meter_view(before[id@]));
        let reading = match self.speed_meters.get_mut(id) {
            Some(meter) => meter.record(downloaded, now),
            None => SpeedReading::Settled(0),
        };
        proof {
            let meter = self.speed_meters@[id@];
            lemma_meter_inserted(before, id@, meter);
            let all = meter_views(old(self).speed_meters@);
            assert(all.insert(id@, fresh_meter(downloaded, now)).insert(id@, meter_view(meter))
                =~= all.insert(id@, meter_view(meter)));
        }
        reading
    }

    /// Notes the bytes of a task, the speed of which was found to have these bits. Where it was
    /// measured, it is the task's average from now on.
    pub fn set_progress(
        &mut self,
        id: &str,
        speed_bits: u64,
        downloaded: u64,
        total: u64,
        now: u128,
    )
        requires
            old(self).wf(),
            is_speed(speed_bits),
        ensures
            final(self).wf(),
            final(self)@ == progress_noted(old(self)@, id@, speed_bits, downloaded, total, now),
    {
        match self.speed_meters.get_mut(id) {
            Some(meter) => {
                meter.settle(speed_bits);
            },
            None => {},
        }
        proof {
            if old(self).speed_meters@.contains_key(id@) {
                lemma_meter_inserted(old(self).speed_meters@, id@, self.speed_meters@[id@]);
            }
        }
        self.set_speed_and_progress(id, speed_bits, downloaded, total, now);
    }

    /// Notes the bytes that a task starts with.
    pub fn set_progress_baseline(&mut self, id: &str, downloaded: u64, total: u64, now: u128)
        requires
            old(self).wf(),
        ensures
            final(self).wf(),
            final(self)@ == baseline_set(old(self)@, id@, downloaded, total, now),
    {
        self.restart_meter(id, downloaded, now);
        self.set_speed_and_progress(id, 0, downloaded, total, now);
    }
}

/// Whether all that belongs to a task is the same before and after.
pub open spec fn untouched(before: StateView, after: StateView, id: Seq<char>) -> bool {
    &&& before.tasks.contains_key(id) == after.tasks.contains_key(id)
    &&& before.tasks.contains_key(id) ==> before.tasks[id] == after.tasks[id]
    &&& before.controls.contains_key(id) == after.controls.contains_key(id)
    &&& before.controls.contains_key(id) ==> before.controls[id] == after.controls[id]
    &&& before.artifacts.contains_key(id) == after.artifacts.contains_key(id)
    &&& before.artifacts.contains_key(id) ==> before.artifacts[id] == after.artifacts[id]
    &&& before.meters.contains_key(id) == after.meters.contains_key(id)
    &&& before.meters.contains_key(id) ==> before.meters[id] == after.meters[id]
}

/// Whether what a task was made with is the same before and after: its identifier, its link, its
/// folder, its time and its settings.
pub open spec fn keeps_settings(before: TaskView, after: TaskView) -> bool {
    &&& before.id == after.id
    &&& before.url == after.url
    &&& before.output_dir == after.output_dir
    &&& before.connections == after.connections
    &&& before.chunk_size_bytes == after.chunk_size_bytes
    &&& before.overwrite == after.overwrite
    &&& before.verify_integrity == after.verify_integrity
    &&& before.performance_mode == after.performance_mode
    &&& before.retry_mode == after.retry_mode
    &&& before.created_at == after.created_at
}

/// Whether what a task has downloaded so far, and where it goes, is the same before and after.
pub open spec fn keeps_progress(before: TaskView, after: TaskView) -> bool {
    &&& before.file_name == after.file_name
    &&& before.output_path == after.output_path
    &&& before.total_bytes == after.total_bytes
    &&& before.downloaded_bytes == after.downloaded_bytes
}

/// A new status changes nothing else about a task but its speed, which only a task that downloads
/// has, and its time. The meter of a task that has ended is gone. All other tasks stay as they are.
pub proof fn new_statuses_change_one_task(
    state: StateView,
    id: Seq<char>,
    status: TaskStatus,
    now: u128,
    other: Seq<char>,
)
    ensures
        ({
            let after = status_set(state, id, status, now);
            let ended = status == TaskStatus::Completed || status == TaskStatus::Failed || status
                == TaskStatus::Cancelled;
            &&& other != id ==> untouched(state, after, other)
            &&& state.controls == after.controls && state.artifacts == after.artifacts
            &&& state.tasks.contains_key(id) == after.tasks.contains_key(id)
            &&& state.tasks.contains_key(id) ==> {
                &&& after.tasks[id].status == status
                &&& after.tasks[id].updated_at == now
                &&& status != TaskStatus::Downloading ==> after.tasks[id].speed_bits == 0
                &&& status == TaskStatus::Downloading ==> after.tasks[id].speed_bits
                    == state.tasks[id].speed_bits
                &&& after.tasks[id].error == state.tasks[id].error
                &&& after.tasks[id].current_file == state.tasks[id].current_file
                &&& keeps_settings(state.tasks[id], after.tasks[id])
                &&& keeps_progress(state.tasks[id], after.tasks[id])
            }
            &&& ended ==> !after.meters.contains_key(id)
            &&& !ended ==> after.meters == state.meters
        }),
{
}

/// An error is shown with its text, stops the task's speed, and leaves what was downloaded as it
/// is. All other tasks stay as they are.
pub proof fn errors_change_one_task(
    state: StateView,
    id: Seq<char>,
    status: TaskStatus,
    error: Seq<char>,
    now: u128,
    other: Seq<char>,
)
    ensures
        ({
            let after = error_set(state, id, status, error, now);
            let ended = status == TaskStatus::Completed || status == TaskStatus::Failed || status
                == TaskStatus::Cancelled;
            &&& other != id ==> untouched(state, after, other)
            &&& state.controls == after.controls && state.artifacts == after.artifacts
            &&& state.tasks.contains_key(id) == after.tasks.contains_key(id)
            &&& state.tasks.contains_key(id) ==> {
                &&& after.tasks[id].status == status
                &&& after.tasks[id].error == Some(error)
                &&& after.tasks[id].updated_at == now
                &&& after.tasks[id].speed_bits == 0
                &&& after.tasks[id].current_file == state.tasks[id].current_file
                &&& keeps_settings(state.tasks[id], after.tasks[id])
                &&& keeps_progress(state.tasks[id], after.tasks[id])
            }
            &&& ended ==> !after.meters.contains_key(id)
            &&& !ended ==> after.meters == state.meters
        }),
{
}

/// Once it is known what a task downloads, it shows the name, the place and the size of it, and
/// downloads without an error. Its meter starts from nothing. All other tasks stay as they are.
pub proof fn resolving_changes_one_task(
    state: StateView,
    id: Seq<char>,
    name: Seq<char>,
    output: Seq<char>,
    total: u64,
    now: u128,
    other: Seq<char>,
)
    ensures
        ({
            let after = resolved_set(state, id, name, output, total, now);
            &&& other != id ==> untouched(state, after, other)
            &&& state.controls == after.controls && state.artifacts == after.artifacts
            &&& state.tasks.contains_key(id) == after.tasks.contains_key(id)
            &&& state.tasks.contains_key(id) ==> {
                &&& after.tasks[id].status == TaskStatus::Downloading
                &&& after.tasks[id].error is None
                &&& after.tasks[id].file_name == name
                &&& after.tasks[id].output_path == output
                &&& after.tasks[id].total_bytes == total
                &&& after.tasks[id].downloaded_bytes == state.tasks[id].downloaded_bytes
                &&& after.tasks[id].updated_at == now
                &&& keeps_settings(state.tasks[id], after.tasks[id])
            }
            &&& after.meters.contains_key(id)
            &&& after.meters[id].ema_bits == 0
            &&& after.meters[id].samples.len() == 1
            &&& after.meters[id].samples[0].bytes == 0
            &&& after.meters[id].samples[0].at == now
        }),
{
}

/// What a task is doing now is shown, and nothing else changes but its time.
pub proof fn current_files_change_one_task(
    state: StateView,
    id: Seq<char>,
    current_file: Option<Seq<char>>,
    now: u128,
    other: Seq<char>,
)
    ensures
        ({
            let after = current_file_set(state, id, current_file, now);
            &&& other != id ==> untouched(state, after, other)
            &&& state.controls == after.controls && state.artifacts == after.artifacts
            &&& state.meters == after.meters
            &&& state.tasks.contains_key(id) == after.tasks.contains_key(id)
            &&& state.tasks.contains_key(id) ==> {
                &&& after.tasks[id].current_file == current_file
                &&& after.tasks[id].updated_at == now
                &&& after.tasks[id].status == state.tasks[id].status
                &&& after.tasks[id].speed_bits == state.tasks[id].speed_bits
                &&& after.tasks[id].error == state.tasks[id].error
                &&& keeps_settings(state.tasks[id], after.tasks[id])
                &&& keeps_progress(state.tasks[id], after.tasks[id])
            }
        }),
{
}

/// Where bytes are noted that a task starts with, it shows them without a speed, and its meter
/// starts from them, so that they do not count as fetched. Where bytes are noted as it goes on, it
/// shows them with the speed that is noted.
pub proof fn noted_bytes_are_shown(
    state: StateView,
    id: Seq<char>,
    speed_bits: u64,
    downloaded: u64,
    total: u64,
    now: u128,
    other: Seq<char>,
)
    requires
        state.tasks.contains_key(id),
    ensures
        ({
            let first = baseline_set(state, id, downloaded, total, now);
            let later = progress_noted(state, id, speed_bits, downloaded, total, now);
            &&& other != id ==> untouched(state, first, other) && untouched(state, later, other)
            &&& first.controls == state.controls && first.artifacts == state.artifacts
            &&& later.controls == state.controls && later.artifacts == state.artifacts
            &&& first.tasks[id].speed_bits == 0 && later.tasks[id].speed_bits == speed_bits
            &&& first.meters.contains_key(id)
            &&& first.meters[id].ema_bits == 0
            &&& first.meters[id].samples.len() == 1
            &&& first.meters[id].samples[0].bytes == downloaded
            &&& first.meters[id].samples[0].at == now
            &&& later.meters.contains_key(id) == state.meters.contains_key(id)
            &&& state.meters.contains_key(id) ==> later.meters[id].samples
                == state.meters[id].samples && later.meters[id].ema_bits == speed_bits
            &&& shows_bytes(state.tasks[id], first.tasks[id], downloaded, total, now)
            &&& shows_bytes(state.tasks[id], later.tasks[id], downloaded, total, now)
        }),
{
}

/// Whether a task shows these bytes and is otherwise, but for its speed, the same.
pub open spec fn shows_bytes(
    before: TaskView,
    after: TaskView,
    downloaded: u64,
    total: u64,
    now: u128,
) -> bool {
    &&& after.downloaded_bytes == downloaded
    &&& after.total_bytes == total
    &&& after.updated_at == now
    &&& after.status == before.status
    &&& after.error == before.error
    &&& after.current_file == before.current_file
    &&& after.file_name == before.file_name
    &&& after.output_path == before.output_path
    &&& keeps_settings(before, after)
}

/// A new task stands beside the others, wanted as is asked, with a meter that starts from its own
/// bytes.
pub proof fn new_tasks_stand_beside_the_others(
    state: StateView,
    task: TaskView,
    control: TaskControl,
    other: Seq<char>,
)
    ensures
        ({
            let after = task_inserted(state, task, control);
            &&& other != task.id ==> untouched(state, after, other)
            &&& after.tasks.contains_key(task.id) && after.tasks[task.id] == task
            &&& after.controls.contains_key(task.id) && after.controls[task.id] == control
            &&& after.meters.contains_key(task.id)
            &&& after.meters[task.id].samples.len() == 1
            &&& after.meters[task.id].samples[0].bytes == task.downloaded_bytes
            &&& after.meters[task.id].samples[0].at == task.created_at
            &&& after.artifacts == state.artifacts
        }),
{
}

/// Sampling the bytes of a task changes its meter alone.
pub proof fn samples_change_one_meter(
    state: StateView,
    id: Seq<char>,
    downloaded: u64,
    now: u128,
    other: Seq<char>,
)
    ensures
        ({
            let after = sampled(state, id, downloaded, now).0;
            &&& other != id ==> untouched(state, after, other)
            &&& after.tasks == state.tasks
            &&& after.controls == state.controls
            &&& after.artifacts == state.artifacts
            &&& after.meters.contains_key(id)
        }),
{
}

/// A task without a meter gets one with the first sample, which says nothing of its speed yet.
pub proof fn first_samples_start_a_meter(
    state: StateView,
    id: Seq<char>,
    downloaded: u64,
    now: u128,
)
    requires
        !state.meters.contains_key(id),
    ensures
        ({
            let (after, reading) = sampled(state, id, downloaded, now);
            &&& after.meters[id].samples == seq![SpeedSample { at: now, bytes: downloaded }]
            &&& after.meters[id].ema_bits == 0
            &&& reading == SpeedReading::Settled(0)
        }),
{
}

} // verus!
