//! The tasks as the window shows them.
use crate::datetime::{format_time, shows_time};
use crate::format::{
    bytes_text, duration_text, eta_text, format_bytes, format_eta, format_speed,
    remaining_time_follows_the_speed,
};
use crate::link::optional_view;
use crate::queue::snapshot_views;
use crate::tasks::{TaskSnapshot, TaskStatus, TaskView};
use crate::text::{
    decimal, is_blank, is_whitespace, push_decimal, same_text, trim,
    trimming_leaves_nothing_of_the_class, visible_text_stays, CharClass,
};
use vstd::prelude::*;

verus! {

/// Whether a task is under way.
pub open spec fn under_way(status: TaskStatus) -> bool {
    status == TaskStatus::Queued || status == TaskStatus::Resolving || status
        == TaskStatus::Downloading || status == TaskStatus::Verifying
}

/// Whether a task is under way.
pub fn is_active(status: &TaskStatus) -> (active: bool)
    ensures
        active == under_way(*status),
{
    matches!(
        *status,
        TaskStatus::Queued | TaskStatus::Resolving | TaskStatus::Downloading | TaskStatus::Verifying
    )
}

/// Whether a task can be paused.
pub fn can_pause(status: &TaskStatus) -> (pausable: bool)
    ensures
        pausable == under_way(*status),
{
    is_active(status)
}

/// Whether a task has ended.
pub fn is_terminal(status: &TaskStatus) -> (ended: bool)
    ensures
        ended == status.ended(),
{
    status.is_terminal()
}

/// Every task is either under way, or paused, or has ended.
pub proof fn statuses_are_sorted_out(status: TaskStatus)
    ensures
        under_way(status) <==> !(status == TaskStatus::Paused) && !status.ended(),
        status == TaskStatus::Paused ==> !status.ended(),
{
}

/// What is said of a status.
pub open spec fn text_of_status(status: TaskStatus) -> Seq<char> {
    match status {
        TaskStatus::Queued => "排队中"@,
        TaskStatus::Resolving => "解析中"@,
        TaskStatus::Downloading => "下载中"@,
        TaskStatus::Paused => "已暂停"@,
        TaskStatus::Verifying => "校验中"@,
        TaskStatus::Completed => "完成"@,
        TaskStatus::Failed => "失败"@,
        TaskStatus::Cancelled => "已取消"@,
    }
}

/// What is said of a status.
pub fn status_text(status: &TaskStatus) -> (text: &'static str)
    ensures
        text@ == text_of_status(*status),
{
    match status {
        TaskStatus::Queued => "排队中",
        TaskStatus::Resolving => "解析中",
        TaskStatus::Downloading => "下载中",
        TaskStatus::Paused => "已暂停",
        TaskStatus::Verifying => "校验中",
        TaskStatus::Completed => "完成",
        TaskStatus::Failed => "失败",
        TaskStatus::Cancelled => "已取消",
    }
}

/// The kind of a status, after which a task is coloured.
pub open spec fn kind_of_status(status: TaskStatus) -> Seq<char> {
    match status {
        TaskStatus::Paused => "paused"@,
        TaskStatus::Completed => "completed"@,
        TaskStatus::Failed => "failed"@,
        TaskStatus::Cancelled => "cancelled"@,
        _ => "active"@,
    }
}

/// The kind of a status, after which a task is coloured.
pub fn status_kind(status: &TaskStatus) -> (kind: &'static str)
    ensures
        kind@ == kind_of_status(*status),
{
    match status {
        TaskStatus::Paused => "paused",
        TaskStatus::Completed => "completed",
        TaskStatus::Failed => "failed",
        TaskStatus::Cancelled => "cancelled",
        _ => "active",
    }
}

/// Whether a task is shown under a filter.
pub open spec fn shown_under(status: TaskStatus, filter_index: int) -> bool {
    if filter_index == 1 {
        under_way(status)
    } else if filter_index == 2 {
        status == TaskStatus::Paused
    } else if filter_index == 3 {
        status == TaskStatus::Completed
    } else if filter_index == 4 {
        status == TaskStatus::Failed
    } else if filter_index == 5 {
        status == TaskStatus::Cancelled
    } else {
        true
    }
}

/// Whether a task is shown under a filter.
pub fn task_matches_filter(task: &TaskSnapshot, filter_index: i32) -> (shown: bool)
    ensures
        shown == shown_under(task.status, filter_index as int),
{
    match filter_index {
        1 => is_active(&task.status),
        2 => matches!(task.status, TaskStatus::Paused),
        3 => matches!(task.status, TaskStatus::Completed),
        4 => matches!(task.status, TaskStatus::Failed),
        5 => matches!(task.status, TaskStatus::Cancelled),
        _ => true,
    }
}

/// Text, or a dash where it is blank.
pub open spec fn text_or_dash(text: Seq<char>) -> Seq<char> {
    if trim(text).len() == 0 {
        "-"@
    } else {
        text
    }
}

/// Optional text, or a dash where it is missing or blank.
pub open spec fn optional_or_dash(text: Option<Seq<char>>) -> Seq<char> {
    match text {
        Some(found) => text_or_dash(found),
        None => "-"@,
    }
}

/// Text, or a dash where it is blank.
pub fn non_empty_or(value: String) -> (text: String)
    ensures
        text@ == text_or_dash(value@),
{
    if is_blank(&value) {
        "-".to_string()
    } else {
        value
    }
}

/// Optional text, or a dash where it is missing or blank.
fn optional_text(text: &Option<String>) -> (shown: String)
    ensures
        shown@ == optional_or_dash(optional_view(*text)),
{
    match text {
        Some(found) => non_empty_or(found.clone()),
        None => "-".to_string(),
    }
}

/// What is said below the name of a task: its error, or what it is doing, or where it goes.
pub open spec fn detail_text(task: TaskView) -> Seq<char> {
    let said = match task.error {
        Some(error) => Some(error),
        None => task.current_file,
    };
    text_or_dash(
        match said {
            Some(text) => if trim(text).len() > 0 {
                text
            } else {
                task.output_path
            },
            None => task.output_path,
        },
    )
}

/// What is said below the name of a task.
fn task_detail(task: &TaskSnapshot) -> (detail: String)
    ensures
        detail@ == detail_text(task@),
{
    let said = match &task.error {
        Some(error) => Some(error),
        None => match &task.current_file {
            Some(file) => Some(file),
            None => None,
        },
    };
    match said {
        Some(text) => if is_blank(text) {
            non_empty_or(task.output_path.clone())
        } else {
            non_empty_or(text.clone())
        },
        None => non_empty_or(task.output_path.clone()),
    }
}

/// How much of a task is shown as done.
#[derive(Debug, Clone, Copy, PartialEq, Eq, Structural)]
pub enum Progress {
    /// Nothing: 0 percent.
    Nothing,
    /// So many bytes of so many, fewer than all.
    Share { downloaded: u64, total: u64 },
    /// All: 100 percent.
    Full,
}

/// How much of a task is shown as done. A task without bytes is done once it is completed.
pub open spec fn progress_of(task: TaskView) -> Progress {
    if task.total_bytes == 0 {
        if task.status == TaskStatus::Completed {
            Progress::Full
        } else {
            Progress::Nothing
        }
    } else if task.downloaded_bytes >= task.total_bytes {
        Progress::Full
    } else {
        Progress::Share { downloaded: task.downloaded_bytes, total: task.total_bytes }
    }
}

/// How much of a task is shown as done.
pub fn task_progress(task: &TaskSnapshot) -> (progress: Progress)
    ensures
        progress == progress_of(task@),
{
    if task.total_bytes == 0 {
        if matches!(task.status, TaskStatus::Completed) {
            Progress::Full
        } else {
            Progress::Nothing
        }
    } else if task.downloaded_bytes >= task.total_bytes {
        Progress::Full
    } else {
        Progress::Share { downloaded: task.downloaded_bytes, total: task.total_bytes }
    }
}

/// A task as the window shows it.
pub struct TaskRow {
    pub id: String,
    pub file_name: String,
    pub detail: String,
    pub status_text: String,
    pub status_kind: String,
    pub downloaded_text: String,
    pub speed_text: String,
    pub eta_text: String,
    pub config_text: String,
    pub output_dir: String,
    pub output_path: String,
    pub current_file: String,
    pub error_text: String,
    pub url: String,
    pub created_at: String,
    pub updated_at: String,
    pub progress: Progress,
    pub can_pause: bool,
    pub can_resume: bool,
    pub can_cancel: bool,
    pub can_open: bool,
    pub can_retry: bool,
    pub can_delete: bool,
}

/// Whether a row shows a task that goes at this speed.
pub open spec fn row_shows(row: TaskRow, task: TaskView, speed: u64) -> bool {
    let remaining = if task.total_bytes > task.downloaded_bytes {
        (task.total_bytes - task.downloaded_bytes) as nat
    } else {
        0
    };
    &&& row.id@ == task.id
    &&& row.file_name@ == task.file_name
    &&& row.detail@ == detail_text(task)
    &&& row.status_text@ == text_of_status(task.status)
    &&& row.status_kind@ == kind_of_status(task.status)
    &&& row.downloaded_text@ == bytes_text(task.downloaded_bytes as nat) + " / "@ + bytes_text(
        task.total_bytes as nat,
    )
    &&& row.speed_text@ == bytes_text(speed as nat) + "/s"@
    &&& row.eta_text@ == eta_text(task.status, remaining, speed as nat)
    &&& row.config_text@ == decimal(task.connections as nat) + " 连接 · "@ + bytes_text(
        task.chunk_size_bytes as nat,
    ) + " 分片"@
    &&& row.output_dir@ == text_or_dash(task.output_dir)
    &&& row.output_path@ == text_or_dash(task.output_path)
    &&& row.current_file@ == optional_or_dash(task.current_file)
    &&& row.error_text@ == optional_or_dash(task.error)
    &&& row.url@ == text_or_dash(task.url)
    &&& shows_time(row.created_at@, task.created_at as int)
    &&& shows_time(row.updated_at@, task.updated_at as int)
    &&& row.progress == progress_of(task)
    &&& row.can_pause == under_way(task.status)
    &&& row.can_resume == (task.status == TaskStatus::Paused)
    &&& row.can_cancel == !task.status.ended()
    &&& row.can_open == (task.status == TaskStatus::Completed)
    &&& row.can_retry == task.status.ended()
    &&& row.can_delete == task.status.ended()
}

/// The number of bytes of a task, and of how many.
fn downloaded_text(downloaded: u64, total: u64) -> (text: String)
    ensures
        text@ == bytes_text(downloaded as nat) + " / "@ + bytes_text(total as nat),
{
    let mut text = format_bytes(downloaded);
    text.append(" / ");
    text.append(&format_bytes(total));
    text
}

/// The connections and chunks of a task.
fn config_text(connections: usize, chunk_size: u64) -> (text: String)
    ensures
        text@ == decimal(connections as nat) + " 连接 · "@ + bytes_text(chunk_size as nat)
            + " 分片"@,
{
    let mut text = String::new();
    push_decimal(&mut text, connections as u128);
    text.append(" 连接 · ");
    text.append(&format_bytes(chunk_size));
    text.append(" 分片");
    assert(text@ == decimal(connections as nat) + " 连接 · "@ + bytes_text(chunk_size as nat)
        + " 分片"@);
    text
}

/// A task as the window shows it, with a speed in whole bytes per second.
pub fn task_to_ui(task: &TaskSnapshot, speed: u64) -> (row: TaskRow)
    ensures
        row_shows(row, task@, speed),
{
    let remaining: u64 = if task.total_bytes > task.downloaded_bytes {
        task.total_bytes - task.downloaded_bytes
    } else {
        0
    };
    TaskRow {
        id: task.id.clone(),
        file_name: task.file_name.clone(),
        detail: task_detail(task),
        status_text: status_text(&task.status).to_string(),
        status_kind: status_kind(&task.status).to_string(),
        downloaded_text: downloaded_text(task.downloaded_bytes, task.total_bytes),
        speed_text: format_speed(speed),
        eta_text: format_eta(&task.status, remaining, speed),
        config_text: config_text(task.connections, task.chunk_size_bytes),
        output_dir: non_empty_or(task.output_dir.clone()),
        output_path: non_empty_or(task.output_path.clone()),
        current_file: optional_text(&task.current_file),
        error_text: optional_text(&task.error),
        url: non_empty_or(task.url.clone()),
        created_at: format_time(task.created_at),
        updated_at: format_time(task.updated_at),
        progress: task_progress(task),
        can_pause: can_pause(&task.status),
        can_resume: matches!(task.status, TaskStatus::Paused),
        can_cancel: !is_terminal(&task.status),
        can_open: matches!(task.status, TaskStatus::Completed),
        can_retry: matches!(
            task.status,
            TaskStatus::Failed | TaskStatus::Cancelled | TaskStatus::Completed
        ),
        can_delete: is_terminal(&task.status),
    }
}

/// A row shows a share of its task only if that is less than the whole, and shows the whole exactly
/// if all bytes are there or, where there are none, if the task is completed.
pub proof fn progress_stays_within_bounds(row: TaskRow, task: TaskView, speed: u64)
    requires
        row_shows(row, task, speed),
    ensures
        row.progress matches Progress::Share { downloaded, total } ==> downloaded < total
            && downloaded == task.downloaded_bytes && total == task.total_bytes,
        row.progress == Progress::Full <==> (if task.total_bytes > 0 {
            task.downloaded_bytes >= task.total_bytes
        } else {
            task.status == TaskStatus::Completed
        }),
        row.progress == Progress::Nothing <==> task.total_bytes == 0 && task.status
            != TaskStatus::Completed,
{
}

/// Of pausing, resuming and deleting, a row offers exactly one. It offers to cancel exactly what it
/// does not offer to delete, to retry exactly what it offers to delete, and to open only what is
/// completed.
pub proof fn rows_offer_what_fits(row: TaskRow, task: TaskView, speed: u64)
    requires
        row_shows(row, task, speed),
    ensures
        row.can_pause || row.can_resume || row.can_delete,
        !(row.can_pause && row.can_resume),
        !(row.can_pause && row.can_delete),
        !(row.can_resume && row.can_delete),
        row.can_cancel == !row.can_delete,
        row.can_retry == row.can_delete,
        row.can_delete <==> task.status == TaskStatus::Completed || task.status
            == TaskStatus::Failed || task.status == TaskStatus::Cancelled,
        row.can_resume <==> task.status == TaskStatus::Paused,
        row.can_open <==> task.status == TaskStatus::Completed,
{
}

/// The tasks that are shown under a filter, by their places in the list of all tasks.
pub open spec fn shown_places(tasks: Seq<TaskView>, filter_index: int) -> Seq<int>
    decreases tasks.len(),
{
    if tasks.len() == 0 {
        Seq::empty()
    } else {
        let before = shown_places(tasks.drop_last(), filter_index);
        if shown_under(tasks.last().status, filter_index) {
            before.push(tasks.len() - 1)
        } else {
            before
        }
    }
}

/// The places of the tasks that are shown are those of tasks that match the filter, in order.
pub proof fn shown_places_match(tasks: Seq<TaskView>, filter_index: int)
    ensures
        ({
            let places = shown_places(tasks, filter_index);
            &&& forall|i: int|
                0 <= i < places.len() ==> 0 <= #[trigger] places[i] < tasks.len() && shown_under(
                    tasks[places[i]].status,
                    filter_index,
                )
            &&& forall|i: int, j: int|
                0 <= i < j < places.len() ==> #[trigger] places[i] < #[trigger] places[j]
            &&& forall|k: int|
                0 <= k < tasks.len() && shown_under((#[trigger] tasks[k]).status, filter_index)
                    ==> places.contains(k)
        }),
    decreases tasks.len(),
{
    if tasks.len() > 0 {
        let rest = tasks.drop_last();
        shown_places_match(rest, filter_index);
        let before = shown_places(rest, filter_index);
        let places = shown_places(tasks, filter_index);
        let last = tasks.len() - 1;
        assert forall|i: int| 0 <= i < places.len() implies 0 <= #[trigger] places[i] < tasks.len()
            && shown_under(tasks[places[i]].status, filter_index) by {
            if i < before.len() {
                assert(places[i] == before[i]);
                assert(rest[before[i]] == tasks[before[i]]);
            }
        }
        assert forall|i: int, j: int| 0 <= i < j < places.len() implies #[trigger] places[i]
            < #[trigger] places[j] by {
            assert(places[i] == before[i]);
            if j < before.len() {
                assert(places[j] == before[j]);
            }
        }
        assert forall|k: int|
            0 <= k < tasks.len() && shown_under(
                (#[trigger] tasks[k]).status,
                filter_index,
            ) implies places.contains(k) by {
            if k < last {
                assert(rest[k] == tasks[k]);
                assert(before.contains(k));
                let j = choose|j: int| 0 <= j < before.len() && before[j] == k;
                assert(places[j] == k);
            } else {
                assert(places[before.len() as int] == k);
            }
        }
    }
}

/// The place of the first task that has this identifier.
pub open spec fn place_of(tasks: Seq<TaskView>, id: Seq<char>) -> Option<int>
    decreases tasks.len(),
{
    if tasks.len() == 0 {
        None
    } else {
        match place_of(tasks.drop_last(), id) {
            Some(place) => Some(place),
            None => if tasks.last().id == id {
                Some(tasks.len() - 1)
            } else {
                None
            },
        }
    }
}

/// The task that is selected: the one that was, if it is still there, or else the last that is
/// shown, or else the last of all.
pub open spec fn selected_place(
    tasks: Seq<TaskView>,
    filter_index: int,
    selected: Option<Seq<char>>,
) -> Option<int> {
    let found = match selected {
        Some(id) => place_of(tasks, id),
        None => None,
    };
    match found {
        Some(place) => Some(place),
        None => {
            let places = shown_places(tasks, filter_index);
            if places.len() > 0 {
                Some(places.last())
            } else if tasks.len() > 0 {
                Some(tasks.len() - 1)
            } else {
                None
            }
        },
    }
}

/// The places of the tasks that are shown under a filter.
fn find_shown(tasks: &Vec<TaskSnapshot>, filter_index: i32) -> (places: Vec<usize>)
    ensures
        places@.len() == shown_places(snapshot_views(tasks@), filter_index as int).len(),
        forall|i: int|
            0 <= i < places@.len() ==> #[trigger] places@[i] == shown_places(
                snapshot_views(tasks@),
                filter_index as int,
            )[i] && places@[i] < tasks@.len(),
{
    let ghost all = snapshot_views(tasks@);
    let mut places: Vec<usize> = Vec::new();
    let mut i: usize = 0;
    assert(all.take(0).len() == 0);
    while i < tasks.len()
        invariant
            all == snapshot_views(tasks@),
            i <= tasks@.len(),
            places@.len() == shown_places(all.take(i as int), filter_index as int).len(),
            forall|j: int|
                0 <= j < places@.len() ==> #[trigger] places@[j] == shown_places(
                    all.take(i as int),
                    filter_index as int,
                )[j] && places@[j] < i,
        decreases tasks@.len() - i,
    {
        assert(all.take(i + 1).drop_last() == all.take(i as int));
        assert(all.take(i + 1).last() == tasks@[i as int]@);
        if task_matches_filter(&tasks[i], filter_index) {
            places.push(i);
        }
        i = i + 1;
    }
    assert(all.take(all.len() as int) == all);
    places
}

/// The place of the first task that has this identifier.
pub fn find_task(tasks: &Vec<TaskSnapshot>, id: &str) -> (place: Option<usize>)
    ensures
        match place {
            Some(found) => place_of(snapshot_views(tasks@), id@) == Some(found as int) && found
                < tasks@.len() && tasks@[found as int].id@ == id@,
            None => place_of(snapshot_views(tasks@), id@) is None,
        },
{
    let ghost all = snapshot_views(tasks@);
    let mut i: usize = 0;
    assert(all.take(0).len() == 0);
    while i < tasks.len()
        invariant
            all == snapshot_views(tasks@),
            i <= tasks@.len(),
            place_of(all.take(i as int), id@) is None,
        decreases tasks@.len() - i,
    {
        assert(all.take(i + 1).drop_last() == all.take(i as int));
        assert(all.take(i + 1).last() == tasks@[i as int]@);
        if same_text(&tasks[i].id, id) {
            proof {
                lemma_place_stays(all, id@, i + 1);
            }
            return Some(i);
        }
        i = i + 1;
    }
    assert(all.take(all.len() as int) == all);
    None
}

proof fn lemma_place_stays(tasks: Seq<TaskView>, id: Seq<char>, n: int)
    requires
        0 <= n <= tasks.len(),
        place_of(tasks.take(n), id) is Some,
    ensures
        place_of(tasks, id) == place_of(tasks.take(n), id),
    decreases tasks.len() - n,
{
    if n == tasks.len() {
        assert(tasks.take(n) == tasks);
    } else {
        assert(tasks.take(n + 1).drop_last() == tasks.take(n));
        lemma_place_stays(tasks, id, n + 1);
    }
}

/// The place of the task that is selected.
pub fn resolve_selected_task(
    tasks: &Vec<TaskSnapshot>,
    filter_index: i32,
    selected: &Option<String>,
) -> (place: Option<usize>)
    ensures
        match place {
            Some(found) => selected_place(
                snapshot_views(tasks@),
                filter_index as int,
                optional_view(*selected),
            ) == Some(found as int) && found < tasks@.len(),
            None => selected_place(
                snapshot_views(tasks@),
                filter_index as int,
                optional_view(*selected),
            ) is None,
        },
{
    if let Some(id) = selected {
        if let Some(place) = find_task(tasks, id) {
            return Some(place);
        }
    }
    let places = find_shown(tasks, filter_index);
    if places.len() > 0 {
        Some(places[places.len() - 1])
    } else if tasks.len() > 0 {
        Some(tasks.len() - 1)
    } else {
        None
    }
}

/// The number of tasks with one of the statuses that `wanted` holds for.
pub open spec fn count_of(tasks: Seq<TaskView>, wanted: spec_fn(TaskStatus) -> bool) -> nat
    decreases tasks.len(),
{
    if tasks.len() == 0 {
        0
    } else {
        count_of(tasks.drop_last(), wanted) + if wanted(tasks.last().status) {
            1nat
        } else {
            0
        }
    }
}

/// How many tasks there are of each kind.
pub struct TaskCounts {
    pub all: usize,
    pub active: usize,
    pub paused: usize,
    pub completed: usize,
    pub failed: usize,
    pub cancelled: usize,
}

/// Whether tasks are counted right.
pub open spec fn counts_right(counts: TaskCounts, tasks: Seq<TaskView>) -> bool {
    &&& counts.all == tasks.len()
    &&& counts.active == count_of(tasks, |status: TaskStatus| under_way(status))
    &&& counts.paused == count_of(tasks, |status: TaskStatus| status == TaskStatus::Paused)
    &&& counts.completed == count_of(tasks, |status: TaskStatus| status == TaskStatus::Completed)
    &&& counts.failed == count_of(tasks, |status: TaskStatus| status == TaskStatus::Failed)
    &&& counts.cancelled == count_of(tasks, |status: TaskStatus| status == TaskStatus::Cancelled)
}

/// Every task is counted under exactly one kind.
pub proof fn counts_add_up(counts: TaskCounts, tasks: Seq<TaskView>)
    requires
        counts_right(counts, tasks),
    ensures
        counts.all == counts.active + counts.paused + counts.completed + counts.failed
            + counts.cancelled,
{
    lemma_counts_add_up(tasks);
}

proof fn lemma_counts_add_up(tasks: Seq<TaskView>)
    ensures
        tasks.len() == count_of(tasks, |status: TaskStatus| under_way(status)) + count_of(
            tasks,
            |status: TaskStatus| status == TaskStatus::Paused,
        ) + count_of(tasks, |status: TaskStatus| status == TaskStatus::Completed) + count_of(
            tasks,
            |status: TaskStatus| status == TaskStatus::Failed,
        ) + count_of(tasks, |status: TaskStatus| status == TaskStatus::Cancelled),
    decreases tasks.len(),
{
    if tasks.len() > 0 {
        lemma_counts_add_up(tasks.drop_last());
    }
}

/// How many tasks there are of each kind.
pub fn count_tasks(tasks: &Vec<TaskSnapshot>) -> (counts: TaskCounts)
    ensures
        counts_right(counts, snapshot_views(tasks@)),
{
    let ghost all = snapshot_views(tasks@);
    let mut counts = TaskCounts {
        all: 0,
        active: 0,
        paused: 0,
        completed: 0,
        failed: 0,
        cancelled: 0,
    };
    assert(all.take(0).len() == 0);
    while counts.all < tasks.len()
        invariant
            all == snapshot_views(tasks@),
            counts.all <= tasks@.len(),
            counts.active <= counts.all,
            counts.paused <= counts.all,
            counts.completed <= counts.all,
            counts.failed <= counts.all,
            counts.cancelled <= counts.all,
            counts_right(counts, all.take(counts.all as int)),
        decreases tasks@.len() - counts.all,
    {
        let ghost now = all.take(counts.all + 1);
        assert(now.drop_last() == all.take(counts.all as int));
        assert(now.last() == tasks@[counts.all as int]@);
        match tasks[counts.all].status {
            TaskStatus::Paused => {
                counts.paused = counts.paused + 1;
            },
            TaskStatus::Completed => {
                counts.completed = counts.completed + 1;
            },
            TaskStatus::Failed => {
                counts.failed = counts.failed + 1;
            },
            TaskStatus::Cancelled => {
                counts.cancelled = counts.cancelled + 1;
            },
            _ => {
                counts.active = counts.active + 1;
            },
        }
        counts.all = counts.all + 1;
    }
    assert(all.take(all.len() as int) == all);
    counts
}

/// What the window shows of all tasks.
pub struct Overview {
    /// The tasks under the filter.
    pub rows: Vec<TaskRow>,
    /// The task that is selected.
    pub selected: Option<TaskRow>,
    /// The identifier of the task that is selected from now on.
    pub selected_id: Option<String>,
    pub counts: TaskCounts,
    pub visible_count_text: String,
    pub has_pausable: bool,
    pub has_paused: bool,
    pub has_clearable: bool,
}

/// Whether the rows of an overview show the tasks under the filter.
pub open spec fn rows_show(
    rows: Seq<TaskRow>,
    tasks: Seq<TaskView>,
    speeds: Seq<u64>,
    filter_index: int,
) -> bool {
    let places = shown_places(tasks, filter_index);
    &&& rows.len() == places.len()
    &&& forall|i: int|
        0 <= i < rows.len() ==> row_shows(
            #[trigger] rows[i],
            tasks[places[i]],
            speeds[places[i]],
        )
}

/// The rows of the tasks under the filter.
fn make_rows(
    tasks: &Vec<TaskSnapshot>,
    speeds: &Vec<u64>,
    filter_index: i32,
) -> (rows: Vec<TaskRow>)
    requires
        speeds@.len() == tasks@.len(),
    ensures
        rows_show(rows@, snapshot_views(tasks@), speeds@, filter_index as int),
{
    let places = find_shown(tasks, filter_index);
    let ghost all = snapshot_views(tasks@);
    let ghost expected = shown_places(all, filter_index as int);
    let mut rows: Vec<TaskRow> = Vec::new();
    let mut i: usize = 0;
    while i < places.len()
        invariant
            speeds@.len() == tasks@.len(),
            all == snapshot_views(tasks@),
            places@.len() == expected.len(),
            forall|j: int|
                0 <= j < places@.len() ==> #[trigger] places@[j] == expected[j] && places@[j]
                    < tasks@.len(),
            i <= places@.len(),
            rows@.len() == i,
            forall|j: int|
                0 <= j < i ==> row_shows(
                    #[trigger] rows@[j],
                    all[expected[j]],
                    speeds@[expected[j]],
                ),
        decreases places@.len() - i,
    {
        let place: usize = places[i];
        assert(all[place as int] == tasks@[place as int]@);
        rows.push(task_to_ui(&tasks[place], speeds[place]));
        i = i + 1;
    }
    rows
}

/// What is said of the number of tasks under the filter.
fn visible_text(shown: usize, all: usize) -> (text: String)
    ensures
        text@ == decimal(shown as nat) + " / "@ + decimal(all as nat) + " 个任务"@,
{
    let mut text = String::new();
    push_decimal(&mut text, shown as u128);
    text.append(" / ");
    push_decimal(&mut text, all as u128);
    text.append(" 个任务");
    assert(text@ == decimal(shown as nat) + " / "@ + decimal(all as nat) + " 个任务"@);
    text
}

/// What the window shows of all tasks, which go at these speeds, in whole bytes per second.
pub fn refresh_overview(
    tasks: &Vec<TaskSnapshot>,
    speeds: &Vec<u64>,
    filter_index: i32,
    selected_id: &Option<String>,
) -> (overview: Overview)
    requires
        speeds@.len() == tasks@.len(),
    ensures
        rows_show(overview.rows@, snapshot_views(tasks@), speeds@, filter_index as int),
        match selected_place(
            snapshot_views(tasks@),
            filter_index as int,
            optional_view(*selected_id),
        ) {
            Some(place) => overview.selected matches Some(row) && row_shows(
                row,
                snapshot_views(tasks@)[place],
                speeds@[place],
            ) && optional_view(overview.selected_id) == Some(snapshot_views(tasks@)[place].id),
            None => overview.selected is None && overview.selected_id is None,
        },
        counts_right(overview.counts, snapshot_views(tasks@)),
        overview.visible_count_text@ == decimal(overview.rows@.len()) + " / "@ + decimal(
            tasks@.len(),
        ) + " 个任务"@,
        overview.has_pausable == (overview.counts.active > 0),
        overview.has_paused == (overview.counts.paused > 0),
        overview.has_clearable == (overview.counts.completed + overview.counts.failed
            + overview.counts.cancelled > 0),
{
    let rows = make_rows(tasks, speeds, filter_index);
    let counts = count_tasks(tasks);
    let (selected, selected_id) = match resolve_selected_task(tasks, filter_index, selected_id) {
        Some(place) => {
            assert(snapshot_views(tasks@)[place as int] == tasks@[place as int]@);
            (Some(task_to_ui(&tasks[place], speeds[place])), Some(tasks[place].id.clone()))
        },
        None => (None, None),
    };
    let visible_count_text = visible_text(rows.len(), tasks.len());
    let has_pausable = counts.active > 0;
    let has_paused = counts.paused > 0;
    let has_clearable = counts.completed > 0 || counts.failed > 0 || counts.cancelled > 0;
    Overview {
        rows,
        selected,
        selected_id,
        counts,
        visible_count_text,
        has_pausable,
        has_paused,
        has_clearable,
    }
}

/// Each task is shown under exactly one of the filters for tasks that are under way, paused,
/// complete, failed and cancelled, and under every other filter.
pub proof fn filters_sort_tasks_out(status: TaskStatus, filter_index: int)
    ensures
        shown_under(status, 1) <==> status == TaskStatus::Queued || status == TaskStatus::Resolving
            || status == TaskStatus::Downloading || status == TaskStatus::Verifying,
        shown_under(status, 2) <==> status == TaskStatus::Paused,
        shown_under(status, 3) <==> status == TaskStatus::Completed,
        shown_under(status, 4) <==> status == TaskStatus::Failed,
        shown_under(status, 5) <==> status == TaskStatus::Cancelled,
        filter_index < 1 || filter_index > 5 ==> shown_under(status, filter_index),
{
}

/// Text with something in it besides white space is shown as it is, and any other as a dash.
pub proof fn blank_text_is_a_dash(text: Seq<char>, i: int)
    ensures
        0 <= i < text.len() && !is_whitespace(text[i]) ==> text_or_dash(text) == text
            && optional_or_dash(Some(text)) == text,
        (forall|k: int| 0 <= k < text.len() ==> is_whitespace(#[trigger] text[k])) ==> text_or_dash(
            text,
        ) == "-"@ && optional_or_dash(Some(text)) == "-"@,
        optional_or_dash(None) == "-"@,
{
    if 0 <= i < text.len() && !is_whitespace(text[i]) {
        visible_text_stays(text, i);
    }
    if forall|k: int| 0 <= k < text.len() ==> is_whitespace(#[trigger] text[k]) {
        assert forall|k: int| 0 <= k < text.len() implies CharClass::Whitespace.has(
            #[trigger] text[k],
        ) by {
            assert(is_whitespace(text[k]));
        }
        trimming_leaves_nothing_of_the_class(text, CharClass::Whitespace);
    }
}

/// Below its name a task says what went wrong with it. Where nothing did, it says what it is doing,
/// and where it does nothing in particular, where it goes.
pub proof fn details_tell_what_matters(task: TaskView, i: int)
    ensures
        task.error matches Some(error) ==> (0 <= i < error.len() && !is_whitespace(error[i])
            ==> detail_text(task) == error),
        task.error is None ==> (task.current_file matches Some(file) ==> (0 <= i < file.len()
            && !is_whitespace(file[i]) ==> detail_text(task) == file)),
        task.error is None && task.current_file is None && 0 <= i < task.output_path.len()
            && !is_whitespace(task.output_path[i]) ==> detail_text(task) == task.output_path,
{
    if let Some(error) = task.error {
        blank_text_is_a_dash(error, i);
        if 0 <= i < error.len() && !is_whitespace(error[i]) {
            visible_text_stays(error, i);
        }
    } else if let Some(file) = task.current_file {
        blank_text_is_a_dash(file, i);
        if 0 <= i < file.len() && !is_whitespace(file[i]) {
            visible_text_stays(file, i);
        }
    } else {
        blank_text_is_a_dash(task.output_path, i);
    }
}

/// A task is found at the first place where its identifier stands.
pub proof fn tasks_are_found_by_their_identifiers(tasks: Seq<TaskView>, id: Seq<char>)
    ensures
        match place_of(tasks, id) {
            Some(place) => 0 <= place < tasks.len() && tasks[place].id == id && forall|j: int|
                0 <= j < place ==> (#[trigger] tasks[j]).id != id,
            None => forall|j: int| 0 <= j < tasks.len() ==> (#[trigger] tasks[j]).id != id,
        },
    decreases tasks.len(),
{
    if tasks.len() > 0 {
        let rest = tasks.drop_last();
        tasks_are_found_by_their_identifiers(rest, id);
        assert(forall|j: int| 0 <= j < rest.len() ==> rest[j] == #[trigger] tasks[j]);
        match place_of(rest, id) {
            Some(place) => {
                assert(tasks[place] == rest[place]);
                assert forall|j: int| 0 <= j < place implies (#[trigger] tasks[j]).id != id by {
                    assert(rest[j].id != id);
                }
            },
            None => {
                assert forall|j: int| 0 <= j < rest.len() implies (#[trigger] tasks[j]).id
                    != id by {
                    assert(rest[j].id != id);
                }
            },
        }
    }
}

/// A task that is selected stays so while it is there, whatever the filter. Otherwise the last task
/// that is shown is selected, or the last of all where none is shown, and none where there is none.
pub proof fn selections_stay(
    tasks: Seq<TaskView>,
    filter_index: int,
    selected: Option<Seq<char>>,
    k: int,
)
    ensures
        tasks.len() == 0 <==> selected_place(tasks, filter_index, selected) is None,
        selected matches Some(id) ==> (0 <= k < tasks.len() && tasks[k].id == id ==> (
        selected_place(tasks, filter_index, selected) matches Some(place) && 0 <= place
            < tasks.len() && tasks[place].id == id)),
        selected is None && 0 <= k < tasks.len() && shown_under(tasks[k].status, filter_index)
            && (forall|j: int|
            k < j < tasks.len() ==> !shown_under((#[trigger] tasks[j]).status, filter_index))
            ==> selected_place(tasks, filter_index, selected) == Some(k),
        selected is None && tasks.len() > 0 && (forall|j: int|
            0 <= j < tasks.len() ==> !shown_under((#[trigger] tasks[j]).status, filter_index))
            ==> selected_place(tasks, filter_index, selected) == Some(tasks.len() - 1),
{
    if let Some(id) = selected {
        tasks_are_found_by_their_identifiers(tasks, id);
    }
    shown_places_match(tasks, filter_index);
    let places = shown_places(tasks, filter_index);
    if 0 <= k < tasks.len() && shown_under(tasks[k].status, filter_index) && (forall|j: int|
        k < j < tasks.len() ==> !shown_under((#[trigger] tasks[j]).status, filter_index)) {
        assert(places.contains(k));
        let at = choose|at: int| 0 <= at < places.len() && places[at] == k;
        let last = places.len() - 1;
        assert(shown_under(tasks[places[last]].status, filter_index));
        if at < last {
            assert(places[at] < places[last]);
        }
        assert(places.last() == k);
    }
    if places.len() > 0 {
        assert(shown_under(tasks[places[0]].status, filter_index));
    }
}

/// Counting tasks of a kind gives as many as there are.
pub proof fn counts_are_of_the_tasks(tasks: Seq<TaskView>, wanted: spec_fn(TaskStatus) -> bool)
    ensures
        count_of(tasks, wanted) == tasks.filter(|task: TaskView| wanted(task.status)).len(),
    decreases tasks.len(),
{
    reveal(Seq::filter);
    if tasks.len() > 0 {
        counts_are_of_the_tasks(tasks.drop_last(), wanted);
    }
}

/// A row tells of its task, and of no other: its name, its bytes, its speed, its settings, its
/// places and its times.
pub proof fn rows_tell_of_their_task(row: TaskRow, task: TaskView, speed: u64, i: int)
    requires
        row_shows(row, task, speed),
    ensures
        row.id@ == task.id,
        row.file_name@ == task.file_name,
        0 <= i < task.output_dir.len() && !is_whitespace(task.output_dir[i]) ==> row.output_dir@
            == task.output_dir,
        0 <= i < task.output_path.len() && !is_whitespace(task.output_path[i]) ==> row.output_path@
            == task.output_path,
        0 <= i < task.url.len() && !is_whitespace(task.url[i]) ==> row.url@ == task.url,
        task.current_file is None ==> row.current_file@ == "-"@,
        task.error is None ==> row.error_text@ == "-"@,
        task.error matches Some(error) ==> (0 <= i < error.len() && !is_whitespace(error[i])
            ==> row.error_text@ == error && row.detail@ == error),
        task.current_file matches Some(file) ==> (0 <= i < file.len() && !is_whitespace(file[i])
            ==> row.current_file@ == file),
        row.downloaded_text@ == bytes_text(task.downloaded_bytes as nat) + " / "@ + bytes_text(
            task.total_bytes as nat,
        ),
        row.speed_text@ == bytes_text(speed as nat) + "/s"@,
        shows_time(row.created_at@, task.created_at as int),
        shows_time(row.updated_at@, task.updated_at as int),
{
    blank_text_is_a_dash(task.output_dir, i);
    blank_text_is_a_dash(task.output_path, i);
    blank_text_is_a_dash(task.url, i);
    details_tell_what_matters(task, i);
    if let Some(error) = task.error {
        blank_text_is_a_dash(error, i);
    }
    if let Some(file) = task.current_file {
        blank_text_is_a_dash(file, i);
    }
}

/// A row says how long its task still takes: as many whole seconds as the missing bytes need at
/// its speed.
pub proof fn rows_tell_the_time_that_is_left(
    row: TaskRow,
    task: TaskView,
    speed: u64,
    seconds: nat,
    rest: nat,
)
    requires
        row_shows(row, task, speed),
        task.status == TaskStatus::Downloading,
        task.downloaded_bytes < task.total_bytes,
        rest < speed,
        task.total_bytes - task.downloaded_bytes == speed * seconds + rest,
    ensures
        row.eta_text@ == "剩余 "@ + duration_text(seconds),
{
    remaining_time_follows_the_speed(task.status, speed as nat, seconds, rest);
}

/// No two statuses are told alike.
pub proof fn statuses_are_told_apart(a: TaskStatus, b: TaskStatus)
    requires
        text_of_status(a) == text_of_status(b),
    ensures
        a == b,
{
    reveal_strlit("排队中");
    reveal_strlit("解析中");
    reveal_strlit("下载中");
    reveal_strlit("已暂停");
    reveal_strlit("校验中");
    reveal_strlit("完成");
    reveal_strlit("失败");
    reveal_strlit("已取消");
    let x = text_of_status(a);
    let y = text_of_status(b);
    assert(x[0] == y[0] && x[1] == y[1]);
}

/// A row tells how its task is run, and is coloured after what has become of it: tasks that are
/// under way alike, and all others each in its own way.
pub proof fn rows_tell_how_tasks_run(row: TaskRow, task: TaskView, speed: u64)
    requires
        row_shows(row, task, speed),
    ensures
        row.config_text@ == decimal(task.connections as nat) + " 连接 · "@ + bytes_text(
            task.chunk_size_bytes as nat,
        ) + " 分片"@,
        row.status_kind@ == "paused"@ <==> task.status == TaskStatus::Paused,
        row.status_kind@ == "completed"@ <==> task.status == TaskStatus::Completed,
        row.status_kind@ == "failed"@ <==> task.status == TaskStatus::Failed,
        row.status_kind@ == "cancelled"@ <==> task.status == TaskStatus::Cancelled,
        row.status_kind@ == "active"@ <==> row.can_pause,
{
    reveal_strlit("paused");
    reveal_strlit("completed");
    reveal_strlit("failed");
    reveal_strlit("cancelled");
    reveal_strlit("active");
    assert("paused"@[0] == 'p' && "completed"@[1] == 'o' && "failed"@[0] == 'f' && "cancelled"@[1]
        == 'a' && "active"@[0] == 'a' && "completed"@[0] == 'c' && "cancelled"@[0] == 'c');
}

} // verus!
