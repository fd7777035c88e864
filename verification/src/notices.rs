//! What the window answers to what the user does.
use crate::api::{LinkPreview, PreviewView};
use crate::format::{bytes_text, format_bytes};
use crate::link::optional_view;
use crate::queue::snapshot_views;
use crate::rows::{
    find_task, non_empty_or, place_of, tasks_are_found_by_their_identifiers, text_or_dash,
};
use crate::settings::{
    chunk_mb_from_bytes, chunk_mb_in_mode, chunk_mb_of, edges_of_a_field_are_dropped, greater, lesser,
    settled, trimmed_or_none, value_or, DownloadRequest, FormValues, RequestSettings, TaskSettings,
};
use crate::tasks::{TaskSnapshot, TaskStatus, TaskView};
use crate::text::{
    decimal, is_blank, is_unbroken, is_whitespace, push_decimal, same_text, split, splitting_undoes_joining, trim,
    unbroken_text_is_one_piece, CharClass,
};
use vstd::prelude::*;

verus! {

/// A notice that the window shows.
pub struct Notice {
    pub title: String,
    pub text: String,
    /// Whether it tells of a failure.
    pub danger: bool,
}

/// The mathematical form of a `Notice`.
pub struct NoticeView {
    pub title: Seq<char>,
    pub text: Seq<char>,
    pub danger: bool,
}

impl View for Notice {
    type V = NoticeView;

    open spec fn view(&self) -> NoticeView {
        NoticeView { title: self.title@, text: self.text@, danger: self.danger }
    }
}

/// A notice of these texts.
fn notice(title: &str, text: &str, danger: bool) -> (made: Notice)
    ensures
        made@ == (NoticeView { title: title@, text: text@, danger }),
{
    Notice { title: title.to_string(), text: text.to_string(), danger }
}

/// What the user can do.
#[derive(Debug, Clone, Copy, PartialEq, Eq, Structural)]
pub enum UserAction {
    ChooseDir,
    Inspect,
    Pause,
    Resume,
    Cancel,
    OpenFile,
    OpenFolder,
    Delete,
    Retry,
    PauseAll,
    ResumeAll,
    ClearFinished,
}

/// The title of the notice that an action has failed.
pub open spec fn failure_title(action: UserAction) -> Seq<char> {
    match action {
        UserAction::ChooseDir => "选择目录失败"@,
        UserAction::Inspect => "链接解析失败"@,
        UserAction::Pause => "暂停失败"@,
        UserAction::Resume => "继续失败"@,
        UserAction::Cancel => "取消失败"@,
        UserAction::OpenFile => "打开文件失败"@,
        UserAction::OpenFolder => "打开目录失败"@,
        UserAction::Delete => "删除任务失败"@,
        UserAction::Retry => "重试失败"@,
        UserAction::PauseAll => "全部暂停失败"@,
        UserAction::ResumeAll => "全部继续失败"@,
        UserAction::ClearFinished => "清空任务失败"@,
    }
}

/// The notice that an action has failed.
pub fn failed_action(action: UserAction, cause: &str) -> (made: Notice)
    ensures
        made@ == (NoticeView { title: failure_title(action), text: cause@, danger: true }),
{
    let title = match action {
        UserAction::ChooseDir => "选择目录失败",
        UserAction::Inspect => "链接解析失败",
        UserAction::Pause => "暂停失败",
        UserAction::Resume => "继续失败",
        UserAction::Cancel => "取消失败",
        UserAction::OpenFile => "打开文件失败",
        UserAction::OpenFolder => "打开目录失败",
        UserAction::Delete => "删除任务失败",
        UserAction::Retry => "重试失败",
        UserAction::PauseAll => "全部暂停失败",
        UserAction::ResumeAll => "全部继续失败",
        UserAction::ClearFinished => "清空任务失败",
    };
    notice(title, cause, true)
}

/// The notice that there is no link to work with.
pub fn missing_link() -> (made: Notice)
    ensures
        made@ == (NoticeView {
            title: "缺少链接"@,
            text: "请输入 MEGA 公共链接。"@,
            danger: true,
        }),
{
    notice("缺少链接", "请输入 MEGA 公共链接。", true)
}

/// The notice of a preview.
pub open spec fn preview_notice(preview: PreviewView) -> NoticeView {
    if preview.requires_password {
        NoticeView {
            title: "需要密码"@,
            text: "请输入共享密码后再读取。"@,
            danger: true,
        }
    } else {
        NoticeView {
            title: (if preview.kind == "folder"@ {
                "文件夹"@
            } else {
                "文件"@
            }) + ": "@ + preview.name,
            text: bytes_text(preview.total_bytes as nat) + " · "@ + decimal(
                preview.file_count as nat,
            ) + " 个文件"@,
            danger: false,
        }
    }
}

/// The notice of what a link was found to be, or of why nothing was found.
pub fn inspected(result: Result<LinkPreview, String>) -> (made: Notice)
    ensures
        made@ == (match result {
            Ok(preview) => preview_notice(preview@),
            Err(cause) => NoticeView {
                title: failure_title(UserAction::Inspect),
                text: cause@,
                danger: true,
            },
        }),
{
    let preview = match result {
        Ok(found) => found,
        Err(cause) => return failed_action(UserAction::Inspect, &cause),
    };
    if preview.requires_password {
        return notice("需要密码", "请输入共享密码后再读取。", true);
    }
    let mut title = if same_text(&preview.kind, "folder") {
        "文件夹".to_string()
    } else {
        "文件".to_string()
    };
    title.append(": ");
    title.append(&preview.name);
    let mut text = format_bytes(preview.total_bytes);
    text.append(" · ");
    push_decimal(&mut text, preview.file_count as u128);
    text.append(" 个文件");
    Notice { title, text, danger: false }
}

/// What the window does once all links of a submission were tried.
pub struct StartSummary {
    /// What stands in the field for links from now on.
    pub url_text: String,
    /// Whether the password is cleared.
    pub clear_password: bool,
    pub notice: Notice,
}

/// What has become of the links of a submission so far.
pub struct StartTally {
    /// The number of links that were started.
    pub added: usize,
    /// The links that could not be started, each with its error.
    pub failed: Vec<(String, String)>,
    /// The task that was started last.
    pub last_id: Option<String>,
}

/// The mathematical form of a `StartTally`.
pub struct TallyView {
    pub added: nat,
    pub failed: Seq<(Seq<char>, Seq<char>)>,
    pub last_id: Option<Seq<char>>,
}

/// Links with their errors, in mathematical form.
pub open spec fn failed_views(failed: Seq<(String, String)>) -> Seq<(Seq<char>, Seq<char>)> {
    Seq::new(failed.len(), |i: int| (failed[i].0@, failed[i].1@))
}

impl View for StartTally {
    type V = TallyView;

    open spec fn view(&self) -> TallyView {
        TallyView {
            added: self.added as nat,
            failed: failed_views(self.failed@),
            last_id: optional_view(self.last_id),
        }
    }
}

/// No link was tried yet.
pub open spec fn empty_tally() -> TallyView {
    TallyView { added: 0, failed: Seq::empty(), last_id: None }
}

/// A tally with one more link: the task that it was started as, or why it was not.
pub open spec fn tallied(
    tally: TallyView,
    url: Seq<char>,
    outcome: Result<Seq<char>, Seq<char>>,
) -> TallyView {
    match outcome {
        Ok(id) => TallyView { added: tally.added + 1, last_id: Some(id), ..tally },
        Err(cause) => TallyView { failed: tally.failed.push((url, cause)), ..tally },
    }
}

/// An outcome of starting a link, in mathematical form.
pub open spec fn outcome_view(outcome: Result<String, String>) -> Result<Seq<char>, Seq<char>> {
    match outcome {
        Ok(id) => Ok(id@),
        Err(cause) => Err(cause@),
    }
}

impl StartTally {
    /// No link was tried yet.
    pub fn new() -> (tally: StartTally)
        ensures
            tally@ == empty_tally(),
    {
        let tally = StartTally { added: 0, failed: Vec::new(), last_id: None };
        assert(failed_views(tally.failed@) == Seq::<(Seq<char>, Seq<char>)>::empty());
        tally
    }

    /// Takes in what has become of a link: the task that it was started as, or why it was not.
    pub fn note(&mut self, url: String, outcome: Result<String, String>)
        requires
            old(self).added < usize::MAX,
        ensures
            final(self)@ == tallied(old(self)@, url@, outcome_view(outcome)),
    {
        match outcome {
            Ok(id) => {
                self.added = self.added + 1;
                self.last_id = Some(id);
            },
            Err(cause) => {
                let ghost before = self.failed@;
                self.failed.push((url, cause));
                assert(failed_views(self.failed@) == failed_views(before).push((url@, cause@)));
            },
        }
    }

    /// What is selected once all links were tried: the task that was started last, or what was
    /// selected before where none was.
    pub fn selection(&self, before: Option<String>) -> (selected: Option<String>)
        ensures
            optional_view(selected) == (if self@.last_id is Some {
                self@.last_id
            } else {
                optional_view(before)
            }),
    {
        match &self.last_id {
            Some(id) => Some(id.clone()),
            None => before,
        }
    }
}

/// The tally of links that were tried one after the other.
pub open spec fn tally_of(
    tried: Seq<(Seq<char>, Result<Seq<char>, Seq<char>>)>,
) -> TallyView
    decreases tried.len(),
{
    if tried.len() == 0 {
        empty_tally()
    } else {
        tallied(tally_of(tried.drop_last()), tried.last().0, tried.last().1)
    }
}

/// Every link that was tried was either started or has failed, and the task that is selected is
/// the last that was started.
pub proof fn every_link_is_accounted_for(
    tried: Seq<(Seq<char>, Result<Seq<char>, Seq<char>>)>,
)
    ensures
        tally_of(tried).added + tally_of(tried).failed.len() == tried.len(),
        match tally_of(tried).last_id {
            Some(id) => exists|i: int|
                0 <= i < tried.len() && (#[trigger] tried[i]).1 == Ok::<Seq<char>, Seq<char>>(id)
                    && forall|j: int| i < j < tried.len() ==> (#[trigger] tried[j]).1 is Err,
            None => forall|j: int| 0 <= j < tried.len() ==> (#[trigger] tried[j]).1 is Err,
        },
    decreases tried.len(),
{
    if tried.len() > 0 {
        let before = tried.drop_last();
        let n = tried.len() - 1;
        every_link_is_accounted_for(before);
        assert(tried[n] == tried.last());
        if tried.last().1 is Err && tally_of(before).last_id is Some {
            let id = tally_of(before).last_id->0;
            let i = choose|i: int|
                0 <= i < before.len() && (#[trigger] before[i]).1 == Ok::<Seq<char>, Seq<char>>(id)
                    && forall|j: int| i < j < before.len() ==> (#[trigger] before[j]).1 is Err;
            assert(tried[i] == before[i]);
            assert forall|j: int| i < j < tried.len() implies (#[trigger] tried[j]).1 is Err by {
                if j < n {
                    assert(tried[j] == before[j]);
                }
            }
        } else if tried.last().1 is Err {
            assert forall|j: int| 0 <= j < tried.len() implies (#[trigger] tried[j]).1 is Err by {
                if j < n {
                    assert(tried[j] == before[j]);
                }
            }
        }
    }
}

/// The links that could not be started, one on each line.
pub open spec fn lines_of(failed: Seq<(String, String)>) -> Seq<char>
    decreases failed.len(),
{
    if failed.len() == 0 {
        Seq::empty()
    } else if failed.len() == 1 {
        failed[0].0@
    } else {
        lines_of(failed.drop_last()).push('\n') + failed.last().0@
    }
}

/// The links that could not be started, one on each line.
fn join_links(failed: &Vec<(String, String)>) -> (text: String)
    ensures
        text@ == lines_of(failed@),
{
    let mut text = String::new();
    let mut i: usize = 0;
    assert(failed@.take(0).len() == 0);
    while i < failed.len()
        invariant
            i <= failed@.len(),
            text@ == lines_of(failed@.take(i as int)),
        decreases failed@.len() - i,
    {
        assert(failed@.take(i + 1).drop_last() == failed@.take(i as int));
        if i > 0 {
            text.push('\n');
        }
        text.append(&failed[i].0);
        assert(text@ == lines_of(failed@.take(i + 1)));
        i = i + 1;
    }
    assert(failed@.take(failed@.len() as int) == failed@);
    text
}

/// The notice of a submission of which some links could not be started.
pub open spec fn start_notice(added: nat, failed: Seq<(String, String)>) -> NoticeView {
    if failed.len() == 0 {
        NoticeView {
            title: "已加入队列"@,
            text: decimal(added) + " 个链接已开始下载。"@,
            danger: false,
        }
    } else {
        NoticeView {
            title: if added > 0 {
                "已添加 "@ + decimal(added) + " 个，失败 "@ + decimal(failed.len()) + " 个"@
            } else {
                "无法开始下载"@
            },
            text: "首个错误："@ + failed[0].1@,
            danger: added == 0,
        }
    }
}

/// What the window does once all links of a submission were tried: `added` were started, and each
/// that failed comes with its error. The links that failed stay in the field.
pub fn summarize_start(added: usize, failed: &Vec<(String, String)>) -> (summary: StartSummary)
    ensures
        summary.url_text@ == lines_of(failed@),
        summary.clear_password == (failed@.len() == 0),
        summary.notice@ == start_notice(added as nat, failed@),
{
    let url_text = join_links(failed);
    if failed.len() == 0 {
        let mut text = String::new();
        push_decimal(&mut text, added as u128);
        text.append(" 个链接已开始下载。");
        assert(text@ == decimal(added as nat) + " 个链接已开始下载。"@);
        return StartSummary {
            url_text,
            clear_password: true,
            notice: Notice { title: "已加入队列".to_string(), text, danger: false },
        };
    }
    let mut title = String::new();
    if added > 0 {
        title.append("已添加 ");
        push_decimal(&mut title, added as u128);
        title.append(" 个，失败 ");
        push_decimal(&mut title, failed.len() as u128);
        title.append(" 个");
        assert(title@ == "已添加 "@ + decimal(added as nat) + " 个，失败 "@ + decimal(
            failed@.len(),
        ) + " 个"@);
    } else {
        title.append("无法开始下载");
        assert(title@ == "无法开始下载"@);
    }
    let mut text = "首个错误：".to_string();
    text.append(&failed[0].1);
    StartSummary {
        url_text,
        clear_password: false,
        notice: Notice { title, text, danger: added == 0 },
    }
}

/// The notice that finished tasks were cleared away.
pub fn cleared(removed: usize) -> (made: Notice)
    ensures
        made@ == (if removed > 0 {
            NoticeView {
                title: "已清空任务"@,
                text: "已移除 "@ + decimal(removed as nat) + " 个已结束任务记录。"@,
                danger: false,
            }
        } else {
            NoticeView {
                title: "没有可清空任务"@,
                text: "运行中任务会保留在队列中。"@,
                danger: false,
            }
        }),
{
    if removed == 0 {
        return notice("没有可清空任务", "运行中任务会保留在队列中。", false);
    }
    let mut text = "已移除 ".to_string();
    push_decimal(&mut text, removed as u128);
    text.append(" 个已结束任务记录。");
    Notice { title: "已清空任务".to_string(), text, danger: false }
}

/// The notice that a task was started again, or why it was not.
pub fn retried(result: Result<(), String>) -> (made: Notice)
    ensures
        made@ == (match result {
            Ok(_) => NoticeView {
                title: "已重新加入队列"@,
                text: "任务已按原参数处理。"@,
                danger: false,
            },
            Err(cause) => NoticeView {
                title: failure_title(UserAction::Retry),
                text: cause@,
                danger: true,
            },
        }),
{
    match result {
        Ok(_) => notice("已重新加入队列", "任务已按原参数处理。", false),
        Err(cause) => failed_action(UserAction::Retry, &cause),
    }
}

/// The task that is selected after one was deleted, or could not be.
pub fn selection_after_delete(selected: Option<String>, id: &str) -> (next: Option<String>)
    ensures
        optional_view(next) == (if optional_view(selected) == Some(id@) {
            None
        } else {
            optional_view(selected)
        }),
{
    match selected {
        Some(found) => if same_text(&found, id) {
            None
        } else {
            Some(found)
        },
        None => None,
    }
}

/// Whether settings start a task anew with its own choices, and the password of the form. A task
/// that was completed is overwritten.
pub open spec fn retries_task(
    settings: RequestSettings,
    task: TaskView,
    password: Seq<char>,
) -> bool {
    &&& optional_view(settings.output_dir) == Some(text_or_dash(task.output_dir))
    &&& optional_view(settings.password) == trimmed_or_none(password)
    &&& settings.connections == task.connections
    &&& settings.chunk_size_mb == chunk_mb_of(task.chunk_size_bytes as int)
    &&& settings.performance_mode == task.performance_mode
    &&& settings.retry_mode == task.retry_mode
    &&& settings.overwrite == (task.overwrite || task.status == TaskStatus::Completed)
    &&& settings.verify_integrity == task.verify_integrity
}

/// Why a task cannot be started again, if it cannot be.
pub open spec fn retry_refusal(tasks: Seq<TaskView>, id: Seq<char>) -> Option<Seq<char>> {
    match place_of(tasks, id) {
        None => Some("任务不存在。"@),
        Some(place) => if trim(tasks[place].url).len() == 0 {
            Some("任务缺少原始链接。"@)
        } else {
            None
        },
    }
}

/// The settings and the link that a task is started again with, or why it cannot be.
pub fn retry_settings(tasks: &Vec<TaskSnapshot>, id: &str, form: &FormValues) -> (settings: Result<
    (RequestSettings, String),
    Notice,
>)
    ensures
        match settings {
            Ok(found) => retry_refusal(snapshot_views(tasks@), id@) is None && ({
                let task = snapshot_views(tasks@)[place_of(snapshot_views(tasks@), id@)->0];
                retries_task(found.0, task, form.password@) && found.1@ == task.url
            }),
            Err(made) => retry_refusal(snapshot_views(tasks@), id@) matches Some(text) && made@
                == (NoticeView { title: "无法重试"@, text, danger: true }),
        },
{
    let place = match find_task(tasks, id) {
        Some(found) => found,
        None => return Err(notice("无法重试", "任务不存在。", true)),
    };
    let task = &tasks[place];
    assert(snapshot_views(tasks@)[place as int] == task@);
    if is_blank(&task.url) {
        return Err(notice("无法重试", "任务缺少原始链接。", true));
    }
    let mut settings = RequestSettings::from_ui(form);
    settings.output_dir = Some(non_empty_or(task.output_dir.clone()));
    settings.connections = task.connections;
    settings.chunk_size_mb = chunk_mb_from_bytes(task.chunk_size_bytes);
    settings.performance_mode = task.performance_mode;
    settings.retry_mode = task.retry_mode;
    settings.overwrite = task.overwrite || matches!(task.status, TaskStatus::Completed);
    settings.verify_integrity = task.verify_integrity;
    Ok((settings, task.url.clone()))
}

/// A task that is started again runs with what it ran with before: the same connections, chunks
/// and modes, and the same care for integrity. It overwrites exactly if it did before, but for a
/// task that was completed, which is always overwritten.
pub proof fn retries_keep_the_parameters(
    request: DownloadRequest,
    before: TaskSettings,
    settings: RequestSettings,
    task: TaskView,
    password: Seq<char>,
    again: DownloadRequest,
    after: TaskSettings,
)
    requires
        settled(request, before),
        task.connections == before.connections,
        task.chunk_size_bytes == before.chunk_size,
        task.overwrite == before.overwrite,
        task.verify_integrity == before.verify_integrity,
        task.performance_mode == before.performance_mode,
        task.retry_mode == before.retry_mode,
        retries_task(settings, task, password),
        again.connections == Some(settings.connections),
        again.chunk_size_mb == Some(settings.chunk_size_mb),
        again.overwrite == Some(settings.overwrite),
        again.verify_integrity == Some(settings.verify_integrity),
        again.performance_mode == Some(settings.performance_mode),
        again.retry_mode == Some(settings.retry_mode),
        settled(again, after),
    ensures
        after.connections == before.connections,
        after.chunk_size == before.chunk_size,
        after.performance_mode == before.performance_mode,
        after.retry_mode == before.retry_mode,
        after.verify_integrity == before.verify_integrity,
        before.overwrite ==> after.overwrite,
        task.status != TaskStatus::Completed ==> after.overwrite == before.overwrite,
        task.status == TaskStatus::Completed ==> after.overwrite,
{
    let asked = value_or(request.chunk_size_mb, crate::settings::DEFAULT_CHUNK_MB) as int;
    let in_mode = chunk_mb_in_mode(asked, before.performance_mode);
    let mb = lesser(greater(in_mode, 1), 64);
    assert(before.chunk_size == mb * 1_048_576);
    assert((mb * 1_048_576) / 1_048_576 == mb);
    assert(settings.chunk_size_mb == mb);
}

/// A task that is started again goes to the folder that it went to before.
pub proof fn retries_keep_the_folder(
    settings: RequestSettings,
    task: TaskView,
    password: Seq<char>,
)
    requires
        retries_task(settings, task, password),
        exists|i: int|
            0 <= i < task.output_dir.len() && !CharClass::Whitespace.has(
                #[trigger] task.output_dir[i],
            ),
    ensures
        optional_view(settings.output_dir) == Some(task.output_dir),
{
    let i = choose|i: int|
        0 <= i < task.output_dir.len() && !CharClass::Whitespace.has(#[trigger] task.output_dir[i]);
    crate::text::visible_text_stays(task.output_dir, i);
}

/// A task that is started again overwrites what is there exactly if it did so before, or if it is
/// complete. It keeps its connections, its mode, its way to retry and its check.
pub proof fn retries_overwrite_what_is_complete(
    settings: RequestSettings,
    task: TaskView,
    password: Seq<char>,
)
    requires
        retries_task(settings, task, password),
    ensures
        task.status != TaskStatus::Completed ==> settings.overwrite == task.overwrite,
        task.status == TaskStatus::Completed ==> settings.overwrite,
        settings.connections == task.connections,
        settings.performance_mode == task.performance_mode,
        settings.retry_mode == task.retry_mode,
        settings.verify_integrity == task.verify_integrity,
{
}

/// A task can be started again exactly if it is there and has a link with something in it besides
/// white space.
pub proof fn retries_need_a_link(tasks: Seq<TaskView>, id: Seq<char>, k: int, i: int)
    ensures
        (forall|j: int| 0 <= j < tasks.len() ==> (#[trigger] tasks[j]).id != id) ==> retry_refusal(
            tasks,
            id,
        ) == Some("任务不存在。"@),
        0 <= k < tasks.len() && tasks[k].id == id && (forall|j: int|
            0 <= j < k ==> (#[trigger] tasks[j]).id != id) ==> {
            &&& 0 <= i < tasks[k].url.len() && !CharClass::Whitespace.has(tasks[k].url[i])
                ==> retry_refusal(tasks, id) is None
            &&& (forall|n: int|
                0 <= n < tasks[k].url.len() ==> CharClass::Whitespace.has(
                    #[trigger] tasks[k].url[n],
                )) ==> retry_refusal(tasks, id) == Some("任务缺少原始链接。"@)
        },
{
    tasks_are_found_by_their_identifiers(tasks, id);
    if let Some(place) = place_of(tasks, id) {
        assert(tasks[place].id == id);
        if 0 <= k < tasks.len() && tasks[k].id == id && (forall|j: int|
            0 <= j < k ==> (#[trigger] tasks[j]).id != id) {
            assert(place == k);
            let url = tasks[k].url;
            if 0 <= i < url.len() && !CharClass::Whitespace.has(url[i]) {
                crate::text::visible_text_stays(url, i);
            }
            if forall|n: int|
                0 <= n < url.len() ==> CharClass::Whitespace.has(#[trigger] url[n]) {
                crate::text::trimming_leaves_nothing_of_the_class(url, CharClass::Whitespace);
            }
        }
    } else if 0 <= k < tasks.len() {
        assert(tasks[k].id != id);
    }
}

/// The links that could not be started stay one on each line: taken apart at the line breaks, the
/// text gives them back.
pub proof fn failed_links_stay_on_their_lines(failed: Seq<(String, String)>)
    requires
        failed.len() > 0,
        forall|i: int|
            0 <= i < failed.len() ==> is_unbroken((#[trigger] failed[i]).0@, CharClass::Only('\n')),
    ensures
        split(lines_of(failed), CharClass::Only('\n')) == Seq::new(
            failed.len(),
            |i: int| failed[i].0@,
        ),
    decreases failed.len(),
{
    let class = CharClass::Only('\n');
    let links = Seq::new(failed.len(), |i: int| failed[i].0@);
    if failed.len() == 1 {
        assert(is_unbroken(failed[0].0@, class));
        unbroken_text_is_one_piece(failed[0].0@, class);
        assert(links =~= seq![failed[0].0@]);
    } else {
        let front = failed.drop_last();
        assert forall|i: int| 0 <= i < front.len() implies is_unbroken(
            (#[trigger] front[i]).0@,
            class,
        ) by {
            assert(front[i] == failed[i]);
        }
        failed_links_stay_on_their_lines(front);
        assert(is_unbroken(failed[failed.len() - 1].0@, class));
        splitting_undoes_joining(lines_of(front), '\n', failed.last().0@, class);
        assert(Seq::new(front.len(), |i: int| front[i].0@).push(failed.last().0@) =~= links);
    }
}

/// What the user is told once all links were tried: it is a failure only if none was started, and
/// the first error is told if there is one.
pub proof fn starts_are_told(added: nat, failed: Seq<(String, String)>)
    ensures
        start_notice(added, failed).danger <==> added == 0 && failed.len() > 0,
        failed.len() > 0 ==> start_notice(added, failed).text == "首个错误："@ + failed[0].1@,
        failed.len() == 0 ==> start_notice(added, failed).text == decimal(added)
            + " 个链接已开始下载。"@,
{
}

/// What the user is told of a preview: that a password is needed exactly if it is, and otherwise
/// the name, the size and the number of files.
pub proof fn previews_are_told(preview: PreviewView)
    ensures
        preview_notice(preview).danger == preview.requires_password,
        !preview.requires_password && preview.kind == "folder"@ ==> preview_notice(preview).title
            == "文件夹"@ + ": "@ + preview.name,
        !preview.requires_password && preview.kind == "file"@ ==> preview_notice(preview).title
            == "文件"@ + ": "@ + preview.name,
        !preview.requires_password ==> preview_notice(preview).text == bytes_text(
            preview.total_bytes as nat,
        ) + " · "@ + decimal(preview.file_count as nat) + " 个文件"@,
{
    reveal_strlit("file");
    reveal_strlit("folder");
    assert("file"@.len() != "folder"@.len());
}

/// A task that can be started again is started with its own link and choices. What is there is
/// overwritten only if the task is complete, or did so before.
pub proof fn retried_tasks_keep_their_choices(
    tasks: &Vec<TaskSnapshot>,
    id: &str,
    form: &FormValues,
    settings: Result<(RequestSettings, String), Notice>,
    k: int,
)
    requires
        call_ensures(retry_settings, (tasks, id, form), settings),
        0 <= k < tasks@.len(),
        tasks@[k].id@ == id@,
        forall|j: int| 0 <= j < k ==> (#[trigger] tasks@[j]).id@ != id@,
        exists|i: int|
            0 <= i < tasks@[k].url@.len() && !CharClass::Whitespace.has(#[trigger] tasks@[k].url@[i]),
    ensures
        settings matches Ok(found) && found.1@ == tasks@[k].url@ && found.0.connections
            == tasks@[k].connections && found.0.performance_mode == tasks@[k].performance_mode
            && found.0.retry_mode == tasks@[k].retry_mode && found.0.verify_integrity
            == tasks@[k].verify_integrity && (tasks@[k].status != TaskStatus::Completed
            ==> found.0.overwrite == tasks@[k].overwrite) && (tasks@[k].status
            == TaskStatus::Completed ==> found.0.overwrite),
{
    let all = snapshot_views(tasks@);
    assert(forall|j: int| 0 <= j < tasks@.len() ==> all[j] == (#[trigger] tasks@[j])@);
    assert forall|j: int| 0 <= j < k implies (#[trigger] all[j]).id != id@ by {
        assert(tasks@[j].id@ != id@);
    }
    let i = choose|i: int|
        0 <= i < tasks@[k].url@.len() && !CharClass::Whitespace.has(#[trigger] tasks@[k].url@[i]);
    retries_need_a_link(all, id@, k, i);
    tasks_are_found_by_their_identifiers(all, id@);
}

/// Deleting the task that is selected leaves nothing selected, and deleting any other changes
/// nothing about the selection.
pub proof fn deleting_keeps_the_selection(
    selected: Option<String>,
    id: &str,
    next: Option<String>,
)
    requires
        call_ensures(selection_after_delete, (selected, id), next),
    ensures
        selected matches Some(found) ==> if found@ == id@ {
            next is None
        } else {
            next matches Some(kept) && kept@ == found@
        },
        selected is None ==> next is None,
{
}

/// A task is started again with the password that the form holds, without the white space around
/// it, and without a password where the form holds nothing else.
pub proof fn retries_take_the_password_of_the_form(
    settings: RequestSettings,
    task: TaskView,
    before: Seq<char>,
    password: Seq<char>,
    behind: Seq<char>,
)
    requires
        forall|i: int| 0 <= i < before.len() ==> is_whitespace(#[trigger] before[i]),
        forall|i: int| 0 <= i < behind.len() ==> is_whitespace(#[trigger] behind[i]),
        password.len() > 0,
        !is_whitespace(password.first()),
        !is_whitespace(password.last()),
    ensures
        retries_task(settings, task, before + password + behind) ==> optional_view(
            settings.password,
        ) == Some(password),
        retries_task(settings, task, before) ==> settings.password is None,
{
    edges_of_a_field_are_dropped(before, password, behind);
}

/// What has failed is told by a title of its own.
pub proof fn failures_have_their_titles(a: UserAction, b: UserAction)
    requires
        failure_title(a) == failure_title(b),
    ensures
        a == b,
{
    reveal_strlit("选择目录失败");
    reveal_strlit("链接解析失败");
    reveal_strlit("暂停失败");
    reveal_strlit("继续失败");
    reveal_strlit("取消失败");
    reveal_strlit("打开文件失败");
    reveal_strlit("打开目录失败");
    reveal_strlit("删除任务失败");
    reveal_strlit("重试失败");
    reveal_strlit("全部暂停失败");
    reveal_strlit("全部继续失败");
    reveal_strlit("清空任务失败");
    let x = failure_title(a);
    let y = failure_title(b);
    assert(x.len() == y.len());
    assert(x[0] == y[0] && x[2] == y[2]);
}

} // verus!
