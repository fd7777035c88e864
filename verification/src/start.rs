//! How a task starts.
use crate::error::{error_text, ErrorView};
use crate::link::{
    link_in, non_empty_password, optional_view, parse_public_link, present, LinkView, PublicLink,
};
use crate::settings::{
    chunk_size_fits, has_countable_chunk_size, settle, settled, DownloadRequest, TaskSettings,
};
use crate::tasks::{
    task_inserted, untouched, AppState, TaskControl, TaskSnapshot, TaskStatus, TaskView,
};
use crate::text::{
    is_blank, is_whitespace, trim, trimming_leaves_nothing_of_the_class, visible_text_stays, CharClass,
};
use vstd::prelude::*;

verus! {

/// A task that was started, and what it is run with.
pub struct StartedTask {
    pub task: TaskSnapshot,
    pub link: PublicLink,
    pub output_dir: String,
    pub settings: TaskSettings,
}

/// The folder that a download is saved in: the one that is asked for, unless that is blank.
pub open spec fn chosen_dir(asked: Option<Seq<char>>, fallback: Seq<char>) -> Seq<char> {
    match asked {
        Some(dir) => if trim(dir).len() > 0 {
            dir
        } else {
            fallback
        },
        None => fallback,
    }
}

/// A task that has just been made.
pub open spec fn new_task_view(
    id: Seq<char>,
    url: Seq<char>,
    output_dir: Seq<char>,
    settings: TaskSettings,
    now: u128,
) -> TaskView {
    TaskView {
        id,
        url,
        file_name: "Resolving link"@,
        output_dir,
        output_path: output_dir,
        current_file: None,
        status: TaskStatus::Queued,
        total_bytes: 0,
        downloaded_bytes: 0,
        speed_bits: 0,
        connections: settings.connections,
        chunk_size_bytes: settings.chunk_size,
        overwrite: settings.overwrite,
        verify_integrity: settings.verify_integrity,
        performance_mode: settings.performance_mode,
        retry_mode: settings.retry_mode,
        error: None,
        created_at: now,
        updated_at: now,
    }
}

/// A task that has just been made.
pub fn new_task(id: String, url: &str, output_dir: &str, settings: TaskSettings, now: u128) -> (task:
    TaskSnapshot)
    ensures
        task@ == new_task_view(id@, url@, output_dir@, settings, now),
{
    TaskSnapshot {
        id,
        url: url.to_string(),
        file_name: "Resolving link".to_string(),
        output_dir: output_dir.to_string(),
        output_path: output_dir.to_string(),
        current_file: None,
        status: TaskStatus::Queued,
        total_bytes: 0,
        downloaded_bytes: 0,
        speed_bits: 0,
        connections: settings.connections,
        chunk_size_bytes: settings.chunk_size,
        overwrite: settings.overwrite,
        verify_integrity: settings.verify_integrity,
        performance_mode: settings.performance_mode,
        retry_mode: settings.retry_mode,
        error: None,
        created_at: now,
        updated_at: now,
    }
}

/// What a request was found to ask for: the link that it names and the folder that it is saved in,
/// or why it is refused.
pub open spec fn accepted(
    link: Result<LinkView, ErrorView>,
    asked_dir: Option<Seq<char>>,
    default_dir: Result<Seq<char>, Seq<char>>,
) -> Result<(LinkView, Seq<char>), Seq<char>> {
    match link {
        Err(error) => Err(error_text(error)),
        Ok(found) => match default_dir {
            Err(text) => Err(text),
            Ok(fallback) => Ok((found, chosen_dir(asked_dir, fallback))),
        },
    }
}

/// The mathematical form of a folder that may not be known.
pub open spec fn dir_view(dir: Result<String, String>) -> Result<Seq<char>, Seq<char>> {
    match dir {
        Ok(found) => Ok(found@),
        Err(text) => Err(text@),
    }
}

/// The folder that a download is saved in.
pub fn choose_dir(asked: &Option<String>, fallback: String) -> (dir: String)
    ensures
        dir@ == chosen_dir(optional_view(*asked), fallback@),
{
    match asked {
        Some(dir) => if is_blank(dir) {
            fallback
        } else {
            dir.clone()
        },
        None => fallback,
    }
}

/// What is given for the password of a request, unless it is empty.
pub open spec fn request_password(request: DownloadRequest) -> Option<Seq<char>> {
    present(optional_view(request.password))
}

impl AppState {
    /// Adds the task that a request asks for, under the identifier `id`, and returns it together
    /// with what it is run with. Nothing is returned, and nothing changes, where the chunk size
    /// that is asked for cannot be counted in bytes.
    pub fn start_download(
        &mut self,
        request: &DownloadRequest,
        default_dir: Result<String, String>,
        id: String,
        now: u128,
    ) -> (started: Option<Result<StartedTask, String>>)
        requires
            old(self).wf(),
        ensures
            final(self).wf(),
            match started {
                None => accepted(
                    link_in(request.url@, request_password(*request)),
                    optional_view(request.output_dir),
                    dir_view(default_dir),
                ) is Ok && !chunk_size_fits(*request) && *final(self) == *old(self),
                Some(Ok(found)) => {
                    &&& accepted(
                        link_in(request.url@, request_password(*request)),
                        optional_view(request.output_dir),
                        dir_view(default_dir),
                    ) == Ok::<(LinkView, Seq<char>), Seq<char>>((found.link@, found.output_dir@))
                    &&& chunk_size_fits(*request)
                    &&& settled(*request, found.settings)
                    &&& found.task@ == new_task_view(
                        id@,
                        request.url@,
                        found.output_dir@,
                        found.settings,
                        now,
                    )
                    &&& final(self)@ == task_inserted(
                        old(self)@,
                        found.task@,
                        TaskControl { cancelled: false, paused: false },
                    )
                },
                Some(Err(text)) => accepted(
                    link_in(request.url@, request_password(*request)),
                    optional_view(request.output_dir),
                    dir_view(default_dir),
                ) == Err::<(LinkView, Seq<char>), Seq<char>>(text@) && *final(self) == *old(self),
            },
    {
        let password = match &request.password {
            Some(text) => Some(text.as_str()),
            None => None,
        };
        let link = match parse_public_link(&request.url, non_empty_password(password)) {
            Ok(found) => found,
            Err(error) => return Some(Err(error.message())),
        };
        let fallback = match default_dir {
            Ok(found) => found,
            Err(text) => return Some(Err(text)),
        };
        if !has_countable_chunk_size(request) {
            return None;
        }
        let output_dir = choose_dir(&request.output_dir, fallback);
        let settings = settle(request);
        let task = new_task(id, &request.url, &output_dir, settings, now);
        let shown = task.copy();
        self.insert_task(task, TaskControl::new());
        Some(Ok(StartedTask { task: shown, link, output_dir, settings }))
    }
}

/// A task that has just been started waits in the queue, runs, and cannot be deleted.
pub proof fn started_tasks_are_queued(
    state: crate::tasks::StateView,
    id: Seq<char>,
    url: Seq<char>,
    output_dir: Seq<char>,
    settings: TaskSettings,
    now: u128,
)
    ensures
        ({
            let task = new_task_view(id, url, output_dir, settings, now);
            let after = task_inserted(
                state,
                task,
                TaskControl { cancelled: false, paused: false },
            );
            &&& after.tasks[id].status == TaskStatus::Queued
            &&& after.controls.contains_key(id)
            &&& crate::queue::deletion(after, id) is Err
        }),
{
}

/// A new task is what its request asks for: it waits, with nothing downloaded, and is saved in the
/// folder that is chosen, with the settings that were settled.
pub proof fn new_tasks_are_as_asked(
    id: Seq<char>,
    url: Seq<char>,
    output_dir: Seq<char>,
    settings: TaskSettings,
    now: u128,
)
    ensures
        ({
            let task = new_task_view(id, url, output_dir, settings, now);
            &&& task.id == id && task.url == url
            &&& task.output_dir == output_dir && task.output_path == output_dir
            &&& task.status == TaskStatus::Queued
            &&& task.total_bytes == 0 && task.downloaded_bytes == 0 && task.speed_bits == 0
            &&& task.connections == settings.connections
            &&& task.chunk_size_bytes == settings.chunk_size
            &&& task.overwrite == settings.overwrite
            &&& task.verify_integrity == settings.verify_integrity
            &&& task.performance_mode == settings.performance_mode
            &&& task.retry_mode == settings.retry_mode
            &&& task.error is None && task.current_file is None
            &&& task.created_at == now && task.updated_at == now
        }),
{
}

/// A request is accepted exactly if its link was read and the folder for downloads is known, and
/// what is wrong with the link is told first. A folder that is asked for is taken as it is written
/// if it has something in it besides white space, and otherwise the folder for downloads is.
pub proof fn requests_are_accepted(
    link: Result<LinkView, ErrorView>,
    asked: Option<Seq<char>>,
    default_dir: Result<Seq<char>, Seq<char>>,
    i: int,
)
    ensures
        link matches Err(error) ==> accepted(link, asked, default_dir) == Err::<
            (LinkView, Seq<char>),
            Seq<char>,
        >(error_text(error)),
        link is Ok ==> (default_dir matches Err(text) ==> accepted(link, asked, default_dir)
            == Err::<(LinkView, Seq<char>), Seq<char>>(text)),
        link matches Ok(found) ==> (default_dir matches Ok(fallback) ==> {
            &&& asked is None ==> accepted(link, asked, default_dir) == Ok::<
                (LinkView, Seq<char>),
                Seq<char>,
            >((found, fallback))
            &&& asked matches Some(dir) ==> (0 <= i < dir.len() && !is_whitespace(dir[i])
                ==> accepted(link, asked, default_dir) == Ok::<(LinkView, Seq<char>), Seq<char>>(
                (found, dir),
            ))
            &&& asked matches Some(dir) ==> ((forall|k: int|
                0 <= k < dir.len() ==> is_whitespace(#[trigger] dir[k])) ==> accepted(
                link,
                asked,
                default_dir,
            ) == Ok::<(LinkView, Seq<char>), Seq<char>>((found, fallback)))
        }),
{
    if let Some(dir) = asked {
        if 0 <= i < dir.len() && !is_whitespace(dir[i]) {
            visible_text_stays(dir, i);
        }
        if forall|k: int| 0 <= k < dir.len() ==> is_whitespace(#[trigger] dir[k]) {
            assert forall|k: int| 0 <= k < dir.len() implies CharClass::Whitespace.has(
                #[trigger] dir[k],
            ) by {
                assert(is_whitespace(dir[k]));
            }
            trimming_leaves_nothing_of_the_class(dir, CharClass::Whitespace);
        }
    }
}

/// A download that is started is a task that runs, neither paused nor cancelled, with the settings
/// that were settled for its request. One that is refused changes nothing. All other tasks stay as
/// they are.
pub proof fn started_downloads_run(
    state: &mut AppState,
    request: &DownloadRequest,
    default_dir: Result<String, String>,
    id: String,
    now: u128,
    started: Option<Result<StartedTask, String>>,
    other: Seq<char>,
)
    requires
        call_ensures(AppState::start_download, (state, request, default_dir, id, now), started),
    ensures
        !(started matches Some(Ok(_))) ==> *final(state) == *old(state),
        started matches Some(Ok(found)) ==> {
            &&& final(state)@.tasks.contains_key(id@)
            &&& final(state)@.tasks[id@] == found.task@
            &&& final(state)@.controls.contains_key(id@)
            &&& !final(state)@.controls[id@].paused && !final(state)@.controls[id@].cancelled
            &&& found.task@.id == id@ && found.task@.url == request.url@
            &&& found.task@.status == TaskStatus::Queued
            &&& found.task@.connections == found.settings.connections
            &&& found.task@.chunk_size_bytes == found.settings.chunk_size
            &&& found.task@.overwrite == found.settings.overwrite
            &&& settled(*request, found.settings)
            &&& found.task@.output_dir == found.output_dir@
            &&& link_in(request.url@, present(optional_view(request.password))) == Ok::<
                LinkView,
                ErrorView,
            >(found.link@)
            &&& other != id@ ==> untouched(old(state)@, final(state)@, other)
        },
        default_dir is Err || link_in(request.url@, present(optional_view(request.password)))
            is Err ==> started matches Some(Err(_)),
{
}

} // verus!
