//! The rounds in which the files of a folder are downloaded.
use crate::error::{DownloadError, ErrorView};
use crate::folder::{file_views, FileView, FolderFilePlan, FolderPlan, PlanView};
use crate::link::optional_view;
use crate::names::{component, sanitize_component};
use crate::plan::{copy_file, copy_texts};
use crate::settings::{
    connections_per_file, files_at_once, folder_file_connections, folder_file_parallelism,
    RetryMode,
};
use crate::speed::is_speed;
use crate::tasks::{current_file_set, progress_noted, untouched, AppState, StateView, TaskControl};
use crate::text::{
    decimal, is_unbroken, push_decimal, split, splitting_undoes_joining, unbroken_text_is_one_piece,
    views, CharClass,
};
use vstd::prelude::*;

verus! {

/// The number of rounds in which files that have failed are tried again.
pub const FOLDER_FILE_RETRY_ROUNDS: usize = 3;

/// The number of rounds in which files that have failed are tried again.
pub open spec fn retry_rounds_of(mode: RetryMode) -> usize {
    match mode {
        RetryMode::Auto => FOLDER_FILE_RETRY_ROUNDS,
        RetryMode::Manual => 0,
    }
}

/// How the download of one file of a folder has ended.
pub enum FileEnd {
    Done,
    Failed(DownloadError),
    /// Its worker has broken down; the text is the cause.
    Broken(String),
}

/// The mathematical form of a `FileEnd`.
pub enum EndView {
    Done,
    Cancelled,
    Failed(Seq<char>),
}

impl View for FileEnd {
    type V = EndView;

    open spec fn view(&self) -> EndView {
        match self {
            FileEnd::Done => EndView::Done,
            FileEnd::Failed(DownloadError::Cancelled) => EndView::Cancelled,
            FileEnd::Failed(error) => EndView::Failed(crate::error::error_text(error@)),
            FileEnd::Broken(cause) => EndView::Failed("folder worker failed: "@ + cause@),
        }
    }
}

/// The ends of files, in mathematical form.
pub open spec fn end_views(ends: Seq<FileEnd>) -> Seq<EndView> {
    Seq::new(ends.len(), |i: int| ends[i]@)
}

/// Whether one of the files was cancelled.
pub open spec fn has_cancelled(ends: Seq<EndView>) -> bool {
    exists|i: int| 0 <= i < ends.len() && #[trigger] ends[i] == EndView::Cancelled
}

/// The files that have failed, in order.
pub open spec fn failed_files(files: Seq<FileView>, ends: Seq<EndView>) -> Seq<FileView>
    decreases ends.len(),
{
    if ends.len() == 0 {
        Seq::empty()
    } else {
        let before = failed_files(files, ends.drop_last());
        if ends.last() is Failed {
            before.push(files[ends.len() - 1])
        } else {
            before
        }
    }
}

/// The texts of the failures, in order.
pub open spec fn failure_texts(ends: Seq<EndView>) -> Seq<Seq<char>>
    decreases ends.len(),
{
    if ends.len() == 0 {
        Seq::empty()
    } else {
        let before = failure_texts(ends.drop_last());
        match ends.last() {
            EndView::Failed(text) => before.push(text),
            _ => before,
        }
    }
}

/// There is one text for every failed file, and no more of them than files.
proof fn lemma_failed_counts(files: Seq<FileView>, ends: Seq<EndView>)
    ensures
        failed_files(files, ends).len() == failure_texts(ends).len(),
        failed_files(files, ends).len() <= ends.len(),
    decreases ends.len(),
{
    if ends.len() > 0 {
        lemma_failed_counts(files, ends.drop_last());
    }
}

/// Parts of a path with the separator between them.
pub open spec fn joined(parts: Seq<Seq<char>>, separator: char) -> Seq<char>
    decreases parts.len(),
{
    if parts.len() == 0 {
        Seq::empty()
    } else if parts.len() == 1 {
        parts[0]
    } else {
        joined(parts.drop_last(), separator).push(separator) + parts.last()
    }
}

/// Parts of a path with the separator between them.
pub fn path_text(parts: &Vec<String>, separator: char) -> (text: String)
    ensures
        text@ == joined(views(parts@), separator),
{
    let ghost all = views(parts@);
    let mut text = String::new();
    let mut i: usize = 0;
    assert(all.take(0).len() == 0);
    while i < parts.len()
        invariant
            all == views(parts@),
            i <= parts@.len(),
            text@ == joined(all.take(i as int), separator),
        decreases parts@.len() - i,
    {
        assert(all.take(i + 1).drop_last() == all.take(i as int));
        assert(all.take(i + 1).last() == parts@[i as int]@);
        if i > 0 {
            text.push(separator);
        }
        text.append(&parts[i]);
        assert(text@ == joined(all.take(i + 1), separator));
        i = i + 1;
    }
    assert(all.take(all.len() as int) == all);
    text
}

/// What is said of a folder some files of which have failed for good.
pub open spec fn failures_text(
    count: nat,
    first: Option<(Seq<char>, Seq<char>)>,
    rounds: nat,
    mode: RetryMode,
) -> Seq<char> {
    let detail = match first {
        Some((path, error)) => path + ": "@ + error,
        None => "unknown folder failure"@,
    };
    match mode {
        RetryMode::Auto => decimal(count) + " 个文件在 "@ + decimal(rounds)
            + " 轮重试后仍失败；首个错误："@ + detail,
        RetryMode::Manual => "手动重试模式："@ + decimal(count)
            + " 个文件失败；首个错误："@ + detail,
    }
}

/// A failure of a file of a folder: the file and the text of its error.
pub struct FolderFileFailure {
    pub file: FolderFilePlan,
    pub error: String,
}

/// The first of failures, in mathematical form: the path of its file and the text of its error.
pub open spec fn first_failure(failures: Seq<FolderFileFailure>, separator: char) -> Option<
    (Seq<char>, Seq<char>),
> {
    if failures.len() == 0 {
        None
    } else {
        Some((joined(failures[0].file@.relative_path, separator), failures[0].error@))
    }
}

/// The error of a folder some files of which have failed for good.
pub fn folder_failures_error(
    failures: &Vec<FolderFileFailure>,
    retry_rounds: usize,
    retry_mode: RetryMode,
    separator: char,
) -> (error: DownloadError)
    ensures
        error@ == ErrorView::Message(
            failures_text(
                failures@.len(),
                first_failure(failures@, separator),
                retry_rounds as nat,
                retry_mode,
            ),
        ),
{
    let mut detail = String::new();
    if failures.len() == 0 {
        detail.append("unknown folder failure");
    } else {
        detail.append(&path_text(&failures[0].file.relative_path, separator));
        detail.append(": ");
        detail.append(&failures[0].error);
    }
    let ghost expected = match first_failure(failures@, separator) {
        Some((path, error)) => path + ": "@ + error,
        None => "unknown folder failure"@,
    };
    assert(detail@ == expected);
    let mut text = String::new();
    match retry_mode {
        RetryMode::Auto => {
            push_decimal(&mut text, failures.len() as u128);
            text.append(" 个文件在 ");
            push_decimal(&mut text, retry_rounds as u128);
            text.append(" 轮重试后仍失败；首个错误：");
            text.append(&detail);
            assert(text@ == decimal(failures@.len()) + " 个文件在 "@ + decimal(
                retry_rounds as nat,
            ) + " 轮重试后仍失败；首个错误："@ + expected);
        },
        RetryMode::Manual => {
            text.append("手动重试模式：");
            push_decimal(&mut text, failures.len() as u128);
            text.append(" 个文件失败；首个错误：");
            text.append(&detail);
            assert(text@ == "手动重试模式："@ + decimal(failures@.len())
                + " 个文件失败；首个错误："@ + expected);
        },
    }
    DownloadError::Message(text)
}

/// What a task shows while a round runs.
pub open spec fn round_text(attempt: nat, rounds: nat, parallel: nat, pending: nat) -> Seq<char> {
    if attempt == 0 {
        "并行下载 "@ + decimal(parallel) + " 个文件"@
    } else {
        "重试失败文件：第 "@ + decimal(attempt) + "/"@ + decimal(rounds) + " 轮 · "@ + decimal(
            pending,
        ) + " 个文件"@
    }
}

/// What comes after a round.
pub enum RoundEnd {
    /// The task was cancelled.
    Cancelled,
    /// All files are there.
    Complete,
    /// The files that have failed are tried again; the text is shown meanwhile.
    Retry(String),
    /// Files have failed for good; the text is shown.
    Failed { shown: String, error: DownloadError },
}

/// The mathematical form of a `RoundEnd`.
pub enum RoundView {
    Cancelled,
    Complete,
    Retry(Seq<char>),
    Failed { shown: Seq<char>, error: ErrorView },
}

impl View for RoundEnd {
    type V = RoundView;

    open spec fn view(&self) -> RoundView {
        match self {
            RoundEnd::Cancelled => RoundView::Cancelled,
            RoundEnd::Complete => RoundView::Complete,
            RoundEnd::Retry(text) => RoundView::Retry(text@),
            RoundEnd::Failed { shown, error } => RoundView::Failed {
                shown: shown@,
                error: error@,
            },
        }
    }
}

/// What comes after round `attempt` in which `files` have ended like this.
pub open spec fn round_end(
    files: Seq<FileView>,
    ends: Seq<EndView>,
    attempt: nat,
    mode: RetryMode,
    separator: char,
) -> RoundView {
    let failed = failed_files(files, ends);
    let count = failed.len();
    let rounds = retry_rounds_of(mode) as nat;
    if has_cancelled(ends) {
        RoundView::Cancelled
    } else if count == 0 {
        RoundView::Complete
    } else if attempt == rounds {
        RoundView::Failed {
            shown: decimal(count) + match mode {
                RetryMode::Manual => " 个文件失败，等待手动重试"@,
                RetryMode::Auto => " 个文件失败，已完成其余文件"@,
            },
            error: ErrorView::Message(
                failures_text(
                    count,
                    Some((joined(failed[0].relative_path, separator), failure_texts(ends)[0])),
                    rounds,
                    mode,
                ),
            ),
        }
    } else {
        RoundView::Retry(
            decimal(count) + " 个文件失败，等待第 "@ + decimal(attempt + 1) + " 轮重试"@,
        )
    }
}

/// The download of the files of a folder.
pub struct FolderRun {
    pub total_bytes: u64,
    pub retry_mode: RetryMode,
    /// The number of files that are downloaded at once.
    pub file_parallelism: usize,
    /// The number of connections that each of them has.
    pub file_connections: usize,
    /// The number of rounds that are over.
    pub attempt: usize,
    /// The files of this round.
    pub pending: Vec<FolderFilePlan>,
}

impl FolderRun {
    /// Another round can still run.
    pub open spec fn wf(self) -> bool {
        self.attempt <= retry_rounds_of(self.retry_mode)
    }

    /// The download of the files of a plan.
    pub fn new(
        plan: FolderPlan,
        connections: usize,
        low_cpu_mode: bool,
        retry_mode: RetryMode,
    ) -> (run: FolderRun)
        ensures
            run.wf(),
            run.total_bytes == plan.total_bytes,
            run.retry_mode == retry_mode,
            run.file_parallelism == files_at_once(
                connections as int,
                low_cpu_mode,
                plan.files@.len() as int,
            ),
            run.file_connections == connections_per_file(
                connections as int,
                run.file_parallelism as int,
            ),
            run.attempt == 0,
            run.pending == plan.files,
    {
        let file_parallelism = folder_file_parallelism(
            connections,
            low_cpu_mode,
            plan.files.len(),
        );
        FolderRun {
            total_bytes: plan.total_bytes,
            retry_mode,
            file_parallelism,
            file_connections: folder_file_connections(connections, file_parallelism),
            attempt: 0,
            pending: plan.files,
        }
    }

    /// Whether there is nothing to download.
    pub fn is_empty(&self) -> (empty: bool)
        ensures
            empty == (self.pending@.len() == 0),
    {
        self.pending.len() == 0
    }

    /// The number of rounds in which files that have failed are tried again.
    pub fn retry_rounds(&self) -> (rounds: usize)
        ensures
            rounds == retry_rounds_of(self.retry_mode),
    {
        match self.retry_mode {
            RetryMode::Auto => FOLDER_FILE_RETRY_ROUNDS,
            RetryMode::Manual => 0,
        }
    }

    /// Whether bytes that are already there count as progress in this round.
    pub fn counts_resume_progress(&self) -> (counts: bool)
        ensures
            counts == (self.attempt == 0),
    {
        self.attempt == 0
    }

    /// Whether files that are there are overwritten in this round: only in the first.
    pub fn overwrites(&self, overwrite: bool) -> (overwrites: bool)
        ensures
            overwrites == (overwrite && self.attempt == 0),
    {
        overwrite && self.attempt == 0
    }

    /// What the task shows while this round runs.
    pub fn round_message(&self) -> (text: String)
        ensures
            text@ == round_text(
                self.attempt as nat,
                retry_rounds_of(self.retry_mode) as nat,
                self.file_parallelism as nat,
                self.pending@.len(),
            ),
    {
        let mut text = String::new();
        if self.attempt == 0 {
            text.append("并行下载 ");
            push_decimal(&mut text, self.file_parallelism as u128);
            text.append(" 个文件");
            assert(text@ == "并行下载 "@ + decimal(self.file_parallelism as nat)
                + " 个文件"@);
        } else {
            text.append("重试失败文件：第 ");
            push_decimal(&mut text, self.attempt as u128);
            text.append("/");
            push_decimal(&mut text, self.retry_rounds() as u128);
            text.append(" 轮 · ");
            push_decimal(&mut text, self.pending.len() as u128);
            text.append(" 个文件");
            assert(text@ == "重试失败文件：第 "@ + decimal(self.attempt as nat) + "/"@
                + decimal(retry_rounds_of(self.retry_mode) as nat) + " 轮 · "@ + decimal(
                self.pending@.len(),
            ) + " 个文件"@);
        }
        text
    }

    /// Copies of the files that have failed, with the texts of their failures.
    fn collect_failed(&self, ends: &Vec<FileEnd>) -> (failed: (
        Vec<FolderFilePlan>,
        Vec<String>,
        bool,
    ))
        requires
            ends@.len() == self.pending@.len(),
        ensures
            file_views(failed.0@) == failed_files(file_views(self.pending@), end_views(ends@)),
            views(failed.1@) == failure_texts(end_views(ends@)),
            failed.2 == has_cancelled(end_views(ends@)),
    {
        let ghost files = file_views(self.pending@);
        let ghost all = end_views(ends@);
        let mut failed: Vec<FolderFilePlan> = Vec::new();
        let mut texts: Vec<String> = Vec::new();
        let mut cancelled = false;
        let mut i: usize = 0;
        assert(all.take(0).len() == 0);
        assert(file_views(failed@) == Seq::<FileView>::empty());
        assert(views(texts@) == Seq::<Seq<char>>::empty());
        while i < ends.len()
            invariant
                ends@.len() == self.pending@.len(),
                files == file_views(self.pending@),
                all == end_views(ends@),
                i <= ends@.len(),
                file_views(failed@) == failed_files(files, all.take(i as int)),
                views(texts@) == failure_texts(all.take(i as int)),
                cancelled == has_cancelled(all.take(i as int)),
            decreases ends@.len() - i,
        {
            let ghost now = all.take(i + 1);
            assert(now.drop_last() == all.take(i as int));
            assert(now.last() == ends@[i as int]@);
            let ghost old_failed = failed@;
            let ghost old_texts = texts@;
            let ghost was_cancelled = cancelled;
            let text = match &ends[i] {
                FileEnd::Done => None,
                FileEnd::Failed(DownloadError::Cancelled) => {
                    cancelled = true;
                    None
                },
                FileEnd::Failed(error) => Some(error.message()),
                FileEnd::Broken(cause) => {
                    let mut text = "folder worker failed: ".to_string();
                    text.append(cause);
                    Some(text)
                },
            };
            if let Some(found) = text {
                assert(now.last() == EndView::Failed(found@));
                failed.push(copy_file(&self.pending[i]));
                texts.push(found);
                assert(file_views(failed@) == file_views(old_failed).push(files[i as int]));
                assert(views(texts@) == views(old_texts).push(found@));
            }
            proof {
                assert(cancelled == has_cancelled(now)) by {
                    if was_cancelled {
                        let j = choose|j: int|
                            0 <= j < all.take(i as int).len() && #[trigger] all.take(i as int)[j]
                                == EndView::Cancelled;
                        assert(now[j] == EndView::Cancelled);
                    } else if cancelled {
                        assert(now[i as int] == EndView::Cancelled);
                    } else if has_cancelled(now) {
                        let j = choose|j: int|
                            0 <= j < now.len() && #[trigger] now[j] == EndView::Cancelled;
                        if j < i {
                            assert(all.take(i as int)[j] == EndView::Cancelled);
                        }
                    }
                }
            }
            i = i + 1;
        }
        assert(all.take(all.len() as int) == all);
        (failed, texts, cancelled)
    }

    /// Goes on after a round in which the files have ended like this, in their order. Where files
    /// are tried again, they are the files of the next round.
    pub fn finish_round(&mut self, ends: &Vec<FileEnd>, separator: char) -> (end: RoundEnd)
        requires
            old(self).wf(),
            ends@.len() == old(self).pending@.len(),
        ensures
            final(self).wf(),
            end@ == round_end(
                file_views(old(self).pending@),
                end_views(ends@),
                old(self).attempt as nat,
                old(self).retry_mode,
                separator,
            ),
            final(self).total_bytes == old(self).total_bytes,
            final(self).retry_mode == old(self).retry_mode,
            final(self).file_parallelism == old(self).file_parallelism,
            final(self).file_connections == old(self).file_connections,
            match end {
                RoundEnd::Retry(_) => final(self).attempt == old(self).attempt + 1 && file_views(
                    final(self).pending@,
                ) == failed_files(file_views(old(self).pending@), end_views(ends@)),
                _ => *final(self) == *old(self),
            },
    {
        let rounds = self.retry_rounds();
        let (failed, texts, cancelled) = self.collect_failed(ends);
        proof {
            lemma_failed_counts(file_views(self.pending@), end_views(ends@));
        }
        if cancelled {
            return RoundEnd::Cancelled;
        }
        if failed.len() == 0 {
            return RoundEnd::Complete;
        }
        let count: usize = failed.len();
        let mut shown = String::new();
        push_decimal(&mut shown, count as u128);
        assert(shown@ == decimal(count as nat));
        if self.attempt == rounds {
            match self.retry_mode {
                RetryMode::Manual => shown.append(" 个文件失败，等待手动重试"),
                RetryMode::Auto => shown.append(" 个文件失败，已完成其余文件"),
            }
            assert(file_views(failed@)[0] == failed@[0]@);
            assert(views(texts@)[0] == texts@[0]@);
            let error = self.failure_of(&failed, &texts, separator);
            return RoundEnd::Failed { shown, error };
        }
        shown.append(" 个文件失败，等待第 ");
        push_decimal(&mut shown, (self.attempt + 1) as u128);
        shown.append(" 轮重试");
        self.pending = failed;
        self.attempt = self.attempt + 1;
        RoundEnd::Retry(shown)
    }

    /// The error of a folder some files of which have failed for good.
    fn failure_of(
        &self,
        failed: &Vec<FolderFilePlan>,
        texts: &Vec<String>,
        separator: char,
    ) -> (error: DownloadError)
        requires
            0 < failed@.len() == texts@.len(),
        ensures
            error@ == ErrorView::Message(
                failures_text(
                    failed@.len(),
                    Some((joined(failed@[0]@.relative_path, separator), texts@[0]@)),
                    retry_rounds_of(self.retry_mode) as nat,
                    self.retry_mode,
                ),
            ),
    {
        let mut failures: Vec<FolderFileFailure> = Vec::new();
        let mut i: usize = 0;
        while i < failed.len()
            invariant
                failed@.len() == texts@.len(),
                i <= failed@.len(),
                failures@.len() == i,
                i > 0 ==> failures@[0].file@ == failed@[0]@ && failures@[0].error@ == texts@[0]@,
            decreases failed@.len() - i,
        {
            failures.push(
                FolderFileFailure { file: copy_file(&failed[i]), error: texts[i].clone() },
            );
            i = i + 1;
        }
        folder_failures_error(&failures, self.retry_rounds(), self.retry_mode, separator)
    }
}

/// Where the files of a folder go, and what a task shows of them. Both places are parts of a path
/// below the task's folder.
pub struct Placement {
    /// The folder that the files go into, if they have one of their own.
    pub root: Option<String>,
    /// The place that the task shows.
    pub shown: Vec<String>,
    pub name: String,
    pub total_bytes: u64,
}

/// The mathematical form of a `Placement`.
pub struct PlacementView {
    pub root: Option<Seq<char>>,
    pub shown: Seq<Seq<char>>,
    pub name: Seq<char>,
    pub total_bytes: u64,
}

impl View for Placement {
    type V = PlacementView;

    open spec fn view(&self) -> PlacementView {
        PlacementView {
            root: optional_view(self.root),
            shown: views(self.shown@),
            name: self.name@,
            total_bytes: self.total_bytes,
        }
    }
}

/// Where the files of a plan go, and what a task shows of them: the folder of their own, the only
/// file where there is none, or else the task's folder itself.
pub open spec fn placement_of(plan: PlanView, windows: bool) -> PlacementView {
    PlacementView {
        root: if plan.create_root_dir {
            Some(component(plan.name, windows))
        } else {
            None
        },
        shown: if plan.create_root_dir {
            seq![component(plan.name, windows)]
        } else if plan.files.len() == 1 {
            plan.files[0].relative_path
        } else {
            Seq::empty()
        },
        name: plan.name,
        total_bytes: plan.total_bytes,
    }
}

/// Where the files of a plan go, and what a task shows of them.
pub fn place_folder(plan: &FolderPlan, windows: bool) -> (place: Placement)
    ensures
        place@ == placement_of(plan@, windows),
{
    let name = plan.name.clone();
    let total_bytes = plan.total_bytes;
    if plan.create_root_dir {
        let root = sanitize_component(&plan.name, windows);
        let mut shown: Vec<String> = Vec::new();
        shown.push(root.clone());
        assert(views(shown@) == seq![root@]);
        return Placement { root: Some(root), shown, name, total_bytes };
    }
    let shown = if plan.files.len() == 1 {
        assert(plan@.files[0] == plan.files@[0]@);
        copy_texts(&plan.files[0].relative_path)
    } else {
        Vec::new()
    };
    assert(plan.files@.len() != 1 ==> views(shown@) == Seq::<Seq<char>>::empty());
    Placement { root: None, shown, name, total_bytes }
}

/// The program with a folder that is there: all its bytes, and nothing that is worked on.
pub open spec fn folder_finished(
    state: StateView,
    id: Seq<char>,
    total_bytes: u64,
    speed_bits: u64,
    now: u128,
) -> StateView {
    current_file_set(
        progress_noted(state, id, speed_bits, total_bytes, total_bytes, now),
        id,
        None,
        now,
    )
}

impl AppState {
    /// Notes that all files of a folder are there, at a speed of these bits.
    pub fn finish_folder(&mut self, id: &str, run: &FolderRun, speed_bits: u64, now: u128)
        requires
            old(self).wf(),
            is_speed(speed_bits),
        ensures
            final(self).wf(),
            final(self)@ == folder_finished(old(self)@, id@, run.total_bytes, speed_bits, now),
    {
        self.set_progress(id, speed_bits, run.total_bytes, run.total_bytes, now);
        self.set_current_file(id, None, now);
    }
}

/// What a task shows after a round, where it shows something new.
pub open spec fn shown_after(end: RoundView) -> Option<Seq<char>> {
    match end {
        RoundView::Retry(text) => Some(text),
        RoundView::Failed { shown, .. } => Some(shown),
        _ => None,
    }
}

impl AppState {
    /// Shows that a round of a task's folder begins.
    pub fn begin_round(&mut self, id: &str, run: &FolderRun, now: u128)
        requires
            old(self).wf(),
        ensures
            final(self).wf(),
            final(self)@ == current_file_set(
                old(self)@,
                id@,
                Some(
                    round_text(
                        run.attempt as nat,
                        retry_rounds_of(run.retry_mode) as nat,
                        run.file_parallelism as nat,
                        run.pending@.len(),
                    ),
                ),
                now,
            ),
    {
        self.set_current_file(id, Some(run.round_message()), now);
    }

    /// Shows that a file of a task's folder is worked on.
    pub fn begin_file(&mut self, id: &str, file: &FolderFilePlan, separator: char, now: u128)
        requires
            old(self).wf(),
        ensures
            final(self).wf(),
            final(self)@ == current_file_set(
                old(self)@,
                id@,
                Some(joined(file@.relative_path, separator)),
                now,
            ),
    {
        self.set_current_file(id, Some(path_text(&file.relative_path, separator)), now);
    }

    /// Shows how a round of a task's folder has ended: that files are tried again, or that they
    /// have failed.
    pub fn end_round(&mut self, id: &str, end: &RoundEnd, now: u128)
        requires
            old(self).wf(),
        ensures
            final(self).wf(),
            final(self)@ == (match shown_after(end@) {
                Some(text) => current_file_set(old(self)@, id@, Some(text), now),
                None => old(self)@,
            }),
    {
        match end {
            RoundEnd::Retry(text) => self.set_current_file(id, Some(text.clone()), now),
            RoundEnd::Failed { shown, .. } => self.set_current_file(id, Some(shown.clone()), now),
            _ => {},
        }
    }
}

/// The program after a file of a task's folder has ended: a cancelled file cancels the task.
pub open spec fn file_ended(state: StateView, id: Seq<char>, end: EndView) -> StateView {
    if end == EndView::Cancelled && state.controls.contains_key(id) {
        StateView {
            controls: state.controls.insert(id, TaskControl { cancelled: true, paused: false }),
            ..state
        }
    } else {
        state
    }
}

impl AppState {
    /// Notes how a file of a task's folder has ended. Says whether those are to be woken that wait
    /// for the task.
    pub fn end_file(&mut self, id: &str, end: &FileEnd) -> (wakes: bool)
        requires
            old(self).wf(),
        ensures
            final(self).wf(),
            wakes == (end@ == EndView::Cancelled),
            final(self)@ == file_ended(old(self)@, id@, end@),
    {
        if !matches!(end, FileEnd::Failed(DownloadError::Cancelled)) {
            return false;
        }
        match self.controls.get_mut(id) {
            Some(control) => control.cancel(),
            None => {},
        }
        true
    }
}

/// A task whose folder is there shows all its bytes as downloaded, and works on no file.
pub proof fn finished_folders_show_all_bytes(
    state: StateView,
    id: Seq<char>,
    total_bytes: u64,
    speed_bits: u64,
    now: u128,
)
    requires
        state.tasks.contains_key(id),
    ensures
        ({
            let task = folder_finished(state, id, total_bytes, speed_bits, now).tasks[id];
            &&& task.downloaded_bytes == total_bytes
            &&& task.total_bytes == total_bytes
            &&& task.current_file is None
            &&& task.status == state.tasks[id].status
        }),
{
}

/// A folder is downloaded in no more than four rounds, and in one where the user retries: another
/// round only comes while there is one left, and files only fail for good in the last one.
pub proof fn rounds_are_bounded(
    files: Seq<FileView>,
    ends: Seq<EndView>,
    attempt: nat,
    mode: RetryMode,
    separator: char,
)
    requires
        attempt <= retry_rounds_of(mode),
    ensures
        round_end(files, ends, attempt, mode, separator) is Retry ==> mode == RetryMode::Auto
            && attempt + 1 <= 3,
        round_end(files, ends, attempt, mode, separator) is Failed ==> attempt == retry_rounds_of(
            mode,
        ),
{
}

/// Every file that has failed is tried again, and no other: the files of the next round are those
/// that have failed, in order.
pub proof fn next_round_holds_failed_files(
    files: Seq<FileView>,
    ends: Seq<EndView>,
    file: FileView,
)
    requires
        files.len() == ends.len(),
    ensures
        failed_files(files, ends).contains(file) <==> exists|i: int|
            0 <= i < ends.len() && (#[trigger] ends[i]) is Failed && files[i] == file,
{
    lemma_failed_members(files, ends, file);
}

proof fn lemma_failed_members(files: Seq<FileView>, ends: Seq<EndView>, file: FileView)
    requires
        ends.len() <= files.len(),
    ensures
        failed_files(files, ends).contains(file) <==> exists|i: int|
            0 <= i < ends.len() && (#[trigger] ends[i]) is Failed && files[i] == file,
    decreases ends.len(),
{
    if ends.len() > 0 {
        let rest = ends.drop_last();
        lemma_failed_members(files, rest, file);
        let before = failed_files(files, rest);
        let all = failed_files(files, ends);
        let last = ends.len() - 1;
        if all.contains(file) {
            let j = choose|j: int| 0 <= j < all.len() && all[j] == file;
            if j < before.len() {
                assert(before[j] == file);
                let i = choose|i: int|
                    0 <= i < rest.len() && (#[trigger] rest[i]) is Failed && files[i] == file;
                assert(ends[i] is Failed);
            } else {
                assert(ends[last] is Failed && files[last] == file);
            }
        }
        if exists|i: int|
            0 <= i < ends.len() && (#[trigger] ends[i]) is Failed && files[i] == file {
            let i = choose|i: int|
                0 <= i < ends.len() && (#[trigger] ends[i]) is Failed && files[i] == file;
            if i < last {
                assert(rest[i] is Failed);
                let j = choose|j: int| 0 <= j < before.len() && before[j] == file;
                assert(all[j] == file);
            } else {
                assert(all[before.len() as int] == file);
            }
        }
    }
}

/// Which of the files have failed, by their places.
pub open spec fn are_failed_places(places: Seq<int>, ends: Seq<EndView>) -> bool {
    &&& forall|k: int|
        0 <= k < places.len() ==> 0 <= #[trigger] places[k] < ends.len() && ends[places[k]] is Failed
    &&& forall|a: int, b: int|
        0 <= a < b < places.len() ==> #[trigger] places[a] < #[trigger] places[b]
    &&& forall|i: int|
        0 <= i < ends.len() && (#[trigger] ends[i]) is Failed ==> places.contains(i)
}

/// The files that have failed, and what each says, stand in the order of the files, none left out
/// and none listed twice.
pub proof fn failures_keep_their_order(files: Seq<FileView>, ends: Seq<EndView>, places: Seq<int>)
    requires
        are_failed_places(places, ends),
    ensures
        failed_files(files, ends).len() == places.len(),
        failure_texts(ends).len() == places.len(),
        forall|k: int|
            0 <= k < places.len() ==> failed_files(files, ends)[k] == files[#[trigger] places[k]]
                && ends[places[k]] == EndView::Failed(failure_texts(ends)[k]),
    decreases ends.len(),
{
    if ends.len() > 0 {
        let rest = ends.drop_last();
        let n = ends.len() - 1;
        assert(forall|i: int| 0 <= i < n ==> rest[i] == #[trigger] ends[i]);
        assert(ends[n] == ends.last());
        if ends.last() is Failed {
            assert(places.contains(n));
            let at = choose|at: int| 0 <= at < places.len() && places[at] == n;
            if at < places.len() - 1 {
                assert(places[at] < places[places.len() - 1]);
            }
            let before = places.drop_last();
            assert forall|k: int| 0 <= k < before.len() implies 0 <= #[trigger] before[k]
                < rest.len() && rest[before[k]] is Failed by {
                assert(before[k] == places[k]);
                assert(places[k] < places[at]);
            }
            assert forall|a: int, b: int| 0 <= a < b < before.len() implies #[trigger] before[a]
                < #[trigger] before[b] by {
                assert(before[a] == places[a] && before[b] == places[b]);
            }
            assert forall|i: int| 0 <= i < rest.len() && (#[trigger] rest[i]) is Failed implies before.contains(
                i,
            ) by {
                assert(ends[i] is Failed);
                let k = choose|k: int| 0 <= k < places.len() && places[k] == i;
                assert(before[k] == i);
            }
            failures_keep_their_order(files, rest, before);
            assert forall|k: int| 0 <= k < places.len() implies failed_files(files, ends)[k]
                == files[#[trigger] places[k]] && ends[places[k]] == EndView::Failed(
                failure_texts(ends)[k],
            ) by {
                if k < before.len() {
                    assert(before[k] == places[k]);
                }
            }
        } else {
            assert forall|k: int| 0 <= k < places.len() implies 0 <= #[trigger] places[k]
                < rest.len() && rest[places[k]] is Failed by {
                assert(ends[places[k]] is Failed);
            }
            assert forall|i: int| 0 <= i < rest.len() && (#[trigger] rest[i]) is Failed implies places.contains(
                i,
            ) by {
                assert(ends[i] is Failed);
            }
            failures_keep_their_order(files, rest, places);
        }
    } else if places.len() > 0 {
        assert(0 <= places[0] < ends.len());
    }
}

/// What comes after a round. One file that was cancelled cancels the task. Where all files are
/// there, the task is done. Otherwise the files that have failed are tried again, in up to three
/// more rounds, unless the user retries.
pub proof fn rounds_end_as_their_files_did(
    files: Seq<FileView>,
    ends: Seq<EndView>,
    attempt: nat,
    mode: RetryMode,
    separator: char,
)
    requires
        files.len() == ends.len(),
        attempt <= (if mode == RetryMode::Auto {
            3nat
        } else {
            0
        }),
    ensures
        ({
            let end = round_end(files, ends, attempt, mode, separator);
            let cancelled = exists|i: int|
                0 <= i < ends.len() && #[trigger] ends[i] == EndView::Cancelled;
            let failed = exists|i: int| 0 <= i < ends.len() && #[trigger] ends[i] is Failed;
            let again = mode == RetryMode::Auto && attempt < 3;
            &&& end is Cancelled <==> cancelled
            &&& end is Complete <==> !cancelled && !failed
            &&& end is Retry <==> !cancelled && failed && again
            &&& end is Failed <==> !cancelled && failed && !again
        }),
{
    lemma_any_failed(files, ends);
}

proof fn lemma_any_failed(files: Seq<FileView>, ends: Seq<EndView>)
    ensures
        failed_files(files, ends).len() > 0 <==> exists|i: int|
            0 <= i < ends.len() && #[trigger] ends[i] is Failed,
    decreases ends.len(),
{
    if ends.len() > 0 {
        let rest = ends.drop_last();
        lemma_any_failed(files, rest);
        let n = ends.len() - 1;
        assert(ends[n] == ends.last());
        if exists|i: int| 0 <= i < rest.len() && #[trigger] rest[i] is Failed {
            let i = choose|i: int| 0 <= i < rest.len() && #[trigger] rest[i] is Failed;
            assert(ends[i] is Failed);
        }
        if exists|i: int| 0 <= i < ends.len() && #[trigger] ends[i] is Failed {
            let i = choose|i: int| 0 <= i < ends.len() && #[trigger] ends[i] is Failed;
            if i < n {
                assert(rest[i] is Failed);
            }
        }
    }
}

/// Where files have failed for good, the error tells how many, and of the first of them its path
/// and what was wrong.
pub proof fn first_failure_is_told(
    files: Seq<FileView>,
    ends: Seq<EndView>,
    attempt: nat,
    mode: RetryMode,
    separator: char,
    places: Seq<int>,
)
    requires
        files.len() == ends.len(),
        are_failed_places(places, ends),
        round_end(files, ends, attempt, mode, separator) is Failed,
    ensures
        places.len() > 0,
        ends[places[0]] matches EndView::Failed(text) && round_end(
            files,
            ends,
            attempt,
            mode,
            separator,
        )->error == ErrorView::Message(
            match mode {
                RetryMode::Auto => decimal(places.len()) + " 个文件在 "@ + decimal(3)
                    + " 轮重试后仍失败；首个错误："@,
                RetryMode::Manual => "手动重试模式："@ + decimal(places.len())
                    + " 个文件失败；首个错误："@,
            } + (joined(files[places[0]].relative_path, separator) + ": "@ + text),
        ),
{
    failures_keep_their_order(files, ends, places);
    assert(ends[places[0]] is Failed);
}

/// A path is told with one separator between its parts: taken apart at the separator, it gives its
/// parts back.
pub proof fn told_paths_come_apart(parts: Seq<Seq<char>>, separator: char)
    requires
        parts.len() > 0,
        forall|i: int|
            0 <= i < parts.len() ==> is_unbroken(#[trigger] parts[i], CharClass::Only(separator)),
    ensures
        split(joined(parts, separator), CharClass::Only(separator)) == parts,
    decreases parts.len(),
{
    let class = CharClass::Only(separator);
    if parts.len() == 1 {
        assert(is_unbroken(parts[0], class));
        unbroken_text_is_one_piece(parts[0], class);
        assert(parts =~= seq![parts[0]]);
    } else {
        let front = parts.drop_last();
        assert forall|i: int| 0 <= i < front.len() implies is_unbroken(
            #[trigger] front[i],
            class,
        ) by {
            assert(front[i] == parts[i]);
        }
        told_paths_come_apart(front, separator);
        assert(is_unbroken(parts[parts.len() - 1], class));
        splitting_undoes_joining(joined(front, separator), separator, parts.last(), class);
        assert(front.push(parts.last()) =~= parts);
    }
}

/// The files of a plan go into a folder of their own under its name, if one is made. Then the task
/// shows that folder, and otherwise its only file.
pub proof fn folders_have_a_place(plan: PlanView, windows: bool)
    ensures
        ({
            let place = placement_of(plan, windows);
            &&& place.name == plan.name
            &&& place.total_bytes == plan.total_bytes
            &&& plan.create_root_dir ==> place.root == Some(component(plan.name, windows))
                && place.shown == seq![component(plan.name, windows)]
            &&& !plan.create_root_dir ==> place.root is None
            &&& !plan.create_root_dir && plan.files.len() == 1 ==> place.shown
                == plan.files[0].relative_path
            &&& !plan.create_root_dir && plan.files.len() != 1 ==> place.shown.len() == 0
        }),
{
}

/// One file that was cancelled cancels its task, and any other end of a file changes nothing. All
/// other tasks stay as they are, as they do once a folder is finished.
pub proof fn file_ends_change_one_task(
    state: StateView,
    id: Seq<char>,
    end: EndView,
    total_bytes: u64,
    speed_bits: u64,
    now: u128,
    other: Seq<char>,
)
    ensures
        end != EndView::Cancelled ==> file_ended(state, id, end) == state,
        end == EndView::Cancelled && state.controls.contains_key(id) ==> file_ended(
            state,
            id,
            end,
        ).controls[id].cancelled && !file_ended(state, id, end).controls[id].paused,
        file_ended(state, id, end).tasks == state.tasks,
        other != id ==> untouched(state, file_ended(state, id, end), other),
        other != id ==> untouched(
            state,
            folder_finished(state, id, total_bytes, speed_bits, now),
            other,
        ),
        folder_finished(state, id, total_bytes, speed_bits, now).controls == state.controls,
        state.tasks.contains_key(id) ==> folder_finished(
            state,
            id,
            total_bytes,
            speed_bits,
            now,
        ).tasks[id].speed_bits == speed_bits,
{
}

/// What is told of a round: how many files are fetched at once in the first, and in every other
/// its number, how many there can be, and how many files are tried again.
pub proof fn rounds_are_told(attempt: nat, rounds: nat, parallel: nat, pending: nat)
    ensures
        round_text(0, rounds, parallel, pending) == "并行下载 "@ + decimal(parallel)
            + " 个文件"@,
        attempt > 0 ==> round_text(attempt, rounds, parallel, pending)
            == "重试失败文件：第 "@ + decimal(attempt) + "/"@ + decimal(rounds) + " 轮 · "@
            + decimal(pending) + " 个文件"@,
{
}

/// What is told once a round is over: how many files have failed, and which round comes next or
/// that none does.
pub proof fn failed_rounds_are_told(
    files: Seq<FileView>,
    ends: Seq<EndView>,
    attempt: nat,
    mode: RetryMode,
    separator: char,
    places: Seq<int>,
)
    requires
        are_failed_places(places, ends),
    ensures
        ({
            let end = round_end(files, ends, attempt, mode, separator);
            &&& end is Retry ==> shown_after(end) == Some(
                decimal(places.len()) + " 个文件失败，等待第 "@ + decimal(attempt + 1)
                    + " 轮重试"@,
            )
            &&& end is Failed && mode == RetryMode::Auto ==> shown_after(end) == Some(
                decimal(places.len()) + " 个文件失败，已完成其余文件"@,
            )
            &&& end is Failed && mode == RetryMode::Manual ==> shown_after(end) == Some(
                decimal(places.len()) + " 个文件失败，等待手动重试"@,
            )
            &&& end is Cancelled || end is Complete ==> shown_after(end) is None
        }),
{
    failures_keep_their_order(files, ends, places);
}

/// A folder is first tried with all its files, and every other round tries exactly the files that
/// have failed in the one before. Nothing else about the download changes from round to round.
pub proof fn rounds_try_what_has_failed(
    run: &mut FolderRun,
    ends: &Vec<FileEnd>,
    separator: char,
    end: RoundEnd,
    places: Seq<int>,
)
    requires
        call_ensures(FolderRun::finish_round, (run, ends, separator), end),
        are_failed_places(places, end_views(ends@)),
        ends@.len() == old(run).pending@.len(),
    ensures
        final(run).total_bytes == old(run).total_bytes,
        final(run).retry_mode == old(run).retry_mode,
        final(run).file_parallelism == old(run).file_parallelism,
        final(run).file_connections == old(run).file_connections,
        end is Retry ==> final(run).attempt == old(run).attempt + 1 && final(run).pending@.len()
            == places.len() && forall|k: int|
            0 <= k < places.len() ==> final(run).pending@[k]@ == old(run).pending@[
                #[trigger] places[k]
            ]@,
        !(end is Retry) ==> *final(run) == *old(run),
{
    let files = file_views(old(run).pending@);
    failures_keep_their_order(files, end_views(ends@), places);
    if end is Retry {
        let next = file_views(final(run).pending@);
        assert(next.len() == final(run).pending@.len());
        assert forall|k: int| 0 <= k < places.len() implies final(run).pending@[k]@ == old(
            run,
        ).pending@[#[trigger] places[k]]@ by {
            assert(next[k] == final(run).pending@[k]@);
            assert(0 <= places[k] < files.len());
            assert(files[places[k]] == old(run).pending@[places[k]]@);
        }
    }
}

} // verus!
