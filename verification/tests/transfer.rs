use megadown::chunks::{Chunk, ResumeManifest};
use megadown::crypto::FileCrypto;
use megadown::error::DownloadError;
use megadown::file_run::{
    progress_after_chunk, shared_bytes, worker_step, Baseline, FileAction, FileEvent, FileJob,
    FilePhase, FileRun, WorkerStep,
};
use megadown::folder::{FolderFilePlan, FolderPlan};
use megadown::folder_run::{
    folder_failures_error, path_text, place_folder, FileEnd, FolderFileFailure, FolderRun, RoundEnd,
};
use megadown::queue::Cleanup;
use megadown::settings::{PerformanceMode, RetryMode, TaskSettings};
use megadown::start::new_task;
use megadown::task_run::{
    file_job, folder_file_job, run_download_task, Found, TaskAction, TaskPhase,
};
use megadown::tasks::{AppState, TaskControl, TaskStatus};
use megadown::transfer::{
    acquire_task_slot, after_chunk, after_write, check_status, chunk_retry_delay, fold_worker,
    is_existing_complete, range_header, receive_chunk, wait_if_paused, ChunkStep, FileState,
    GateStep, SlotStep, WorkerEnd,
};
use std::collections::{BTreeSet, VecDeque};

fn crypto() -> FileCrypto {
    FileCrypto { aes_key: [1; 16], iv_words: [2, 3], meta_mac: [4, 5] }
}

fn job() -> FileJob {
    FileJob {
        total_size: 100,
        chunk_size: 32,
        overwrite: false,
        verify_integrity: false,
        global_base: 0,
        shared: false,
        show_verify_status: true,
        count_resume_progress: true,
        manifest_id: "id".to_string(),
        file_name: "name".to_string(),
    }
}

fn saved(completed: &[u64]) -> ResumeManifest {
    ResumeManifest {
        manifest_id: "id".to_string(),
        file_name: "old".to_string(),
        total_bytes: 100,
        chunk_size: 32,
        completed: completed.iter().copied().collect(),
    }
}

fn settings() -> TaskSettings {
    TaskSettings {
        connections: 8,
        chunk_size: 1024 * 1024,
        overwrite: true,
        verify_integrity: true,
        performance_mode: PerformanceMode::Balanced,
        retry_mode: RetryMode::Auto,
    }
}

fn folder_file(name: &str) -> FolderFilePlan {
    FolderFilePlan {
        name: name.to_string(),
        relative_path: vec!["dir".to_string(), name.to_string()],
        size: 10,
        handle: name.to_string(),
        crypto: crypto(),
        manifest_id: format!("folder:{name}"),
    }
}

fn plan(names: &[&str], create_root_dir: bool) -> FolderPlan {
    FolderPlan {
        name: "Fol/der".to_string(),
        total_bytes: 30,
        files: names.iter().map(|name| folder_file(name)).collect(),
        folder_id: "fid".to_string(),
        create_root_dir,
    }
}

fn failed() -> FileEnd {
    FileEnd::Failed(DownloadError::HttpStatus(500))
}

#[test]
fn gate_stops_cancelled_and_paused_tasks() {
    let control = |cancelled, paused| TaskControl { cancelled, paused };
    assert_eq!(wait_if_paused(&control(false, false), false), GateStep::Pass);
    assert_eq!(wait_if_paused(&control(false, false), true), GateStep::Restore);
    assert_eq!(wait_if_paused(&control(false, true), true), GateStep::Wait);
    assert_eq!(wait_if_paused(&control(true, true), false), GateStep::Cancelled);
    assert_eq!(acquire_task_slot(&control(false, false)), SlotStep::Run);
    assert_eq!(acquire_task_slot(&control(false, true)), SlotStep::GiveBack);
    assert_eq!(acquire_task_slot(&control(true, false)), SlotStep::Cancelled);
}

#[test]
fn chunks_are_tried_four_times() {
    let delays: Vec<Option<u64>> = (0..5).map(chunk_retry_delay).collect();
    assert_eq!(delays, vec![Some(350), Some(700), Some(1_050), None, None]);
}

#[test]
fn chunks_are_asked_for_by_range() {
    assert_eq!(range_header(&Chunk { start: 16, end: 31 }), "bytes=16-31");
}

#[test]
fn only_fitting_statuses_are_accepted() {
    let part = Chunk { start: 0, end: 9 };
    assert!(check_status(206, &part, 100).is_ok());
    assert!(matches!(check_status(200, &part, 100), Err(DownloadError::HttpStatus(200))));
    assert!(check_status(200, &part, 10).is_ok());
    assert!(check_status(206, &part, 10).is_ok());
    assert!(check_status(299, &part, 10).is_ok());
    assert!(matches!(check_status(300, &part, 10), Err(DownloadError::HttpStatus(300))));
    let tail = Chunk { start: 5, end: 9 };
    assert!(matches!(check_status(200, &tail, 10), Err(DownloadError::HttpStatus(200))));
}

#[test]
fn received_chunks_are_measured_and_decrypted() {
    let chunk = Chunk { start: 32, end: 41 };
    let plain = receive_chunk(vec![0; 10], &crypto(), &chunk).expect("the right length");
    let mut expected = vec![0; 42];
    megadown::crypto::decrypt_range(&mut expected, &crypto(), 0);
    assert_eq!(plain, expected[32..]);
    match receive_chunk(vec![0; 9], &crypto(), &chunk) {
        Err(DownloadError::ChunkLength { start, expected, actual }) => {
            assert_eq!((start, expected, actual), (32, 10, 9));
        }
        other => panic!("unexpected {other:?}"),
    }
}

#[test]
fn writing_nothing_is_an_error() {
    assert_eq!(after_write(3, 10, 4).ok(), Some(7));
    assert_eq!(
        after_write(3, 10, 0).expect_err("refused").message(),
        "io error: failed to write decrypted chunk"
    );
}

#[test]
fn files_are_complete_at_their_size() {
    assert_eq!(is_existing_complete(FileState::File(5), 5).ok(), Some(true));
    assert_eq!(is_existing_complete(FileState::File(4), 5).ok(), Some(false));
    assert_eq!(is_existing_complete(FileState::Other, 5).ok(), Some(false));
    assert_eq!(is_existing_complete(FileState::Missing, 5).ok(), Some(false));
    let error = is_existing_complete(FileState::Unreadable("why".to_string()), 5);
    assert_eq!(error.expect_err("refused").message(), "io error: why");
}

#[test]
fn first_error_of_the_workers_counts() {
    let (first, stop) = fold_worker(None, WorkerEnd::Done);
    assert!(first.is_none() && !stop);
    let (first, stop) = fold_worker(first, WorkerEnd::Failed(DownloadError::Cancelled));
    assert!(matches!(first, Some(DownloadError::Cancelled)) && !stop);
    let (first, stop) = fold_worker(first, WorkerEnd::Failed(DownloadError::MacMismatch));
    assert!(matches!(first, Some(DownloadError::Cancelled)) && stop);
    let (first, stop) = fold_worker(None, WorkerEnd::Broken("boom".to_string()));
    assert_eq!(first.expect("an error").message(), "worker failed: boom");
    assert!(stop);
}

#[test]
fn fresh_file_goes_through_all_steps() {
    let mut run = FileRun::new(FileJob { verify_integrity: true, ..job() });
    assert!(matches!(run.step(FileEvent::Done), FileAction::Gate(TaskStatus::Downloading)));
    assert!(matches!(run.step(FileEvent::Done), FileAction::CheckOutput));
    assert!(matches!(
        run.step(FileEvent::Answer(false)),
        FileAction::Prepare { discard: false }
    ));
    assert!(matches!(run.step(FileEvent::Done), FileAction::CheckPart));
    match run.step(FileEvent::Answer(false)) {
        FileAction::Open(manifest) => {
            assert_eq!(manifest.file_name, "name");
            assert!(manifest.completed.is_empty());
        }
        _ => panic!("expected to open"),
    }
    match run.step(FileEvent::Done) {
        FileAction::Work { queue, already, baseline, .. } => {
            assert_eq!(queue.len(), 4);
            assert_eq!(already, 0);
            assert_eq!(baseline, Baseline::Own(0));
        }
        _ => panic!("expected to work"),
    }
    assert!(matches!(run.step(FileEvent::Done), FileAction::Gate(TaskStatus::Downloading)));
    assert!(matches!(run.step(FileEvent::Done), FileAction::BeginVerify { show: true }));
    assert!(matches!(run.step(FileEvent::Done), FileAction::Verify));
    assert!(matches!(run.step(FileEvent::Done), FileAction::Publish));
    assert!(matches!(run.step(FileEvent::Done), FileAction::Finished(Some(100))));
    assert_eq!(run.phase, FilePhase::Over);
}

#[test]
fn incomplete_file_is_resumed() {
    let mut run = FileRun::new(FileJob { shared: true, ..job() });
    run.step(FileEvent::Done);
    run.step(FileEvent::Done);
    run.step(FileEvent::Answer(false));
    run.step(FileEvent::Done);
    assert!(matches!(run.step(FileEvent::Answer(true)), FileAction::LoadManifest));
    match run.step(FileEvent::Loaded(Some(saved(&[32, 96])))) {
        FileAction::Open(manifest) => assert_eq!(manifest.file_name, "old"),
        _ => panic!("expected to open"),
    }
    match run.step(FileEvent::Done) {
        FileAction::Work { queue, already, baseline, manifest } => {
            let starts: Vec<u64> = queue.iter().map(|chunk| chunk.start).collect();
            assert_eq!(starts, vec![0, 64]);
            assert_eq!(already, 36);
            assert_eq!(baseline, Baseline::Shared(36));
            assert_eq!(manifest.completed, BTreeSet::from([32, 96]));
        }
        _ => panic!("expected to work"),
    }
    run.step(FileEvent::Done);
    assert!(matches!(run.step(FileEvent::Done), FileAction::Publish));
    assert!(matches!(run.step(FileEvent::Done), FileAction::Finished(None)));
}

#[test]
fn manifest_of_another_file_is_not_resumed() {
    let mut run = FileRun::new(FileJob { manifest_id: "other".to_string(), ..job() });
    run.step(FileEvent::Done);
    run.step(FileEvent::Done);
    run.step(FileEvent::Answer(false));
    run.step(FileEvent::Done);
    run.step(FileEvent::Answer(true));
    match run.step(FileEvent::Loaded(Some(saved(&[32])))) {
        FileAction::Open(manifest) => assert!(manifest.completed.is_empty()),
        _ => panic!("expected to open"),
    }
}

#[test]
fn complete_file_is_skipped() {
    for (shared, counts, expected) in [
        (false, true, Baseline::Own(105)),
        (true, true, Baseline::Shared(100)),
        (true, false, Baseline::Keep),
    ] {
        let mut run = FileRun::new(FileJob {
            shared,
            count_resume_progress: counts,
            global_base: 5,
            ..job()
        });
        run.step(FileEvent::Done);
        run.step(FileEvent::Done);
        match run.step(FileEvent::Answer(true)) {
            FileAction::Skipped(baseline) => assert_eq!(baseline, expected),
            _ => panic!("expected to skip"),
        }
    }
}

#[test]
fn overwritten_file_starts_from_nothing() {
    let mut run = FileRun::new(FileJob { overwrite: true, ..job() });
    run.step(FileEvent::Done);
    run.step(FileEvent::Done);
    assert!(matches!(run.step(FileEvent::Answer(true)), FileAction::Prepare { discard: true }));
    match run.step(FileEvent::Done) {
        FileAction::Open(manifest) => assert!(manifest.completed.is_empty()),
        _ => panic!("expected to open"),
    }
}

#[test]
fn failures_end_a_file() {
    let mut run = FileRun::new(job());
    run.step(FileEvent::Done);
    match run.step(FileEvent::Failed(DownloadError::Cancelled)) {
        FileAction::Failed(error) => assert!(matches!(error, DownloadError::Cancelled)),
        _ => panic!("expected to fail"),
    }
    assert_eq!(run.phase, FilePhase::Over);
}

#[test]
fn workers_take_chunks_in_turn() {
    let mut queue: VecDeque<Chunk> =
        VecDeque::from([Chunk { start: 0, end: 1 }, Chunk { start: 2, end: 3 }]);
    assert!(matches!(worker_step(true, &mut queue), WorkerStep::Stop));
    assert_eq!(queue.len(), 2);
    assert!(matches!(worker_step(false, &mut queue), WorkerStep::Fetch(chunk) if chunk.start == 0));
    assert!(matches!(worker_step(false, &mut queue), WorkerStep::Fetch(chunk) if chunk.start == 2));
    assert!(matches!(worker_step(false, &mut queue), WorkerStep::Stop));
    assert_eq!(progress_after_chunk(&FileJob { global_base: 7, ..job() }, 10, 99), 17);
    assert_eq!(progress_after_chunk(&FileJob { shared: true, ..job() }, 10, 99), 99);
}

#[test]
fn failed_files_are_tried_again_for_three_rounds() {
    let mut run = FolderRun::new(plan(&["a", "b", "c"], true), 8, false, RetryMode::Auto);
    assert_eq!((run.file_parallelism, run.file_connections), (3, 2));
    assert_eq!(run.round_message(), "并行下载 3 个文件");
    assert!(run.counts_resume_progress() && run.overwrites(true));
    match run.finish_round(&vec![failed(), FileEnd::Done, failed()], '/') {
        RoundEnd::Retry(text) => assert_eq!(text, "2 个文件失败，等待第 1 轮重试"),
        _ => panic!("expected another round"),
    }
    let names: Vec<&str> = run.pending.iter().map(|file| file.name.as_str()).collect();
    assert_eq!(names, vec!["a", "c"]);
    assert_eq!(run.round_message(), "重试失败文件：第 1/3 轮 · 2 个文件");
    assert!(!run.counts_resume_progress() && !run.overwrites(true));
    for _ in 0..2 {
        let ends = run.pending.iter().map(|_| failed()).collect();
        assert!(matches!(run.finish_round(&ends, '/'), RoundEnd::Retry(_)));
    }
    match run.finish_round(&vec![FileEnd::Broken("boom".to_string()), failed()], '/') {
        RoundEnd::Failed { shown, error } => {
            assert_eq!(shown, "2 个文件失败，已完成其余文件");
            assert_eq!(
                error.message(),
                "2 个文件在 3 轮重试后仍失败；首个错误：dir/a: folder worker failed: boom"
            );
        }
        _ => panic!("expected a failure"),
    }
}

#[test]
fn manual_mode_tries_once() {
    let mut run = FolderRun::new(plan(&["a", "b"], true), 8, true, RetryMode::Manual);
    match run.finish_round(&vec![FileEnd::Done, failed()], '\\') {
        RoundEnd::Failed { shown, error } => {
            assert_eq!(shown, "1 个文件失败，等待手动重试");
            assert_eq!(
                error.message(),
                "手动重试模式：1 个文件失败；首个错误：dir\\b: HTTP status 500 while downloading"
            );
        }
        _ => panic!("expected a failure"),
    }
}

#[test]
fn rounds_end_when_all_is_done_or_cancelled() {
    let mut run = FolderRun::new(plan(&["a", "b"], true), 8, false, RetryMode::Auto);
    assert!(!run.is_empty());
    let ends = vec![failed(), FileEnd::Failed(DownloadError::Cancelled)];
    assert!(matches!(run.finish_round(&ends, '/'), RoundEnd::Cancelled));
    assert_eq!(run.attempt, 0);
    let ends = vec![FileEnd::Done, FileEnd::Done];
    assert!(matches!(run.finish_round(&ends, '/'), RoundEnd::Complete));
    assert!(FolderRun::new(plan(&[], true), 8, false, RetryMode::Auto).is_empty());
}

#[test]
fn folder_failures_name_the_first() {
    assert_eq!(
        folder_failures_error(&vec![], 0, RetryMode::Manual, '/').message(),
        "手动重试模式：0 个文件失败；首个错误：unknown folder failure"
    );
    let failures = vec![FolderFileFailure { file: folder_file("p"), error: "e".to_string() }];
    assert_eq!(
        folder_failures_error(&failures, 3, RetryMode::Auto, '/').message(),
        "1 个文件在 3 轮重试后仍失败；首个错误：dir/p: e"
    );
    assert_eq!(path_text(&vec![], '/'), "");
    assert_eq!(path_text(&vec!["a".to_string(), "b".to_string(), "c".to_string()], '/'), "a/b/c");
}

#[test]
fn folders_are_placed() {
    let own = place_folder(&plan(&["a"], true), false);
    assert_eq!(own.root.as_deref(), Some("Folder"));
    assert_eq!(own.shown, vec!["Folder".to_string()]);
    assert_eq!(own.name, "Fol/der");
    assert_eq!(own.total_bytes, plan(&["a"], true).total_bytes);
    let single = place_folder(&plan(&["a"], false), false);
    assert_eq!(single.root, None);
    assert_eq!(single.shown, folder_file("a").relative_path);
    let several = place_folder(&plan(&["a", "b"], false), false);
    assert_eq!(several.root, None);
    assert!(several.shown.is_empty());
}

#[test]
fn finished_folder_shows_all_bytes() {
    let mut state = AppState::new();
    let task = new_task("id".to_string(), "url", "dir", settings(), 1);
    state.insert_task(task, TaskControl::new());
    state.set_current_file("id", Some("file".to_string()), 2);
    let run = FolderRun::new(plan(&["a", "b"], true), 8, false, RetryMode::Auto);
    state.finish_folder("id", &run, 7, 3);
    let shown = state.task_snapshot("id").expect("the task is there");
    assert_eq!((shown.downloaded_bytes, shown.total_bytes), (run.total_bytes, run.total_bytes));
    assert_eq!(shown.current_file, None);
    assert_eq!(shown.speed_bits, 7);
}

#[test]
fn chunks_end_with_the_first_success_or_the_last_error() {
    assert!(matches!(after_chunk(0, Ok(())), ChunkStep::Done));
    assert!(matches!(after_chunk(3, Ok(())), ChunkStep::Done));
    assert!(matches!(after_chunk(0, Err(DownloadError::MacMismatch)), ChunkStep::Wait(350)));
    assert!(matches!(after_chunk(2, Err(DownloadError::MacMismatch)), ChunkStep::Wait(1_050)));
    assert!(matches!(
        after_chunk(3, Err(DownloadError::HttpStatus(509))),
        ChunkStep::Fail(DownloadError::HttpStatus(509))
    ));
}

#[test]
fn tasks_wait_before_they_ask_and_download() {
    let mut phase = TaskPhase::New;
    let mut actions = Vec::new();
    while phase != TaskPhase::Over {
        let (next, action) = run_download_task(phase);
        phase = next;
        actions.push(action);
    }
    assert_eq!(
        actions,
        vec![
            TaskAction::Gate(TaskStatus::Resolving),
            TaskAction::Resolve,
            TaskAction::Place,
            TaskAction::Gate(TaskStatus::Downloading),
            TaskAction::Download,
            TaskAction::Finish,
        ]
    );
}

#[test]
fn jobs_carry_the_settings_of_the_task() {
    let metadata = megadown::api::FileMetadata {
        name: "n".to_string(),
        size: 9,
        direct_url: "u".to_string(),
        crypto: crypto(),
        manifest_id: "m".to_string(),
    };
    let job = file_job(&metadata, "out".to_string(), &settings());
    assert_eq!((job.total_size, job.chunk_size), (9, 1024 * 1024));
    assert!(job.overwrite && job.verify_integrity && job.show_verify_status && !job.shared);
    assert_eq!((job.manifest_id.as_str(), job.file_name.as_str()), ("m", "out"));
    let mut run = FolderRun::new(plan(&["a"], true), 8, false, RetryMode::Auto);
    let first = folder_file_job(&run, &run.pending[0], "a".to_string(), &settings());
    assert!(first.overwrite && first.shared && first.count_resume_progress);
    assert!(!first.show_verify_status);
    run.finish_round(&vec![failed()], '/');
    let second = folder_file_job(&run, &run.pending[0], "a".to_string(), &settings());
    assert!(!second.overwrite && !second.count_resume_progress);
}

fn running() -> AppState {
    let mut state = AppState::new();
    let task = new_task("id".to_string(), "url", "dir", settings(), 1);
    state.insert_task(task, TaskControl::new());
    state
}

fn status(state: &AppState) -> TaskStatus {
    state.task_snapshot("id").expect("the task is there").status
}

#[test]
fn waiting_tasks_show_it() {
    let mut state = running();
    assert_eq!(state.reach_gate("id", false, TaskStatus::Downloading, 2), GateStep::Pass);
    assert_eq!(status(&state), TaskStatus::Queued);
    state.pause_download("id", 3).expect("the task runs");
    state.set_status("id", TaskStatus::Downloading, 4);
    assert_eq!(state.reach_gate("id", false, TaskStatus::Downloading, 5), GateStep::Wait);
    assert_eq!(status(&state), TaskStatus::Paused);
    state.resume_download("id", 6).expect("the task runs");
    assert_eq!(state.reach_gate("id", true, TaskStatus::Verifying, 7), GateStep::Restore);
    assert_eq!(status(&state), TaskStatus::Verifying);
    state.cancel_download("id", 8).expect("the task runs");
    assert_eq!(state.reach_gate("id", true, TaskStatus::Verifying, 9), GateStep::Cancelled);
    assert_eq!(status(&state), TaskStatus::Cancelled);
    assert_eq!(state.reach_gate("other", false, TaskStatus::Queued, 9), GateStep::Pass);
}

#[test]
fn cancelled_file_cancels_its_task() {
    let mut state = running();
    state.pause_download("id", 2).expect("the task runs");
    assert!(!state.end_file("id", &FileEnd::Done));
    assert!(!state.end_file("id", &failed()));
    assert_eq!(state.get_control("id"), Ok(TaskControl { cancelled: false, paused: true }));
    assert!(state.end_file("id", &FileEnd::Failed(DownloadError::Cancelled)));
    assert_eq!(state.get_control("id"), Ok(TaskControl { cancelled: true, paused: false }));
    assert_eq!(status(&state), TaskStatus::Paused);
}

#[test]
fn only_cancelled_tasks_are_cleaned_up() {
    let mut state = running();
    state.register_artifacts("id", vec!["x.part".to_string()]);
    assert!(matches!(state.cleanup_after("id", &Ok(())), Cleanup::Nothing));
    assert!(matches!(
        state.cleanup_after("id", &Err(DownloadError::MacMismatch)),
        Cleanup::Nothing
    ));
    match state.cleanup_after("id", &Err(DownloadError::Cancelled)) {
        Cleanup::Listed(paths) => assert_eq!(paths, vec!["x.part".to_string()]),
        _ => panic!("expected a list"),
    }
}

#[test]
fn steps_of_a_task_are_shown() {
    let mut state = running();
    let place = place_folder(&plan(&["a"], true), false);
    let found = Found::folder(&place, "dir/Folder".to_string());
    let mut phase = TaskPhase::New;
    let mut seen = Vec::new();
    while phase != TaskPhase::Over {
        let (next, action) = state.step_task("id", phase, &found, 2);
        phase = next;
        seen.push((action, status(&state)));
    }
    assert_eq!(seen[0].1, TaskStatus::Queued);
    assert_eq!(seen[1], (TaskAction::Resolve, TaskStatus::Resolving));
    assert_eq!(seen[3].1, TaskStatus::Resolving);
    assert_eq!(seen[4], (TaskAction::Download, TaskStatus::Downloading));
    let task = state.task_snapshot("id").expect("the task is there");
    assert_eq!(task.file_name, "Fol/der");
    assert_eq!(task.output_path, "dir/Folder");
    assert_eq!(task.total_bytes, 30);
}

#[test]
fn rounds_and_files_are_shown() {
    let mut state = running();
    let current =
        |state: &AppState| state.task_snapshot("id").expect("the task is there").current_file;
    let mut run = FolderRun::new(plan(&["a", "b"], true), 8, false, RetryMode::Manual);
    state.begin_round("id", &run, 2);
    assert_eq!(current(&state).as_deref(), Some("并行下载 2 个文件"));
    state.begin_file("id", &folder_file("a"), '/', 3);
    assert_eq!(current(&state).as_deref(), Some("dir/a"));
    state.end_round("id", &RoundEnd::Cancelled, 4);
    assert_eq!(current(&state).as_deref(), Some("dir/a"));
    let end = run.finish_round(&vec![FileEnd::Done, failed()], '/');
    state.end_round("id", &end, 5);
    assert_eq!(current(&state).as_deref(), Some("1 个文件失败，等待手动重试"));
}

#[test]
fn actions_of_a_file_are_noted() {
    let mut state = running();
    let bytes = |state: &AppState| {
        let task = state.task_snapshot("id").expect("the task is there");
        (task.downloaded_bytes, task.total_bytes)
    };
    state.note_action("id", &FileAction::Skipped(Baseline::Own(5)), 0, 9, 2);
    assert_eq!(bytes(&state), (5, 9));
    let action = FileAction::Skipped(Baseline::Shared(3));
    assert_eq!(shared_bytes(&action), 3);
    state.note_action("id", &action, 8, 9, 3);
    assert_eq!(bytes(&state), (8, 9));
    state.note_action("id", &FileAction::Skipped(Baseline::Keep), 1, 1, 4);
    assert_eq!(bytes(&state), (8, 9));
    assert_eq!(shared_bytes(&FileAction::Publish), 0);
    state.note_action("id", &FileAction::BeginVerify { show: false }, 0, 9, 5);
    assert_eq!(status(&state), TaskStatus::Queued);
    state.note_action("id", &FileAction::BeginVerify { show: true }, 0, 9, 6);
    assert_eq!(status(&state), TaskStatus::Verifying);
}
