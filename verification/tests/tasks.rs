use megadown::error::DownloadError;
use megadown::queue::{
    cancel_message, folder_can_be_opened, open_failure, output_is_folder, Cleanup, PathState,
};
use megadown::settings::{DownloadRequest, PerformanceMode, RetryMode, TaskSettings};
use megadown::speed::{SpeedMeter, SpeedReading, SpeedSample};
use megadown::start::new_task;
use megadown::tasks::{AppState, TaskControl, TaskSnapshot, TaskStatus};
use megadown::textmap::TextMap;

fn settings() -> TaskSettings {
    TaskSettings {
        connections: 8,
        chunk_size: 8 * 1024 * 1024,
        overwrite: false,
        verify_integrity: true,
        performance_mode: PerformanceMode::Balanced,
        retry_mode: RetryMode::Auto,
    }
}

fn request(url: &str) -> DownloadRequest {
    DownloadRequest {
        url: url.to_string(),
        output_dir: None,
        password: None,
        connections: None,
        chunk_size_mb: None,
        overwrite: None,
        verify_integrity: None,
        performance_mode: None,
        retry_mode: None,
        low_cpu_mode: None,
    }
}

fn state_with(ids: &[(&str, u128)]) -> AppState {
    let mut state = AppState::new();
    for (id, created) in ids {
        let task = new_task(id.to_string(), "url", "/out", settings(), *created);
        state.insert_task(task, TaskControl::new());
    }
    state
}

fn snapshot(state: &AppState, id: &str) -> TaskSnapshot {
    state.task_snapshot(id).expect("the task is there")
}

fn ids(state: &AppState) -> Vec<String> {
    state.sorted_tasks().into_iter().map(|task| task.id).collect()
}

#[test]
fn new_tasks_wait_in_the_queue() {
    let state = state_with(&[("a", 5)]);
    let task = snapshot(&state, "a");
    assert_eq!(task.file_name, "Resolving link");
    assert_eq!(task.status, TaskStatus::Queued);
    assert_eq!((task.output_dir.as_str(), task.output_path.as_str()), ("/out", "/out"));
    assert_eq!((task.created_at, task.updated_at), (5, 5));
    assert_eq!(task.chunk_size_bytes, 8 * 1024 * 1024);
    assert!(state.get_control("a").is_ok());
    assert_eq!(state.get_control("b").expect_err("no such task"), "task is not running");
}

#[test]
fn tasks_are_listed_by_age() {
    let state = state_with(&[("late", 30), ("early", 10), ("twin", 30), ("mid", 20)]);
    assert_eq!(ids(&state), vec!["early", "mid", "late", "twin"]);
}

#[test]
fn status_changes_keep_speed_only_while_downloading() {
    let mut state = state_with(&[("a", 0)]);
    state.set_progress("a", 77, 1, 2, 1);
    state.set_status("a", TaskStatus::Downloading, 2);
    assert_eq!(snapshot(&state, "a").speed_bits, 77);
    state.set_status("a", TaskStatus::Paused, 3);
    let task = snapshot(&state, "a");
    assert_eq!((task.speed_bits, task.updated_at), (0, 3));
    assert!(state.speed_meters.contains("a"));
    state.set_status("a", TaskStatus::Completed, 4);
    assert!(!state.speed_meters.contains("a"));
    state.set_status("unknown", TaskStatus::Failed, 5);
    assert_eq!(ids(&state), vec!["a"]);
}

#[test]
fn resolving_notes_what_is_downloaded() {
    let mut state = state_with(&[("a", 0)]);
    state.set_error("a", TaskStatus::Resolving, "oops".to_string(), 1);
    assert_eq!(snapshot(&state, "a").error.as_deref(), Some("oops"));
    state.set_resolved("a", "name".to_string(), "/out/name".to_string(), 100, 2);
    state.set_current_file("a", Some("part".to_string()), 3);
    let task = snapshot(&state, "a");
    assert_eq!(task.file_name, "name");
    assert_eq!(task.output_path, "/out/name");
    assert_eq!(task.total_bytes, 100);
    assert_eq!(task.status, TaskStatus::Downloading);
    assert_eq!(task.error, None);
    assert_eq!(task.current_file.as_deref(), Some("part"));
}

#[test]
fn progress_is_sampled_then_noted() {
    let mut state = state_with(&[("a", 0)]);
    state.set_progress_baseline("a", 100, 1_000, 1_000);
    assert_eq!(state.sample_progress("a", 300, 1_500), SpeedReading::Settled(0));
    assert_eq!(
        state.sample_progress("a", 600, 3_000),
        SpeedReading::Measured { delta_bytes: 500, elapsed_ms: 2_000 }
    );
    state.set_progress("a", 250f64.to_bits(), 600, 1_000, 3_000);
    let task = snapshot(&state, "a");
    assert_eq!(f64::from_bits(task.speed_bits), 250.0);
    assert_eq!((task.downloaded_bytes, task.total_bytes), (600, 1_000));
    assert_eq!(
        state.sample_progress("a", 600, 4_000),
        SpeedReading::Settled(250f64.to_bits())
    );
    assert_eq!(state.sample_progress("new", 5, 4_000), SpeedReading::Settled(0));
}

#[test]
fn meter_starts_anew_when_bytes_shrink() {
    let mut meter = SpeedMeter::new(100, 0);
    meter.settle(9);
    assert_eq!(meter.record(50, 10), SpeedReading::Settled(0));
    assert_eq!(meter.samples.len(), 1);
    assert_eq!(meter.ema_bits, 0);
    assert_eq!(meter.samples[0], SpeedSample { at: 10, bytes: 50 });
}

#[test]
fn meter_keeps_recent_samples() {
    let mut meter = SpeedMeter::new(0, 0);
    for i in 1..=10u64 {
        meter.record(i * 100, (i * 1_000) as u128);
    }
    assert_eq!(meter.samples.len(), 6);
    assert_eq!(meter.samples[0].at, 5_000);
    assert_eq!(
        meter.record(2_000, 100_000),
        SpeedReading::Measured { delta_bytes: 1_000, elapsed_ms: 90_000 }
    );
    assert_eq!(meter.samples.len(), 2);
}

#[test]
fn meter_replaces_a_sample_of_the_same_time() {
    let mut meter = SpeedMeter::new(0, 0);
    assert_eq!(meter.record(10, 0), SpeedReading::Settled(0));
    assert_eq!(meter.samples.len(), 1);
    assert_eq!(
        meter.record(30, 1_000),
        SpeedReading::Measured { delta_bytes: 20, elapsed_ms: 1_000 }
    );
}

#[test]
fn only_finished_tasks_are_deleted() {
    let mut state = state_with(&[("a", 0)]);
    assert_eq!(
        state.delete_finished_task("a").expect_err("runs"),
        "任务仍在运行或收尾，请先取消并等待状态刷新。"
    );
    state.remove_control("a");
    assert_eq!(
        state.delete_finished_task("a").expect_err("queued"),
        "只能删除已完成、失败或已取消的任务。"
    );
    assert_eq!(state.delete_finished_task("b").expect_err("unknown"), "任务不存在。");
    state.set_status("a", TaskStatus::Failed, 1);
    state.register_artifacts("a", vec!["x".to_string()]);
    assert_eq!(state.delete_finished_task("a").expect("deleted").id, "a");
    assert!(state.task_snapshot("a").is_none());
    assert!(state.artifacts_snapshot("a").is_empty());
}

#[test]
fn finished_tasks_are_cleared_away() {
    let mut state = state_with(&[("run", 0), ("done", 1), ("failed", 2), ("wait", 3), ("end", 4)]);
    state.finish_task("done", Ok(()), 0, 5);
    state.finish_task("failed", Err(DownloadError::MacMismatch), 0, 5);
    state.remove_control("wait");
    state.set_status("end", TaskStatus::Completed, 6);
    assert_eq!(state.clear_finished_tasks(), 2);
    assert_eq!(ids(&state), vec!["run", "wait", "end"]);
    assert_eq!(state.clear_finished_tasks(), 0);
    assert!(state.delete_finished_task("run").is_err());
}

#[test]
fn running_tasks_are_controlled() {
    let mut state = state_with(&[("a", 0)]);
    state.pause_download("a", 1).expect("runs");
    assert_eq!(snapshot(&state, "a").status, TaskStatus::Paused);
    assert_eq!(state.get_control("a").ok(), Some(TaskControl { cancelled: false, paused: true }));
    state.resume_download("a", 2).expect("runs");
    assert_eq!(snapshot(&state, "a").status, TaskStatus::Queued);
    assert_eq!(state.get_control("a").ok(), Some(TaskControl::new()));
    state.cancel_download("a", 3).expect("runs");
    assert_eq!(snapshot(&state, "a").status, TaskStatus::Cancelled);
    state.pause_download("a", 4).expect("runs");
    assert_eq!(state.get_control("a").ok(), Some(TaskControl { cancelled: true, paused: true }));
    for result in [
        state.pause_download("x", 5),
        state.resume_download("x", 5),
        state.cancel_download("x", 5),
    ] {
        assert_eq!(result.expect_err("unknown"), "task is not running");
    }
}

#[test]
fn all_running_tasks_are_paused_and_resumed() {
    let mut state = state_with(&[("a", 0), ("b", 1), ("over", 2)]);
    state.finish_task("over", Ok(()), 0, 3);
    state.pause_all_downloads(4);
    assert_eq!(snapshot(&state, "a").status, TaskStatus::Paused);
    assert_eq!(snapshot(&state, "b").status, TaskStatus::Paused);
    assert_eq!(snapshot(&state, "over").status, TaskStatus::Completed);
    assert!(state.get_control("b").expect("runs").is_paused());
    state.resume_all_downloads(5);
    assert_eq!(snapshot(&state, "a").status, TaskStatus::Queued);
    assert!(!state.get_control("a").expect("runs").is_paused());
}

#[test]
fn tasks_end_in_three_ways() {
    let mut state = state_with(&[("ok", 0), ("cancelled", 1), ("failed", 2)]);
    state.register_artifacts("ok", vec!["p".to_string()]);
    state.finish_task("ok", Ok(()), 0, 9);
    assert_eq!(snapshot(&state, "ok").status, TaskStatus::Completed);
    assert!(state.artifacts_snapshot("ok").is_empty());
    state.finish_task("cancelled", Err(DownloadError::Cancelled), 2, 9);
    let task = snapshot(&state, "cancelled");
    assert_eq!(task.status, TaskStatus::Cancelled);
    assert_eq!(task.error.as_deref(), Some("已取消，已清理 2 个临时文件"));
    state.finish_task("failed", Err(DownloadError::HttpStatus(500)), 0, 9);
    let task = snapshot(&state, "failed");
    assert_eq!(task.status, TaskStatus::Failed);
    assert_eq!(task.error.as_deref(), Some("HTTP status 500 while downloading"));
    for id in ["ok", "cancelled", "failed"] {
        assert!(state.delete_finished_task(id).is_ok());
    }
    assert_eq!(cancel_message(0), "已取消");
}

#[test]
fn artifacts_are_listed_once() {
    let mut state = state_with(&[("a", 0)]);
    assert!(matches!(state.cleanup_of("a"), Cleanup::Beside(path) if path == "/out"));
    assert!(matches!(state.cleanup_of("x"), Cleanup::Nothing));
    state.register_artifacts("a", vec!["p".to_string(), "q".to_string()]);
    state.register_artifacts("a", vec!["q".to_string(), "r".to_string()]);
    assert_eq!(state.artifacts_snapshot("a"), vec!["p", "q", "r"]);
    assert!(matches!(state.cleanup_of("a"), Cleanup::Listed(paths) if paths.len() == 3));
    state.clear_artifacts("a");
    assert!(state.artifacts_snapshot("a").is_empty());
}

#[test]
fn only_completed_tasks_are_opened() {
    let mut state = state_with(&[("a", 0)]);
    assert_eq!(state.openable_task("x").expect_err("unknown"), "任务不存在。");
    assert_eq!(
        state.openable_task("a").expect_err("runs"),
        "只有已完成任务可以打开文件或文件夹。"
    );
    state.finish_task("a", Ok(()), 0, 1);
    assert_eq!(state.openable_task("a").expect("completed").output_path, "/out");
    state.set_resolved("a", "n".to_string(), "  ".to_string(), 0, 2);
    state.set_status("a", TaskStatus::Completed, 3);
    assert_eq!(state.openable_task("a").expect_err("no path"), "任务没有保存路径。");
}

#[test]
fn paths_are_judged_before_they_are_opened() {
    assert_eq!(output_is_folder(PathState::Folder), Ok(true));
    assert_eq!(output_is_folder(PathState::Other), Ok(false));
    assert_eq!(
        output_is_folder(PathState::Missing),
        Err("文件不存在，可能已删除或路径已变更。".to_string())
    );
    assert_eq!(
        output_is_folder(PathState::Unreadable("why".to_string())),
        Err("无法读取保存路径：why".to_string())
    );
    assert_eq!(folder_can_be_opened(PathState::Folder), Ok(()));
    assert_eq!(
        folder_can_be_opened(PathState::Other),
        Err("保存路径不是文件夹，可能已变更。".to_string())
    );
    assert_eq!(
        folder_can_be_opened(PathState::Missing),
        Err("保存文件夹不存在，可能已删除或路径已变更。".to_string())
    );
    assert_eq!(
        folder_can_be_opened(PathState::Unreadable("why".to_string())),
        Err("无法读取保存文件夹：why".to_string())
    );
    assert_eq!(open_failure("a.txt", "why"), "无法打开 a.txt：why");
}

#[test]
fn requests_start_tasks() {
    let mut state = AppState::new();
    let mut asked = request("https://mega.nz/file/id#key");
    asked.output_dir = Some("/else".to_string());
    asked.connections = Some(100);
    asked.chunk_size_mb = Some(64);
    asked.low_cpu_mode = Some(true);
    let started = state
        .start_download(&asked, Ok("/default".to_string()), "t1".to_string(), 7)
        .expect("countable")
        .expect("accepted");
    assert_eq!(started.output_dir, "/else");
    assert_eq!(started.task.connections, 4);
    assert_eq!(started.task.chunk_size_bytes, 4 * 1024 * 1024);
    assert_eq!(started.settings.performance_mode, PerformanceMode::LowImpact);
    assert_eq!(snapshot(&state, "t1").url, "https://mega.nz/file/id#key");
    assert!(state.delete_finished_task("t1").is_err());
}

#[test]
fn blank_folders_fall_back_to_the_default() {
    let mut state = AppState::new();
    let mut asked = request("https://mega.nz/file/id#key");
    asked.output_dir = Some("   ".to_string());
    let started = state
        .start_download(&asked, Ok("/default".to_string()), "t".to_string(), 0)
        .expect("countable")
        .expect("accepted");
    assert_eq!(started.output_dir, "/default");
    assert_eq!(started.settings.connections, 8);
}

#[test]
fn bad_requests_start_nothing() {
    let mut state = AppState::new();
    let asked = request("https://mega.nz/file/id");
    match state.start_download(&asked, Ok(String::new()), "t".to_string(), 0) {
        Some(Err(text)) => assert_eq!(text, "missing MEGA file key"),
        _ => panic!("expected a refusal"),
    }
    let mut asked = request("https://mega.nz/file/id#key");
    match state.start_download(&asked, Err("no home".to_string()), "t".to_string(), 0) {
        Some(Err(text)) => assert_eq!(text, "no home"),
        _ => panic!("expected a refusal"),
    }
    asked.performance_mode = Some(PerformanceMode::Fast);
    asked.chunk_size_mb = Some(u64::MAX);
    assert!(state.start_download(&asked, Ok(String::new()), "t".to_string(), 0).is_none());
    assert!(ids(&state).is_empty());
}

#[test]
fn text_maps_hold_one_value_for_a_key() {
    let mut map: TextMap<u32> = TextMap::new();
    map.insert("a".to_string(), 1);
    map.insert("b".to_string(), 2);
    map.insert("a".to_string(), 3);
    assert_eq!(map.get("a"), Some(&3));
    assert_eq!(map.keys(), vec!["a", "b"]);
    assert_eq!(map.remove("a"), Some(3));
    assert_eq!(map.remove("a"), None);
    assert!(!map.contains("a"));
    assert!(map.contains("b"));
}

#[test]
fn meter_follows_the_bytes() {
    let mut meter = SpeedMeter::new(100, 0);
    meter.settle(9);
    assert_eq!(meter.record(100, 10), SpeedReading::Settled(9));
    assert_eq!(meter.samples.len(), 1);
    assert_eq!(
        meter.record(600, 2_000),
        SpeedReading::Measured { delta_bytes: 500, elapsed_ms: 2_000 }
    );
    assert_eq!(meter.samples[meter.samples.len() - 1].bytes, 600);
    assert_eq!(meter.record(10, 2_500), SpeedReading::Settled(0));
    assert_eq!(meter.samples.len(), 1);
}
