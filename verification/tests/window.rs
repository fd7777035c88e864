use megadown::api::LinkPreview;
use megadown::datetime::{civil_from_days, format_time, from_unix_seconds, DateTime};
use megadown::format::{format_bytes, format_duration, format_eta, format_speed};
use megadown::intake::{clean_link, extract_mega_links};
use megadown::notices::{
    cleared, failed_action, inspected, missing_link, retried, retry_settings,
    selection_after_delete, summarize_start, StartTally, UserAction,
};
use megadown::rows::{
    can_pause, count_tasks, is_active, is_terminal, non_empty_or, refresh_overview,
    resolve_selected_task, status_kind, status_text, task_matches_filter, task_to_ui, Progress,
};
use megadown::settings::{
    chunk_mb_from_bytes, effective_chunk_mb, effective_connections, folder_file_connections,
    folder_file_parallelism, has_countable_chunk_size, indexed_value, non_empty,
    normalize_chunk_size, resolve_performance_mode, settle, DownloadRequest, FormValues,
    PerformanceMode, RequestSettings, RetryMode, TaskSettings,
};
use megadown::start::new_task;
use megadown::tasks::{TaskSnapshot, TaskStatus};

const STATUSES: [TaskStatus; 8] = [
    TaskStatus::Queued,
    TaskStatus::Resolving,
    TaskStatus::Downloading,
    TaskStatus::Paused,
    TaskStatus::Verifying,
    TaskStatus::Completed,
    TaskStatus::Failed,
    TaskStatus::Cancelled,
];

fn form() -> FormValues {
    FormValues {
        output_dir: " /dl ".to_string(),
        password: "  ".to_string(),
        performance_mode_index: 0,
        retry_mode_index: 0,
        connections_index: 2,
        chunk_size_index: 2,
        overwrite: false,
        verify: true,
    }
}

fn task(id: &str, status: TaskStatus) -> TaskSnapshot {
    let settings = TaskSettings {
        connections: 4,
        chunk_size: 4 * 1024 * 1024,
        overwrite: false,
        verify_integrity: false,
        performance_mode: PerformanceMode::LowImpact,
        retry_mode: RetryMode::Manual,
    };
    let mut task = new_task(id.to_string(), "https://mega.nz/file/a#b", "/dl", settings, 1_000);
    task.status = status;
    task
}

fn bytes_by_float(value: u64) -> String {
    if value < 1024 {
        return format!("{value} B");
    }
    let units = ["KB", "MB", "GB", "TB", "PB"];
    let mut size = value as f64 / 1024.0;
    let mut index = 0usize;
    while size >= 1024.0 && index < units.len() - 1 {
        size /= 1024.0;
        index += 1;
    }
    if size >= 100.0 {
        format!("{:.0} {}", size, units[index])
    } else {
        format!("{:.1} {}", size, units[index])
    }
}

#[test]
fn bytes_are_shown_in_units() {
    assert_eq!(format_bytes(0), "0 B");
    assert_eq!(format_bytes(1023), "1023 B");
    assert_eq!(format_bytes(1024), "1.0 KB");
    assert_eq!(format_bytes(1536), "1.5 KB");
    assert_eq!(format_bytes(102_400), "100 KB");
    assert_eq!(format_bytes(1_048_575), "1024 KB");
    assert_eq!(format_bytes(1_048_576), "1.0 MB");
    assert_eq!(format_bytes(u64::MAX), "16384 PB");
    assert_eq!(format_speed(2_048), "2.0 KB/s");
}

#[test]
fn bytes_are_rounded_like_floating_point_numbers() {
    let mut values: Vec<u64> = (0..5_000).map(|i| i * 37).collect();
    for shift in 0..64u32 {
        for offset in 0..5u64 {
            values.push((1u64 << shift).wrapping_add(offset));
            values.push((1u64 << shift).wrapping_sub(offset));
            values.push((3u64 << shift).wrapping_add(offset));
        }
    }
    for quarter in 0..800u64 {
        values.push(1024 * quarter + 256 * (quarter % 4));
        values.push(1_048_576 * quarter + 52_428 + quarter);
        values.push((1u64 << 53) * 7 + quarter * 511);
    }
    let mut seed = 88_172_645_463_325_252u64;
    for _ in 0..20_000 {
        seed ^= seed << 13;
        seed ^= seed >> 7;
        seed ^= seed << 17;
        values.push(seed >> (seed % 60));
    }
    for value in values {
        assert_eq!(format_bytes(value), bytes_by_float(value), "{value}");
    }
}

#[test]
fn durations_are_shown_in_two_units() {
    assert_eq!(format_duration(0), "1 秒");
    assert_eq!(format_duration(59), "59 秒");
    assert_eq!(format_duration(60), "1 分 0 秒");
    assert_eq!(format_duration(3_599), "59 分 59 秒");
    assert_eq!(format_duration(3_600), "1 小时 0 分");
    assert_eq!(format_duration(90_061), "25 小时 1 分");
}

#[test]
fn remaining_time_depends_on_the_status() {
    assert_eq!(format_eta(&TaskStatus::Completed, 5, 5), "已完成");
    assert_eq!(format_eta(&TaskStatus::Failed, 5, 5), "失败");
    assert_eq!(format_eta(&TaskStatus::Cancelled, 5, 5), "已取消");
    assert_eq!(format_eta(&TaskStatus::Paused, 5, 5), "已暂停");
    assert_eq!(format_eta(&TaskStatus::Downloading, 0, 5), "计算中");
    assert_eq!(format_eta(&TaskStatus::Downloading, 5, 0), "计算中");
    assert_eq!(format_eta(&TaskStatus::Queued, 1_000, 10), "剩余 1 分 40 秒");
}

#[test]
fn times_are_shown_in_utc() {
    assert_eq!(format_time(0), "-");
    assert_eq!(format_time(u128::from(u64::MAX) + 1), "-");
    assert_eq!(format_time(1_000), "1970-01-01 00:00:01");
    assert_eq!(format_time(1_709_210_096_789), "2024-02-29 12:34:56");
    assert_eq!(format_time(951_827_696_000), "2000-02-29 12:34:56");
    assert_eq!(civil_from_days(-1), (1969, 12, 31));
    assert_eq!(civil_from_days(11_016), (2000, 2, 29));
    let before = from_unix_seconds(-1);
    assert_eq!(before.format(), "1969-12-31 23:59:59");
    let shown = DateTime { year: 7, month: 1, day: 2, hour: 3, minute: 4, second: 5 };
    assert_eq!(shown.format(), "0007-01-02 03:04:05");
}

#[test]
fn consecutive_days_have_distinct_dates() {
    let mut previous = civil_from_days(-800_000);
    for day in -799_999..800_000 {
        let date = civil_from_days(day);
        assert!(date > previous);
        previous = date;
    }
}

#[test]
fn links_are_found_in_pasted_text() {
    let text = "see <https://mega.nz/file/a#b>, \"mega.nz/folder/c#d\" and\n(MEGA.co.nz/#!x!y). https://mega.nz/file/a#b http://other.org/";
    assert_eq!(
        extract_mega_links(text),
        vec!["https://mega.nz/file/a#b", "https://mega.nz/folder/c#d", "https://(MEGA.co.nz/#!x!y"]
    );
    assert!(extract_mega_links("nothing here").is_empty());
    assert!(extract_mega_links("").is_empty());
}

#[test]
fn links_are_cleaned() {
    assert_eq!(clean_link(" ].https://mega.nz/file/a#b;,) "), "https://mega.nz/file/a#b");
    assert_eq!(clean_link("HTTP://Mega.NZ/x"), "HTTP://Mega.NZ/x");
    assert_eq!(clean_link("ftp://mega.nz/x"), "https://ftp://mega.nz/x");
    assert_eq!(clean_link("mega.nz"), "");
    assert_eq!(clean_link(".,;"), "");
}

#[test]
fn blank_text_is_replaced() {
    assert_eq!(non_empty("  x "), Some("x".to_string()));
    assert_eq!(non_empty(" \u{3000} "), None);
    assert_eq!(non_empty_or(" x ".to_string()), " x ");
    assert_eq!(non_empty_or("  ".to_string()), "-");
}

#[test]
fn statuses_are_sorted_out() {
    for status in STATUSES {
        let kinds = [is_active(&status), status == TaskStatus::Paused, is_terminal(&status)];
        assert_eq!(kinds.iter().filter(|kind| **kind).count(), 1);
        assert_eq!(can_pause(&status), is_active(&status));
        assert_eq!(status.is_terminal(), is_terminal(&status));
    }
    let texts: Vec<&str> = STATUSES.iter().map(status_text).collect();
    assert_eq!(
        texts,
        vec!["排队中", "解析中", "下载中", "已暂停", "校验中", "完成", "失败", "已取消"]
    );
    let kinds: Vec<&str> = STATUSES.iter().map(status_kind).collect();
    assert_eq!(
        kinds,
        vec!["active", "active", "active", "paused", "active", "completed", "failed", "cancelled"]
    );
}

#[test]
fn filters_show_their_statuses() {
    let shown = |index: i32| {
        STATUSES.iter().filter(|status| task_matches_filter(&task("a", **status), index)).count()
    };
    let counts: Vec<usize> = (-1..7).map(shown).collect();
    assert_eq!(counts, vec![8, 8, 4, 1, 1, 1, 1, 8]);
}

#[test]
fn tasks_become_rows() {
    let mut running = task("a", TaskStatus::Downloading);
    running.total_bytes = 4_096;
    running.downloaded_bytes = 1_024;
    running.current_file = Some("part".to_string());
    let row = task_to_ui(&running, 1_024);
    assert_eq!(row.detail, "part");
    assert_eq!(row.downloaded_text, "1.0 KB / 4.0 KB");
    assert_eq!(row.speed_text, "1.0 KB/s");
    assert_eq!(row.eta_text, "剩余 3 秒");
    assert_eq!(row.config_text, "4 连接 · 4.0 MB 分片");
    assert_eq!((row.error_text.as_str(), row.current_file.as_str()), ("-", "part"));
    assert_eq!(row.created_at, "1970-01-01 00:00:01");
    assert!(row.can_pause && row.can_cancel && !row.can_delete && !row.can_retry && !row.can_open);
    running.error = Some("  ".to_string());
    assert_eq!(task_to_ui(&running, 0).detail, "/dl");
    running.error = Some("bad".to_string());
    assert_eq!(task_to_ui(&running, 0).detail, "bad");
    let row = task_to_ui(&task("b", TaskStatus::Completed), 0);
    assert_eq!(row.progress, Progress::Full);
    assert!(row.can_open && row.can_retry && row.can_delete);
    assert!(!row.can_cancel && !row.can_resume);
}

#[test]
fn progress_stays_within_bounds() {
    let mut running = task("a", TaskStatus::Downloading);
    assert_eq!(task_to_ui(&running, 0).progress, Progress::Nothing);
    running.total_bytes = 4_096;
    running.downloaded_bytes = 1_024;
    assert_eq!(
        task_to_ui(&running, 0).progress,
        Progress::Share { downloaded: 1_024, total: 4_096 }
    );
    running.downloaded_bytes = 4_096;
    assert_eq!(task_to_ui(&running, 0).progress, Progress::Full);
    running.downloaded_bytes = 5_000;
    assert_eq!(task_to_ui(&running, 0).progress, Progress::Full);
}

#[test]
fn rows_offer_one_of_pausing_resuming_and_deleting() {
    for status in STATUSES {
        let row = task_to_ui(&task("a", status), 0);
        let offered = [row.can_pause, row.can_resume, row.can_delete];
        assert_eq!(offered.iter().filter(|offer| **offer).count(), 1);
        assert_eq!(row.can_cancel, !row.can_delete);
        assert_eq!(row.can_retry, row.can_delete);
    }
}

#[test]
fn links_are_tallied() {
    let mut tally = StartTally::new();
    assert_eq!(tally.selection(Some("old".to_string())).as_deref(), Some("old"));
    tally.note("u1".to_string(), Err("e1".to_string()));
    assert_eq!(tally.selection(None), None);
    tally.note("u2".to_string(), Ok("t2".to_string()));
    tally.note("u3".to_string(), Ok("t3".to_string()));
    tally.note("u4".to_string(), Err("e4".to_string()));
    assert_eq!(tally.added, 2);
    assert_eq!(tally.failed.len(), 2);
    assert_eq!(tally.selection(Some("old".to_string())).as_deref(), Some("t3"));
    let summary = summarize_start(tally.added, &tally.failed);
    assert_eq!(summary.url_text, "u1\nu4");
}

#[test]
fn selection_falls_back_to_the_last_shown() {
    let tasks = vec![
        task("a", TaskStatus::Completed),
        task("b", TaskStatus::Failed),
        task("c", TaskStatus::Completed),
        task("d", TaskStatus::Queued),
    ];
    let place = |filter, id: Option<&str>| {
        resolve_selected_task(&tasks, filter, &id.map(|text| text.to_string()))
    };
    assert_eq!(place(3, Some("b")), Some(1));
    assert_eq!(place(3, Some("gone")), Some(2));
    assert_eq!(place(2, None), Some(3));
    assert_eq!(resolve_selected_task(&vec![], 0, &None), None);
}

#[test]
fn overview_counts_and_shows() {
    let tasks: Vec<TaskSnapshot> =
        STATUSES.iter().enumerate().map(|(i, status)| task(&format!("t{i}"), *status)).collect();
    let speeds: Vec<u64> = (0..8).map(|i| i * 1_024).collect();
    let overview = refresh_overview(&tasks, &speeds, 1, &Some("t3".to_string()));
    let ids: Vec<&str> = overview.rows.iter().map(|row| row.id.as_str()).collect();
    assert_eq!(ids, vec!["t0", "t1", "t2", "t4"]);
    assert_eq!(overview.rows[3].speed_text, "4.0 KB/s");
    assert_eq!(overview.selected_id.as_deref(), Some("t3"));
    assert_eq!(overview.selected.expect("selected").id, "t3");
    assert_eq!(overview.visible_count_text, "4 / 8 个任务");
    let counts = count_tasks(&tasks);
    assert_eq!((counts.all, counts.active, counts.paused), (8, 4, 1));
    assert_eq!((counts.completed, counts.failed, counts.cancelled), (1, 1, 1));
    assert!(overview.has_pausable && overview.has_paused && overview.has_clearable);
    let empty = refresh_overview(&vec![], &vec![], 0, &Some("x".to_string()));
    assert!(empty.selected.is_none() && empty.selected_id.is_none());
    assert!(!empty.has_pausable && !empty.has_paused && !empty.has_clearable);
}

#[test]
fn form_becomes_settings() {
    let settings = RequestSettings::from_ui(&form());
    assert_eq!(settings.output_dir.as_deref(), Some("/dl"));
    assert_eq!(settings.password, None);
    assert_eq!((settings.connections, settings.chunk_size_mb), (8, 8));
    assert_eq!(settings.performance_mode, PerformanceMode::Balanced);
    assert_eq!(settings.retry_mode, RetryMode::Auto);
    let settings = RequestSettings::from_ui(&FormValues {
        performance_mode_index: 2,
        retry_mode_index: 1,
        connections_index: -3,
        chunk_size_index: 9,
        ..form()
    });
    assert_eq!((settings.connections, settings.chunk_size_mb), (2, 8));
    assert_eq!(settings.performance_mode, PerformanceMode::LowImpact);
    assert_eq!(settings.retry_mode, RetryMode::Manual);
    let request = settings.download_request("url".to_string());
    assert_eq!(request.url, "url");
    assert_eq!(request.low_cpu_mode, Some(true));
    assert_eq!(request.connections, Some(2));
    assert_eq!(request.verify_integrity, Some(true));
    assert_eq!(indexed_value(&[1, 2, 3], 2, 9), 3);
    assert_eq!(indexed_value(&[1, 2, 3], 3, 9), 9);
}

#[test]
fn limits_follow_the_mode() {
    assert_eq!(effective_connections(99, PerformanceMode::Fast), 32);
    assert_eq!(effective_connections(99, PerformanceMode::Balanced), 16);
    assert_eq!(effective_connections(99, PerformanceMode::LowImpact), 4);
    assert_eq!(effective_connections(0, PerformanceMode::Fast), 1);
    assert_eq!(effective_chunk_mb(99, PerformanceMode::Fast), 99);
    assert_eq!(effective_chunk_mb(99, PerformanceMode::Balanced), 16);
    assert_eq!(effective_chunk_mb(99, PerformanceMode::LowImpact), 4);
    assert_eq!(effective_chunk_mb(0, PerformanceMode::Balanced), 1);
    assert_eq!(normalize_chunk_size(0), 1_048_576);
    assert_eq!(normalize_chunk_size(3), 3 * 1_048_576);
    assert_eq!(normalize_chunk_size(1_000), 64 * 1_048_576);
    assert_eq!(chunk_mb_from_bytes(0), 8);
    assert_eq!(chunk_mb_from_bytes(5), 1);
    assert_eq!(chunk_mb_from_bytes(3 * 1_048_576 + 1), 3);
}

#[test]
fn files_share_the_connections_of_a_task() {
    for connections in 1..=32usize {
        for low in [false, true] {
            for count in 0..=50usize {
                let files = folder_file_parallelism(connections, low, count);
                let each = folder_file_connections(connections, files);
                assert!(files >= 1 && each >= 1 && files * each <= connections);
            }
        }
    }
    assert_eq!(folder_file_parallelism(8, false, 50), 6);
    assert_eq!(folder_file_parallelism(8, true, 50), 2);
    assert_eq!(folder_file_parallelism(0, false, 3), 1);
    assert_eq!(folder_file_parallelism(8, false, 0), 1);
    assert_eq!(folder_file_connections(8, 3), 2);
    assert_eq!(folder_file_connections(2, 6), 1);
}

#[test]
fn requests_are_settled_within_limits() {
    let mut request = RequestSettings::from_ui(&form()).download_request("u".to_string());
    request.connections = None;
    request.chunk_size_mb = None;
    request.performance_mode = None;
    request.retry_mode = None;
    request.overwrite = None;
    request.verify_integrity = None;
    request.low_cpu_mode = None;
    assert_eq!(resolve_performance_mode(&request), PerformanceMode::Balanced);
    let settings = settle(&request);
    assert_eq!((settings.connections, settings.chunk_size), (8, 8 * 1_048_576));
    assert!(!settings.overwrite && !settings.verify_integrity);
    let request = DownloadRequest {
        low_cpu_mode: Some(true),
        connections: Some(0),
        chunk_size_mb: Some(u64::MAX),
        ..request
    };
    assert!(has_countable_chunk_size(&request));
    let settings = settle(&request);
    assert_eq!((settings.connections, settings.chunk_size), (1, 4 * 1_048_576));
    let request = DownloadRequest { performance_mode: Some(PerformanceMode::Fast), ..request };
    assert_eq!(resolve_performance_mode(&request), PerformanceMode::Fast);
    assert!(!has_countable_chunk_size(&request));
}

#[test]
fn retried_task_keeps_its_parameters() {
    let mut done = task("a", TaskStatus::Completed);
    done.output_dir = "  ".to_string();
    let tasks = vec![done];
    let (settings, url) = match retry_settings(&tasks, "a", &form()) {
        Ok(found) => found,
        Err(_) => panic!("expected settings"),
    };
    assert_eq!(url, "https://mega.nz/file/a#b");
    assert_eq!(settings.output_dir.as_deref(), Some("-"));
    assert!(settings.overwrite);
    let again = settle(&settings.download_request(url));
    assert_eq!((again.connections, again.chunk_size), (4, 4 * 1_048_576));
    assert_eq!(again.performance_mode, PerformanceMode::LowImpact);
    assert_eq!(again.retry_mode, RetryMode::Manual);
}

#[test]
fn some_tasks_cannot_be_retried() {
    let mut blank = task("a", TaskStatus::Failed);
    blank.url = " ".to_string();
    let tasks = vec![blank];
    match retry_settings(&tasks, "b", &form()) {
        Err(notice) => {
            assert_eq!((notice.title.as_str(), notice.text.as_str()), ("无法重试", "任务不存在。"));
            assert!(notice.danger);
        }
        Ok(_) => panic!("expected a notice"),
    }
    match retry_settings(&tasks, "a", &form()) {
        Err(notice) => assert_eq!(notice.text, "任务缺少原始链接。"),
        Ok(_) => panic!("expected a notice"),
    }
}

#[test]
fn previews_are_announced() {
    let preview = |kind: &str, requires_password: bool| LinkPreview {
        kind: kind.to_string(),
        name: "N".to_string(),
        total_bytes: 2_048,
        file_count: 3,
        requires_password,
    };
    let notice = inspected(Ok(preview("folder", false)));
    assert_eq!((notice.title.as_str(), notice.text.as_str()), ("文件夹: N", "2.0 KB · 3 个文件"));
    assert!(!notice.danger);
    assert_eq!(inspected(Ok(preview("file", false))).title, "文件: N");
    let notice = inspected(Ok(preview("protected", true)));
    assert_eq!((notice.title.as_str(), notice.danger), ("需要密码", true));
    let notice = inspected(Err("bad".to_string()));
    assert_eq!((notice.title.as_str(), notice.text.as_str()), ("链接解析失败", "bad"));
}

#[test]
fn submissions_are_summed_up() {
    let summary = summarize_start(2, &vec![]);
    assert_eq!(summary.url_text, "");
    assert!(summary.clear_password);
    assert_eq!(summary.notice.title, "已加入队列");
    assert_eq!(summary.notice.text, "2 个链接已开始下载。");
    let failed = vec![
        ("u1".to_string(), "e1".to_string()),
        ("u2".to_string(), "e2".to_string()),
    ];
    let summary = summarize_start(1, &failed);
    assert_eq!(summary.url_text, "u1\nu2");
    assert!(!summary.clear_password);
    assert_eq!(summary.notice.title, "已添加 1 个，失败 2 个");
    assert_eq!(summary.notice.text, "首个错误：e1");
    assert!(!summary.notice.danger);
    let summary = summarize_start(0, &failed);
    assert_eq!(summary.notice.title, "无法开始下载");
    assert!(summary.notice.danger);
}

#[test]
fn other_notices_have_their_texts() {
    assert_eq!(missing_link().title, "缺少链接");
    assert_eq!(cleared(0).title, "没有可清空任务");
    assert_eq!(cleared(3).text, "已移除 3 个已结束任务记录。");
    assert_eq!(retried(Ok(())).title, "已重新加入队列");
    assert_eq!(retried(Err("e".to_string())).title, "重试失败");
    let titles = [
        (UserAction::ChooseDir, "选择目录失败"),
        (UserAction::Pause, "暂停失败"),
        (UserAction::Resume, "继续失败"),
        (UserAction::Cancel, "取消失败"),
        (UserAction::OpenFile, "打开文件失败"),
        (UserAction::OpenFolder, "打开目录失败"),
        (UserAction::Delete, "删除任务失败"),
        (UserAction::PauseAll, "全部暂停失败"),
        (UserAction::ResumeAll, "全部继续失败"),
        (UserAction::ClearFinished, "清空任务失败"),
    ];
    for (action, title) in titles {
        let notice = failed_action(action, "why");
        assert_eq!((notice.title.as_str(), notice.text.as_str()), (title, "why"));
        assert!(notice.danger);
    }
    let kept = selection_after_delete(Some("a".to_string()), "b");
    assert_eq!(kept.as_deref(), Some("a"));
    assert_eq!(selection_after_delete(kept, "a"), None);
}

#[test]
fn later_seconds_have_later_texts() {
    let seconds = [0, 59, 60, 86_399, 86_400, 951_782_399, 951_868_800, 1_735_689_599, 253_402_300_799];
    let texts: Vec<String> =
        seconds.iter().map(|second| from_unix_seconds(*second).format()).collect();
    for index in 1..texts.len() {
        assert!(texts[index - 1] < texts[index]);
        assert_eq!(texts[index].len(), 19);
    }
    assert_eq!(texts[texts.len() - 1], "9999-12-31 23:59:59");
}
