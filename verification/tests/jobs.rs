use yt_dlp_ui::clock::Timestamp;
use yt_dlp_ui::error::AppError;
use yt_dlp_ui::jobs::{JobEntry, JobStatus, JobStore, MAX_LINES};

fn at(seconds: i64) -> Timestamp {
    Timestamp::new(seconds, 0).unwrap()
}

fn job(id: u128, started: i64) -> JobEntry {
    JobEntry::new(id, format!("url{}", id), format!("cmd{}", id), at(started))
}

#[test]
fn names_of_statuses() {
    assert_eq!(JobStatus::Pending.as_str(), "pending");
    assert_eq!(JobStatus::Running.as_str(), "running");
    assert_eq!(JobStatus::Completed.as_str(), "completed");
    assert_eq!(JobStatus::Failed.as_str(), "failed");
    assert_eq!(JobStatus::Cancelled.as_str(), "cancelled");
}

#[test]
fn new_jobs_are_pending() {
    let job = job(7, 100);
    assert_eq!(job.id, 7);
    assert_eq!(job.playlist_url, "url7");
    assert_eq!(job.command_line, "cmd7");
    assert_eq!(job.started_at, at(100));
    assert_eq!(job.finished_at, None);
    assert_eq!(job.status, JobStatus::Pending);
    assert!(job.logs.is_empty());
    assert_eq!(job.error, None);
}

#[test]
fn lines_lose_their_ends() {
    let mut job = job(1, 0);
    job.push_line("a\r\n");
    job.push_line("b\n");
    job.push_line("c\r");
    job.push_line("");
    assert_eq!(job.logs, vec!["a", "b", "c\r", ""]);
}

#[test]
fn log_is_the_end_of_the_output() {
    let mut job = job(1, 0);
    for i in 0..MAX_LINES + 3 {
        job.push_line(&format!("line {}\n", i));
        assert_eq!(job.logs.len(), std::cmp::min(i + 1, MAX_LINES));
    }
    assert_eq!(job.logs[0], "line 3");
    assert_eq!(job.logs[MAX_LINES - 1], "line 4002");
}

#[test]
fn registered_jobs_are_found() {
    let mut store = JobStore::new();
    assert!(matches!(store.fetch_job(1), Err(AppError::NotFound)));
    assert!(matches!(store.job_log(1), Err(AppError::NotFound)));
    store.register(job(1, 1_700_000_000));
    store.register(job(2, 5));
    let detail = store.fetch_job(1).unwrap();
    assert_eq!(detail.id, 1);
    assert_eq!(detail.playlist_url, "url1");
    assert_eq!(detail.command_line, "cmd1");
    assert_eq!(detail.status, JobStatus::Pending);
    assert_eq!(detail.started_at, at(1_700_000_000));
    assert_eq!(detail.started_at_display, "2023-11-14 22:13:20");
    assert_eq!(detail.finished_at, None);
    assert_eq!(detail.finished_at_display, "-");
    assert_eq!(detail.log_text, "");
    assert_eq!(detail.error, None);
    assert_eq!(store.fetch_job(2).unwrap().playlist_url, "url2");
}

#[test]
fn identifiers_stay_distinct() {
    let mut store = JobStore::new();
    store.register(job(1, 10));
    store.register(job(2, 20));
    store.register(job(1, 30));
    store.push_line(1, "x");
    let ids: Vec<u128> = store.gather_job_summaries().into_iter().map(|s| s.id).collect();
    assert_eq!(ids, vec![1, 2]);
    assert_eq!(store.fetch_job(1).unwrap().started_at, at(30));
}

#[test]
fn logs_of_jobs() {
    let mut store = JobStore::new();
    store.register(job(1, 0));
    store.register(job(2, 0));
    assert!(store.push_line(1, "one\n"));
    assert!(store.push_line(1, "two\n"));
    assert!(!store.push_line(3, "lost\n"));
    assert!(store.log_read_failure(2, "broken pipe"));
    assert!(!store.log_read_failure(3, "broken pipe"));
    assert_eq!(store.job_log(1).unwrap(), "one\ntwo");
    assert_eq!(store.fetch_job(1).unwrap().log_text, "one\ntwo");
    assert_eq!(store.job_log(2).unwrap(), "Failed to read process output: broken pipe");
}

#[test]
fn only_active_jobs_can_be_stopped() {
    let mut store = JobStore::new();
    assert!(matches!(store.request_stop(1), Err(AppError::NotFound)));
    store.register(job(1, 0));
    store.register(job(2, 0));
    assert!(store.is_active(1) && store.is_active(2) && !store.is_active(3));
    store.request_stop(1).unwrap();
    assert_eq!(store.job_log(1).unwrap(), "Cancellation requested by user.");
    assert!(store.is_active(1));
    store.release(1);
    assert!(!store.is_active(1) && store.is_active(2));
    match store.request_stop(1) {
        Err(AppError::Invalid(m)) => assert_eq!(m, "Job is not currently running"),
        other => panic!("{:?}", other),
    }
    assert_eq!(store.job_log(1).unwrap(), "Cancellation requested by user.");
    store.release(1);
    store.release(9);
    assert!(store.is_active(2));
}

#[test]
fn last_started_job_comes_first() {
    let mut store = JobStore::new();
    assert!(store.gather_job_summaries().is_empty());
    for (id, started) in vec![(1, 50), (2, 70), (3, 50), (4, 60)] {
        store.register(job(id, started));
    }
    let list = store.gather_job_summaries();
    let ids: Vec<u128> = list.iter().map(|s| s.id).collect();
    assert_eq!(ids, vec![2, 4, 1, 3]);
    assert_eq!(list[0].playlist_url, "url2");
    assert_eq!(list[0].status, JobStatus::Pending);
    assert_eq!(list[0].started_at, at(70));
    assert_eq!(list[0].started_at_display, "1970-01-01 00:01:10");
    assert_eq!(list[0].finished_at, None);
    assert_eq!(list[0].finished_at_display, "-");
}
