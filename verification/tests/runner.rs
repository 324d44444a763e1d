use yt_dlp_ui::clock::Timestamp;
use yt_dlp_ui::config::{AppConfig, AppPaths, StoredState};
use yt_dlp_ui::error::AppError;
use yt_dlp_ui::form::DownloadForm;
use yt_dlp_ui::jobs::{JobEntry, JobStatus, JobStore};
use yt_dlp_ui::runner::{
    download_job, start_download, start_download_as, start_scheduled, DownloadRun, ExitOutcome,
    RunAction, RunEvent, RunPhase,
};
use yt_dlp_ui::schedule::{due_schedules, AlbumSchedule, ScheduleFrequency};

fn at(seconds: i64) -> Timestamp {
    Timestamp::new(seconds, 0).unwrap()
}

fn config() -> AppConfig {
    let stored = StoredState {
        directories: None,
        downloads_override: Some("/music".to_string()),
        archives_override: Some("/archives".to_string()),
        schedules: None,
        album_sources: None,
    };
    AppConfig::from_env(AppPaths::from_env(None, None), stored)
}

fn form() -> DownloadForm {
    let mut form = DownloadForm::default();
    form.playlist_url = "https://example.org/list".to_string();
    form
}

fn started() -> (DownloadRun, JobEntry) {
    let config = config();
    let job = download_job(5, &form(), "yt-dlp", &config.directories, at(1)).unwrap();
    (DownloadRun::new(form(), config.directories), job)
}

fn watching() -> (DownloadRun, JobEntry) {
    let (mut run, mut job) = started();
    run.step(&mut job, RunEvent::Begin { now: at(10) });
    run.step(&mut job, RunEvent::TitleFetched { title: None });
    run.step(&mut job, RunEvent::Launched);
    (run, job)
}

fn required(e: AppError) {
    match e {
        AppError::Invalid(m) => assert_eq!(m, "Playlist URL is required"),
        other => panic!("{:?}", other),
    }
}

#[test]
fn requested_jobs() {
    let (run, job) = started();
    assert_eq!(job.id, 5);
    assert_eq!(job.playlist_url, "https://example.org/list");
    assert!(job.command_line.starts_with("yt-dlp -f bestaudio"));
    assert!(job.command_line.ends_with(".%(ext)s https://example.org/list"));
    assert_eq!(job.status, JobStatus::Pending);
    assert_eq!(job.started_at, at(1));
    assert!(matches!(run.phase, RunPhase::Starting));
}

#[test]
fn downloads_need_a_playlist() {
    let config = config();
    let mut store = JobStore::new();
    let mut blank = form();
    blank.playlist_url = " \n".to_string();
    required(download_job(1, &blank, "yt-dlp", &config.directories, at(0)).unwrap_err());
    required(start_download_as(1, blank.clone(), &config, &mut store, at(0)).unwrap_err());
    required(start_download(blank, &config, &mut store, at(0)).unwrap_err());
    assert!(store.gather_job_summaries().is_empty());
}

#[test]
fn starting_registers_the_job() {
    let config = config();
    let mut store = JobStore::new();
    let run = start_download_as(9, form(), &config, &mut store, at(3)).unwrap();
    assert!(store.is_active(9));
    assert_eq!(store.fetch_job(9).unwrap().started_at, at(3));
    assert_eq!(run.directories.downloads_dir, "/music");
    assert_eq!(run.form.playlist_url, "https://example.org/list");
}

#[test]
fn identifiers_are_random() {
    let config = config();
    let mut store = JobStore::new();
    let (a, _) = start_download(form(), &config, &mut store, at(3)).unwrap();
    let (b, _) = start_download(form(), &config, &mut store, at(4)).unwrap();
    assert_ne!(a, b);
    for id in vec![a, b] {
        assert!(store.is_active(id));
        assert_eq!(store.fetch_job(id).unwrap().status, JobStatus::Pending);
        assert_eq!(uuid::Uuid::from_u128(id).get_version_num(), 4);
    }
    assert_eq!(store.gather_job_summaries().len(), 2);
}

#[test]
fn scheduled_downloads_wait_for_their_period() {
    let mut config = config();
    let mut store = JobStore::new();
    config.upsert_schedule(AlbumSchedule {
        album: "Mix".to_string(),
        playlist_url: "u".to_string(),
        frequency: ScheduleFrequency::Hourly,
        last_run_ts: None,
    });
    let now = 1_700_000_000;
    let due = due_schedules(&config.album_schedules, at(now));
    assert_eq!(due.len(), 1);
    let (id, run) = start_scheduled(&due[0], &mut config, &mut store, at(now)).unwrap();
    assert_eq!(run.form.download_archive, "downloaded_Mix.txt");
    assert!(store.fetch_job(id).unwrap().command_line.contains("/music/Mix/%(playlist_index)02d"));
    assert_eq!(config.schedule_for_album("Mix").unwrap().last_run_ts, Some(now));
    assert!(due_schedules(&config.album_schedules, at(now + 3_599)).is_empty());
    assert_eq!(due_schedules(&config.album_schedules, at(now + 3_600)).len(), 1);
}

#[test]
fn schedules_that_cannot_start_are_not_marked() {
    let mut config = config();
    let mut store = JobStore::new();
    let schedule = AlbumSchedule {
        album: "Mix".to_string(),
        playlist_url: " ".to_string(),
        frequency: ScheduleFrequency::Hourly,
        last_run_ts: None,
    };
    config.upsert_schedule(schedule.clone());
    required(start_scheduled(&schedule, &mut config, &mut store, at(5)).unwrap_err());
    assert_eq!(config.schedule_for_album("Mix").unwrap().last_run_ts, None);
    assert!(store.gather_job_summaries().is_empty());
}

#[test]
fn a_run_that_completes() {
    let (mut run, mut job) = started();
    match run.step(&mut job, RunEvent::Begin { now: at(10) }) {
        RunAction::FetchTitle { arguments } => {
            assert_eq!(arguments[0], "--print");
            assert_eq!(arguments[4], "https://example.org/list");
        }
        other => panic!("{:?}", other),
    }
    assert_eq!(job.status, JobStatus::Running);
    assert_eq!(job.started_at, at(10));

    let title = Some(" Rock/Pop ".to_string());
    match run.step(&mut job, RunEvent::TitleFetched { title }) {
        RunAction::Launch { source, arguments } => {
            let source = source.unwrap();
            assert_eq!(source.album, "Rock_Pop");
            assert_eq!(source.playlist_url, "https://example.org/list");
            assert!(arguments.contains(&"/archives/downloaded_Rock_Pop.txt".to_string()));
        }
        other => panic!("{:?}", other),
    }
    assert!(matches!(run.step(&mut job, RunEvent::Launched), RunAction::Poll));
    assert!(matches!(run.step(&mut job, RunEvent::StillRunning), RunAction::Poll));
    let outcome = ExitOutcome::Success;
    assert!(matches!(run.step(&mut job, RunEvent::Exited { outcome }), RunAction::Drain));
    assert_eq!(job.status, JobStatus::Running);
    assert!(matches!(
        run.step(&mut job, RunEvent::OutputDrained { now: at(20) }),
        RunAction::Succeeded
    ));
    assert_eq!(job.status, JobStatus::Completed);
    assert_eq!(job.finished_at, Some(at(20)));
    assert_eq!(job.error, None);
    assert!(matches!(run.phase, RunPhase::Done));
}

#[test]
fn a_run_without_a_title() {
    let (mut run, mut job) = started();
    run.step(&mut job, RunEvent::Begin { now: at(10) });
    match run.step(&mut job, RunEvent::TitleFetched { title: None }) {
        RunAction::Launch { source, arguments } => {
            assert!(source.is_none());
            assert!(arguments.contains(&"/archives/downloaded_%(playlist_title)s.txt".to_string()));
        }
        other => panic!("{:?}", other),
    }
}

#[test]
fn a_run_that_exits_badly() {
    let (mut run, mut job) = watching();
    let outcome = ExitOutcome::Failure("exit status: 1".to_string());
    run.step(&mut job, RunEvent::Exited { outcome });
    run.step(&mut job, RunEvent::OutputDrained { now: at(20) });
    assert_eq!(job.status, JobStatus::Failed);
    assert_eq!(job.error.as_deref(), Some("yt-dlp exited with exit status: 1"));
    assert_eq!(job.finished_at, Some(at(20)));
}

#[test]
fn a_cancelled_run() {
    let (mut run, mut job) = watching();
    for (sender_gone, requested) in vec![(true, true), (false, false), (true, false)] {
        let event = RunEvent::CancelChanged { sender_gone, requested };
        assert!(matches!(run.step(&mut job, event), RunAction::Poll));
        assert!(job.logs.is_empty());
    }
    let event = RunEvent::CancelChanged { sender_gone: false, requested: true };
    assert!(matches!(run.step(&mut job, event), RunAction::Kill));
    assert_eq!(job.logs, vec!["Stopping job… sending signal to yt-dlp."]);
    assert!(matches!(run.step(&mut job, RunEvent::KillSent), RunAction::Poll));
    assert!(matches!(run.phase, RunPhase::Watching { cancel_requested: true }));
    let again = RunEvent::CancelChanged { sender_gone: false, requested: true };
    assert!(matches!(run.step(&mut job, again), RunAction::Poll));
    let outcome = ExitOutcome::Success;
    run.step(&mut job, RunEvent::Exited { outcome });
    run.step(&mut job, RunEvent::OutputDrained { now: at(30) });
    assert_eq!(job.status, JobStatus::Cancelled);
    assert_eq!(job.error.as_deref(), Some("Job cancelled by user"));
    assert_eq!(job.finished_at, Some(at(30)));
}

#[test]
fn a_run_that_cannot_be_killed() {
    let (mut run, mut job) = watching();
    run.step(&mut job, RunEvent::CancelChanged { sender_gone: false, requested: true });
    let event = RunEvent::KillFailed { error: "denied".to_string(), now: at(40) };
    assert!(matches!(run.step(&mut job, event), RunAction::Failed { error } if error == "denied"));
    assert_eq!(job.status, JobStatus::Failed);
    assert_eq!(job.finished_at, Some(at(40)));
    assert_eq!(job.error.as_deref(), Some("Failed to cancel: denied"));
    assert_eq!(job.logs[1], "Failed to stop process: denied");
}

#[test]
fn a_run_that_cannot_be_launched() {
    let (mut run, mut job) = started();
    run.step(&mut job, RunEvent::Begin { now: at(10) });
    run.step(&mut job, RunEvent::TitleFetched { title: None });
    let event = RunEvent::LaunchFailed { error: "no such file".to_string() };
    assert!(matches!(run.step(&mut job, event), RunAction::Failed { error } if error == "no such file"));
    assert_eq!(job.status, JobStatus::Failed);
    assert_eq!(job.error.as_deref(), Some("Failed to start yt-dlp: no such file"));
    assert_eq!(job.finished_at, None);
}

#[test]
fn runs_that_break_off_leave_the_job_running() {
    let (mut run, mut job) = started();
    run.step(&mut job, RunEvent::Begin { now: at(10) });
    let event = RunEvent::TitleFailed { error: "io".to_string() };
    assert!(matches!(run.step(&mut job, event), RunAction::Failed { error } if error == "io"));
    assert!(matches!(run.phase, RunPhase::Done));
    assert_eq!(job.status, JobStatus::Running);

    let (mut run, mut job) = watching();
    let event = RunEvent::PollFailed { error: "io".to_string() };
    assert!(matches!(run.step(&mut job, event), RunAction::Failed { error } if error == "io"));
    assert_eq!(job.status, JobStatus::Running);
    assert_eq!(job.finished_at, None);
}

#[test]
fn events_out_of_turn_change_nothing() {
    let (mut run, mut job) = started();
    assert!(matches!(run.step(&mut job, RunEvent::Launched), RunAction::Ignored));
    assert!(matches!(run.step(&mut job, RunEvent::KillSent), RunAction::Ignored));
    let event = RunEvent::OutputDrained { now: at(2) };
    assert!(matches!(run.step(&mut job, event), RunAction::Ignored));
    assert_eq!(job.status, JobStatus::Pending);
    assert!(matches!(run.phase, RunPhase::Starting));
}

#[test]
fn a_run_that_is_done_stays_done() {
    let (mut run, mut job) = watching();
    run.step(&mut job, RunEvent::Exited { outcome: ExitOutcome::Success });
    run.step(&mut job, RunEvent::OutputDrained { now: at(20) });
    let events = vec![
        RunEvent::Begin { now: at(50) },
        RunEvent::TitleFetched { title: None },
        RunEvent::CancelChanged { sender_gone: false, requested: true },
        RunEvent::Exited { outcome: ExitOutcome::Failure("x".to_string()) },
        RunEvent::OutputDrained { now: at(60) },
    ];
    for event in events {
        assert!(matches!(run.step(&mut job, event), RunAction::Ignored));
        assert_eq!(job.status, JobStatus::Completed);
        assert_eq!(job.finished_at, Some(at(20)));
        assert_eq!(job.started_at, at(10));
    }
}

#[test]
fn the_store_advances_its_job() {
    let config = config();
    let mut store = JobStore::new();
    let mut run = start_download_as(9, form(), &config, &mut store, at(3)).unwrap();
    assert!(store.advance(8, &mut run, RunEvent::Begin { now: at(4) }).is_none());
    assert!(matches!(run.phase, RunPhase::Starting));
    let action = store.advance(9, &mut run, RunEvent::Begin { now: at(4) });
    assert!(matches!(action, Some(RunAction::FetchTitle { .. })));
    let detail = store.fetch_job(9).unwrap();
    assert_eq!(detail.status, JobStatus::Running);
    assert_eq!(detail.started_at, at(4));
    assert_eq!(detail.id, 9);
}

#[test]
fn a_dash_is_shown_exactly_for_unfinished_jobs() {
    let config = config();
    let mut store = JobStore::new();
    let mut run = start_download_as(9, form(), &config, &mut store, at(3)).unwrap();
    start_download_as(8, form(), &config, &mut store, at(2)).unwrap();
    let events = vec![
        RunEvent::Begin { now: at(4) },
        RunEvent::TitleFetched { title: None },
        RunEvent::Launched,
        RunEvent::Exited { outcome: ExitOutcome::Success },
        RunEvent::OutputDrained { now: at(70) },
    ];
    for event in events {
        assert_eq!(store.fetch_job(9).unwrap().finished_at_display, "-");
        store.advance(9, &mut run, event);
    }
    assert_eq!(store.fetch_job(9).unwrap().finished_at_display, "1970-01-01 00:01:10");
    let list = store.gather_job_summaries();
    assert_eq!(list[0].finished_at_display, "1970-01-01 00:01:10");
    assert_eq!(list[1].finished_at_display, "-");
    assert_eq!(list[1].finished_at, None);
}
