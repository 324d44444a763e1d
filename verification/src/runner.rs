//! Running a download: how a request becomes a job, and the steps of the job from its
//! start to its end.

use vstd::prelude::*;
use vstd::string::StringExecFns;

use crate::clock::Timestamp;
use crate::command::{
    blank, build_command_preview, download_arguments, download_command, is_blank, preview_words,
    title_command, TITLE_PLACEHOLDER,
};
use crate::config::{AppConfig, DirectoryConfig, DirectoryConfigView};
use crate::error::AppError;
use crate::form::{DownloadForm, DownloadFormView};
use crate::jobs::{with_job, JobEntry, JobStatus, JobStore, JobView};
use crate::links::{random_job_id, JobId};
use crate::order::views;
use crate::paths::{sanitize_file_name, sanitized_name};
use crate::schedule::{with_run, AlbumSchedule};
use crate::sources::AlbumSource;
use crate::text::{contents, joined, optional_text, trim, trimmed};

verus! {

/// The job with the given identifier that a form asks for, refused where the form names
/// no playlist.
pub fn download_job(
    id: JobId,
    form: &DownloadForm,
    yt_dlp_path: &str,
    directories: &DirectoryConfig,
    now: Timestamp,
) -> (r: Result<JobEntry, AppError>)
    ensures
        match r {
            Ok(job) => !blank(form.playlist_url@) && job@ == JobView::pending(
                id,
                form.playlist_url@,
                joined(preview_words(form@, yt_dlp_path@, directories@), " "@),
                now,
            ),
            Err(e) => blank(form.playlist_url@) && e.rejects("Playlist URL is required"@),
        },
{
    if is_blank(form.playlist_url.as_str()) {
        return Err(AppError::invalid("Playlist URL is required"));
    }
    let command_line = build_command_preview(form, yt_dlp_path, directories);
    Ok(JobEntry::new(id, form.playlist_url.clone(), command_line, now))
}

/// The job that a form asks for.
pub open spec fn requested_job(
    id: JobId,
    form: DownloadFormView,
    config: AppConfig,
    now: Timestamp,
) -> JobView {
    JobView::pending(
        id,
        form.playlist_url,
        joined(preview_words(form, config.paths.yt_dlp_path@, config.directories@), " "@),
        now,
    )
}

/// Adds the job with the given identifier that a form asks for, and gives the run that
/// carries it out. A form that names no playlist is refused and changes nothing.
pub fn start_download_as(
    id: JobId,
    form: DownloadForm,
    config: &AppConfig,
    store: &mut JobStore,
    now: Timestamp,
) -> (r: Result<DownloadRun, AppError>)
    ensures
        match r {
            Ok(run) => {
                &&& !blank(form.playlist_url@)
                &&& run.form == form
                &&& run.directories == config.directories
                &&& run.phase is Starting
                &&& final(store)@.jobs == with_job(
                    old(store)@.jobs,
                    requested_job(id, form@, *config, now),
                )
                &&& final(store)@.active == old(store)@.active.insert(id)
            },
            Err(e) => {
                &&& blank(form.playlist_url@)
                &&& e.rejects("Playlist URL is required"@)
                &&& final(store)@ == old(store)@
            },
        },
{
    let job = download_job(
        id,
        &form,
        config.paths.yt_dlp_path.as_str(),
        &config.directories,
        now,
    )?;
    store.register(job);
    Ok(DownloadRun::new(form, config.directories.clone()))
}

/// Adds the job that a form asks for under a new random identifier, and gives that
/// identifier with the run that carries the job out.
pub fn start_download(
    form: DownloadForm,
    config: &AppConfig,
    store: &mut JobStore,
    now: Timestamp,
) -> (r: Result<(JobId, DownloadRun), AppError>)
    ensures
        match r {
            Ok((id, run)) => {
                &&& !blank(form.playlist_url@)
                &&& (id >> 76) & 0xf == 4
                &&& (id >> 62) & 0x3 == 2
                &&& run.form == form
                &&& run.directories == config.directories
                &&& run.phase is Starting
                &&& final(store)@.jobs == with_job(
                    old(store)@.jobs,
                    requested_job(id, form@, *config, now),
                )
                &&& final(store)@.active == old(store)@.active.insert(id)
            },
            Err(e) => {
                &&& blank(form.playlist_url@)
                &&& e.rejects("Playlist URL is required"@)
                &&& final(store)@ == old(store)@
            },
        },
{
    let id = random_job_id();
    let run = start_download_as(id, form, config, store, now)?;
    Ok((id, run))
}

/// Starts the download that a schedule asks for and records the run of the schedule.
/// Where the download cannot be started no run is recorded.
pub fn start_scheduled(
    schedule: &AlbumSchedule,
    config: &mut AppConfig,
    store: &mut JobStore,
    now: Timestamp,
) -> (r: Result<(JobId, DownloadRun), AppError>)
    ensures
        final(config).paths == old(config).paths,
        final(config).directories == old(config).directories,
        final(config).album_sources == old(config).album_sources,
        match r {
            Ok((id, run)) => {
                let form = schedule@.download_form();
                &&& !blank(schedule.playlist_url@)
                &&& (id >> 76) & 0xf == 4
                &&& (id >> 62) & 0x3 == 2
                &&& run.form@ == form
                &&& run.directories == old(config).directories
                &&& run.phase is Starting
                &&& final(store)@.jobs == with_job(
                    old(store)@.jobs,
                    requested_job(id, form, *old(config), now),
                )
                &&& final(store)@.active == old(store)@.active.insert(id)
                &&& views(final(config).album_schedules@) == with_run(
                    views(old(config).album_schedules@),
                    schedule.album@,
                    now.secs(),
                )
            },
            Err(e) => {
                &&& blank(schedule.playlist_url@)
                &&& e.rejects("Playlist URL is required"@)
                &&& final(store)@ == old(store)@
                &&& final(config).album_schedules == old(config).album_schedules
            },
        },
{
    let form = schedule.scheduled_form();
    let started = start_download(form, config, store, now)?;
    config.mark_schedule_run(schedule.album.as_str(), now);
    Ok(started)
}

/// How `yt-dlp` ended: well, or with a status that is told in words.
#[derive(Debug)]
pub enum ExitOutcome {
    Success,
    Failure(String),
}

/// How far a run has come.
#[derive(Debug)]
pub enum RunPhase {
    /// Not begun.
    Starting,
    /// The title of the playlist is being asked for.
    FetchingTitle,
    /// The download is being launched.
    Launching,
    /// The download is running.
    Watching { cancel_requested: bool },
    /// The download is being killed.
    Killing,
    /// The download has ended; the rest of its output is being read.
    Draining { cancel_requested: bool, outcome: ExitOutcome },
    /// Nothing is left to do.
    Done,
}

/// What happened to a run.
#[derive(Debug)]
pub enum RunEvent {
    /// The run begins.
    Begin { now: Timestamp },
    /// The title command ended and this is the title it gave.
    TitleFetched { title: Option<String> },
    /// The title command could not be run.
    TitleFailed { error: String },
    /// The download was launched.
    Launched,
    /// The download could not be launched.
    LaunchFailed { error: String },
    /// The download is still running.
    StillRunning,
    /// Asking whether the download is still running failed.
    PollFailed { error: String },
    /// The cancel signal changed, or its sender is gone.
    CancelChanged { sender_gone: bool, requested: bool },
    /// The download was sent the signal to stop.
    KillSent,
    /// The download could not be sent the signal to stop.
    KillFailed { error: String, now: Timestamp },
    /// The download ended.
    Exited { outcome: ExitOutcome },
    /// All output was read.
    OutputDrained { now: Timestamp },
}

/// What a run wants done next.
#[derive(Debug)]
pub enum RunAction {
    /// Run `yt-dlp` with these arguments and report the title.
    FetchTitle { arguments: Vec<String> },
    /// Record where the album comes from, if known, then launch `yt-dlp` with these
    /// arguments.
    Launch { source: Option<AlbumSource>, arguments: Vec<String> },
    /// Wait for the download to end, the cancel signal to change, or a moment to pass.
    Poll,
    /// Send the download the signal to stop.
    Kill,
    /// Read the rest of the output.
    Drain,
    /// Nothing: the run came to its end.
    Succeeded,
    /// Nothing: the run broke off because of an I/O error.
    Failed { error: String },
    /// Nothing: the event was out of turn.
    Ignored,
}

/// The contents of an action.
#[verifier::ext_equal]
pub enum RunActionView {
    FetchTitle { arguments: Seq<Seq<char>> },
    Launch { source: Option<(Seq<char>, Seq<char>)>, arguments: Seq<Seq<char>> },
    Poll,
    Kill,
    Drain,
    Succeeded,
    Failed { error: Seq<char> },
    Ignored,
}

/// The contents of an optional album source.
pub open spec fn source_view(source: Option<AlbumSource>) -> Option<(Seq<char>, Seq<char>)> {
    match source {
        Some(s) => Some((s.album@, s.playlist_url@)),
        None => None,
    }
}

impl View for RunAction {
    type V = RunActionView;

    open spec fn view(&self) -> RunActionView {
        match *self {
            RunAction::FetchTitle { arguments } => RunActionView::FetchTitle {
                arguments: contents(arguments@),
            },
            RunAction::Launch { source, arguments } => RunActionView::Launch {
                source: source_view(source),
                arguments: contents(arguments@),
            },
            RunAction::Poll => RunActionView::Poll,
            RunAction::Kill => RunActionView::Kill,
            RunAction::Drain => RunActionView::Drain,
            RunAction::Succeeded => RunActionView::Succeeded,
            RunAction::Failed { error } => RunActionView::Failed { error: error@ },
            RunAction::Ignored => RunActionView::Ignored,
        }
    }
}

/// The phase that follows an event. An event out of turn changes nothing.
pub open spec fn phase_after(phase: RunPhase, event: RunEvent) -> RunPhase {
    match (phase, event) {
        (RunPhase::Starting, RunEvent::Begin { .. }) => RunPhase::FetchingTitle,
        (RunPhase::FetchingTitle, RunEvent::TitleFetched { .. }) => RunPhase::Launching,
        (RunPhase::FetchingTitle, RunEvent::TitleFailed { .. }) => RunPhase::Done,
        (RunPhase::Launching, RunEvent::Launched) => RunPhase::Watching { cancel_requested: false },
        (RunPhase::Launching, RunEvent::LaunchFailed { .. }) => RunPhase::Done,
        (RunPhase::Watching { .. }, RunEvent::PollFailed { .. }) => RunPhase::Done,
        (
            RunPhase::Watching { cancel_requested },
            RunEvent::CancelChanged { sender_gone, requested },
        ) => if !cancel_requested && !sender_gone && requested {
            RunPhase::Killing
        } else {
            phase
        },
        (RunPhase::Watching { cancel_requested }, RunEvent::Exited { outcome }) => {
            RunPhase::Draining { cancel_requested, outcome }
        },
        (RunPhase::Killing, RunEvent::KillSent) => RunPhase::Watching { cancel_requested: true },
        (RunPhase::Killing, RunEvent::KillFailed { .. }) => RunPhase::Done,
        (RunPhase::Draining { .. }, RunEvent::OutputDrained { .. }) => RunPhase::Done,
        _ => phase,
    }
}

/// How a job ends: cancelled if that was asked for, else as `yt-dlp` did.
pub open spec fn job_finished(
    job: JobView,
    cancel_requested: bool,
    outcome: ExitOutcome,
    now: Timestamp,
) -> JobView {
    if cancel_requested {
        JobView {
            finished_at: Some(now),
            status: JobStatus::Cancelled,
            error: Some("Job cancelled by user"@),
            ..job
        }
    } else {
        match outcome {
            ExitOutcome::Success => JobView {
                finished_at: Some(now),
                status: JobStatus::Completed,
                ..job
            },
            ExitOutcome::Failure(status) => JobView {
                finished_at: Some(now),
                status: JobStatus::Failed,
                error: Some("yt-dlp exited with "@ + status@),
                ..job
            },
        }
    }
}

/// The job after an event.
pub open spec fn job_after(phase: RunPhase, job: JobView, event: RunEvent) -> JobView {
    match (phase, event) {
        (RunPhase::Starting, RunEvent::Begin { now }) => JobView {
            status: JobStatus::Running,
            started_at: now,
            ..job
        },
        (RunPhase::Launching, RunEvent::LaunchFailed { error }) => JobView {
            status: JobStatus::Failed,
            error: Some("Failed to start yt-dlp: "@ + error@),
            ..job
        },
        (
            RunPhase::Watching { cancel_requested },
            RunEvent::CancelChanged { sender_gone, requested },
        ) => if !cancel_requested && !sender_gone && requested {
            job.logged("Stopping job\u{2026} sending signal to yt-dlp."@)
        } else {
            job
        },
        (RunPhase::Killing, RunEvent::KillFailed { error, now }) => JobView {
            status: JobStatus::Failed,
            finished_at: Some(now),
            error: Some("Failed to cancel: "@ + error@),
            ..job.logged("Failed to stop process: "@ + error@)
        },
        (
            RunPhase::Draining { cancel_requested, outcome },
            RunEvent::OutputDrained { now },
        ) => job_finished(job, cancel_requested, outcome, now),
        _ => job,
    }
}

/// Where an album comes from: the playlist, under its title made safe as a file name.
pub open spec fn source_of(form: DownloadFormView, title: Option<Seq<char>>) -> Option<
    (Seq<char>, Seq<char>),
> {
    match title {
        Some(t) => Some((sanitized_name(trimmed(t)), form.playlist_url)),
        None => None,
    }
}

/// What a run wants done after an event.
pub open spec fn action_after(
    form: DownloadFormView,
    directories: DirectoryConfigView,
    phase: RunPhase,
    event: RunEvent,
) -> RunActionView {
    match (phase, event) {
        (RunPhase::Starting, RunEvent::Begin { .. }) => RunActionView::FetchTitle {
            arguments: seq![
                "--print"@,
                TITLE_PLACEHOLDER@,
                "--playlist-items"@,
                "1"@,
                form.playlist_url,
            ],
        },
        (RunPhase::FetchingTitle, RunEvent::TitleFetched { title }) => RunActionView::Launch {
            source: source_of(form, optional_text(title)),
            arguments: download_arguments(form, directories, optional_text(title)),
        },
        (RunPhase::FetchingTitle, RunEvent::TitleFailed { error }) => RunActionView::Failed {
            error: error@,
        },
        (RunPhase::Launching, RunEvent::Launched) => RunActionView::Poll,
        (RunPhase::Launching, RunEvent::LaunchFailed { error }) => RunActionView::Failed {
            error: error@,
        },
        (RunPhase::Watching { .. }, RunEvent::StillRunning) => RunActionView::Poll,
        (RunPhase::Watching { .. }, RunEvent::PollFailed { error }) => RunActionView::Failed {
            error: error@,
        },
        (
            RunPhase::Watching { cancel_requested },
            RunEvent::CancelChanged { sender_gone, requested },
        ) => if !cancel_requested && !sender_gone && requested {
            RunActionView::Kill
        } else {
            RunActionView::Poll
        },
        (RunPhase::Watching { .. }, RunEvent::Exited { .. }) => RunActionView::Drain,
        (RunPhase::Killing, RunEvent::KillSent) => RunActionView::Poll,
        (RunPhase::Killing, RunEvent::KillFailed { error, .. }) => RunActionView::Failed {
            error: error@,
        },
        (RunPhase::Draining { .. }, RunEvent::OutputDrained { .. }) => RunActionView::Succeeded,
        _ => RunActionView::Ignored,
    }
}

/// A run of `yt-dlp` for a job.
#[derive(Debug)]
pub struct DownloadRun {
    pub form: DownloadForm,
    pub directories: DirectoryConfig,
    pub phase: RunPhase,
}

impl DownloadRun {
    /// A run that has not begun.
    pub fn new(form: DownloadForm, directories: DirectoryConfig) -> (r: DownloadRun)
        ensures
            r.form == form,
            r.directories == directories,
            r.phase is Starting,
    {
        DownloadRun { form, directories, phase: RunPhase::Starting }
    }

    /// Takes note of an event, in the run and in its job, and says what to do next.
    pub fn step(&mut self, job: &mut JobEntry, event: RunEvent) -> (r: RunAction)
        ensures
            final(self).form == old(self).form,
            final(self).directories == old(self).directories,
            final(self).phase == phase_after(old(self).phase, event),
            final(job)@ == job_after(old(self).phase, old(job)@, event),
            r@ == action_after(old(self).form@, old(self).directories@, old(self).phase, event),
    {
        match event {
            RunEvent::Begin { now } => match &self.phase {
                RunPhase::Starting => {
                    job.status = JobStatus::Running;
                    job.started_at = now;
                    self.phase = RunPhase::FetchingTitle;
                    RunAction::FetchTitle {
                        arguments: title_command(self.form.playlist_url.as_str()),
                    }
                },
                _ => RunAction::Ignored,
            },
            RunEvent::TitleFetched { title } => match &self.phase {
                RunPhase::FetchingTitle => {
                    self.phase = RunPhase::Launching;
                    self.launch(title)
                },
                _ => RunAction::Ignored,
            },
            RunEvent::TitleFailed { error } => match &self.phase {
                RunPhase::FetchingTitle => {
                    self.phase = RunPhase::Done;
                    RunAction::Failed { error }
                },
                _ => RunAction::Ignored,
            },
            RunEvent::Launched => match &self.phase {
                RunPhase::Launching => {
                    self.phase = RunPhase::Watching { cancel_requested: false };
                    RunAction::Poll
                },
                _ => RunAction::Ignored,
            },
            RunEvent::LaunchFailed { error } => match &self.phase {
                RunPhase::Launching => {
                    self.phase = RunPhase::Done;
                    job.status = JobStatus::Failed;
                    job.error = Some(
                        "Failed to start yt-dlp: ".to_string().concat(error.as_str()),
                    );
                    RunAction::Failed { error }
                },
                _ => RunAction::Ignored,
            },
            RunEvent::StillRunning => match &self.phase {
                RunPhase::Watching { .. } => RunAction::Poll,
                _ => RunAction::Ignored,
            },
            RunEvent::PollFailed { error } => match &self.phase {
                RunPhase::Watching { .. } => {
                    self.phase = RunPhase::Done;
                    RunAction::Failed { error }
                },
                _ => RunAction::Ignored,
            },
            RunEvent::CancelChanged { sender_gone, requested } => match &self.phase {
                RunPhase::Watching { cancel_requested } => if !*cancel_requested && !sender_gone
                    && requested {
                    self.phase = RunPhase::Killing;
                    job.push_line("Stopping job\u{2026} sending signal to yt-dlp.");
                    RunAction::Kill
                } else {
                    RunAction::Poll
                },
                _ => RunAction::Ignored,
            },
            RunEvent::KillSent => match &self.phase {
                RunPhase::Killing => {
                    self.phase = RunPhase::Watching { cancel_requested: true };
                    RunAction::Poll
                },
                _ => RunAction::Ignored,
            },
            RunEvent::KillFailed { error, now } => match &self.phase {
                RunPhase::Killing => {
                    self.phase = RunPhase::Done;
                    let line = "Failed to stop process: ".to_string().concat(error.as_str());
                    job.push_line(line.as_str());
                    job.status = JobStatus::Failed;
                    job.finished_at = Some(now);
                    job.error = Some("Failed to cancel: ".to_string().concat(error.as_str()));
                    RunAction::Failed { error }
                },
                _ => RunAction::Ignored,
            },
            RunEvent::Exited { outcome } => match &self.phase {
                RunPhase::Watching { cancel_requested } => {
                    let cancel_requested = *cancel_requested;
                    self.phase = RunPhase::Draining { cancel_requested, outcome };
                    RunAction::Drain
                },
                _ => RunAction::Ignored,
            },
            RunEvent::OutputDrained { now } => match &self.phase {
                RunPhase::Draining { cancel_requested, outcome } => {
                    finish_job(job, *cancel_requested, outcome, now);
                    self.phase = RunPhase::Done;
                    RunAction::Succeeded
                },
                _ => RunAction::Ignored,
            },
        }
    }

    /// The launch that a title leads to.
    fn launch(&self, title: Option<String>) -> (r: RunAction)
        ensures
            r@ == (RunActionView::Launch {
                source: source_of(self.form@, optional_text(title)),
                arguments: download_arguments(self.form@, self.directories@, optional_text(title)),
            }),
    {
        match title {
            Some(title) => RunAction::Launch {
                source: Some(
                    AlbumSource {
                        album: sanitize_file_name(trim(title.as_str())),
                        playlist_url: self.form.playlist_url.clone(),
                    },
                ),
                arguments: download_command(&self.form, &self.directories, Some(title.as_str())),
            },
            None => RunAction::Launch {
                source: None,
                arguments: download_command(&self.form, &self.directories, None),
            },
        }
    }
}

/// Ends a job.
fn finish_job(job: &mut JobEntry, cancel_requested: bool, outcome: &ExitOutcome, now: Timestamp)
    ensures
        final(job)@ == job_finished(old(job)@, cancel_requested, *outcome, now),
{
    job.finished_at = Some(now);
    if cancel_requested {
        job.status = JobStatus::Cancelled;
        job.error = Some("Job cancelled by user".to_string());
    } else {
        match outcome {
            ExitOutcome::Success => {
                job.status = JobStatus::Completed;
            },
            ExitOutcome::Failure(status) => {
                job.status = JobStatus::Failed;
                job.error = Some("yt-dlp exited with ".to_string().concat(status.as_str()));
            },
        }
    }
}

/// The phase and the job after a series of events.
pub open spec fn run_over(phase: RunPhase, job: JobView, events: Seq<RunEvent>) -> (
    RunPhase,
    JobView,
)
    decreases events.len(),
{
    if events.len() == 0 {
        (phase, job)
    } else {
        let (before, so_far) = run_over(phase, job, events.drop_last());
        (phase_after(before, events.last()), job_after(before, so_far, events.last()))
    }
}

/// Whether a job says what is true of its run: it is pending before the run begins and
/// running until it is done, and the way it ended fits its end time and its error. A run
/// that broke off on an I/O error before its end leaves the job running.
pub open spec fn consistent(phase: RunPhase, job: JobView) -> bool {
    match phase {
        RunPhase::Starting => {
            &&& job.status == JobStatus::Pending
            &&& job.finished_at is None
            &&& job.error is None
        },
        RunPhase::Done => match job.status {
            JobStatus::Pending => false,
            JobStatus::Running => job.finished_at is None && job.error is None,
            JobStatus::Completed => job.finished_at is Some && job.error is None,
            JobStatus::Failed => job.error is Some,
            JobStatus::Cancelled => job.finished_at is Some && job.error == Some(
                "Job cancelled by user"@,
            ),
        },
        _ => {
            &&& job.status == JobStatus::Running
            &&& job.finished_at is None
            &&& job.error is None
        },
    }
}

/// Whatever happens, in whatever order, to the run of a new job: the job says what is true
/// of its run, and keeps its identifier, its playlist and its command line.
pub proof fn law_job_fits_its_run(
    id: JobId,
    playlist_url: Seq<char>,
    command_line: Seq<char>,
    now: Timestamp,
    events: Seq<RunEvent>,
)
    ensures
        ({
            let (phase, job) = run_over(
                RunPhase::Starting,
                JobView::pending(id, playlist_url, command_line, now),
                events,
            );
            &&& consistent(phase, job)
            &&& job.id == id
            &&& job.playlist_url == playlist_url
            &&& job.command_line == command_line
        }),
    decreases events.len(),
{
    if events.len() > 0 {
        law_job_fits_its_run(id, playlist_url, command_line, now, events.drop_last());
    }
}

/// A run that is done stays done, and its job as it is.
pub proof fn law_end_is_final(job: JobView, events: Seq<RunEvent>)
    ensures
        run_over(RunPhase::Done, job, events) == (RunPhase::Done, job),
    decreases events.len(),
{
    if events.len() > 0 {
        law_end_is_final(job, events.drop_last());
    }
}

/// Whether a request to cancel the run was accepted.
pub open spec fn cancelling(phase: RunPhase) -> bool {
    match phase {
        RunPhase::Killing => true,
        RunPhase::Watching { cancel_requested } => cancel_requested,
        RunPhase::Draining { cancel_requested, .. } => cancel_requested,
        _ => false,
    }
}

/// Once a request to cancel was accepted the job does not end as completed: whatever
/// follows, the request stands until the run is done, and the job is then cancelled,
/// failed, or left running by an I/O error.
pub proof fn law_cancelled_job_never_completes(
    phase: RunPhase,
    job: JobView,
    events: Seq<RunEvent>,
)
    requires
        cancelling(phase),
        consistent(phase, job),
    ensures
        ({
            let (last, ended) = run_over(phase, job, events);
            &&& cancelling(last) || last is Done
            &&& ended.status != JobStatus::Completed
            &&& cancelling(last) ==> ended.status == JobStatus::Running
        }),
    decreases events.len(),
{
    if events.len() > 0 {
        law_cancelled_job_never_completes(phase, job, events.drop_last());
    }
}

/// The end of a run that was not broken off: cancelled exactly if that was asked for, and
/// otherwise completed exactly if `yt-dlp` ended well.
pub proof fn law_end_fits_outcome(
    job: JobView,
    cancel_requested: bool,
    outcome: ExitOutcome,
    now: Timestamp,
)
    ensures
        ({
            let phase = RunPhase::Draining { cancel_requested, outcome };
            let ended = job_after(phase, job, RunEvent::OutputDrained { now });
            &&& ended.status == JobStatus::Cancelled <==> cancel_requested
            &&& ended.status == JobStatus::Completed <==> !cancel_requested && outcome is Success
            &&& ended.status == JobStatus::Failed <==> !cancel_requested && outcome is Failure
            &&& ended.finished_at == Some(now)
        }),
{
}

/// How a download that ran to its end is reported.
///
/// From the exit of `yt-dlp` and the end of its output together, for every way to exit: the
/// job is completed exactly if no cancel was asked for and `yt-dlp` ended well, failed exactly
/// if none was asked for and it did not, and cancelled exactly if that was asked for. A failed
/// job tells the status that was reported. Until the output has ended nothing is reported.
pub proof fn law_exit_decides_how_a_job_ends(
    job: JobView,
    cancel_requested: bool,
    outcome: ExitOutcome,
    now: Timestamp,
)
    ensures
        ({
            let watching = RunPhase::Watching { cancel_requested };
            let exited = RunEvent::Exited { outcome };
            let drained = RunEvent::OutputDrained { now };
            let draining = phase_after(watching, exited);
            let waiting = job_after(watching, job, exited);
            let ended = job_after(draining, waiting, drained);
            &&& waiting == job
            &&& phase_after(draining, drained) is Done
            &&& ended.status == JobStatus::Completed <==> !cancel_requested && outcome is Success
            &&& ended.status == JobStatus::Failed <==> !cancel_requested && outcome is Failure
            &&& ended.status == JobStatus::Cancelled <==> cancel_requested
            &&& !cancel_requested ==> (outcome matches ExitOutcome::Failure(status) ==> ended.error
                == Some("yt-dlp exited with "@ + status@))
            &&& !cancel_requested && outcome is Success ==> ended.error == job.error
            &&& cancel_requested ==> ended.error == Some("Job cancelled by user"@)
            &&& ended.finished_at == Some(now)
            &&& ended.id == job.id
            &&& ended.playlist_url == job.playlist_url
            &&& ended.command_line == job.command_line
            &&& ended.started_at == job.started_at
            &&& ended.logs == job.logs
        }),
{
}

/// How a run starts: whatever title is found, or none, the job is running from the time the
/// run began, the download is launched and then watched, and nothing else of the job changes.
pub proof fn law_start_of_a_run(job: JobView, began: Timestamp, title: Option<String>)
    ensures
        ({
            let begin = RunEvent::Begin { now: began };
            let fetched = RunEvent::TitleFetched { title };
            let fetching = phase_after(RunPhase::Starting, begin);
            let launching = phase_after(fetching, fetched);
            let watching = phase_after(launching, RunEvent::Launched);
            let running = job_after(RunPhase::Starting, job, begin);
            &&& running.status == JobStatus::Running
            &&& running.started_at == began
            &&& running.id == job.id
            &&& running.playlist_url == job.playlist_url
            &&& running.command_line == job.command_line
            &&& running.finished_at == job.finished_at
            &&& running.logs == job.logs
            &&& running.error == job.error
            &&& job_after(fetching, running, fetched) == running
            &&& job_after(launching, running, RunEvent::Launched) == running
            &&& watching == RunPhase::Watching { cancel_requested: false }
        }),
{
}

/// While the download runs, being asked for changes neither the run nor its job, and another
/// look is taken.
pub proof fn law_waiting_changes_nothing(
    form: DownloadFormView,
    directories: DirectoryConfigView,
    job: JobView,
    cancel_requested: bool,
)
    ensures
        ({
            let watching = RunPhase::Watching { cancel_requested };
            &&& phase_after(watching, RunEvent::StillRunning) == watching
            &&& job_after(watching, job, RunEvent::StillRunning) == job
            &&& action_after(form, directories, watching, RunEvent::StillRunning)
                == RunActionView::Poll
        }),
{
}

/// How a cancel signal is taken: it counts exactly if its sender is there, it asks for the
/// cancel, and none was asked for before. Then the request is noted in the log and the
/// download is killed, and once the kill was sent the request stands. Otherwise nothing
/// changes and another look is taken.
pub proof fn law_cancel_signal(
    form: DownloadFormView,
    directories: DirectoryConfigView,
    job: JobView,
    cancel_requested: bool,
    sender_gone: bool,
    requested: bool,
)
    ensures
        ({
            let watching = RunPhase::Watching { cancel_requested };
            let signal = RunEvent::CancelChanged { sender_gone, requested };
            let phase = phase_after(watching, signal);
            let after = job_after(watching, job, signal);
            let action = action_after(form, directories, watching, signal);
            if requested && !sender_gone && !cancel_requested {
                &&& action == RunActionView::Kill
                &&& after == job.logged("Stopping job\u{2026} sending signal to yt-dlp."@)
                &&& phase_after(phase, RunEvent::KillSent) == RunPhase::Watching {
                    cancel_requested: true,
                }
                &&& job_after(phase, after, RunEvent::KillSent) == after
                &&& action_after(form, directories, phase, RunEvent::KillSent)
                    == RunActionView::Poll
            } else {
                phase == watching && after == job && action == RunActionView::Poll
            }
        }),
{
}

/// What an error does to a run: the run is done and the error is passed on. A download that
/// could not be launched, or could not be killed, fails its job with the error in words; any
/// other error leaves the job as it is.
pub proof fn law_errors_break_a_run_off(
    form: DownloadFormView,
    directories: DirectoryConfigView,
    job: JobView,
    cancel_requested: bool,
    error: String,
    now: Timestamp,
)
    ensures
        ({
            let event = RunEvent::TitleFailed { error };
            let phase = RunPhase::FetchingTitle;
            &&& phase_after(phase, event) is Done
            &&& job_after(phase, job, event) == job
            &&& action_after(form, directories, phase, event) == RunActionView::Failed {
                error: error@,
            }
        }),
        ({
            let event = RunEvent::PollFailed { error };
            let phase = RunPhase::Watching { cancel_requested };
            &&& phase_after(phase, event) is Done
            &&& job_after(phase, job, event) == job
            &&& action_after(form, directories, phase, event) == RunActionView::Failed {
                error: error@,
            }
        }),
        ({
            let event = RunEvent::LaunchFailed { error };
            let phase = RunPhase::Launching;
            let after = job_after(phase, job, event);
            &&& phase_after(phase, event) is Done
            &&& action_after(form, directories, phase, event) == RunActionView::Failed {
                error: error@,
            }
            &&& after.status == JobStatus::Failed
            &&& after.error == Some("Failed to start yt-dlp: "@ + error@)
            &&& after.finished_at == job.finished_at
            &&& after.id == job.id
            &&& after.playlist_url == job.playlist_url
            &&& after.command_line == job.command_line
            &&& after.started_at == job.started_at
            &&& after.logs == job.logs
        }),
        ({
            let event = RunEvent::KillFailed { error, now };
            let phase = RunPhase::Killing;
            let after = job_after(phase, job, event);
            &&& phase_after(phase, event) is Done
            &&& action_after(form, directories, phase, event) == RunActionView::Failed {
                error: error@,
            }
            &&& after.status == JobStatus::Failed
            &&& after.error == Some("Failed to cancel: "@ + error@)
            &&& after.finished_at == Some(now)
            &&& after.logs == job.logged("Failed to stop process: "@ + error@).logs
            &&& after.id == job.id
            &&& after.playlist_url == job.playlist_url
            &&& after.command_line == job.command_line
            &&& after.started_at == job.started_at
        }),
{
}

/// An event out of turn changes neither the run nor its job, and nothing is to be done: each
/// event is in turn in one phase only.
pub proof fn law_events_out_of_turn(
    form: DownloadFormView,
    directories: DirectoryConfigView,
    phase: RunPhase,
    job: JobView,
    event: RunEvent,
)
    requires
        match event {
            RunEvent::Begin { .. } => !(phase is Starting),
            RunEvent::TitleFetched { .. } | RunEvent::TitleFailed { .. } => !(
            phase is FetchingTitle),
            RunEvent::Launched | RunEvent::LaunchFailed { .. } => !(phase is Launching),
            RunEvent::StillRunning | RunEvent::PollFailed { .. } | RunEvent::CancelChanged { .. }
            | RunEvent::Exited { .. } => !(phase is Watching),
            RunEvent::KillSent | RunEvent::KillFailed { .. } => !(phase is Killing),
            RunEvent::OutputDrained { .. } => !(phase is Draining),
        },
    ensures
        phase_after(phase, event) == phase,
        job_after(phase, job, event) == job,
        action_after(form, directories, phase, event) == RunActionView::Ignored,
{
}

/// What is to be done fits the phase that the run has come to, and a download is launched with
/// the command for the title that was found, with the playlist recorded under that title,
/// trimmed and sanitized.
pub proof fn law_actions_fit_the_phase(
    form: DownloadFormView,
    directories: DirectoryConfigView,
    began: Timestamp,
    title: Option<String>,
    cancel_requested: bool,
    outcome: ExitOutcome,
    now: Timestamp,
)
    ensures
        action_after(form, directories, RunPhase::Starting, RunEvent::Begin { now: began })
            == (RunActionView::FetchTitle {
            arguments: seq![
                "--print"@,
                "%(playlist_title)s"@,
                "--playlist-items"@,
                "1"@,
                form.playlist_url,
            ],
        }),
        ({
            let fetched = RunEvent::TitleFetched { title };
            match action_after(form, directories, RunPhase::FetchingTitle, fetched) {
                RunActionView::Launch { source, arguments } => {
                    &&& arguments == download_arguments(form, directories, optional_text(title))
                    &&& source is Some <==> title is Some
                    &&& title matches Some(t) ==> source == Some(
                        (sanitized_name(trimmed(t@)), form.playlist_url),
                    )
                },
                _ => false,
            }
        }),
        action_after(form, directories, RunPhase::Launching, RunEvent::Launched)
            == RunActionView::Poll,
        action_after(
            form,
            directories,
            RunPhase::Watching { cancel_requested },
            RunEvent::Exited { outcome },
        ) == RunActionView::Drain,
        action_after(
            form,
            directories,
            RunPhase::Draining { cancel_requested, outcome },
            RunEvent::OutputDrained { now },
        ) == RunActionView::Succeeded,
{
}

/// The events of a run happen one after the other.
pub proof fn law_events_one_by_one(
    phase: RunPhase,
    job: JobView,
    events: Seq<RunEvent>,
    event: RunEvent,
)
    ensures
        run_over(phase, job, Seq::empty()) == (phase, job),
        ({
            let (before, so_far) = run_over(phase, job, events);
            run_over(phase, job, events.push(event)) == (
                phase_after(before, event),
                job_after(before, so_far, event),
            )
        }),
{
    assert(events.push(event).drop_last() == events);
}

/// The job that a form asks for is a new one for the playlist of the form, with the preview of
/// the command as its command line.
pub proof fn law_requested_job(
    id: JobId,
    form: DownloadFormView,
    config: AppConfig,
    now: Timestamp,
)
    ensures
        ({
            let job = requested_job(id, form, config, now);
            &&& job.id == id
            &&& job.playlist_url == form.playlist_url
            &&& job.command_line == joined(
                preview_words(form, config.paths.yt_dlp_path@, config.directories@),
                " "@,
            )
            &&& job.started_at == now
            &&& job.finished_at is None
            &&& job.status == JobStatus::Pending
            &&& job.logs.len() == 0
            &&& job.error is None
        }),
{
}

/// The contents of an action are those of its fields.
pub proof fn law_contents_of_an_action(
    arguments: Vec<String>,
    source: Option<AlbumSource>,
    error: String,
)
    ensures
        (RunAction::FetchTitle { arguments })@ == (RunActionView::FetchTitle {
            arguments: contents(arguments@),
        }),
        match (RunAction::Launch { source, arguments })@ {
            RunActionView::Launch { source: shown, arguments: words } => {
                &&& words == contents(arguments@)
                &&& source is Some <==> shown is Some
                &&& source matches Some(from) ==> shown == Some(
                    (from.album@, from.playlist_url@),
                )
            },
            _ => false,
        },
        (RunAction::Failed { error })@ == (RunActionView::Failed { error: error@ }),
        RunAction::Poll@ == RunActionView::Poll,
        RunAction::Kill@ == RunActionView::Kill,
        RunAction::Drain@ == RunActionView::Drain,
        RunAction::Succeeded@ == RunActionView::Succeeded,
        RunAction::Ignored@ == RunActionView::Ignored,
{
}

} // verus!
