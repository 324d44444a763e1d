//! Download jobs: what a job holds, its log, and the store of all jobs.

use vstd::prelude::*;
use vstd::string::StringExecFns;

use crate::clock::{
    format_optional_timestamp, format_timestamp, optional_timestamp_text, timestamp_text,
    utc_format, Timestamp,
};
use crate::error::AppError;
use crate::links::JobId;
use crate::order::{
    comes_before, lemma_every_index_listed, lists_indices, sort_stable, sorted_by_places,
    stably_sorted, views, Ranked,
};
use crate::runner::{
    action_after, job_after, phase_after, DownloadRun, RunAction, RunEvent, RunPhase,
};
use crate::text::{chomp, chomped, contents, join, joined, optional_text};

verus! {

/// How many lines of output a job keeps.
pub const MAX_LINES: usize = 4000;

/// How far a job has come.
#[derive(Debug, Clone, Copy, PartialEq, Eq, Structural)]
pub enum JobStatus {
    Pending,
    Running,
    Completed,
    Failed,
    Cancelled,
}

impl JobStatus {
    /// The name of the status.
    pub open spec fn name(self) -> Seq<char> {
        match self {
            JobStatus::Pending => "pending"@,
            JobStatus::Running => "running"@,
            JobStatus::Completed => "completed"@,
            JobStatus::Failed => "failed"@,
            JobStatus::Cancelled => "cancelled"@,
        }
    }

    /// The name of the status.
    pub fn as_str(&self) -> (r: &'static str)
        ensures
            r@ == self.name(),
    {
        match self {
            JobStatus::Pending => "pending",
            JobStatus::Running => "running",
            JobStatus::Completed => "completed",
            JobStatus::Failed => "failed",
            JobStatus::Cancelled => "cancelled",
        }
    }
}

/// A download job.
#[derive(Debug)]
pub struct JobEntry {
    pub id: JobId,
    pub playlist_url: String,
    pub command_line: String,
    pub started_at: Timestamp,
    pub finished_at: Option<Timestamp>,
    pub status: JobStatus,
    pub logs: Vec<String>,
    pub error: Option<String>,
}

/// The contents of a job.
#[verifier::ext_equal]
pub struct JobView {
    pub id: JobId,
    pub playlist_url: Seq<char>,
    pub command_line: Seq<char>,
    pub started_at: Timestamp,
    pub finished_at: Option<Timestamp>,
    pub status: JobStatus,
    pub logs: Seq<Seq<char>>,
    pub error: Option<Seq<char>>,
}

impl View for JobEntry {
    type V = JobView;

    open spec fn view(&self) -> JobView {
        JobView {
            id: self.id,
            playlist_url: self.playlist_url@,
            command_line: self.command_line@,
            started_at: self.started_at,
            finished_at: self.finished_at,
            status: self.status,
            logs: contents(self.logs@),
            error: optional_text(self.error),
        }
    }
}

/// The last lines of a log, as many as a job keeps.
pub open spec fn last_lines(lines: Seq<Seq<char>>) -> Seq<Seq<char>> {
    if lines.len() > MAX_LINES {
        lines.skip(lines.len() - MAX_LINES)
    } else {
        lines
    }
}

/// The log after one more line.
pub open spec fn log_with(logs: Seq<Seq<char>>, line: Seq<char>) -> Seq<Seq<char>> {
    last_lines(logs.push(chomped(line)))
}

impl JobView {
    /// A job that has not started.
    pub open spec fn pending(
        id: JobId,
        playlist_url: Seq<char>,
        command_line: Seq<char>,
        now: Timestamp,
    ) -> JobView {
        JobView {
            id,
            playlist_url,
            command_line,
            started_at: now,
            finished_at: None,
            status: JobStatus::Pending,
            logs: Seq::empty(),
            error: None,
        }
    }

    /// The job with one more line in its log.
    pub open spec fn logged(self, line: Seq<char>) -> JobView {
        JobView { logs: log_with(self.logs, line), ..self }
    }
}

impl JobEntry {
    /// A job that has not started.
    pub fn new(id: JobId, playlist_url: String, command_line: String, now: Timestamp) -> (r: JobEntry)
        ensures
            r@ == JobView::pending(id, playlist_url@, command_line@, now),
    {
        let job = JobEntry {
            id,
            playlist_url,
            command_line,
            started_at: now,
            finished_at: None,
            status: JobStatus::Pending,
            logs: Vec::new(),
            error: None,
        };
        assert(contents(job.logs@) == Seq::<Seq<char>>::empty());
        job
    }

    /// Adds a line of output, dropping the oldest lines that are too many.
    pub fn push_line(&mut self, line: &str)
        ensures
            final(self)@ == old(self)@.logged(line@),
    {
        let ghost before = contents(self.logs@);
        let text = chomp(line);
        self.logs.push(text);
        assert(contents(self.logs@) == before.push(chomped(line@)));
        if self.logs.len() > MAX_LINES {
            let extra: usize = self.logs.len() - MAX_LINES;
            let ghost all = self.logs@;
            self.logs = self.logs.split_off(extra);
            assert(contents(self.logs@) == contents(all).skip(extra as int));
        }
        assert(self@ == old(self)@.logged(line@));
    }
}

/// The log after all of `lines` were added to an empty one.
pub open spec fn log_of(lines: Seq<Seq<char>>) -> Seq<Seq<char>>
    decreases lines.len(),
{
    if lines.len() == 0 {
        Seq::empty()
    } else {
        log_with(log_of(lines.drop_last()), lines.last())
    }
}

/// A log is the end of the output: however many lines were added, it holds the last of
/// them in order, without their line ends, and never more than a job keeps.
pub proof fn law_log_is_end_of_output(lines: Seq<Seq<char>>)
    ensures
        log_of(lines) == last_lines(lines.map_values(|line: Seq<char>| chomped(line))),
        log_of(lines).len() <= MAX_LINES,
    decreases lines.len(),
{
    let ends = lines.map_values(|line: Seq<char>| chomped(line));
    if lines.len() > 0 {
        let init = lines.drop_last();
        let before = init.map_values(|line: Seq<char>| chomped(line));
        law_log_is_end_of_output(init);
        assert(ends == before.push(chomped(lines.last())));
        assert(last_lines(last_lines(before).push(chomped(lines.last()))) == last_lines(
            before.push(chomped(lines.last())),
        ));
    } else {
        assert(ends == Seq::<Seq<char>>::empty());
    }
}

/// The place of the first job with an identifier.
pub open spec fn job_place(jobs: Seq<JobView>, id: JobId) -> Option<int>
    decreases jobs.len(),
{
    if jobs.len() == 0 {
        None
    } else {
        match job_place(jobs.drop_last(), id) {
            Some(i) => Some(i),
            None => if jobs.last().id == id {
                Some(jobs.len() - 1)
            } else {
                None
            },
        }
    }
}

/// The job with an identifier.
pub open spec fn job_of(jobs: Seq<JobView>, id: JobId) -> Option<JobView> {
    match job_place(jobs, id) {
        Some(i) => Some(jobs[i]),
        None => None,
    }
}

/// The jobs with `job` in place of the one that has its identifier, or at the end.
pub open spec fn with_job(jobs: Seq<JobView>, job: JobView) -> Seq<JobView> {
    match job_place(jobs, job.id) {
        Some(i) => jobs.update(i, job),
        None => jobs.push(job),
    }
}

/// Whether no two jobs have the same identifier.
pub open spec fn ids_distinct(jobs: Seq<JobView>) -> bool {
    forall|i: int, j: int|
        0 <= i < j < jobs.len() ==> (#[trigger] jobs[i]).id != (#[trigger] jobs[j]).id
}

/// The place found has the identifier, and no earlier one has.
proof fn lemma_job_place(jobs: Seq<JobView>, id: JobId)
    ensures
        match job_place(jobs, id) {
            Some(i) => {
                &&& 0 <= i < jobs.len()
                &&& jobs[i].id == id
                &&& forall|j: int| 0 <= j < i ==> (#[trigger] jobs[j]).id != id
            },
            None => forall|j: int| 0 <= j < jobs.len() ==> (#[trigger] jobs[j]).id != id,
        },
    decreases jobs.len(),
{
    if jobs.len() > 0 {
        let init = jobs.drop_last();
        lemma_job_place(init, id);
        assert forall|j: int| 0 <= j < init.len() implies #[trigger] jobs[j] == init[j] by {
        }
    }
}

/// All jobs since the start, and those of them that can be stopped.
#[derive(Debug)]
pub struct JobStore {
    jobs: Vec<JobEntry>,
    active: Vec<JobId>,
}

/// The contents of the job store.
#[verifier::ext_equal]
pub struct JobStoreView {
    pub jobs: Seq<JobView>,
    pub active: Set<JobId>,
}

impl View for JobStore {
    type V = JobStoreView;

    closed spec fn view(&self) -> JobStoreView {
        JobStoreView { jobs: views(self.jobs@), active: self.active@.to_set() }
    }
}

/// The jobs with `job` put among them have distinct identifiers if they had.
proof fn lemma_with_job_distinct(jobs: Seq<JobView>, job: JobView)
    requires
        ids_distinct(jobs),
    ensures
        ids_distinct(with_job(jobs, job)),
{
    lemma_job_place(jobs, job.id);
}

impl JobStore {
    #[verifier::type_invariant]
    spec fn well_formed(self) -> bool {
        ids_distinct(views(self.jobs@))
    }

    /// No jobs.
    pub fn new() -> (r: JobStore)
        ensures
            r@.jobs == Seq::<JobView>::empty(),
            r@.active == Set::<JobId>::empty(),
    {
        let r = JobStore { jobs: Vec::new(), active: Vec::new() };
        assert(r@.jobs == Seq::<JobView>::empty());
        assert(r@.active == Set::<JobId>::empty());
        r
    }

    /// The place of the first job with an identifier.
    fn find(&self, id: JobId) -> (r: Option<usize>)
        ensures
            match r {
                Some(i) => job_place(self@.jobs, id) == Some(i as int) && i < self.jobs.len()
                    && self.jobs@[i as int].id == id,
                None => job_place(self@.jobs, id) is None,
            },
    {
        let ghost all = self@.jobs;
        let mut i: usize = 0;
        while i < self.jobs.len()
            invariant
                i <= self.jobs.len(),
                all == self@.jobs,
                forall|j: int| 0 <= j < i ==> (#[trigger] all[j]).id != id,
            decreases self.jobs.len() - i,
        {
            assert(all[i as int].id == self.jobs@[i as int].id);
            if self.jobs[i].id == id {
                proof {
                    lemma_job_place(all, id);
                }
                return Some(i);
            }
            i = i + 1;
        }
        proof {
            lemma_job_place(all, id);
        }
        None
    }

    /// Whether a job can be stopped.
    pub fn is_active(&self, id: JobId) -> (r: bool)
        ensures
            r == self@.active.contains(id),
    {
        let mut i: usize = 0;
        while i < self.active.len()
            invariant
                i <= self.active.len(),
                forall|j: int| 0 <= j < i ==> self.active@[j] != id,
            decreases self.active.len() - i,
        {
            if self.active[i] == id {
                assert(self.active@[i as int] == id);
                return true;
            }
            i = i + 1;
        }
        false
    }

    /// Adds a job that can be stopped from now on. It takes the place of a job with the same
    /// identifier.
    pub fn register(&mut self, job: JobEntry)
        ensures
            final(self)@.jobs == with_job(old(self)@.jobs, job@),
            final(self)@.active == old(self)@.active.insert(job@.id),
            ids_distinct(final(self)@.jobs),
    {
        proof {
            use_type_invariant(&*self);
            lemma_with_job_distinct(self@.jobs, job@);
        }
        let id = job.id;
        let ghost added = job@;
        let ghost before = self@.jobs;
        let place = self.find(id);
        let stoppable = self.is_active(id);
        let mut jobs: Vec<JobEntry> = Vec::new();
        std::mem::swap(&mut jobs, &mut self.jobs);
        match place {
            Some(i) => {
                jobs[i] = job;
                assert(views(jobs@) == before.update(i as int, added));
            },
            None => {
                jobs.push(job);
                assert(views(jobs@) == before.push(added));
            },
        }
        self.jobs = jobs;
        let ghost ids = self.active@;
        if !stoppable {
            let mut active: Vec<JobId> = Vec::new();
            std::mem::swap(&mut active, &mut self.active);
            active.push(id);
            self.active = active;
            assert forall|x: JobId| self.active@.contains(x) <==> x == id || ids.contains(x) by {
                lemma_push_contains(ids, id, x);
            }
        }
        assert(self.active@.to_set() == ids.to_set().insert(id));
    }

    /// Ends the time in which a job can be stopped.
    pub fn release(&mut self, id: JobId)
        ensures
            final(self)@.jobs == old(self)@.jobs,
            final(self)@.active == old(self)@.active.remove(id),
    {
        proof {
            use_type_invariant(&*self);
        }
        let ghost before = self.active@;
        let mut rest: Vec<JobId> = Vec::new();
        let mut i: usize = 0;
        while i < self.active.len()
            invariant
                i <= self.active.len(),
                self.active@ == before,
                forall|x: JobId|
                    rest@.contains(x) <==> x != id && before.take(i as int).contains(x),
            decreases self.active.len() - i,
        {
            let current = self.active[i];
            let ghost kept = rest@;
            if current != id {
                rest.push(current);
            }
            assert forall|x: JobId|
                rest@.contains(x) <==> x != id && before.take(i + 1).contains(x) by {
                assert(before.take(i + 1) == before.take(i as int).push(current));
                assert(rest@ == if current != id { kept.push(current) } else { kept });
                lemma_push_contains(before.take(i as int), current, x);
                lemma_push_contains(kept, current, x);
            }
            i = i + 1;
        }
        assert(before.take(before.len() as int) == before);
        self.active = rest;
        assert(self.active@.to_set() == before.to_set().remove(id));
    }

    /// Adds a line to the log of a job; whether there is such a job.
    pub fn push_line(&mut self, id: JobId, line: &str) -> (r: bool)
        ensures
            final(self)@.active == old(self)@.active,
            r == (job_place(old(self)@.jobs, id) is Some),
            final(self)@.jobs == (match job_place(old(self)@.jobs, id) {
                Some(i) => old(self)@.jobs.update(i, old(self)@.jobs[i].logged(line@)),
                None => old(self)@.jobs,
            }),
            ids_distinct(final(self)@.jobs),
    {
        proof {
            use_type_invariant(&*self);
        }
        let ghost before = self@.jobs;
        match self.find(id) {
            Some(i) => {
                assert(before[i as int] == self.jobs@[i as int]@);
                let mut jobs: Vec<JobEntry> = Vec::new();
                std::mem::swap(&mut jobs, &mut self.jobs);
                jobs[i].push_line(line);
                assert(views(jobs@) == before.update(i as int, before[i as int].logged(line@)));
                self.jobs = jobs;
                true
            },
            None => false,
        }
    }

    /// Takes note of an event in a run and in its job, and says what to do next. Without
    /// such a job nothing happens.
    pub fn advance(&mut self, id: JobId, run: &mut DownloadRun, event: RunEvent) -> (r: Option<
        RunAction,
    >)
        ensures
            final(self)@.active == old(self)@.active,
            match job_place(old(self)@.jobs, id) {
                Some(i) => {
                    let job = old(self)@.jobs[i];
                    &&& final(self)@.jobs == old(self)@.jobs.update(
                        i,
                        job_after(old(run).phase, job, event),
                    )
                    &&& final(run).form == old(run).form
                    &&& final(run).directories == old(run).directories
                    &&& final(run).phase == phase_after(old(run).phase, event)
                    &&& r matches Some(action)
                    &&& action@ == action_after(
                        old(run).form@,
                        old(run).directories@,
                        old(run).phase,
                        event,
                    )
                },
                None => {
                    &&& final(self)@.jobs == old(self)@.jobs
                    &&& *final(run) == *old(run)
                    &&& r is None
                },
            },
            ids_distinct(final(self)@.jobs),
    {
        proof {
            use_type_invariant(&*self);
        }
        let ghost before = self@.jobs;
        match self.find(id) {
            Some(i) => {
                assert(before[i as int] == self.jobs@[i as int]@);
                let ghost happened = event;
                let ghost phase = run.phase;
                let mut jobs: Vec<JobEntry> = Vec::new();
                std::mem::swap(&mut jobs, &mut self.jobs);
                let action = run.step(&mut jobs[i], event);
                assert(views(jobs@) == before.update(
                    i as int,
                    job_after(phase, before[i as int], happened),
                ));
                self.jobs = jobs;
                Some(action)
            },
            None => None,
        }
    }

    /// Asks for a job to be stopped. The request is noted in the log of the job, and is
    /// refused where there is no such job or it cannot be stopped.
    pub fn request_stop(&mut self, id: JobId) -> (r: Result<(), AppError>)
        ensures
            final(self)@.active == old(self)@.active,
            match r {
                Ok(_) => {
                    &&& job_place(old(self)@.jobs, id) matches Some(i)
                    &&& old(self)@.active.contains(id)
                    &&& final(self)@.jobs == old(self)@.jobs.update(
                        i,
                        old(self)@.jobs[i].logged("Cancellation requested by user."@),
                    )
                },
                Err(e) => {
                    &&& final(self)@.jobs == old(self)@.jobs
                    &&& if job_place(old(self)@.jobs, id) is None {
                        e is NotFound
                    } else {
                        !old(self)@.active.contains(id) && e.rejects(
                            "Job is not currently running"@,
                        )
                    }
                },
            },
    {
        if self.find(id).is_none() {
            return Err(AppError::NotFound);
        }
        if !self.is_active(id) {
            return Err(AppError::invalid("Job is not currently running"));
        }
        self.push_line(id, "Cancellation requested by user.");
        Ok(())
    }

    /// The log of a job as one text.
    pub fn job_log(&self, id: JobId) -> (r: Result<String, AppError>)
        ensures
            match r {
                Ok(log) => job_of(self@.jobs, id) matches Some(job) && log@ == joined(
                    job.logs,
                    "\n"@,
                ),
                Err(e) => job_of(self@.jobs, id) is None && e is NotFound,
            },
    {
        match self.find(id) {
            Some(i) => {
                assert(self@.jobs[i as int] == self.jobs@[i as int]@);
                Ok(join(&self.jobs[i].logs, "\n"))
            },
            None => Err(AppError::NotFound),
        }
    }

    /// The page of a job. It shows a dash for the end exactly if the job has not ended.
    pub fn fetch_job(&self, id: JobId) -> (r: Result<JobDetail, AppError>)
        ensures
            match r {
                Ok(detail) => {
                    &&& job_of(self@.jobs, id) matches Some(job)
                    &&& detail@ == detail_of(job)
                    &&& detail.finished_at_display@ == "-"@ <==> job.finished_at is None
                    &&& detail.id == id
                    &&& detail.playlist_url@ == job.playlist_url
                    &&& detail.command_line@ == job.command_line
                    &&& detail.status == job.status
                    &&& detail.started_at == job.started_at
                    &&& detail.finished_at == job.finished_at
                    &&& detail.log_text@ == joined(job.logs, "\n"@)
                    &&& optional_text(detail.error) == job.error
                    &&& detail.started_at_display@ == utc_format(
                        job.started_at.secs(),
                        "%Y-%m-%d %H:%M:%S"@,
                    )
                    &&& job.finished_at matches Some(end) ==> detail.finished_at_display@
                        == utc_format(end.secs(), "%Y-%m-%d %H:%M:%S"@)
                },
                Err(e) => job_of(self@.jobs, id) is None && e is NotFound,
            },
    {
        match self.find(id) {
            Some(i) => {
                let job = &self.jobs[i];
                assert(self@.jobs[i as int] == job@);
                Ok(
                    JobDetail {
                        id: job.id,
                        playlist_url: job.playlist_url.clone(),
                        command_line: job.command_line.clone(),
                        status: job.status,
                        started_at: job.started_at,
                        finished_at: job.finished_at,
                        started_at_display: format_timestamp(job.started_at),
                        finished_at_display: format_optional_timestamp(job.finished_at),
                        log_text: join(&job.logs, "\n"),
                        error: match &job.error {
                            Some(text) => Some(text.clone()),
                            None => None,
                        },
                    },
                )
            },
            None => Err(AppError::NotFound),
        }
    }

    /// The list of jobs, the one that started last first. No identifier stands in it twice,
    /// and a dash is shown for the end of exactly those jobs that have not ended.
    pub fn gather_job_summaries(&self) -> (r: Vec<JobSummary>)
        ensures
            stably_sorted::<JobSummary>(
                self@.jobs.map_values(|job: JobView| summary_of(job)),
                views(r@),
            ),
            forall|i: int, j: int|
                0 <= i < j < r@.len() ==> (#[trigger] r@[i]).id != (#[trigger] r@[j]).id,
            forall|i: int| 0 <= i < r@.len() ==> shows_its_end((#[trigger] r@[i])@),
            r@.len() == self@.jobs.len(),
            forall|i: int|
                0 <= i < r@.len() ==> exists|k: int|
                    {
                        let job = #[trigger] self@.jobs[k];
                        let shown = #[trigger] r@[i];
                        &&& 0 <= k < self@.jobs.len()
                        &&& shown.id == job.id
                        &&& shown.playlist_url@ == job.playlist_url
                        &&& shown.status == job.status
                        &&& shown.started_at == job.started_at
                        &&& shown.finished_at == job.finished_at
                        &&& shown.started_at_display@ == utc_format(
                            job.started_at.secs(),
                            "%Y-%m-%d %H:%M:%S"@,
                        )
                        &&& job.finished_at matches Some(end) ==> shown.finished_at_display@
                            == utc_format(end.secs(), "%Y-%m-%d %H:%M:%S"@)
                        &&& shown.finished_at_display@ == "-"@ <==> job.finished_at is None
                    },
            forall|i: int, j: int|
                0 <= i < j < r@.len() ==> (#[trigger] r@[j]).started_at.at_or_before(
                    (#[trigger] r@[i]).started_at,
                ),
    {
        proof {
            use_type_invariant(self);
        }
        let ghost wanted = self@.jobs.map_values(|job: JobView| summary_of(job));
        let mut out: Vec<JobSummary> = Vec::new();
        let mut i: usize = 0;
        while i < self.jobs.len()
            invariant
                i <= self.jobs.len(),
                wanted == self@.jobs.map_values(|job: JobView| summary_of(job)),
                views(out@) == wanted.take(i as int),
                forall|j: int| 0 <= j < i ==> shows_its_end(#[trigger] wanted[j]),
            decreases self.jobs.len() - i,
        {
            let ghost before = views(out@);
            let job = &self.jobs[i];
            assert(self@.jobs[i as int] == job@);
            let summary = JobSummary {
                id: job.id,
                playlist_url: job.playlist_url.clone(),
                status: job.status,
                started_at: job.started_at,
                finished_at: job.finished_at,
                started_at_display: format_timestamp(job.started_at),
                finished_at_display: format_optional_timestamp(job.finished_at),
            };
            assert(summary@ == summary_of(job@));
            out.push(summary);
            assert(views(out@) == before.push(summary_of(job@)));
            assert(wanted.take(i + 1) == wanted.take(i as int).push(wanted[i as int]));
            i = i + 1;
        }
        assert(wanted.take(wanted.len() as int) == wanted);
        let r = sort_stable(out);
        proof {
            lemma_listed_ids_distinct(self@.jobs, views(r@));
            lemma_listed_show_their_end(wanted, views(r@));
            law_listed_jobs_are_the_stored_ones(self@.jobs, views(r@));
            assert forall|i: int| 0 <= i < r@.len() implies exists|k: int|
                {
                    let job = #[trigger] self@.jobs[k];
                    let shown = #[trigger] r@[i];
                    &&& 0 <= k < self@.jobs.len()
                    &&& shown.id == job.id
                    &&& shown.playlist_url@ == job.playlist_url
                    &&& shown.status == job.status
                    &&& shown.started_at == job.started_at
                    &&& shown.finished_at == job.finished_at
                    &&& shown.started_at_display@ == utc_format(
                        job.started_at.secs(),
                        "%Y-%m-%d %H:%M:%S"@,
                    )
                    &&& job.finished_at matches Some(end) ==> shown.finished_at_display@
                        == utc_format(end.secs(), "%Y-%m-%d %H:%M:%S"@)
                    &&& shown.finished_at_display@ == "-"@ <==> job.finished_at is None
                } by {
                assert(views(r@)[i] == r@[i]@);
                assert(shows_its_end(views(r@)[i]));
            }
            assert forall|i: int, j: int| 0 <= i < j < r@.len() implies (
            #[trigger] r@[j]).started_at.at_or_before((#[trigger] r@[i]).started_at) by {
                assert(views(r@)[i] == r@[i]@ && views(r@)[j] == r@[j]@);
            }
            assert forall|i: int| 0 <= i < r@.len() implies shows_its_end((#[trigger] r@[i])@) by {
                assert(views(r@)[i] == r@[i]@);
            }
            assert forall|i: int, j: int| 0 <= i < j < r@.len() implies (#[trigger] r@[i]).id != (
            #[trigger] r@[j]).id by {
                assert(views(r@)[i].id != views(r@)[j].id);
            }
        }
        r
    }

    /// Notes in the log of a job that its output could not be read; whether there is such
    /// a job.
    pub fn log_read_failure(&mut self, id: JobId, error: &str) -> (r: bool)
        ensures
            final(self)@.active == old(self)@.active,
            r == (job_place(old(self)@.jobs, id) is Some),
            final(self)@.jobs == (match job_place(old(self)@.jobs, id) {
                Some(i) => old(self)@.jobs.update(
                    i,
                    old(self)@.jobs[i].logged("Failed to read process output: "@ + error@),
                ),
                None => old(self)@.jobs,
            }),
    {
        let line = "Failed to read process output: ".to_string().concat(error);
        self.push_line(id, line.as_str())
    }
}

/// What the list of jobs shows of a job.
#[derive(Debug)]
pub struct JobSummary {
    pub id: JobId,
    pub playlist_url: String,
    pub status: JobStatus,
    pub started_at: Timestamp,
    pub finished_at: Option<Timestamp>,
    pub started_at_display: String,
    pub finished_at_display: String,
}

/// The contents of a job summary.
#[verifier::ext_equal]
pub struct JobSummaryView {
    pub id: JobId,
    pub playlist_url: Seq<char>,
    pub status: JobStatus,
    pub started_at: Timestamp,
    pub finished_at: Option<Timestamp>,
    pub started_at_display: Seq<char>,
    pub finished_at_display: Seq<char>,
}

impl View for JobSummary {
    type V = JobSummaryView;

    open spec fn view(&self) -> JobSummaryView {
        JobSummaryView {
            id: self.id,
            playlist_url: self.playlist_url@,
            status: self.status,
            started_at: self.started_at,
            finished_at: self.finished_at,
            started_at_display: self.started_at_display@,
            finished_at_display: self.finished_at_display@,
        }
    }
}

/// What the list of jobs shows of a job.
pub open spec fn summary_of(job: JobView) -> JobSummaryView {
    JobSummaryView {
        id: job.id,
        playlist_url: job.playlist_url,
        status: job.status,
        started_at: job.started_at,
        finished_at: job.finished_at,
        started_at_display: timestamp_text(job.started_at),
        finished_at_display: optional_timestamp_text(job.finished_at),
    }
}

impl Ranked for JobSummary {
    /// Jobs that started later stand first.
    open spec fn ranks(a: JobSummaryView, b: JobSummaryView) -> bool {
        b.started_at.at_or_before(a.started_at)
    }

    proof fn ranks_total(a: JobSummaryView, b: JobSummaryView) {
    }

    proof fn ranks_transitive(a: JobSummaryView, b: JobSummaryView, c: JobSummaryView) {
    }

    fn may_precede(&self, other: &JobSummary) -> (r: bool) {
        other.started_at.not_after(&self.started_at)
    }
}

/// Whether a dash is shown for the end of a job exactly if it has not ended.
pub open spec fn shows_its_end(job: JobSummaryView) -> bool {
    job.finished_at_display == "-"@ <==> job.finished_at is None
}

/// What is shown of the end of each job does not depend on the order.
proof fn lemma_listed_show_their_end(items: Seq<JobSummaryView>, listed: Seq<JobSummaryView>)
    requires
        forall|i: int| 0 <= i < items.len() ==> shows_its_end(#[trigger] items[i]),
        stably_sorted::<JobSummary>(items, listed),
    ensures
        forall|i: int| 0 <= i < listed.len() ==> shows_its_end(#[trigger] listed[i]),
{
    let places = choose|places: Seq<int>|
        lists_indices(places, 0, items.len() as int) && #[trigger] sorted_by_places::<JobSummary>(
            items,
            listed,
            places,
        );
    assert forall|i: int| 0 <= i < listed.len() implies shows_its_end(#[trigger] listed[i]) by {
        assert(listed[i] == items[places[i]]);
    }
}

/// A list of jobs with distinct identifiers shows each identifier once.
proof fn lemma_listed_ids_distinct(jobs: Seq<JobView>, listed: Seq<JobSummaryView>)
    requires
        ids_distinct(jobs),
        stably_sorted::<JobSummary>(jobs.map_values(|job: JobView| summary_of(job)), listed),
    ensures
        forall|i: int, j: int|
            0 <= i < j < listed.len() ==> (#[trigger] listed[i]).id != (#[trigger] listed[j]).id,
{
    let items = jobs.map_values(|job: JobView| summary_of(job));
    let places = choose|places: Seq<int>|
        lists_indices(places, 0, items.len() as int) && #[trigger] sorted_by_places::<JobSummary>(
            items,
            listed,
            places,
        );
    assert forall|i: int, j: int| 0 <= i < j < listed.len() implies (#[trigger] listed[i]).id != (
    #[trigger] listed[j]).id by {
        assert(listed[i] == items[places[i]] && listed[j] == items[places[j]]);
        assert(places[i] != places[j]);
        assert(jobs[places[i]].id != jobs[places[j]].id);
    }
}

/// What the page of a job shows.
#[derive(Debug)]
pub struct JobDetail {
    pub id: JobId,
    pub playlist_url: String,
    pub command_line: String,
    pub status: JobStatus,
    pub started_at: Timestamp,
    pub finished_at: Option<Timestamp>,
    pub started_at_display: String,
    pub finished_at_display: String,
    pub log_text: String,
    pub error: Option<String>,
}

/// The contents of a job page.
#[verifier::ext_equal]
pub struct JobDetailView {
    pub id: JobId,
    pub playlist_url: Seq<char>,
    pub command_line: Seq<char>,
    pub status: JobStatus,
    pub started_at: Timestamp,
    pub finished_at: Option<Timestamp>,
    pub started_at_display: Seq<char>,
    pub finished_at_display: Seq<char>,
    pub log_text: Seq<char>,
    pub error: Option<Seq<char>>,
}

impl View for JobDetail {
    type V = JobDetailView;

    open spec fn view(&self) -> JobDetailView {
        JobDetailView {
            id: self.id,
            playlist_url: self.playlist_url@,
            command_line: self.command_line@,
            status: self.status,
            started_at: self.started_at,
            finished_at: self.finished_at,
            started_at_display: self.started_at_display@,
            finished_at_display: self.finished_at_display@,
            log_text: self.log_text@,
            error: optional_text(self.error),
        }
    }
}

/// What the page of a job shows.
pub open spec fn detail_of(job: JobView) -> JobDetailView {
    JobDetailView {
        id: job.id,
        playlist_url: job.playlist_url,
        command_line: job.command_line,
        status: job.status,
        started_at: job.started_at,
        finished_at: job.finished_at,
        started_at_display: timestamp_text(job.started_at),
        finished_at_display: optional_timestamp_text(job.finished_at),
        log_text: joined(job.logs, "\n"@),
        error: job.error,
    }
}

/// A job that was added is found under its identifier, every other job is found as it
/// was, and identifiers stay distinct.
pub proof fn law_registered_job_is_found(jobs: Seq<JobView>, job: JobView, other: JobId)
    requires
        other != job.id,
    ensures
        job_of(with_job(jobs, job), job.id) == Some(job),
        job_of(with_job(jobs, job), other) == job_of(jobs, other),
        ids_distinct(jobs) ==> ids_distinct(with_job(jobs, job)),
{
    let after = with_job(jobs, job);
    lemma_job_place(jobs, job.id);
    lemma_job_place(jobs, other);
    lemma_job_place(after, job.id);
    lemma_job_place(after, other);
    match job_place(jobs, job.id) {
        Some(i) => {
            assert(after[i].id == job.id);
            assert(forall|j: int| 0 <= j < jobs.len() ==> after[j].id == jobs[j].id);
        },
        None => {
            assert(after[jobs.len() as int] == job);
            assert(forall|j: int| 0 <= j < jobs.len() ==> after[j] == jobs[j]);
        },
    }
}

/// Neither a line in the log of a job nor an event in its run changes an identifier, so
/// that identifiers stay distinct.
pub proof fn law_identifiers_stay_distinct(
    jobs: Seq<JobView>,
    i: int,
    line: Seq<char>,
    phase: RunPhase,
    event: RunEvent,
)
    requires
        ids_distinct(jobs),
        0 <= i < jobs.len(),
    ensures
        ids_distinct(jobs.update(i, jobs[i].logged(line))),
        ids_distinct(jobs.update(i, job_after(phase, jobs[i], event))),
{
}

/// A line or an event is noted in its own job only: that job is then found with the
/// change, and every other job is found as it was.
pub proof fn law_changes_stay_in_their_job(
    jobs: Seq<JobView>,
    id: JobId,
    line: Seq<char>,
    phase: RunPhase,
    event: RunEvent,
    other: JobId,
)
    requires
        other != id,
        job_place(jobs, id) is Some,
    ensures
        ({
            let i = job_place(jobs, id)->0;
            let logged = jobs.update(i, jobs[i].logged(line));
            let advanced = jobs.update(i, job_after(phase, jobs[i], event));
            &&& job_of(logged, id) == Some(jobs[i].logged(line))
            &&& job_of(logged, other) == job_of(jobs, other)
            &&& job_of(advanced, id) == Some(job_after(phase, jobs[i], event))
            &&& job_of(advanced, other) == job_of(jobs, other)
        }),
{
    let i = job_place(jobs, id)->0;
    lemma_job_place(jobs, id);
    law_registered_job_is_found(jobs, jobs[i].logged(line), other);
    law_registered_job_is_found(jobs, job_after(phase, jobs[i], event), other);
}

/// A job can be stopped from when it was added until it is released, whatever is added or
/// released besides.
pub proof fn law_stoppable_until_released(active: Set<JobId>, id: JobId, other: JobId)
    requires
        other != id,
    ensures
        active.insert(id).contains(id),
        !active.remove(id).contains(id),
        active.insert(other).contains(id) == active.contains(id),
        active.remove(other).contains(id) == active.contains(id),
{
}

/// What a sequence holds with one more item at its end.
proof fn lemma_push_contains(s: Seq<JobId>, last: JobId, x: JobId)
    ensures
        s.push(last).contains(x) <==> x == last || s.contains(x),
{
    if s.contains(x) {
        let k = choose|k: int| 0 <= k < s.len() && s[k] == x;
        assert(s.push(last)[k] == x);
    }
    assert(s.push(last)[s.len() as int] == last);
}

/// What the list of jobs shows: as many entries as there are jobs, each with the identifier,
/// the playlist, the status and the times of one stored job, and no job before one that
/// started later.
pub proof fn law_listed_jobs_are_the_stored_ones(
    jobs: Seq<JobView>,
    listed: Seq<JobSummaryView>,
)
    requires
        stably_sorted::<JobSummary>(jobs.map_values(|job: JobView| summary_of(job)), listed),
    ensures
        listed.len() == jobs.len(),
        forall|i: int|
            0 <= i < listed.len() ==> exists|k: int|
                {
                    let job = #[trigger] jobs[k];
                    let shown = #[trigger] listed[i];
                    &&& 0 <= k < jobs.len()
                    &&& shown.id == job.id
                    &&& shown.playlist_url == job.playlist_url
                    &&& shown.status == job.status
                    &&& shown.started_at == job.started_at
                    &&& shown.finished_at == job.finished_at
                    &&& shown.started_at_display == utc_format(
                        job.started_at.secs(),
                        "%Y-%m-%d %H:%M:%S"@,
                    )
                    &&& job.finished_at matches Some(end) ==> shown.finished_at_display
                        == utc_format(end.secs(), "%Y-%m-%d %H:%M:%S"@)
                    &&& job.finished_at is None ==> shown.finished_at_display == "-"@
                },
        forall|i: int, j: int|
            0 <= i < j < listed.len() ==> (#[trigger] listed[j]).started_at.at_or_before(
                (#[trigger] listed[i]).started_at,
            ),
{
    let items = jobs.map_values(|job: JobView| summary_of(job));
    let places = choose|places: Seq<int>|
        lists_indices(places, 0, items.len() as int) && #[trigger] sorted_by_places::<JobSummary>(
            items,
            listed,
            places,
        );
    assert forall|i: int| 0 <= i < listed.len() implies exists|k: int|
        {
            let job = #[trigger] jobs[k];
            let shown = #[trigger] listed[i];
            &&& 0 <= k < jobs.len()
            &&& shown.id == job.id
            &&& shown.playlist_url == job.playlist_url
            &&& shown.status == job.status
            &&& shown.started_at == job.started_at
            &&& shown.finished_at == job.finished_at
            &&& shown.started_at_display == utc_format(
                job.started_at.secs(),
                "%Y-%m-%d %H:%M:%S"@,
            )
            &&& job.finished_at matches Some(end) ==> shown.finished_at_display == utc_format(
                end.secs(),
                "%Y-%m-%d %H:%M:%S"@,
            )
            &&& job.finished_at is None ==> shown.finished_at_display == "-"@
        } by {
        assert(listed[i] == items[places[i]]);
        let job = jobs[places[i]];
        assert(listed[i].id == job.id);
    }
    assert forall|i: int, j: int| 0 <= i < j < listed.len() implies (
    #[trigger] listed[j]).started_at.at_or_before((#[trigger] listed[i]).started_at) by {
        assert(comes_before::<JobSummary>(items, places[i], places[j]));
        assert(listed[i] == items[places[i]] && listed[j] == items[places[j]]);
    }
}

/// Every stored job is in the list, with its status.
pub proof fn law_every_job_is_listed(
    jobs: Seq<JobView>,
    listed: Seq<JobSummaryView>,
    k: int,
)
    requires
        stably_sorted::<JobSummary>(jobs.map_values(|job: JobView| summary_of(job)), listed),
        0 <= k < jobs.len(),
    ensures
        exists|i: int|
            0 <= i < listed.len() && (#[trigger] listed[i]).id == jobs[k].id && listed[i].status
                == jobs[k].status,
{
    let items = jobs.map_values(|job: JobView| summary_of(job));
    let places = choose|places: Seq<int>|
        lists_indices(places, 0, items.len() as int) && #[trigger] sorted_by_places::<JobSummary>(
            items,
            listed,
            places,
        );
    lemma_every_index_listed(places, items.len() as int, k);
    let i = choose|i: int| 0 <= i < places.len() && places[i] == k;
    assert(listed[i] == items[places[i]]);
}

/// The page of a job shows what is stored of the job.
pub proof fn law_page_shows_the_stored_job(job: JobView)
    ensures
        ({
            let page = detail_of(job);
            &&& page.id == job.id
            &&& page.playlist_url == job.playlist_url
            &&& page.command_line == job.command_line
            &&& page.status == job.status
            &&& page.started_at == job.started_at
            &&& page.finished_at == job.finished_at
            &&& page.error == job.error
            &&& page.log_text == joined(job.logs, "\n"@)
            &&& page.started_at_display == utc_format(
                job.started_at.secs(),
                "%Y-%m-%d %H:%M:%S"@,
            )
            &&& job.finished_at matches Some(end) ==> page.finished_at_display == utc_format(
                end.secs(),
                "%Y-%m-%d %H:%M:%S"@,
            )
            &&& job.finished_at is None ==> page.finished_at_display == "-"@
        }),
{
}

/// The job with an identifier is one of the jobs and has that identifier, and there is none
/// exactly if no job has it.
pub proof fn law_found_job_is_stored(jobs: Seq<JobView>, id: JobId)
    ensures
        match job_of(jobs, id) {
            Some(job) => jobs.contains(job) && job.id == id,
            None => forall|k: int| 0 <= k < jobs.len() ==> (#[trigger] jobs[k]).id != id,
        },
        match job_place(jobs, id) {
            Some(i) => 0 <= i < jobs.len() && jobs[i].id == id && job_of(jobs, id) == Some(jobs[i]),
            None => job_of(jobs, id) is None,
        },
{
    lemma_job_place(jobs, id);
}

/// Adding a job adds one to the jobs only where its identifier is new, and changes no job with
/// another identifier.
pub proof fn law_added_job_changes_its_identifier_only(jobs: Seq<JobView>, job: JobView)
    ensures
        with_job(jobs, job).contains(job),
        with_job(jobs, job).len() == jobs.len() + (if job_of(jobs, job.id) is None {
            1int
        } else {
            0int
        }),
        forall|i: int|
            0 <= i < jobs.len() ==> #[trigger] with_job(jobs, job)[i] == jobs[i] || (jobs[i].id
                == job.id && with_job(jobs, job)[i] == job),
        forall|i: int, j: int|
            0 <= i < j < jobs.len() && (#[trigger] with_job(jobs, job)[j]) != jobs[j] ==> (
            #[trigger] jobs[i]).id != job.id,
{
    lemma_job_place(jobs, job.id);
    match job_place(jobs, job.id) {
        Some(i) => {
            assert(with_job(jobs, job)[i] == job);
        },
        None => {
            assert(with_job(jobs, job)[jobs.len() as int] == job);
        },
    }
}

/// A new job has what it was made from, has not started, and has neither output nor error.
pub proof fn law_new_job_is_pending(
    id: JobId,
    playlist_url: Seq<char>,
    command_line: Seq<char>,
    now: Timestamp,
)
    ensures
        ({
            let job = JobView::pending(id, playlist_url, command_line, now);
            &&& job.id == id
            &&& job.playlist_url == playlist_url
            &&& job.command_line == command_line
            &&& job.started_at == now
            &&& job.finished_at is None
            &&& job.status == JobStatus::Pending
            &&& job.logs.len() == 0
            &&& job.error is None
        }),
{
}

/// A line added to a job is the last of its log, behind the lines before it, of which the
/// oldest goes where there are four thousand. Nothing else of the job changes.
pub proof fn law_added_line_is_the_last(job: JobView, line: Seq<char>)
    ensures
        ({
            let after = job.logged(line);
            &&& after.id == job.id
            &&& after.playlist_url == job.playlist_url
            &&& after.command_line == job.command_line
            &&& after.started_at == job.started_at
            &&& after.finished_at == job.finished_at
            &&& after.status == job.status
            &&& after.error == job.error
            &&& job.logs.len() < 4000 ==> after.logs == job.logs.push(chomped(line))
            &&& job.logs.len() >= 4000 ==> after.logs == job.logs.skip(
                job.logs.len() - 3999,
            ).push(chomped(line))
        }),
{
    let added = job.logs.push(chomped(line));
    if job.logs.len() >= 4000 {
        assert(added.skip(added.len() - 4000) == job.logs.skip(job.logs.len() - 3999).push(
            chomped(line),
        ));
    }
}

/// The lines that a job keeps are the last ones of its output, four thousand at most.
pub proof fn law_kept_lines_are_the_last(lines: Seq<Seq<char>>)
    ensures
        last_lines(lines).is_suffix_of(lines),
        lines.len() <= 4000 ==> last_lines(lines) == lines,
        lines.len() > 4000 ==> last_lines(lines).len() == 4000,
{
    if lines.len() > 4000 {
        assert(last_lines(lines) == lines.subrange(lines.len() - 4000, lines.len() as int));
    } else {
        assert(lines == lines.subrange(0, lines.len() as int));
    }
}

/// The contents of a job are its fields.
pub proof fn law_contents_of_a_job(job: JobEntry)
    ensures
        job@.id == job.id,
        job@.playlist_url == job.playlist_url@,
        job@.command_line == job.command_line@,
        job@.started_at == job.started_at,
        job@.finished_at == job.finished_at,
        job@.status == job.status,
        job@.logs.len() == job.logs@.len(),
        forall|i: int| 0 <= i < job.logs@.len() ==> #[trigger] job@.logs[i] == job.logs@[i]@,
        job@.error == optional_text(job.error),
{
}

/// The contents of an entry of the list and of the page of a job are their fields.
pub proof fn law_contents_of_what_is_shown(summary: JobSummary, detail: JobDetail)
    ensures
        summary@.id == summary.id,
        summary@.playlist_url == summary.playlist_url@,
        summary@.status == summary.status,
        summary@.started_at == summary.started_at,
        summary@.finished_at == summary.finished_at,
        summary@.started_at_display == summary.started_at_display@,
        summary@.finished_at_display == summary.finished_at_display@,
        detail@.id == detail.id,
        detail@.playlist_url == detail.playlist_url@,
        detail@.command_line == detail.command_line@,
        detail@.status == detail.status,
        detail@.started_at == detail.started_at,
        detail@.finished_at == detail.finished_at,
        detail@.started_at_display == detail.started_at_display@,
        detail@.finished_at_display == detail.finished_at_display@,
        detail@.log_text == detail.log_text@,
        detail@.error == optional_text(detail.error),
{
}

} // verus!
