//! The rows of the scheduler, as they are read from and written back to the database.
//!
//! Whoever runs a job locks it first. A lock keeps every other worker out until it is given up or
//! has run out.
use crate::memory::candidates::first_of;
use crate::memory::queries::admitted;
use crate::order::{is_text_before, picked, positions, sort_order, sorted_order, sorting_is_a_permutation, text_before, Key};
use crate::scheduler::job::{
    copy_job, jobs_of, next_after, next_run, opt_job, tells, Fault, Job, JobView, NewJob, SchedulerError, LAST_MOMENT,
};
use crate::text::{clone_opt, opt_str_view, opt_text, same};
use vstd::prelude::*;

verus! {

/// How a run stands.
#[derive(Debug, Clone, Copy, PartialEq, Eq, Structural)]
pub enum RunStatus {
    Running,
    Success,
    Failure,
    Interrupted,
}

/// The stored word of a run's status.
pub open spec fn status_word(s: RunStatus) -> Seq<char> {
    match s {
        RunStatus::Running => "running"@,
        RunStatus::Success => "success"@,
        RunStatus::Failure => "failure"@,
        RunStatus::Interrupted => "interrupted"@,
    }
}

/// The status of a stored word.
pub open spec fn status_of(word: Seq<char>) -> Option<RunStatus> {
    if word == "running"@ {
        Some(RunStatus::Running)
    } else if word == "success"@ {
        Some(RunStatus::Success)
    } else if word == "failure"@ {
        Some(RunStatus::Failure)
    } else if word == "interrupted"@ {
        Some(RunStatus::Interrupted)
    } else {
        None
    }
}

/// Every status is read back from its word.
pub proof fn statuses_round_trip(s: RunStatus)
    ensures
        status_of(status_word(s)) == Some(s),
{
    reveal_strlit("running");
    reveal_strlit("success");
    reveal_strlit("failure");
    reveal_strlit("interrupted");
    assert("running"@[0] == 'r');
    assert("success"@[0] == 's');
    assert("failure"@[0] == 'f');
    assert("interrupted"@[0] == 'i');
}

impl RunStatus {
    /// The stored word of the status.
    pub fn as_str(self) -> (r: &'static str)
        ensures
            r@ == status_word(self),
    {
        match self {
            RunStatus::Running => "running",
            RunStatus::Success => "success",
            RunStatus::Failure => "failure",
            RunStatus::Interrupted => "interrupted",
        }
    }

    /// The status of a stored word.
    pub fn parse(raw: &str) -> (r: Result<RunStatus, SchedulerError>)
        ensures
            match r {
                Ok(s) => status_of(raw@) == Some(s),
                Err(e) => status_of(raw@) is None && (e matches SchedulerError::UnknownRunStatus(w) && w@ == raw@),
            },
    {
        if same(raw, "running") {
            Ok(RunStatus::Running)
        } else if same(raw, "success") {
            Ok(RunStatus::Success)
        } else if same(raw, "failure") {
            Ok(RunStatus::Failure)
        } else if same(raw, "interrupted") {
            Ok(RunStatus::Interrupted)
        } else {
            Err(SchedulerError::UnknownRunStatus(raw.to_owned()))
        }
    }
}

/// A run of a job.
#[derive(Debug, Clone, PartialEq, Eq)]
pub struct JobRun {
    pub id: i64,
    pub job_id: String,
    pub started_at: i64,
    pub finished_at: Option<i64>,
    pub status: RunStatus,
    pub message: String,
}

/// The mathematical form of a run.
pub struct RunView {
    pub id: i64,
    pub job_id: Seq<char>,
    pub started_at: i64,
    pub finished_at: Option<i64>,
    pub status: RunStatus,
    pub message: Seq<char>,
}

impl View for JobRun {
    type V = RunView;

    open spec fn view(&self) -> RunView {
        RunView {
            id: self.id,
            job_id: self.job_id@,
            started_at: self.started_at,
            finished_at: self.finished_at,
            status: self.status,
            message: self.message@,
        }
    }
}

/// The mathematical forms of runs.
pub open spec fn runs_of(v: Seq<JobRun>) -> Seq<RunView> {
    v.map_values(|r: JobRun| r@)
}

fn copy_run(r: &JobRun) -> (c: JobRun)
    ensures
        c@ == r@,
{
    JobRun {
        id: r.id,
        job_id: r.job_id.clone(),
        started_at: r.started_at,
        finished_at: r.finished_at,
        status: r.status,
        message: r.message.clone(),
    }
}

/// A job with its lock.
#[derive(Debug, Clone, PartialEq, Eq)]
pub struct JobRow {
    pub job: Job,
    pub locked_by: Option<String>,
    pub locked_until: Option<i64>,
    pub created_at: i64,
    pub updated_at: i64,
}

/// The mathematical form of a job with its lock.
pub struct JobRowView {
    pub job: JobView,
    pub locked_by: Option<Seq<char>>,
    pub locked_until: Option<i64>,
    pub created_at: i64,
    pub updated_at: i64,
}

impl View for JobRow {
    type V = JobRowView;

    open spec fn view(&self) -> JobRowView {
        JobRowView {
            job: self.job@,
            locked_by: opt_text(self.locked_by),
            locked_until: self.locked_until,
            created_at: self.created_at,
            updated_at: self.updated_at,
        }
    }
}

/// The mathematical forms of jobs with their locks.
pub open spec fn rows_of(v: Seq<JobRow>) -> Seq<JobRowView> {
    v.map_values(|r: JobRow| r@)
}

fn copy_row(r: &JobRow) -> (c: JobRow)
    ensures
        c@ == r@,
{
    JobRow {
        job: copy_job(&r.job),
        locked_by: clone_opt(&r.locked_by),
        locked_until: r.locked_until,
        created_at: r.created_at,
        updated_at: r.updated_at,
    }
}

/// The tables of the scheduler.
#[derive(Debug, Clone, PartialEq, Eq)]
pub struct SchedulerStore {
    pub jobs: Vec<JobRow>,
    pub runs: Vec<JobRun>,
    /// The id of the next run; no id is given twice.
    pub next_run_id: i64,
}

/// The mathematical form of the tables.
pub struct SchedulerView {
    pub jobs: Seq<JobRowView>,
    pub runs: Seq<RunView>,
    pub next_run_id: i64,
}

impl View for SchedulerStore {
    type V = SchedulerView;

    open spec fn view(&self) -> SchedulerView {
        SchedulerView {
            jobs: rows_of(self.jobs@),
            runs: runs_of(self.runs@),
            next_run_id: self.next_run_id,
        }
    }
}

/// No id is that of two jobs.
pub open spec fn job_ids_differ(rows: Seq<JobRowView>) -> bool {
    forall|i: int, j: int| 0 <= i < j < rows.len() ==> (#[trigger] rows[i]).job.id != (#[trigger] rows[j]).job.id
}

/// Run ids grow from row to row and stay below the next one.
pub open spec fn run_ids_grow(runs: Seq<RunView>, next_id: int) -> bool {
    &&& forall|i: int, j: int| 0 <= i < j < runs.len() ==> (#[trigger] runs[i]).id < (#[trigger] runs[j]).id
    &&& forall|i: int| 0 <= i < runs.len() ==> (#[trigger] runs[i]).id < next_id
}

impl SchedulerView {
    /// What every operation keeps.
    pub open spec fn wf(self) -> bool {
        &&& job_ids_differ(self.jobs)
        &&& run_ids_grow(self.runs, self.next_run_id as int)
    }
}

// ---------------------------------------------------------------------------
// One row per job
// ---------------------------------------------------------------------------

/// The position of a job, or the length where there is none.
pub open spec fn job_slot(rows: Seq<JobRowView>, id: Seq<char>) -> int
    decreases rows.len(),
{
    if rows.len() == 0 || rows[0].job.id == id {
        0
    } else {
        1 + job_slot(rows.drop_first(), id)
    }
}

/// The row of a job.
pub open spec fn row_in(rows: Seq<JobRowView>, id: Seq<char>) -> Option<JobRowView> {
    let i = job_slot(rows, id);
    if i < rows.len() {
        Some(rows[i])
    } else {
        None
    }
}

/// The rows with another one in the place of a job's.
pub open spec fn with_row(rows: Seq<JobRowView>, v: JobRowView) -> Seq<JobRowView> {
    rows.update(job_slot(rows, v.job.id), v)
}

proof fn job_slot_is_first(rows: Seq<JobRowView>, id: Seq<char>)
    ensures
        0 <= job_slot(rows, id) <= rows.len(),
        forall|k: int| 0 <= k < job_slot(rows, id) ==> (#[trigger] rows[k]).job.id != id,
        job_slot(rows, id) < rows.len() ==> rows[job_slot(rows, id)].job.id == id,
    decreases rows.len(),
{
    if rows.len() > 0 && rows[0].job.id != id {
        let d = rows.drop_first();
        job_slot_is_first(d, id);
        assert forall|k: int| 0 <= k < job_slot(rows, id) implies (#[trigger] rows[k]).job.id != id by {
            if k > 0 {
                assert(d[k - 1] == rows[k]);
            }
        }
    }
}

proof fn job_slot_at(rows: Seq<JobRowView>, id: Seq<char>, i: int)
    requires
        0 <= i <= rows.len(),
        forall|k: int| 0 <= k < i ==> (#[trigger] rows[k]).job.id != id,
        i < rows.len() ==> rows[i].job.id == id,
    ensures
        job_slot(rows, id) == i,
{
    job_slot_is_first(rows, id);
    let j = job_slot(rows, id);
    if j < i {
        assert(rows[j].job.id != id);
    } else if i < j {
        assert(rows[i].job.id != id);
    }
}

/// Reading gives back what was written, and writing leaves the other jobs alone.
pub proof fn rows_are_kept_by_job(rows: Seq<JobRowView>, v: JobRowView, other: Seq<char>)
    requires
        row_in(rows, v.job.id) is Some,
    ensures
        row_in(with_row(rows, v), v.job.id) == Some(v),
        other != v.job.id ==> row_in(with_row(rows, v), other) == row_in(rows, other),
        job_ids_differ(rows) ==> job_ids_differ(with_row(rows, v)),
{
    let i = job_slot(rows, v.job.id);
    let t = with_row(rows, v);
    job_slot_is_first(rows, v.job.id);
    job_slot_at(t, v.job.id, i);
    if other != v.job.id {
        job_slot_is_first(rows, other);
        job_slot_at(t, other, job_slot(rows, other));
    }
    if job_ids_differ(rows) {
        assert forall|a: int, b: int| 0 <= a < b < t.len() implies (#[trigger] t[a]).job.id != (#[trigger] t[b]).job.id by {
            assert(rows[a].job.id != rows[b].job.id);
        }
    }
}

impl SchedulerStore {
    /// An empty scheduler.
    pub fn new() -> (r: SchedulerStore)
        ensures
            r@ == (SchedulerView { jobs: Seq::empty(), runs: Seq::empty(), next_run_id: 1 }),
            r@.wf(),
    {
        let r = SchedulerStore { jobs: Vec::new(), runs: Vec::new(), next_run_id: 1 };
        assert(r@.jobs =~= Seq::empty());
        assert(r@.runs =~= Seq::empty());
        r
    }

    fn position(&self, id: &str) -> (r: usize)
        ensures
            r == job_slot(self@.jobs, id@),
            r <= self.jobs@.len(),
    {
        let mut i: usize = 0;
        while i < self.jobs.len()
            invariant
                i <= self.jobs.len(),
                forall|k: int| 0 <= k < i ==> (#[trigger] self@.jobs[k]).job.id != id@,
            decreases self.jobs.len() - i,
        {
            assert(self@.jobs[i as int] == self.jobs@[i as int]@);
            if same(self.jobs[i].job.id.as_str(), id) {
                proof {
                    job_slot_at(self@.jobs, id@, i as int);
                }
                return i;
            }
            i = i + 1;
        }
        proof {
            job_slot_at(self@.jobs, id@, i as int);
        }
        i
    }

    fn row(&self, id: &str) -> (r: Option<JobRow>)
        ensures
            match r {
                Some(v) => row_in(self@.jobs, id@) == Some(v@) && v@.job.id == id@,
                None => row_in(self@.jobs, id@) is None,
            },
    {
        let i: usize = self.position(id);
        proof {
            job_slot_is_first(self@.jobs, id@);
        }
        if i < self.jobs.len() {
            assert(self@.jobs[i as int] == self.jobs@[i as int]@);
            Some(copy_row(&self.jobs[i]))
        } else {
            None
        }
    }

    fn put_row(&mut self, v: JobRow)
        requires
            old(self)@.wf(),
            row_in(old(self)@.jobs, v@.job.id) is Some,
        ensures
            final(self)@ == (SchedulerView { jobs: with_row(old(self)@.jobs, v@), ..old(self)@ }),
            final(self)@.wf(),
    {
        let i: usize = self.position(v.job.id.as_str());
        proof {
            job_slot_is_first(self@.jobs, v@.job.id);
            rows_are_kept_by_job(self@.jobs, v@, v@.job.id);
        }
        let ghost before = self@.jobs;
        let ghost w = v@;
        self.jobs.set(i, v);
        assert(self@.jobs =~= before.update(i as int, w));
    }

    /// A job by its id.
    pub fn get_job(&self, id: &str) -> (r: Option<Job>)
        ensures
            opt_job(r) == (match row_in(self@.jobs, id@) {
                Some(v) => Some(v.job),
                None => None,
            }),
    {
        match self.row(id) {
            Some(v) => Some(v.job),
            None => None,
        }
    }
}

// ---------------------------------------------------------------------------
// Jobs
// ---------------------------------------------------------------------------

/// A row for a new job.
pub open spec fn new_row(id: Seq<char>, input: NewJob, next: Option<i64>, now: i64) -> JobRowView {
    JobRowView {
        job: JobView {
            id,
            name: input.name@,
            kind: input.kind@,
            cron: input.cron@,
            enabled: true,
            next_run_at: next,
            last_run_at: None,
        },
        locked_by: None,
        locked_until: None,
        created_at: now,
        updated_at: now,
    }
}

/// A new id from `Uuid::new_v4` of `uuid`. It is drawn by chance, so of its text no more is claimed
/// than its length.
#[verifier::external_body]
pub(crate) fn fresh_id() -> (r: String)
    ensures
        r@.len() == 36,
{
    uuid::Uuid::new_v4().to_string()
}

/// How many of the names come before a name.
pub open spec fn names_before(rows: Seq<JobRowView>, name: Seq<char>) -> int
    decreases rows.len(),
{
    if rows.len() == 0 {
        0
    } else {
        names_before(rows.drop_last(), name) + (if text_before(rows.last().job.name, name) {
            1int
        } else {
            0
        })
    }
}

/// The key by which jobs are listed: when they were made, and then by name.
pub open spec fn list_key(rows: Seq<JobRowView>, r: JobRowView) -> Key {
    (r.created_at as i128, names_before(rows, r.job.name) as i128)
}

/// The jobs as they are listed.
pub open spec fn listed(rows: Seq<JobRowView>) -> Seq<JobView> {
    let keys = rows.map_values(|r: JobRowView| list_key(rows, r));
    picked(rows, sorted_order(keys, keys.len() as int)).map_values(|r: JobRowView| r.job)
}

/// The rows without those of a job.
pub open spec fn without_job(rows: Seq<JobRowView>, id: Seq<char>) -> Seq<JobRowView>
    decreases rows.len(),
{
    if rows.len() == 0 {
        Seq::empty()
    } else if rows.last().job.id == id {
        without_job(rows.drop_last(), id)
    } else {
        without_job(rows.drop_last(), id).push(rows.last())
    }
}

/// The runs without those of a job.
pub open spec fn without_runs(runs: Seq<RunView>, id: Seq<char>) -> Seq<RunView>
    decreases runs.len(),
{
    if runs.len() == 0 {
        Seq::empty()
    } else if runs.last().job_id == id {
        without_runs(runs.drop_last(), id)
    } else {
        without_runs(runs.drop_last(), id).push(runs.last())
    }
}

proof fn without_job_facts(rows: Seq<JobRowView>, id: Seq<char>)
    requires
        job_ids_differ(rows),
    ensures
        job_ids_differ(without_job(rows, id)),
        forall|i: int|
            0 <= i < without_job(rows, id).len() ==> (#[trigger] without_job(rows, id)[i]).job.id != id && exists|
                k: int,
            |
                0 <= k < rows.len() && rows[k] == without_job(rows, id)[i],
    decreases rows.len(),
{
    if rows.len() > 0 {
        let d = rows.drop_last();
        let w = without_job(d, id);
        let t = without_job(rows, id);
        assert forall|i: int, j: int| 0 <= i < j < d.len() implies (#[trigger] d[i]).job.id != (#[trigger] d[j]).job.id by {
            assert(rows[i].job.id != rows[j].job.id);
        }
        without_job_facts(d, id);
        assert forall|i: int| 0 <= i < t.len() implies (#[trigger] t[i]).job.id != id && exists|k: int|
            0 <= k < rows.len() && rows[k] == t[i] by {
            if i < w.len() {
                assert(t[i] == w[i]);
                let k = choose|k: int| 0 <= k < d.len() && d[k] == w[i];
                assert(rows[k] == t[i]);
            } else {
                assert(rows[rows.len() - 1] == t[i]);
            }
        }
        assert forall|i: int, j: int| 0 <= i < j < t.len() implies (#[trigger] t[i]).job.id != (#[trigger] t[j]).job.id by {
            assert(t[i] == w[i]);
            if j < w.len() {
                assert(t[j] == w[j]);
            } else {
                let k = choose|k: int| 0 <= k < d.len() && d[k] == w[i];
                assert(rows[k].job.id != rows[rows.len() - 1].job.id);
            }
        }
    }
}

proof fn without_runs_grow(runs: Seq<RunView>, id: Seq<char>, next_id: int)
    requires
        run_ids_grow(runs, next_id),
    ensures
        run_ids_grow(without_runs(runs, id), next_id),
        runs.len() > 0 ==> forall|i: int|
            0 <= i < without_runs(runs, id).len() ==> (#[trigger] without_runs(runs, id)[i]).id <= runs.last().id,
    decreases runs.len(),
{
    if runs.len() > 0 {
        let d = runs.drop_last();
        let last = runs.last();
        assert(last.id < next_id) by {
            assert(runs[runs.len() - 1].id < next_id);
        }
        assert(run_ids_grow(d, last.id as int)) by {
            assert forall|i: int| 0 <= i < d.len() implies (#[trigger] d[i]).id < last.id by {
                assert(runs[i].id < runs[runs.len() - 1].id);
            }
            assert forall|i: int, j: int| 0 <= i < j < d.len() implies (#[trigger] d[i]).id < (#[trigger] d[j]).id by {
                assert(runs[i].id < runs[j].id);
            }
        }
        without_runs_grow(d, id, last.id as int);
        let w = without_runs(d, id);
        let t = without_runs(runs, id);
        assert forall|i: int| 0 <= i < t.len() implies (#[trigger] t[i]).id <= last.id by {
            if i < w.len() {
                assert(t[i] == w[i]);
            }
        }
        assert forall|i: int, j: int| 0 <= i < j < t.len() implies (#[trigger] t[i]).id < (#[trigger] t[j]).id by {
            assert(t[i] == w[i]);
            if j < w.len() {
                assert(t[j] == w[j]);
            }
        }
    }
}

/// A removed job is gone, and with it all its runs.
pub proof fn removed_jobs_are_gone(rows: Seq<JobRowView>, runs: Seq<RunView>, id: Seq<char>)
    requires
        job_ids_differ(rows),
    ensures
        row_in(without_job(rows, id), id) is None,
        forall|i: int| 0 <= i < without_runs(runs, id).len() ==> (#[trigger] without_runs(runs, id)[i]).job_id != id,
{
    without_job_facts(rows, id);
    let t = without_job(rows, id);
    job_slot_at(t, id, t.len() as int);
    removed_runs_are_gone(runs, id);
}

proof fn removed_runs_are_gone(runs: Seq<RunView>, id: Seq<char>)
    ensures
        forall|i: int| 0 <= i < without_runs(runs, id).len() ==> (#[trigger] without_runs(runs, id)[i]).job_id != id,
    decreases runs.len(),
{
    if runs.len() > 0 {
        let d = runs.drop_last();
        removed_runs_are_gone(d, id);
        assert forall|i: int| 0 <= i < without_runs(runs, id).len() implies (#[trigger] without_runs(runs, id)[i]).job_id
            != id by {
            if i < without_runs(d, id).len() {
                assert(without_runs(runs, id)[i] == without_runs(d, id)[i]);
            }
        }
    }
}

/// What is said of an id that another job has.
pub const ID_TAKEN_TEXT: &'static str =
    "error returned from database: (code: 1555) UNIQUE constraint failed: scheduler_jobs.id";

/// What is said of a run of a job that is not there.
pub const NO_JOB_TEXT: &'static str = "error returned from database: (code: 787) FOREIGN KEY constraint failed";

impl SchedulerStore {
    /// Schedules a job under an id. The first run is the next one that its expression names.
    pub fn add_job_as(&mut self, id: String, input: NewJob, now: i64) -> (r: Result<Job, SchedulerError>)
        requires
            old(self)@.wf(),
            now != LAST_MOMENT,
        ensures
            final(self)@.wf(),
            match next_run(input.cron@, now) {
                Err(f) => r is Err && tells(r->Err_0, input.cron@, now, f) && final(self)@ == old(self)@,
                Ok(next) => if row_in(old(self)@.jobs, id@) is Some {
                    (r matches Err(SchedulerError::Sqlx(t)) && t@ == ID_TAKEN_TEXT@) && final(self)@ == old(self)@
                } else {
                    let row = new_row(id@, input, next, now);
                    r is Ok && r->Ok_0@ == row.job && final(self)@ == (SchedulerView {
                        jobs: old(self)@.jobs.push(row),
                        ..old(self)@
                    })
                },
            },
    {
        let next = match next_after(input.cron.as_str(), now) {
            Ok(n) => n,
            Err(e) => {
                return Err(e);
            },
        };
        let i: usize = self.position(id.as_str());
        proof {
            job_slot_is_first(self@.jobs, id@);
        }
        if i < self.jobs.len() {
            return Err(SchedulerError::Sqlx(ID_TAKEN_TEXT.to_owned()));
        }
        let job = Job {
            id,
            name: input.name,
            kind: input.kind,
            cron: input.cron,
            enabled: true,
            next_run_at: next,
            last_run_at: None,
        };
        let answer = copy_job(&job);
        let row = JobRow { job, locked_by: None, locked_until: None, created_at: now, updated_at: now };
        let ghost before = self@.jobs;
        let ghost v = row@;
        self.jobs.push(row);
        assert(self@.jobs =~= before.push(v));
        assert(job_ids_differ(self@.jobs)) by {
            let t = self@.jobs;
            assert forall|a: int, b: int| 0 <= a < b < t.len() implies (#[trigger] t[a]).job.id != (#[trigger] t[b]).job.id by {
                assert(t[a] == before[a]);
                if b < before.len() {
                    assert(t[b] == before[b]);
                }
            }
        }
        Ok(answer)
    }

    /// Schedules a job under a new id.
    pub fn add_job(&mut self, input: NewJob, now: i64) -> (r: Result<Job, SchedulerError>)
        requires
            old(self)@.wf(),
            now != LAST_MOMENT,
        ensures
            final(self)@.wf(),
            match next_run(input.cron@, now) {
                Err(f) => r is Err && tells(r->Err_0, input.cron@, now, f) && final(self)@ == old(self)@,
                Ok(next) => match r {
                    Err(e) => (e matches SchedulerError::Sqlx(t) && t@ == ID_TAKEN_TEXT@) && old(self)@.jobs.len() > 0
                        && final(self)@ == old(self)@,
                    Ok(j) => j@ == new_row(j@.id, input, next, now).job && final(self)@ == (SchedulerView {
                        jobs: old(self)@.jobs.push(new_row(j@.id, input, next, now)),
                        ..old(self)@
                    }),
                },
            },
    {
        self.add_job_as(fresh_id(), input, now)
    }

    /// All jobs, in the order in which they were made, and by name.
    pub fn list_jobs(&self) -> (r: Vec<Job>)
        ensures
            jobs_of(r@) == listed(self@.jobs),
    {
        let ghost rows = self@.jobs;
        let n: usize = self.jobs.len();
        let mut keys: Vec<Key> = Vec::new();
        let mut i: usize = 0;
        while i < n
            invariant
                i <= n,
                n == self.jobs@.len(),
                rows == self@.jobs,
                keys@.len() == i,
                forall|k: int| 0 <= k < i ==> #[trigger] keys@[k] == list_key(rows, rows[k]),
            decreases n - i,
        {
            let mut rank: usize = 0;
            let mut j: usize = 0;
            assert(rows.take(0) =~= Seq::empty());
            assert(rows[i as int] == self.jobs@[i as int]@);
            while j < n
                invariant
                    i < n,
                    j <= n,
                    rank <= j,
                    n == self.jobs@.len(),
                    rows == self@.jobs,
                    rows[i as int] == self.jobs@[i as int]@,
                    rank == names_before(rows.take(j as int), rows[i as int].job.name),
                decreases n - j,
            {
                assert(rows.take(j + 1).drop_last() =~= rows.take(j as int));
                assert(rows[j as int] == self.jobs@[j as int]@);
                if is_text_before(self.jobs[j].job.name.as_str(), self.jobs[i].job.name.as_str()) {
                    rank = rank + 1;
                }
                j = j + 1;
            }
            assert(rows.take(j as int) =~= rows);
            keys.push((self.jobs[i].created_at as i128, rank as i128));
            i = i + 1;
        }
        let ghost keyseq = rows.map_values(|r: JobRowView| list_key(rows, r));
        assert(keys@ =~= keyseq);
        let order = sort_order(&keys);
        let ghost goal = picked(rows, positions(order@));
        let mut r: Vec<Job> = Vec::new();
        let mut k: usize = 0;
        while k < order.len()
            invariant
                k <= order.len(),
                rows == self@.jobs,
                goal == picked(rows, positions(order@)),
                forall|x: int| 0 <= x < order@.len() ==> #[trigger] order@[x] < self.jobs@.len(),
                r@.len() == k,
                forall|x: int| 0 <= x < k ==> (#[trigger] r@[x])@ == goal[x].job,
            decreases order.len() - k,
        {
            let at: usize = order[k];
            assert(goal[k as int] == self.jobs@[at as int]@);
            r.push(copy_job(&self.jobs[at].job));
            k = k + 1;
        }
        assert(jobs_of(r@) =~= listed(rows));
        r
    }

    /// Removes a job with all its runs.
    pub fn remove_job(&mut self, id: &str) -> (r: bool)
        requires
            old(self)@.wf(),
        ensures
            r == (row_in(old(self)@.jobs, id@) is Some),
            final(self)@ == (if r {
                SchedulerView {
                    jobs: without_job(old(self)@.jobs, id@),
                    runs: without_runs(old(self)@.runs, id@),
                    ..old(self)@
                }
            } else {
                old(self)@
            }),
            final(self)@.wf(),
    {
        let at: usize = self.position(id);
        if at >= self.jobs.len() {
            return false;
        }
        proof {
            without_job_facts(self@.jobs, id@);
            without_runs_grow(self@.runs, id@, self@.next_run_id as int);
        }
        let ghost rows = self@.jobs;
        let ghost runs = self@.runs;
        let mut kept: Vec<JobRow> = Vec::new();
        let mut i: usize = 0;
        assert(rows_of(kept@) =~= without_job(rows.take(0), id@));
        while i < self.jobs.len()
            invariant
                i <= self.jobs.len(),
                rows == self@.jobs,
                rows_of(kept@) == without_job(rows.take(i as int), id@),
            decreases self.jobs.len() - i,
        {
            assert(rows.take(i + 1).drop_last() =~= rows.take(i as int));
            assert(rows[i as int] == self.jobs@[i as int]@);
            if !same(self.jobs[i].job.id.as_str(), id) {
                let ghost before = rows_of(kept@);
                kept.push(copy_row(&self.jobs[i]));
                assert(rows_of(kept@) =~= before.push(rows[i as int]));
            }
            i = i + 1;
        }
        assert(rows.take(i as int) =~= rows);
        let mut left: Vec<JobRun> = Vec::new();
        let mut j: usize = 0;
        assert(runs_of(left@) =~= without_runs(runs.take(0), id@));
        while j < self.runs.len()
            invariant
                j <= self.runs.len(),
                runs == self@.runs,
                runs_of(left@) == without_runs(runs.take(j as int), id@),
            decreases self.runs.len() - j,
        {
            assert(runs.take(j + 1).drop_last() =~= runs.take(j as int));
            assert(runs[j as int] == self.runs@[j as int]@);
            if !same(self.runs[j].job_id.as_str(), id) {
                let ghost before = runs_of(left@);
                left.push(copy_run(&self.runs[j]));
                assert(runs_of(left@) =~= before.push(runs[j as int]));
            }
            j = j + 1;
        }
        assert(runs.take(j as int) =~= runs);
        self.jobs = kept;
        self.runs = left;
        true
    }
}

// ---------------------------------------------------------------------------
// Locks
// ---------------------------------------------------------------------------

/// Nobody has the job: it is not locked, or its lock has run out.
pub open spec fn unlocked(r: JobRowView, now: i64) -> bool {
    r.locked_until is None || r.locked_until->0 <= now
}

/// The job is to run now, and nobody has it.
pub open spec fn due(r: JobRowView, now: i64) -> bool {
    &&& r.job.enabled
    &&& r.job.next_run_at is Some
    &&& r.job.next_run_at->0 <= now
    &&& unlocked(r, now)
}

/// The row after a worker has locked the job.
pub open spec fn locked(r: JobRowView, worker: Seq<char>, now: i64, lease_secs: i64) -> JobRowView {
    JobRowView {
        locked_by: Some(worker),
        locked_until: Some((now + lease_secs) as i64),
        updated_at: now,
        ..r
    }
}

/// The row after the job was switched on or off.
pub open spec fn switched(r: JobRowView, enabled: bool, next: Option<i64>, now: i64) -> JobRowView {
    JobRowView {
        job: JobView { enabled, next_run_at: next, ..r.job },
        locked_by: None,
        locked_until: None,
        updated_at: now,
        ..r
    }
}

/// The row after a run of the job: the lock is given up, and the next run is named.
pub open spec fn completed(r: JobRowView, next: Option<i64>, finished_at: i64) -> JobRowView {
    JobRowView {
        job: JobView { last_run_at: Some(finished_at), next_run_at: next, ..r.job },
        locked_by: None,
        locked_until: None,
        updated_at: finished_at,
        ..r
    }
}

/// The rows that are due, in order.
pub open spec fn due_rows(rows: Seq<JobRowView>, now: i64) -> Seq<JobRowView>
    decreases rows.len(),
{
    if rows.len() == 0 {
        Seq::empty()
    } else if due(rows.last(), now) {
        due_rows(rows.drop_last(), now).push(rows.last())
    } else {
        due_rows(rows.drop_last(), now)
    }
}

/// The key by which due jobs are taken: when they should have run, and then when they were made.
pub open spec fn due_key(r: JobRowView) -> Key {
    (r.job.next_run_at->0 as i128, r.created_at as i128)
}

/// The due jobs that a worker takes, the longest overdue first.
pub open spec fn taken_rows(rows: Seq<JobRowView>, now: i64, limit: int) -> Seq<JobRowView> {
    let d = due_rows(rows, now);
    let keys = d.map_values(|r: JobRowView| due_key(r));
    picked(d, first_of(sorted_order(keys, keys.len() as int), admitted(limit, d.len())))
}

/// Some row of the list is that of a job.
pub open spec fn holds_job(list: Seq<JobRowView>, id: Seq<char>) -> bool {
    exists|i: int| 0 <= i < list.len() && (#[trigger] list[i]).job.id == id
}

/// The rows after a worker has locked the jobs of a list.
pub open spec fn all_locked(
    rows: Seq<JobRowView>,
    list: Seq<JobRowView>,
    worker: Seq<char>,
    now: i64,
    lease_secs: i64,
) -> Seq<JobRowView> {
    rows.map_values(
        |r: JobRowView|
            if holds_job(list, r.job.id) {
                locked(r, worker, now, lease_secs)
            } else {
                r
            },
    )
}

/// When a job runs after a moment: never where it is switched off.
pub open spec fn next_if_enabled(job: JobView, at: i64) -> Result<Option<i64>, Fault> {
    if job.enabled {
        next_run(job.cron, at)
    } else {
        Ok(None)
    }
}

fn is_unlocked(r: &JobRow, now: i64) -> (b: bool)
    ensures
        b == unlocked(r@, now),
{
    match r.locked_until {
        Some(t) => t <= now,
        None => true,
    }
}

fn is_due(r: &JobRow, now: i64) -> (b: bool)
    ensures
        b == due(r@, now),
{
    let time = match r.job.next_run_at {
        Some(t) => t <= now,
        None => false,
    };
    r.job.enabled && time && is_unlocked(r, now)
}

fn next_time(job: &Job, at: i64) -> (r: Result<Option<i64>, SchedulerError>)
    requires
        at != LAST_MOMENT,
    ensures
        match r {
            Ok(n) => next_if_enabled(job@, at) == Ok::<Option<i64>, Fault>(n) && (n is Some
                ==> n->0 > at),
            Err(e) => next_if_enabled(job@, at) is Err && tells(
                e,
                job@.cron,
                at,
                next_if_enabled(job@, at)->Err_0,
            ),
        },
{
    if job.enabled {
        next_after(job.cron.as_str(), at)
    } else {
        Ok(None)
    }
}

impl SchedulerStore {
    /// Switches a job on or off. One that is switched on runs next when its expression says; one
    /// that is switched off never does.
    pub fn set_enabled(&mut self, id: &str, enabled: bool, now: i64) -> (r: Result<bool, SchedulerError>)
        requires
            old(self)@.wf(),
            now != LAST_MOMENT,
        ensures
            final(self)@.wf(),
            match row_in(old(self)@.jobs, id@) {
                None => r matches Ok(b) && !b && final(self)@ == old(self)@,
                Some(row) => {
                    let next = if enabled {
                        next_run(row.job.cron, now)
                    } else {
                        Ok(None)
                    };
                    match next {
                        Err(f) => r is Err && tells(r->Err_0, row.job.cron, now, f) && final(self)@ == old(self)@,
                        Ok(n) => r matches Ok(b) && b && final(self)@ == (SchedulerView {
                            jobs: with_row(old(self)@.jobs, switched(row, enabled, n, now)),
                            ..old(self)@
                        }),
                    }
                },
            },
    {
        match self.row(id) {
            None => Ok(false),
            Some(mut row) => {
                let next = if enabled {
                    match next_after(row.job.cron.as_str(), now) {
                        Ok(n) => n,
                        Err(e) => {
                            return Err(e);
                        },
                    }
                } else {
                    None
                };
                row.job.enabled = enabled;
                row.job.next_run_at = next;
                row.locked_by = None;
                row.locked_until = None;
                row.updated_at = now;
                self.put_row(row);
                Ok(true)
            },
        }
    }

    /// Locks a job for a worker, where it is switched on and nobody has it.
    pub fn claim_job(&mut self, id: &str, now: i64, worker_id: &str, lease_secs: i64) -> (r: Option<Job>)
        requires
            old(self)@.wf(),
            i64::MIN <= now + lease_secs <= i64::MAX,
        ensures
            final(self)@.wf(),
            ({
                let row = row_in(old(self)@.jobs, id@);
                if row is Some && row->0.job.enabled && unlocked(row->0, now) {
                    opt_job(r) == Some(row->0.job) && final(self)@ == (SchedulerView {
                        jobs: with_row(old(self)@.jobs, locked(row->0, worker_id@, now, lease_secs)),
                        ..old(self)@
                    })
                } else {
                    r is None && final(self)@ == old(self)@
                }
            }),
    {
        match self.row(id) {
            None => None,
            Some(mut row) => {
                if !row.job.enabled || !is_unlocked(&row, now) {
                    return None;
                }
                row.locked_by = Some(worker_id.to_owned());
                row.locked_until = Some(now + lease_secs);
                row.updated_at = now;
                let job = copy_job(&row.job);
                self.put_row(row);
                Some(job)
            },
        }
    }

    /// Locks due jobs for a worker, the longest overdue first.
    pub fn claim_due_jobs(&mut self, now: i64, worker_id: &str, lease_secs: i64, limit: i64) -> (r: Vec<Job>)
        requires
            old(self)@.wf(),
            i64::MIN <= now + lease_secs <= i64::MAX,
        ensures
            final(self)@.wf(),
            ({
                let taken = taken_rows(old(self)@.jobs, now, limit as int);
                jobs_of(r@) == taken.map_values(|r: JobRowView| r.job) && final(self)@ == (SchedulerView {
                    jobs: all_locked(old(self)@.jobs, taken, worker_id@, now, lease_secs),
                    ..old(self)@
                })
            }),
    {
        let ghost rows = self@.jobs;
        let ghost d = due_rows(rows, now);
        let n: usize = self.jobs.len();
        let mut at: Vec<usize> = Vec::new();
        let mut keys: Vec<Key> = Vec::new();
        let mut i: usize = 0;
        assert(picked(rows, positions(at@)) =~= due_rows(rows.take(0), now));
        while i < n
            invariant
                i <= n,
                n == self.jobs@.len(),
                rows == self@.jobs,
                *self == *old(self),
                at@.len() == keys@.len(),
                forall|k: int| 0 <= k < at@.len() ==> #[trigger] at@[k] < i,
                picked(rows, positions(at@)) == due_rows(rows.take(i as int), now),
                forall|k: int| 0 <= k < keys@.len() ==> #[trigger] keys@[k] == due_key(rows[at@[k] as int]),
            decreases n - i,
        {
            assert(rows.take(i + 1).drop_last() =~= rows.take(i as int));
            assert(rows[i as int] == self.jobs@[i as int]@);
            if is_due(&self.jobs[i], now) {
                let ghost before = picked(rows, positions(at@));
                let time: i64 = match self.jobs[i].job.next_run_at {
                    Some(t) => t,
                    None => 0,
                };
                keys.push((time as i128, self.jobs[i].created_at as i128));
                at.push(i);
                assert(picked(rows, positions(at@)) =~= before.push(rows[i as int]));
            }
            i = i + 1;
        }
        assert(rows.take(i as int) =~= rows);
        assert(keys@ =~= d.map_values(|r: JobRowView| due_key(r))) by {
            assert forall|k: int| 0 <= k < keys@.len() implies keys@[k] == due_key(d[k]) by {
                assert(d[k] == rows[at@[k] as int]);
            }
        }
        let sorted = sort_order(&keys);
        let m: usize = at.len();
        let size: usize = if limit < 0 || limit as u64 > m as u64 {
            m
        } else {
            limit as usize
        };
        let ghost taken = taken_rows(rows, now, limit as int);
        let ghost first = first_of(positions(sorted@), size as nat);
        assert(taken == picked(d, first));
        let mut r: Vec<Job> = Vec::new();
        let mut chosen: Vec<usize> = Vec::new();
        let mut j: usize = 0;
        while j < size
            invariant
                j <= size,
                size <= m,
                m == at@.len(),
                sorted@.len() == m,
                rows == self@.jobs,
                rows.len() == self.jobs@.len(),
                *self == *old(self),
                d == picked(rows, positions(at@)),
                first == first_of(positions(sorted@), size as nat),
                taken == picked(d, first),
                forall|x: int| 0 <= x < at@.len() ==> #[trigger] at@[x] < self.jobs@.len(),
                forall|x: int| 0 <= x < sorted@.len() ==> #[trigger] sorted@[x] < m,
                r@.len() == j,
                chosen@.len() == j,
                forall|x: int| 0 <= x < j ==> (#[trigger] r@[x])@ == taken[x].job,
                forall|x: int| 0 <= x < j ==> #[trigger] chosen@[x] < self.jobs@.len(),
                forall|x: int| 0 <= x < j ==> rows[(#[trigger] chosen@[x]) as int] == taken[x],
            decreases size - j,
        {
            let s: usize = sorted[j];
            let p: usize = at[s];
            assert(first[j as int] == s as int);
            assert(taken[j as int] == d[s as int]);
            assert(d[s as int] == rows[p as int]);
            assert(rows[p as int] == self.jobs@[p as int]@);
            r.push(copy_job(&self.jobs[p].job));
            chosen.push(p);
            j = j + 1;
        }
        assert(taken.len() == size);
        assert(jobs_of(r@) =~= taken.map_values(|r: JobRowView| r.job));
        let ghost goal = all_locked(rows, taken, worker_id@, now, lease_secs);
        let mut k: usize = 0;
        while k < n
            invariant
                k <= n,
                n == rows.len(),
                self.jobs@.len() == n,
                rows == old(self)@.jobs,
                self@ == (SchedulerView { jobs: self@.jobs, ..old(self)@ }),
                job_ids_differ(rows),
                i64::MIN <= now + lease_secs <= i64::MAX,
                goal == all_locked(rows, taken, worker_id@, now, lease_secs),
                taken.len() == size,
                chosen@.len() == size,
                forall|x: int| 0 <= x < size ==> #[trigger] chosen@[x] < rows.len(),
                forall|x: int| 0 <= x < size ==> rows[(#[trigger] chosen@[x]) as int] == taken[x],
                forall|x: int| 0 <= x < k ==> (#[trigger] self.jobs@[x])@ == goal[x],
                forall|x: int| k <= x < n ==> (#[trigger] self.jobs@[x])@ == rows[x],
            decreases n - k,
        {
            let mut mine = false;
            let mut c: usize = 0;
            while c < size
                invariant
                    c <= size,
                    chosen@.len() == size,
                    mine == exists|x: int| 0 <= x < c && (#[trigger] chosen@[x]) == k,
                decreases size - c,
            {
                if chosen[c] == k {
                    assert(chosen@[c as int] == k);
                    mine = true;
                }
                c = c + 1;
            }
            proof {
                if mine {
                    let x = choose|x: int| 0 <= x < size && (#[trigger] chosen@[x]) == k;
                    assert(taken[x].job.id == rows[k as int].job.id);
                    assert(holds_job(taken, rows[k as int].job.id));
                } else if holds_job(taken, rows[k as int].job.id) {
                    let x = choose|x: int| 0 <= x < taken.len() && (#[trigger] taken[x]).job.id == rows[k as int].job.id;
                    let y = chosen@[x] as int;
                    assert(rows[y].job.id == rows[k as int].job.id);
                    if y < k {
                        assert(rows[y].job.id != rows[k as int].job.id);
                    } else if k < y {
                        assert(rows[k as int].job.id != rows[y].job.id);
                    }
                }
            }
            assert(self.jobs@[k as int]@ == rows[k as int]);
            if mine {
                let mut row = copy_row(&self.jobs[k]);
                row.locked_by = Some(worker_id.to_owned());
                row.locked_until = Some(now + lease_secs);
                row.updated_at = now;
                self.jobs.set(k, row);
            }
            k = k + 1;
        }
        assert(self@.jobs =~= goal);
        assert(job_ids_differ(goal)) by {
            assert forall|a: int, b: int| 0 <= a < b < goal.len() implies (#[trigger] goal[a]).job.id != (
            #[trigger] goal[b]).job.id by {
                assert(rows[a].job.id != rows[b].job.id);
            }
        }
        r
    }

    /// Notes that a job has run, whoever has its lock.
    pub fn complete_job(&mut self, job: &Job, finished_at: i64) -> (r: Result<(), SchedulerError>)
        requires
            old(self)@.wf(),
            finished_at != LAST_MOMENT,
        ensures
            final(self)@.wf(),
            match next_if_enabled(job@, finished_at) {
                Err(f) => r is Err && tells(r->Err_0, job@.cron, finished_at, f) && final(self)@ == old(self)@,
                Ok(next) => r is Ok && final(self)@ == (match row_in(old(self)@.jobs, job@.id) {
                    Some(row) => SchedulerView {
                        jobs: with_row(old(self)@.jobs, completed(row, next, finished_at)),
                        ..old(self)@
                    },
                    None => old(self)@,
                }),
            },
    {
        let next = match next_time(job, finished_at) {
            Ok(n) => n,
            Err(e) => {
                return Err(e);
            },
        };
        if let Some(mut row) = self.row(job.id.as_str()) {
            row.job.last_run_at = Some(finished_at);
            row.job.next_run_at = next;
            row.locked_by = None;
            row.locked_until = None;
            row.updated_at = finished_at;
            self.put_row(row);
        }
        Ok(())
    }

    /// Notes that a job has run, where the worker still has its lock.
    pub fn complete_claimed_job(&mut self, job: &Job, worker_id: &str, finished_at: i64) -> (r: Result<
        bool,
        SchedulerError,
    >)
        requires
            old(self)@.wf(),
            finished_at != LAST_MOMENT,
        ensures
            final(self)@.wf(),
            match next_if_enabled(job@, finished_at) {
                Err(f) => r is Err && tells(r->Err_0, job@.cron, finished_at, f) && final(self)@ == old(self)@,
                Ok(next) => {
                    let row = row_in(old(self)@.jobs, job@.id);
                    let mine = row is Some && row->0.locked_by == Some(worker_id@);
                    r == Ok::<bool, SchedulerError>(mine) && final(self)@ == (if mine {
                        SchedulerView {
                            jobs: with_row(old(self)@.jobs, completed(row->0, next, finished_at)),
                            ..old(self)@
                        }
                    } else {
                        old(self)@
                    })
                },
            },
    {
        let next = match next_time(job, finished_at) {
            Ok(n) => n,
            Err(e) => {
                return Err(e);
            },
        };
        match self.row(job.id.as_str()) {
            None => Ok(false),
            Some(mut row) => {
                let mine = match &row.locked_by {
                    Some(w) => same(w.as_str(), worker_id),
                    None => false,
                };
                if !mine {
                    return Ok(false);
                }
                row.job.last_run_at = Some(finished_at);
                row.job.next_run_at = next;
                row.locked_by = None;
                row.locked_until = None;
                row.updated_at = finished_at;
                self.put_row(row);
                Ok(true)
            },
        }
    }
}

// ---------------------------------------------------------------------------
// Runs
// ---------------------------------------------------------------------------

/// What is said of a run that its process did not finish.
pub const INTERRUPTED_TEXT: &'static str = "scheduler process ended before the run completed";

/// A run as it starts.
pub open spec fn started(id: i64, job_id: Seq<char>, now: i64) -> RunView {
    RunView {
        id,
        job_id,
        started_at: now,
        finished_at: None,
        status: RunStatus::Running,
        message: Seq::empty(),
    }
}

/// The runs after one of them was finished.
pub open spec fn run_finished(
    runs: Seq<RunView>,
    id: i64,
    status: RunStatus,
    message: Seq<char>,
    at: i64,
) -> Seq<RunView> {
    runs.map_values(
        |r: RunView|
            if r.id == id {
                RunView { status, message, finished_at: Some(at), ..r }
            } else {
                r
            },
    )
}

/// The process of a run is gone: it counts as running, but nobody has its job.
pub open spec fn stale(rows: Seq<JobRowView>, r: RunView, now: i64) -> bool {
    r.status == RunStatus::Running && row_in(rows, r.job_id) is Some && unlocked(row_in(rows, r.job_id)->0, now)
}

/// A run after it was found to be stale.
pub open spec fn interrupted(r: RunView, now: i64) -> RunView {
    RunView {
        status: RunStatus::Interrupted,
        message: INTERRUPTED_TEXT@,
        finished_at: Some(now),
        ..r
    }
}

/// The runs after all stale ones were marked.
pub open spec fn stale_marked(rows: Seq<JobRowView>, runs: Seq<RunView>, now: i64) -> Seq<RunView> {
    runs.map_values(
        |r: RunView|
            if stale(rows, r, now) {
                interrupted(r, now)
            } else {
                r
            },
    )
}

/// How many runs are stale.
pub open spec fn stale_count(rows: Seq<JobRowView>, runs: Seq<RunView>, now: i64) -> int
    decreases runs.len(),
{
    if runs.len() == 0 {
        0
    } else {
        stale_count(rows, runs.drop_last(), now) + (if stale(rows, runs.last(), now) {
            1int
        } else {
            0
        })
    }
}

/// The runs of a job, or of all, in order.
pub open spec fn runs_asked(runs: Seq<RunView>, job_id: Option<Seq<char>>) -> Seq<RunView>
    decreases runs.len(),
{
    if runs.len() == 0 {
        Seq::empty()
    } else if job_id is None || job_id == Some(runs.last().job_id) {
        runs_asked(runs.drop_last(), job_id).push(runs.last())
    } else {
        runs_asked(runs.drop_last(), job_id)
    }
}

/// The newest runs of a job, or of all.
pub open spec fn newest_runs(runs: Seq<RunView>, job_id: Option<Seq<char>>, limit: int) -> Seq<RunView> {
    let a = runs_asked(runs, job_id);
    let keys = a.map_values(|r: RunView| (-(r.started_at as i128) as i128, -(r.id as i128) as i128));
    picked(a, first_of(sorted_order(keys, keys.len() as int), admitted(limit, a.len())))
}

impl SchedulerStore {
    /// Notes that a job starts to run, and gives the id of the run.
    pub fn start_run(&mut self, job_id: &str, now: i64) -> (r: Result<i64, SchedulerError>)
        requires
            old(self)@.wf(),
            old(self)@.next_run_id < i64::MAX,
        ensures
            final(self)@.wf(),
            if row_in(old(self)@.jobs, job_id@) is None {
                (r matches Err(SchedulerError::Sqlx(t)) && t@ == NO_JOB_TEXT@) && final(self)@ == old(self)@
            } else {
                r == Ok::<i64, SchedulerError>(old(self)@.next_run_id) && final(self)@ == (SchedulerView {
                    runs: old(self)@.runs.push(started(old(self)@.next_run_id, job_id@, now)),
                    next_run_id: (old(self)@.next_run_id + 1) as i64,
                    ..old(self)@
                })
            },
    {
        let at: usize = self.position(job_id);
        if at >= self.jobs.len() {
            return Err(SchedulerError::Sqlx(NO_JOB_TEXT.to_owned()));
        }
        let id: i64 = self.next_run_id;
        let run = JobRun {
            id,
            job_id: job_id.to_owned(),
            started_at: now,
            finished_at: None,
            status: RunStatus::Running,
            message: String::new(),
        };
        let ghost before = self@.runs;
        let ghost v = run@;
        assert(v.message =~= Seq::empty());
        self.runs.push(run);
        self.next_run_id = id + 1;
        assert(self@.runs =~= before.push(v));
        assert(run_ids_grow(self@.runs, self@.next_run_id as int)) by {
            let t = self@.runs;
            assert forall|i: int, j: int| 0 <= i < j < t.len() implies (#[trigger] t[i]).id < (#[trigger] t[j]).id by {
                assert(t[i] == before[i]);
                if j < before.len() {
                    assert(t[j] == before[j]);
                }
            }
            assert forall|i: int| 0 <= i < t.len() implies (#[trigger] t[i]).id < self@.next_run_id by {
                if i < before.len() {
                    assert(t[i] == before[i]);
                }
            }
        }
        Ok(id)
    }

    /// Notes how a run ended.
    pub fn finish_run(&mut self, run_id: i64, status: RunStatus, message: &str, finished_at: i64)
        requires
            old(self)@.wf(),
        ensures
            final(self)@ == (SchedulerView {
                runs: run_finished(old(self)@.runs, run_id, status, message@, finished_at),
                ..old(self)@
            }),
            final(self)@.wf(),
    {
        let ghost before = self@.runs;
        let ghost goal = run_finished(before, run_id, status, message@, finished_at);
        let n: usize = self.runs.len();
        let mut i: usize = 0;
        while i < n
            invariant
                i <= n,
                n == before.len(),
                self.runs@.len() == n,
                before == old(self)@.runs,
                goal == run_finished(before, run_id, status, message@, finished_at),
                self@ == (SchedulerView { runs: self@.runs, ..old(self)@ }),
                forall|k: int| 0 <= k < i ==> (#[trigger] self.runs@[k])@ == goal[k],
                forall|k: int| i <= k < n ==> (#[trigger] self.runs@[k])@ == before[k],
            decreases n - i,
        {
            assert(self.runs@[i as int]@ == before[i as int]);
            if self.runs[i].id == run_id {
                let mut run = copy_run(&self.runs[i]);
                run.status = status;
                run.message = message.to_owned();
                run.finished_at = Some(finished_at);
                self.runs.set(i, run);
            }
            i = i + 1;
        }
        assert(self@.runs =~= goal);
        assert(run_ids_grow(goal, self@.next_run_id as int)) by {
            assert forall|a: int, b: int| 0 <= a < b < goal.len() implies (#[trigger] goal[a]).id < (#[trigger] goal[b]).id by {
                assert(before[a].id < before[b].id);
            }
            assert forall|a: int| 0 <= a < goal.len() implies (#[trigger] goal[a]).id < self@.next_run_id by {
                assert(before[a].id < self@.next_run_id);
            }
        }
    }

    /// Marks the runs whose process is gone, and gives their number.
    pub fn interrupt_stale_runs(&mut self, now: i64) -> (r: u64)
        requires
            old(self)@.wf(),
        ensures
            final(self)@ == (SchedulerView {
                runs: stale_marked(old(self)@.jobs, old(self)@.runs, now),
                ..old(self)@
            }),
            r == stale_count(old(self)@.jobs, old(self)@.runs, now),
            final(self)@.wf(),
    {
        let ghost rows = self@.jobs;
        let ghost before = self@.runs;
        let ghost goal = stale_marked(rows, before, now);
        let n: usize = self.runs.len();
        let mut changed: u64 = 0;
        let mut i: usize = 0;
        assert(before.take(0) =~= Seq::empty());
        while i < n
            invariant
                i <= n,
                n == before.len(),
                self.runs@.len() == n,
                rows == old(self)@.jobs,
                rows == self@.jobs,
                before == old(self)@.runs,
                goal == stale_marked(rows, before, now),
                self@ == (SchedulerView { runs: self@.runs, ..old(self)@ }),
                changed <= i,
                changed == stale_count(rows, before.take(i as int), now),
                forall|k: int| 0 <= k < i ==> (#[trigger] self.runs@[k])@ == goal[k],
                forall|k: int| i <= k < n ==> (#[trigger] self.runs@[k])@ == before[k],
            decreases n - i,
        {
            assert(before.take(i + 1).drop_last() =~= before.take(i as int));
            assert(self.runs@[i as int]@ == before[i as int]);
            let running = self.runs[i].status == RunStatus::Running;
            let free = match self.row(self.runs[i].job_id.as_str()) {
                Some(row) => is_unlocked(&row, now),
                None => false,
            };
            if running && free {
                let mut run = copy_run(&self.runs[i]);
                run.status = RunStatus::Interrupted;
                run.message = INTERRUPTED_TEXT.to_owned();
                run.finished_at = Some(now);
                self.runs.set(i, run);
                changed = changed + 1;
            }
            i = i + 1;
        }
        assert(before.take(i as int) =~= before);
        assert(self@.runs =~= goal);
        assert(run_ids_grow(goal, self@.next_run_id as int)) by {
            assert forall|a: int, b: int| 0 <= a < b < goal.len() implies (#[trigger] goal[a]).id < (#[trigger] goal[b]).id by {
                assert(before[a].id < before[b].id);
            }
            assert forall|a: int| 0 <= a < goal.len() implies (#[trigger] goal[a]).id < self@.next_run_id by {
                assert(before[a].id < self@.next_run_id);
            }
        }
        changed
    }

    /// The newest runs of a job, or of all.
    pub fn recent_runs(&self, job_id: Option<&str>, limit: i64) -> (r: Vec<JobRun>)
        ensures
            runs_of(r@) == newest_runs(self@.runs, opt_str_view(job_id), limit as int),
    {
        let ghost runs = self@.runs;
        let ghost asked = opt_str_view(job_id);
        let n: usize = self.runs.len();
        let mut at: Vec<usize> = Vec::new();
        let mut keys: Vec<Key> = Vec::new();
        let mut i: usize = 0;
        assert(picked(runs, positions(at@)) =~= runs_asked(runs.take(0), asked));
        while i < n
            invariant
                i <= n,
                n == self.runs@.len(),
                runs == self@.runs,
                asked == opt_str_view(job_id),
                at@.len() == keys@.len(),
                forall|k: int| 0 <= k < at@.len() ==> #[trigger] at@[k] < i,
                picked(runs, positions(at@)) == runs_asked(runs.take(i as int), asked),
                forall|k: int|
                    0 <= k < keys@.len() ==> #[trigger] keys@[k] == (
                        -(runs[at@[k] as int].started_at as i128) as i128,
                        -(runs[at@[k] as int].id as i128) as i128,
                    ),
            decreases n - i,
        {
            assert(runs.take(i + 1).drop_last() =~= runs.take(i as int));
            assert(runs[i as int] == self.runs@[i as int]@);
            let wanted = match job_id {
                Some(id) => same(self.runs[i].job_id.as_str(), id),
                None => true,
            };
            if wanted {
                let ghost before = picked(runs, positions(at@));
                keys.push((-(self.runs[i].started_at as i128), -(self.runs[i].id as i128)));
                at.push(i);
                assert(picked(runs, positions(at@)) =~= before.push(runs[i as int]));
            }
            i = i + 1;
        }
        assert(runs.take(i as int) =~= runs);
        let ghost a = runs_asked(runs, asked);
        let ghost keyseq = a.map_values(
            |r: RunView| (-(r.started_at as i128) as i128, -(r.id as i128) as i128),
        );
        assert(keys@ =~= keyseq) by {
            assert forall|k: int| 0 <= k < keys@.len() implies keys@[k] == keyseq[k] by {
                assert(a[k] == runs[at@[k] as int]);
            }
        }
        let sorted = sort_order(&keys);
        let m: usize = at.len();
        let size: usize = if limit < 0 || limit as u64 > m as u64 {
            m
        } else {
            limit as usize
        };
        let ghost goal = newest_runs(runs, asked, limit as int);
        let ghost first = first_of(positions(sorted@), size as nat);
        assert(goal == picked(a, first));
        let mut r: Vec<JobRun> = Vec::new();
        let mut j: usize = 0;
        while j < size
            invariant
                j <= size,
                size <= m,
                m == at@.len(),
                sorted@.len() == m,
                runs == self@.runs,
                a == picked(runs, positions(at@)),
                first == first_of(positions(sorted@), size as nat),
                goal == picked(a, first),
                forall|x: int| 0 <= x < at@.len() ==> #[trigger] at@[x] < self.runs@.len(),
                forall|x: int| 0 <= x < sorted@.len() ==> #[trigger] sorted@[x] < m,
                r@.len() == j,
                forall|x: int| 0 <= x < j ==> (#[trigger] r@[x])@ == goal[x],
            decreases size - j,
        {
            let s: usize = sorted[j];
            let p: usize = at[s];
            assert(first[j as int] == s as int);
            assert(goal[j as int] == a[s as int]);
            assert(a[s as int] == runs[p as int]);
            assert(runs[p as int] == self.runs@[p as int]@);
            r.push(copy_run(&self.runs[p]));
            j = j + 1;
        }
        assert(goal.len() == size);
        assert(runs_of(r@) =~= goal);
        r
    }
}

// ---------------------------------------------------------------------------
// What the locks promise
// ---------------------------------------------------------------------------

/// While a lock has not run out, no other worker can claim the job, neither by name nor as due.
pub proof fn locks_are_exclusive(r: JobRowView, worker: Seq<char>, now: i64, lease_secs: i64, then: i64)
    requires
        i64::MIN <= now + lease_secs <= i64::MAX,
        then < now + lease_secs,
    ensures
        !unlocked(locked(r, worker, now, lease_secs), then),
        !due(locked(r, worker, now, lease_secs), then),
{
}

/// Once a lock has run out, a due job can be claimed again.
pub proof fn expired_locks_are_free(r: JobRowView, worker: Seq<char>, now: i64, lease_secs: i64, then: i64)
    requires
        i64::MIN <= now + lease_secs <= i64::MAX,
        now + lease_secs <= then,
        due(r, now),
        now <= then,
    ensures
        due(locked(r, worker, now, lease_secs), then),
{
}

/// A worker whose job another one has claimed since cannot complete it.
pub proof fn stale_workers_complete_nothing(
    r: JobRowView,
    worker: Seq<char>,
    other: Seq<char>,
    now: i64,
    lease_secs: i64,
)
    requires
        worker != other,
    ensures
        locked(r, other, now, lease_secs).locked_by != Some(worker),
{
}

/// A job that is switched off is never due.
pub proof fn disabled_jobs_are_not_due(r: JobRowView, now: i64, then: i64)
    ensures
        !due(switched(r, false, None, now), then),
{
}

proof fn due_rows_are_due(rows: Seq<JobRowView>, now: i64)
    ensures
        forall|i: int| 0 <= i < due_rows(rows, now).len() ==> due(#[trigger] due_rows(rows, now)[i], now),
    decreases rows.len(),
{
    if rows.len() > 0 {
        let d = rows.drop_last();
        due_rows_are_due(d, now);
        let w = due_rows(d, now);
        let t = due_rows(rows, now);
        assert forall|i: int| 0 <= i < t.len() implies due(#[trigger] t[i], now) by {
            if i < w.len() {
                assert(t[i] == w[i]);
            }
        }
    }
}

/// What a worker takes is due, and no more than it may take.
pub proof fn taken_jobs_are_due(rows: Seq<JobRowView>, now: i64, limit: int)
    ensures
        forall|i: int| 0 <= i < taken_rows(rows, now, limit).len() ==> due(#[trigger] taken_rows(rows, now, limit)[i], now),
        limit >= 0 ==> taken_rows(rows, now, limit).len() <= limit,
{
    let d = due_rows(rows, now);
    let keys = d.map_values(|r: JobRowView| due_key(r));
    let n = keys.len() as int;
    let order = sorted_order(keys, n);
    let t = taken_rows(rows, now, limit);
    due_rows_are_due(rows, now);
    sorting_is_a_permutation(keys, n);
    assert forall|i: int| 0 <= i < t.len() implies due(#[trigger] t[i], now) by {
        assert(order.contains(order[i]));
        assert(t[i] == d[order[i]]);
    }
}

/// Marking stale runs once marks them all: right after it, none is stale.
pub proof fn marking_is_idempotent(rows: Seq<JobRowView>, runs: Seq<RunView>, now: i64)
    ensures
        forall|i: int|
            0 <= i < runs.len() && runs[i].status != RunStatus::Running ==> #[trigger] stale_marked(
                rows,
                runs,
                now,
            )[i] == runs[i],
        stale_count(rows, stale_marked(rows, runs, now), now) == 0,
    decreases runs.len(),
{
    let t = stale_marked(rows, runs, now);
    if runs.len() > 0 {
        let d = runs.drop_last();
        marking_is_idempotent(rows, d, now);
        assert(t.drop_last() =~= stale_marked(rows, d, now));
        assert(t.last() == t[runs.len() - 1]);
    }
}

} // verus!
