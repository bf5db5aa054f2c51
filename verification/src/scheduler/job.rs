//! Scheduled jobs, and when they run.
use crate::text::{chars_of, clone_opt, opt_text, signed_decimal, signed_decimal_of, split_words, str_trim, trimmed, words};
use vstd::prelude::*;

verus! {

/// What went wrong with a schedule.
#[derive(Debug, Clone, PartialEq, Eq)]
pub enum SchedulerError {
    Sqlx(String),
    Json(String),
    InvalidCronFieldCount(String),
    InvalidCron { expr: String, source: String },
    InvalidTimestamp(i64),
    UnknownJobKind(String),
    UnknownRunStatus(String),
}

/// The text of an error.
pub open spec fn scheduler_message(e: SchedulerError) -> Seq<char> {
    match e {
        SchedulerError::Sqlx(m) => "scheduler db: "@ + m@,
        SchedulerError::Json(m) => "scheduler json: "@ + m@,
        SchedulerError::InvalidCronFieldCount(x) => "cron expression must have 5 fields: "@ + x@,
        SchedulerError::InvalidCron { expr, source } => "invalid cron expression '"@ + expr@ + "': "@ + source@,
        SchedulerError::InvalidTimestamp(t) => "invalid timestamp: "@ + signed_decimal(t as int),
        SchedulerError::UnknownJobKind(k) => "unknown scheduler job kind: "@ + k@,
        SchedulerError::UnknownRunStatus(s) => "unknown scheduler run status: "@ + s@,
    }
}

fn labelled(label: &str, text: &str) -> (r: String)
    ensures
        r@ == label@ + text@,
{
    let mut s = String::from_str(label);
    s.append(text);
    s
}

impl SchedulerError {
    /// The text of the error.
    pub fn message(&self) -> (r: String)
        ensures
            r@ == scheduler_message(*self),
    {
        match self {
            SchedulerError::Sqlx(m) => labelled("scheduler db: ", m.as_str()),
            SchedulerError::Json(m) => labelled("scheduler json: ", m.as_str()),
            SchedulerError::InvalidCronFieldCount(x) => labelled(
                "cron expression must have 5 fields: ",
                x.as_str(),
            ),
            SchedulerError::InvalidCron { expr, source } => {
                let mut s = String::from_str("invalid cron expression '");
                s.append(expr.as_str());
                s.append("': ");
                s.append(source.as_str());
                s
            },
            SchedulerError::InvalidTimestamp(t) => {
                let d = signed_decimal_of(*t);
                labelled("invalid timestamp: ", d.as_str())
            },
            SchedulerError::UnknownJobKind(k) => labelled("unknown scheduler job kind: ", k.as_str()),
            SchedulerError::UnknownRunStatus(x) => labelled("unknown scheduler run status: ", x.as_str()),
        }
    }
}

/// What is maintained.
#[derive(Debug, Clone, Copy, PartialEq, Eq, Structural)]
pub enum MaintenanceTask {
    Snapshot,
    Consolidate,
    Prune,
}

/// What a job does.
#[derive(Debug, Clone, PartialEq, Eq)]
pub enum JobKind {
    Turn { scope: String, prompt: String },
    Maintenance { scope: Option<String>, task: MaintenanceTask },
}

/// The mathematical form of what a job does.
pub enum JobKindView {
    Turn { scope: Seq<char>, prompt: Seq<char> },
    Maintenance { scope: Option<Seq<char>>, task: MaintenanceTask },
}

impl View for JobKind {
    type V = JobKindView;

    open spec fn view(&self) -> JobKindView {
        match self {
            JobKind::Turn { scope, prompt } => JobKindView::Turn { scope: scope@, prompt: prompt@ },
            JobKind::Maintenance { scope, task } => JobKindView::Maintenance {
                scope: opt_text(*scope),
                task: *task,
            },
        }
    }
}

/// A copy of what a job does.
pub fn copy_kind(k: &JobKind) -> (r: JobKind)
    ensures
        r@ == k@,
{
    match k {
        JobKind::Turn { scope, prompt } => JobKind::Turn { scope: scope.clone(), prompt: prompt.clone() },
        JobKind::Maintenance { scope, task } => JobKind::Maintenance {
            scope: clone_opt(scope),
            task: *task,
        },
    }
}

/// The word that a job's kind is stored under.
pub open spec fn label_of(k: JobKindView) -> Seq<char> {
    match k {
        JobKindView::Turn { .. } => "turn"@,
        JobKindView::Maintenance { .. } => "maintenance"@,
    }
}

/// The word that a job's kind is stored under.
pub fn kind_label(kind: &JobKind) -> (r: &'static str)
    ensures
        r@ == label_of(kind@),
{
    match kind {
        JobKind::Turn { .. } => "turn",
        JobKind::Maintenance { .. } => "maintenance",
    }
}

/// Holds a stored kind against the word that it was stored under.
pub fn checked_kind(label: &str, kind: JobKind) -> (r: Result<JobKind, SchedulerError>)
    ensures
        match r {
            Ok(k) => label@ == label_of(kind@) && k == kind,
            Err(e) => label@ != label_of(kind@) && (e matches SchedulerError::UnknownJobKind(l) && l@ == label@),
        },
{
    if crate::text::same(kind_label(&kind), label) {
        Ok(kind)
    } else {
        Err(SchedulerError::UnknownJobKind(label.to_owned()))
    }
}

/// A scheduled job.
#[derive(Debug, Clone, PartialEq, Eq)]
pub struct Job {
    pub id: String,
    pub name: String,
    pub kind: JobKind,
    pub cron: String,
    pub enabled: bool,
    pub next_run_at: Option<i64>,
    pub last_run_at: Option<i64>,
}

/// The mathematical form of a job.
pub struct JobView {
    pub id: Seq<char>,
    pub name: Seq<char>,
    pub kind: JobKindView,
    pub cron: Seq<char>,
    pub enabled: bool,
    pub next_run_at: Option<i64>,
    pub last_run_at: Option<i64>,
}

impl View for Job {
    type V = JobView;

    open spec fn view(&self) -> JobView {
        JobView {
            id: self.id@,
            name: self.name@,
            kind: self.kind@,
            cron: self.cron@,
            enabled: self.enabled,
            next_run_at: self.next_run_at,
            last_run_at: self.last_run_at,
        }
    }
}

/// The mathematical forms of jobs.
pub open spec fn jobs_of(v: Seq<Job>) -> Seq<JobView> {
    v.map_values(|j: Job| j@)
}

/// The mathematical form of an optional job.
pub open spec fn opt_job(o: Option<Job>) -> Option<JobView> {
    match o {
        Some(j) => Some(j@),
        None => None,
    }
}

/// A copy of a job.
pub fn copy_job(j: &Job) -> (r: Job)
    ensures
        r@ == j@,
{
    Job {
        id: j.id.clone(),
        name: j.name.clone(),
        kind: copy_kind(&j.kind),
        cron: j.cron.clone(),
        enabled: j.enabled,
        next_run_at: j.next_run_at,
        last_run_at: j.last_run_at,
    }
}

/// A job that is to be scheduled.
#[derive(Debug, Clone, PartialEq, Eq)]
pub struct NewJob {
    pub name: String,
    pub kind: JobKind,
    pub cron: String,
}

// ---------------------------------------------------------------------------
// Expressions
// ---------------------------------------------------------------------------

/// What `cron` finds wrong with an expression of six fields, the first for the seconds.
pub uninterp spec fn cron_fault(expression: Seq<char>) -> Option<Seq<char>>;

/// The first moment strictly after another that an expression of six fields names, in Universal
/// Time, as `cron` finds it.
pub uninterp spec fn next_moment(expression: Seq<char>, after: i64) -> Option<i64>;

/// The first second that `chrono` has a date for.
pub const FIRST_MOMENT: i64 = -8_334_601_228_800;

/// The last second that `chrono` has a date for.
pub const LAST_MOMENT: i64 = 8_210_266_876_799;

/// Reads an expression with `Schedule::from_str` of `cron`, by way of `str::parse`. An error is
/// given by its text.
#[verifier::external_body]
fn read_expression(expression: &str) -> (r: Result<(), String>)
    ensures
        match r {
            Ok(_) => cron_fault(expression@) is None,
            Err(m) => cron_fault(expression@) == Some(m@),
        },
{
    match expression.parse::<cron::Schedule>() {
        Ok(_) => Ok(()),
        Err(e) => Err(e.to_string()),
    }
}

/// Asks `timestamp_opt` of `chrono` whether a number of seconds since the start of 1970 has a date
/// in Universal Time. It has one exactly inside the range of years that `chrono` covers, from
/// -262143 up to 262142.
#[verifier::external_body]
fn has_date(seconds: i64) -> (r: bool)
    ensures
        r == (FIRST_MOMENT <= seconds <= LAST_MOMENT),
{
    chrono::TimeZone::timestamp_opt(&chrono::Utc, seconds, 0).single().is_some()
}

/// Takes the first moment from `Schedule::after` of `cron`. The search starts a second after the
/// given moment, so what it finds is later; a second after the last moment that has a date, `chrono`
/// would panic.
#[verifier::external_body]
fn first_after(expression: &str, after: i64) -> (r: Option<i64>)
    requires
        cron_fault(expression@) is None,
        FIRST_MOMENT <= after < LAST_MOMENT,
    ensures
        r == next_moment(expression@, after),
        r is Some ==> r->0 > after,
{
    let schedule = expression.parse::<cron::Schedule>().ok()?;
    let start = chrono::TimeZone::timestamp_opt(&chrono::Utc, after, 0).single()?;
    let found = schedule.after(&start).next()?;
    Some(found.timestamp())
}

/// What is wrong with a schedule.
pub enum Fault {
    FieldCount,
    Expression(Seq<char>),
    Moment,
}

/// An expression of five fields with a field for the seconds.
pub open spec fn with_seconds(expr: Seq<char>) -> Seq<char> {
    "0 "@ + trimmed(expr)
}

/// What is wrong with an expression of five fields.
pub open spec fn expression_fault(expr: Seq<char>) -> Option<Fault> {
    if words(trimmed(expr)).len() != 5 {
        Some(Fault::FieldCount)
    } else {
        match cron_fault(with_seconds(expr)) {
            Some(m) => Some(Fault::Expression(m)),
            None => None,
        }
    }
}

/// When a job runs next.
pub open spec fn next_run(expr: Seq<char>, after: i64) -> Result<Option<i64>, Fault> {
    match expression_fault(expr) {
        Some(f) => Err(f),
        None => if FIRST_MOMENT <= after <= LAST_MOMENT {
            Ok(next_moment(with_seconds(expr), after))
        } else {
            Err(Fault::Moment)
        },
    }
}

/// The error tells of the fault.
pub open spec fn tells(e: SchedulerError, expr: Seq<char>, after: i64, f: Fault) -> bool {
    match f {
        Fault::FieldCount => e matches SchedulerError::InvalidCronFieldCount(x) && x@ == expr,
        Fault::Expression(m) => e matches SchedulerError::InvalidCron { expr: x, source } && x@ == expr && source@
            == m,
        Fault::Moment => e == SchedulerError::InvalidTimestamp(after),
    }
}

/// Decides about an expression of five fields, given what `cron` says of it.
pub fn judge_expression(expr: &str, fields: usize, reading: Result<(), String>) -> (r: Result<(), SchedulerError>)
    ensures
        match r {
            Ok(_) => fields == 5 && reading is Ok,
            Err(e) => if fields != 5 {
                tells(e, expr@, 0, Fault::FieldCount)
            } else {
                reading is Err && tells(e, expr@, 0, Fault::Expression(reading->Err_0@))
            },
        },
{
    if fields != 5 {
        return Err(SchedulerError::InvalidCronFieldCount(expr.to_owned()));
    }
    match reading {
        Ok(_) => Ok(()),
        Err(source) => Err(SchedulerError::InvalidCron { expr: expr.to_owned(), source }),
    }
}

fn parse_schedule(expr: &str) -> (r: Result<String, SchedulerError>)
    ensures
        match r {
            Ok(s) => expression_fault(expr@) is None && s@ == with_seconds(expr@),
            Err(e) => expression_fault(expr@) is Some && tells(e, expr@, 0, expression_fault(expr@)->0),
        },
{
    let t = str_trim(expr);
    let v = chars_of(t.as_str());
    let fields = split_words(v.as_slice());
    assert(crate::text::texts(fields@).len() == fields@.len());
    if fields.len() != 5 {
        return Err(SchedulerError::InvalidCronFieldCount(expr.to_owned()));
    }
    let mut s = String::from_str("0 ");
    s.append(t.as_str());
    match judge_expression(expr, fields.len(), read_expression(s.as_str())) {
        Ok(_) => Ok(s),
        Err(e) => Err(e),
    }
}

/// Whether an expression of five fields says when a job runs.
pub fn validate_cron(expr: &str) -> (r: Result<(), SchedulerError>)
    ensures
        match r {
            Ok(_) => expression_fault(expr@) is None,
            Err(e) => expression_fault(expr@) is Some && tells(e, expr@, 0, expression_fault(expr@)->0),
        },
{
    match parse_schedule(expr) {
        Ok(_) => Ok(()),
        Err(e) => Err(e),
    }
}

/// When a job runs next after a moment; never where the expression names no later moment.
pub fn next_after(expr: &str, after_unix: i64) -> (r: Result<Option<i64>, SchedulerError>)
    requires
        after_unix != LAST_MOMENT,
    ensures
        match r {
            Ok(n) => next_run(expr@, after_unix) == Ok::<Option<i64>, Fault>(n) && (n is Some ==> n->0 > after_unix),
            Err(e) => next_run(expr@, after_unix) is Err && tells(
                e,
                expr@,
                after_unix,
                next_run(expr@, after_unix)->Err_0,
            ),
        },
{
    let s = match parse_schedule(expr) {
        Ok(s) => s,
        Err(e) => {
            return Err(e);
        },
    };
    if !has_date(after_unix) {
        return Err(SchedulerError::InvalidTimestamp(after_unix));
    }
    Ok(first_after(s.as_str(), after_unix))
}

} // verus!
