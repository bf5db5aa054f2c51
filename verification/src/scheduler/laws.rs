//! What the scheduler is for: every job whose time has come is taken, by one worker at a time and the
//! longest overdue first, it comes back after each run, and its runs are told apart.
use crate::order::{key_before, sorted_order, sorting_is_a_permutation};
use crate::scheduler::job::{next_run, Fault, JobView};
use crate::scheduler::store::{
    all_locked, completed, due, due_key, due_rows, listed, list_key, locked, new_row, names_before, newest_runs,
    next_if_enabled, row_in, run_finished, runs_asked, stale, stale_count, stale_marked, started,
    switched, taken_rows, without_job, without_runs, JobRowView, RunStatus, RunView,
};
use crate::scheduler::job::NewJob;
use crate::memory::report_laws::texts_have_an_order;
use crate::order::text_before;
use vstd::prelude::*;

verus! {

// ---------------------------------------------------------------------------
// Claiming
// ---------------------------------------------------------------------------

/// The time of a job has come: it is switched on, its next run is named and not later than now, and
/// no worker holds it beyond now.
pub open spec fn time_has_come(r: JobRowView, now: i64) -> bool {
    &&& r.job.enabled
    &&& match r.job.next_run_at {
        Some(t) => t <= now,
        None => false,
    }
    &&& match r.locked_until {
        Some(t) => t <= now,
        None => true,
    }
}

/// The first job is no later in turn than the second: it should have run earlier, or at the same
/// moment and was made no later.
pub open spec fn no_later(a: JobRowView, b: JobRowView) -> bool {
    match (a.job.next_run_at, b.job.next_run_at) {
        (Some(x), Some(y)) => x < y || (x == y && a.created_at <= b.created_at),
        _ => false,
    }
}

proof fn due_rows_hold(rows: Seq<JobRowView>, now: i64)
    ensures
        forall|i: int| 0 <= i < rows.len() && time_has_come(#[trigger] rows[i], now) ==> due_rows(rows, now).contains(rows[i]),
        forall|i: int|
            0 <= i < due_rows(rows, now).len() ==> time_has_come(#[trigger] due_rows(rows, now)[i], now) && rows.contains(
                due_rows(rows, now)[i],
            ),
    decreases rows.len(),
{
    if rows.len() > 0 {
        let d = rows.drop_last();
        let w = due_rows(d, now);
        let t = due_rows(rows, now);
        due_rows_hold(d, now);
        assert forall|i: int| 0 <= i < rows.len() && time_has_come(#[trigger] rows[i], now) implies t.contains(rows[i]) by {
            if i < d.len() {
                assert(time_has_come(d[i], now));
                let k = w.index_of(d[i]);
                assert(t[k] == rows[i]);
            } else {
                assert(t[w.len() as int] == rows[i]);
            }
        }
        assert forall|i: int| 0 <= i < t.len() implies time_has_come(#[trigger] t[i], now) && rows.contains(t[i]) by {
            if i < w.len() {
                assert(t[i] == w[i]);
                let k = d.index_of(w[i]);
                assert(rows[k] == t[i]);
            } else {
                assert(rows[rows.len() - 1] == t[i]);
            }
        }
    }
}

/// A worker that asks for jobs gets exactly those whose time has come, as long as it asks for enough:
/// a job whose time has come is left only where as many as asked for were taken, none of them later
/// in turn. What it gets is in turn, and a negative limit takes all.
pub proof fn every_job_whose_time_has_come_is_taken(rows: Seq<JobRowView>, now: i64, limit: int)
    ensures
        forall|i: int|
            0 <= i < taken_rows(rows, now, limit).len() ==> time_has_come(#[trigger] taken_rows(rows, now, limit)[i], now)
                && rows.contains(taken_rows(rows, now, limit)[i]),
        forall|i: int|
            #![trigger rows[i]]
            0 <= i < rows.len() && time_has_come(rows[i], now) && !taken_rows(rows, now, limit).contains(rows[i]) ==> limit
                >= 0 && taken_rows(rows, now, limit).len() == limit && forall|k: int|
                0 <= k < taken_rows(rows, now, limit).len() ==> no_later(
                    #[trigger] taken_rows(rows, now, limit)[k],
                    rows[i],
                ),
        forall|a: int, b: int|
            0 <= a < b < taken_rows(rows, now, limit).len() ==> no_later(
                #[trigger] taken_rows(rows, now, limit)[a],
                #[trigger] taken_rows(rows, now, limit)[b],
            ),
{
    let d = due_rows(rows, now);
    let keys = d.map_values(|r: JobRowView| due_key(r));
    let n = keys.len() as int;
    let order = sorted_order(keys, n);
    let t = taken_rows(rows, now, limit);
    due_rows_hold(rows, now);
    sorting_is_a_permutation(keys, n);
    assert forall|i: int| 0 <= i < t.len() implies 0 <= #[trigger] order[i] < n && t[i] == d[order[i]] by {
        assert(order.contains(order[i]));
    }
    assert forall|a: int, b: int| 0 <= a < b < n implies no_later(d[#[trigger] order[a]], d[#[trigger] order[b]]) by {
        assert(order.contains(order[a]));
        assert(order.contains(order[b]));
        assert(!key_before(keys[order[b]], keys[order[a]]));
        assert(time_has_come(d[order[a]], now));
        assert(time_has_come(d[order[b]], now));
    }
    assert forall|i: int| 0 <= i < t.len() implies time_has_come(#[trigger] t[i], now) && rows.contains(t[i]) by {
        assert(0 <= order[i] < n);
    }
    assert forall|a: int, b: int| 0 <= a < b < t.len() implies no_later(#[trigger] t[a], #[trigger] t[b]) by {
        assert(0 <= order[a] < n);
        assert(0 <= order[b] < n);
    }
    assert forall|i: int|
        #![trigger rows[i]]
        0 <= i < rows.len() && time_has_come(rows[i], now) && !t.contains(rows[i]) implies limit >= 0 && t.len() == limit
        && forall|k: int| 0 <= k < t.len() ==> no_later(#[trigger] t[k], rows[i]) by {
        let x = d.index_of(rows[i]);
        assert(d[x] == rows[i]);
        assert(order.contains(x));
        let at = order.index_of(x);
        if at < t.len() {
            assert(t[at] == rows[i]);
        }
        assert forall|k: int| 0 <= k < t.len() implies no_later(#[trigger] t[k], rows[i]) by {
            assert(0 <= order[k] < n);
            assert(no_later(d[order[k]], d[order[at]]));
        }
    }
}

/// A job is due when its time has come, whatever else is known of it.
pub proof fn due_jobs_are_those_whose_time_has_come(r: JobRowView, now: i64)
    ensures
        due(r, now) <==> r.job.enabled && r.job.next_run_at is Some && r.job.next_run_at->0 <= now && (r.locked_until is None
            || r.locked_until->0 <= now),
{
}

/// A worker that takes jobs holds exactly those it took, until its lease runs out; every other job is
/// left as it was, and nothing of what a job is changes.
pub proof fn taking_locks_what_was_taken(
    rows: Seq<JobRowView>,
    list: Seq<JobRowView>,
    worker: Seq<char>,
    now: i64,
    lease_secs: i64,
    i: int,
)
    requires
        0 <= i < rows.len(),
        i64::MIN <= now + lease_secs <= i64::MAX,
    ensures
        ({
            let t = all_locked(rows, list, worker, now, lease_secs);
            let taken = exists|k: int| 0 <= k < list.len() && (#[trigger] list[k]).job.id == rows[i].job.id;
            &&& t.len() == rows.len()
            &&& t[i].job == rows[i].job
            &&& t[i].created_at == rows[i].created_at
            &&& taken ==> t[i].locked_by == Some(worker) && t[i].locked_until == Some((now + lease_secs) as i64)
                && t[i].updated_at == now
            &&& !taken ==> t[i] == rows[i]
        }),
{
}

/// A claim leaves the job as it is and locks it for the worker until the lease runs out.
pub proof fn claims_only_lock(r: JobRowView, worker: Seq<char>, now: i64, lease_secs: i64)
    requires
        i64::MIN <= now + lease_secs <= i64::MAX,
    ensures
        locked(r, worker, now, lease_secs).job == r.job,
        locked(r, worker, now, lease_secs).created_at == r.created_at,
        locked(r, worker, now, lease_secs).locked_by == Some(worker),
        locked(r, worker, now, lease_secs).locked_until == Some((now + lease_secs) as i64),
{
}

// ---------------------------------------------------------------------------
// Coming back
// ---------------------------------------------------------------------------

/// A job that has run comes back: nobody holds it, it stays what it is, and once the moment of its
/// next run has come its time has come again. Before that moment it has not.
pub proof fn jobs_come_back(r: JobRowView, next: i64, finished_at: i64, then: i64)
    ensures
        ({
            let c = completed(r, Some(next), finished_at);
            &&& r.job.enabled && then >= next ==> due(c, then)
            &&& then < next ==> !due(c, then)
            &&& c.job == JobView { last_run_at: Some(finished_at), next_run_at: Some(next), ..r.job }
            &&& c.locked_by is None && c.locked_until is None
            &&& c.created_at == r.created_at
        }),
        !due(completed(r, None, finished_at), then),
{
}

/// A job that is switched on runs when its next run has come; one that is switched off, or made anew
/// without a next run, never does. Switching lets go of a lock and changes nothing else.
pub proof fn switches_decide(r: JobRowView, next: i64, now: i64, then: i64)
    ensures
        then >= next ==> due(switched(r, true, Some(next), now), then),
        then < next ==> !due(switched(r, true, Some(next), now), then),
        !due(switched(r, false, Some(next), now), then),
        switched(r, true, Some(next), now).job == (JobView { enabled: true, next_run_at: Some(next), ..r.job }),
        switched(r, true, Some(next), now).created_at == r.created_at,
        switched(r, true, Some(next), now).locked_by is None,
{
}

/// A new job is switched on, is held by nobody, has never run, and runs when its first run has come.
pub proof fn new_jobs_wait_for_their_first_run(id: Seq<char>, input: NewJob, next: i64, now: i64, then: i64)
    ensures
        ({
            let r = new_row(id, input, Some(next), now);
            &&& due(r, then) <==> then >= next
            &&& r.job.id == id && r.job.name == input.name@ && r.job.cron == input.cron@ && r.job.kind == input.kind@
            &&& r.job.last_run_at is None
            &&& r.created_at == now
        }),
{
}

/// A job that is switched off has no next run; one that is switched on has the next one that its
/// expression names after the moment.
pub proof fn next_runs_follow_the_expression(job: JobView, at: i64)
    ensures
        !job.enabled ==> next_if_enabled(job, at) == Ok::<Option<i64>, Fault>(None),
        job.enabled ==> next_if_enabled(job, at) == next_run(job.cron, at),
{
}

// ---------------------------------------------------------------------------
// Lists
// ---------------------------------------------------------------------------

/// Every job is listed, as it is, and no job twice: the oldest first.
pub proof fn every_job_is_listed(rows: Seq<JobRowView>)
    ensures
        listed(rows).len() == rows.len(),
        forall|i: int| 0 <= i < rows.len() ==> listed(rows).contains((#[trigger] rows[i]).job),
        forall|k: int|
            #![trigger listed(rows)[k]]
            0 <= k < listed(rows).len() ==> exists|i: int|
                0 <= i < rows.len() && (#[trigger] rows[i]).job == listed(rows)[k],
        forall|a: int, b: int|
            #![trigger listed(rows)[a], listed(rows)[b]]
            0 <= a < b < rows.len() ==> exists|i: int, j: int|
                0 <= i < rows.len() && 0 <= j < rows.len() && i != j && listed(rows)[a] == (#[trigger] rows[i]).job
                    && listed(rows)[b] == (#[trigger] rows[j]).job && rows[i].created_at <= rows[j].created_at,
{
    let keys = rows.map_values(|r: JobRowView| list_key(rows, r));
    let n = keys.len() as int;
    let order = sorted_order(keys, n);
    let l = listed(rows);
    sorting_is_a_permutation(keys, n);
    assert forall|k: int| 0 <= k < n implies 0 <= #[trigger] order[k] < n && l[k] == rows[order[k]].job by {
        assert(order.contains(order[k]));
    }
    assert forall|i: int| 0 <= i < rows.len() implies l.contains((#[trigger] rows[i]).job) by {
        assert(order.contains(i));
        let k = order.index_of(i);
        assert(order[k] == i);
        assert(l[k] == rows[i].job);
    }
    assert forall|k: int| #![trigger l[k]] 0 <= k < l.len() implies exists|i: int|
        0 <= i < rows.len() && (#[trigger] rows[i]).job == l[k] by {
        assert(0 <= order[k] < n);
        assert(rows[order[k]].job == l[k]);
    }
    assert forall|a: int, b: int| #![trigger l[a], l[b]] 0 <= a < b < rows.len() implies exists|i: int, j: int|
        0 <= i < rows.len() && 0 <= j < rows.len() && i != j && l[a] == (#[trigger] rows[i]).job && l[b] == (
        #[trigger] rows[j]).job && rows[i].created_at <= rows[j].created_at by {
        assert(0 <= order[a] < n);
        assert(0 <= order[b] < n);
        assert(order[a] != order[b]);
        assert(!key_before(keys[order[b]], keys[order[a]]));
        assert(rows[order[a]].created_at <= rows[order[b]].created_at);
    }
}

proof fn earlier_names_come_first(rows: Seq<JobRowView>, a: Seq<char>, b: Seq<char>)
    requires
        text_before(a, b),
    ensures
        names_before(rows, a) <= names_before(rows, b),
        (exists|k: int| 0 <= k < rows.len() && (#[trigger] rows[k]).job.name == a) ==> names_before(rows, a) < names_before(
            rows,
            b,
        ),
    decreases rows.len(),
{
    if rows.len() > 0 {
        let d = rows.drop_last();
        let n = rows.last().job.name;
        earlier_names_come_first(d, a, b);
        texts_have_an_order(n, a, b);
        texts_have_an_order(a, a, a);
        if exists|k: int| 0 <= k < rows.len() && (#[trigger] rows[k]).job.name == a {
            let k = choose|k: int| 0 <= k < rows.len() && (#[trigger] rows[k]).job.name == a;
            if k < d.len() {
                assert(d[k].job.name == a);
            }
        }
    }
}

/// Jobs made at the same moment are listed by their names.
pub proof fn twins_are_listed_by_name(rows: Seq<JobRowView>, a: int, b: int)
    requires
        0 <= a < b < rows.len(),
        rows.len() <= usize::MAX,
    ensures
        exists|i: int, j: int|
            0 <= i < rows.len() && 0 <= j < rows.len() && listed(rows)[a] == (#[trigger] rows[i]).job && listed(rows)[b] == (
            #[trigger] rows[j]).job && (rows[i].created_at < rows[j].created_at || (rows[i].created_at == rows[j].created_at
                && !text_before(rows[j].job.name, rows[i].job.name))),
{
    let keys = rows.map_values(|r: JobRowView| list_key(rows, r));
    let n = keys.len() as int;
    let order = sorted_order(keys, n);
    sorting_is_a_permutation(keys, n);
    assert(order.contains(order[a]));
    assert(order.contains(order[b]));
    let (i, j) = (order[a], order[b]);
    assert(!key_before(keys[j], keys[i]));
    assert(listed(rows)[a] == rows[i].job);
    assert(listed(rows)[b] == rows[j].job);
    names_fit(rows, rows[i].job.name);
    names_fit(rows, rows[j].job.name);
    if rows[i].created_at == rows[j].created_at && text_before(rows[j].job.name, rows[i].job.name) {
        earlier_names_come_first(rows, rows[j].job.name, rows[i].job.name);
        assert(rows[j].job.name == rows[j].job.name);
    }
}

proof fn names_fit(rows: Seq<JobRowView>, name: Seq<char>)
    ensures
        0 <= names_before(rows, name) <= rows.len(),
    decreases rows.len(),
{
    if rows.len() > 0 {
        names_fit(rows.drop_last(), name);
    }
}

/// Removing a job keeps every other job and every run of another job, in order.
pub proof fn other_jobs_stay(rows: Seq<JobRowView>, runs: Seq<RunView>, id: Seq<char>)
    ensures
        without_job(rows, id) == rows.filter(|r: JobRowView| r.job.id != id),
        without_runs(runs, id) == runs.filter(|r: RunView| r.job_id != id),
{
    other_rows_stay(rows, id);
    other_runs_stay(runs, id);
}

proof fn other_rows_stay(rows: Seq<JobRowView>, id: Seq<char>)
    ensures
        without_job(rows, id) == rows.filter(|r: JobRowView| r.job.id != id),
    decreases rows.len(),
{
    reveal(Seq::filter);
    if rows.len() > 0 {
        other_rows_stay(rows.drop_last(), id);
    }
}

proof fn other_runs_stay(runs: Seq<RunView>, id: Seq<char>)
    ensures
        without_runs(runs, id) == runs.filter(|r: RunView| r.job_id != id),
    decreases runs.len(),
{
    reveal(Seq::filter);
    if runs.len() > 0 {
        other_runs_stay(runs.drop_last(), id);
    }
}

// ---------------------------------------------------------------------------
// Runs
// ---------------------------------------------------------------------------

/// A run starts as running, with nothing said; it ends with what is noted of it, and no other run
/// changes.
pub proof fn runs_are_noted_apart(runs: Seq<RunView>, id: i64, status: RunStatus, message: Seq<char>, at: i64, i: int)
    requires
        0 <= i < runs.len(),
    ensures
        ({
            let t = run_finished(runs, id, status, message, at);
            &&& t.len() == runs.len()
            &&& runs[i].id != id ==> t[i] == runs[i]
            &&& runs[i].id == id ==> t[i].status == status && t[i].message == message && t[i].finished_at == Some(at)
                && t[i].id == id && t[i].job_id == runs[i].job_id && t[i].started_at == runs[i].started_at
        }),
        forall|n: i64, job: Seq<char>, now: i64| #[trigger]
            started(n, job, now) == (RunView {
                id: n,
                job_id: job,
                started_at: now,
                finished_at: None,
                status: RunStatus::Running,
                message: Seq::empty(),
            }),
{
}

/// A run is found to be interrupted exactly where it counts as running and nobody holds its job any
/// more; then it is marked so, at that moment, and every other run is left as it is.
pub proof fn interrupted_runs_are_those_nobody_holds(rows: Seq<JobRowView>, runs: Seq<RunView>, now: i64, i: int)
    requires
        0 <= i < runs.len(),
    ensures
        ({
            let r = runs[i];
            let t = stale_marked(rows, runs, now);
            let job = row_in(rows, r.job_id);
            let lost = r.status is Running && job is Some && (match job->0.locked_until {
                Some(until) => until <= now,
                None => true,
            });
            &&& t.len() == runs.len()
            &&& lost ==> t[i].status is Interrupted && t[i].finished_at == Some(now) && t[i].id == r.id && t[i].job_id
                == r.job_id && t[i].started_at == r.started_at
            &&& !lost ==> t[i] == r
        }),
{
}

/// As many runs are counted as interrupted as were marked.
pub proof fn marked_runs_are_counted(rows: Seq<JobRowView>, runs: Seq<RunView>, now: i64)
    ensures
        stale_count(rows, runs, now) == runs.filter(|r: RunView| stale(rows, r, now)).len(),
    decreases runs.len(),
{
    reveal(Seq::filter);
    if runs.len() > 0 {
        marked_runs_are_counted(rows, runs.drop_last(), now);
    }
}

proof fn asked_runs_hold(runs: Seq<RunView>, job_id: Option<Seq<char>>)
    ensures
        forall|i: int|
            0 <= i < runs.len() && (job_id is None || job_id == Some((#[trigger] runs[i]).job_id)) ==> runs_asked(
                runs,
                job_id,
            ).contains(runs[i]),
        forall|i: int|
            0 <= i < runs_asked(runs, job_id).len() ==> runs.contains(#[trigger] runs_asked(runs, job_id)[i]) && (job_id is None
                || job_id == Some(runs_asked(runs, job_id)[i].job_id)),
    decreases runs.len(),
{
    if runs.len() > 0 {
        let d = runs.drop_last();
        let w = runs_asked(d, job_id);
        let t = runs_asked(runs, job_id);
        asked_runs_hold(d, job_id);
        assert forall|i: int| 0 <= i < runs.len() && (job_id is None || job_id == Some((#[trigger] runs[i]).job_id)) implies t.contains(
            runs[i],
        ) by {
            if i < d.len() {
                assert(d[i] == runs[i]);
                let k = w.index_of(d[i]);
                assert(t[k] == runs[i]);
            } else {
                assert(t[w.len() as int] == runs[i]);
            }
        }
        assert forall|i: int| 0 <= i < t.len() implies runs.contains(#[trigger] t[i]) && (job_id is None || job_id == Some(
            t[i].job_id,
        )) by {
            if i < w.len() {
                assert(t[i] == w[i]);
                let k = d.index_of(w[i]);
                assert(runs[k] == t[i]);
            } else {
                assert(runs[runs.len() - 1] == t[i]);
            }
        }
    }
}

/// The first run is no older than the second.
pub open spec fn no_older(a: RunView, b: RunView) -> bool {
    a.started_at > b.started_at || (a.started_at == b.started_at && a.id >= b.id)
}

/// The list of runs holds runs of the job asked for, the newest first; one is missing only where as
/// many as asked for are listed, none of them older.
pub proof fn the_newest_runs_are_listed(runs: Seq<RunView>, job_id: Option<Seq<char>>, limit: int)
    ensures
        forall|i: int|
            0 <= i < newest_runs(runs, job_id, limit).len() ==> runs.contains(#[trigger] newest_runs(runs, job_id, limit)[i])
                && (job_id is None || job_id == Some(newest_runs(runs, job_id, limit)[i].job_id)),
        forall|a: int, b: int|
            0 <= a < b < newest_runs(runs, job_id, limit).len() ==> no_older(
                #[trigger] newest_runs(runs, job_id, limit)[a],
                #[trigger] newest_runs(runs, job_id, limit)[b],
            ),
        forall|i: int|
            #![trigger runs[i]]
            0 <= i < runs.len() && (job_id is None || job_id == Some(runs[i].job_id)) && !newest_runs(
                runs,
                job_id,
                limit,
            ).contains(runs[i]) ==> limit >= 0 && newest_runs(runs, job_id, limit).len() == limit && forall|k: int|
                0 <= k < newest_runs(runs, job_id, limit).len() ==> no_older(
                    #[trigger] newest_runs(runs, job_id, limit)[k],
                    runs[i],
                ),
{
    let d = runs_asked(runs, job_id);
    let keys = d.map_values(|r: RunView| (-(r.started_at as i128) as i128, -(r.id as i128) as i128));
    let n = keys.len() as int;
    let order = sorted_order(keys, n);
    let t = newest_runs(runs, job_id, limit);
    asked_runs_hold(runs, job_id);
    sorting_is_a_permutation(keys, n);
    assert forall|i: int| 0 <= i < t.len() implies 0 <= #[trigger] order[i] < n && t[i] == d[order[i]] by {
        assert(order.contains(order[i]));
    }
    assert forall|a: int, b: int| 0 <= a < b < n implies no_older(d[#[trigger] order[a]], d[#[trigger] order[b]]) by {
        assert(order.contains(order[a]));
        assert(order.contains(order[b]));
        assert(!key_before(keys[order[b]], keys[order[a]]));
    }
    assert forall|i: int| 0 <= i < t.len() implies runs.contains(#[trigger] t[i]) && (job_id is None || job_id == Some(
        t[i].job_id,
    )) by {
        assert(0 <= order[i] < n);
    }
    assert forall|a: int, b: int| 0 <= a < b < t.len() implies no_older(#[trigger] t[a], #[trigger] t[b]) by {
        assert(0 <= order[a] < n);
        assert(0 <= order[b] < n);
    }
    assert forall|i: int|
        #![trigger runs[i]]
        0 <= i < runs.len() && (job_id is None || job_id == Some(runs[i].job_id)) && !t.contains(runs[i]) implies limit >= 0
        && t.len() == limit && forall|k: int| 0 <= k < t.len() ==> no_older(#[trigger] t[k], runs[i]) by {
        let x = d.index_of(runs[i]);
        assert(d[x] == runs[i]);
        assert(order.contains(x));
        let at = order.index_of(x);
        if at < t.len() {
            assert(t[at] == runs[i]);
        }
        assert forall|k: int| 0 <= k < t.len() implies no_older(#[trigger] t[k], runs[i]) by {
            assert(0 <= order[k] < n);
            assert(no_older(d[order[k]], d[order[at]]));
        }
    }
}

} // verus!
