use chrono::{TimeZone, Utc};
use wukong::scheduler::job::{
    checked_kind, kind_label, next_after, validate_cron, JobKind, MaintenanceTask, NewJob, SchedulerError,
};
use wukong::scheduler::store::{RunStatus, SchedulerStore};

const NOW: i64 = 1_780_000_000;

fn new_turn(cron: &str) -> NewJob {
    NewJob {
        name: "turn".to_string(),
        kind: JobKind::Turn { scope: "project:T".to_string(), prompt: "do it".to_string() },
        cron: cron.to_string(),
    }
}

#[test]
fn accepts_valid_five_field_cron() {
    validate_cron("*/15 * * * *").unwrap();
    validate_cron("0 9 * * 1-5").unwrap();
}

#[test]
fn rejects_invalid_cron() {
    assert!(matches!(
        validate_cron("* * * *"),
        Err(SchedulerError::InvalidCronFieldCount(_))
    ));
    assert!(matches!(
        validate_cron("nope * * * *"),
        Err(SchedulerError::InvalidCron { .. })
    ));
}

#[test]
fn add_list_get_remove_round_trip() {
    let mut store = SchedulerStore::new();
    let job = store.add_job(new_turn("* * * * *"), NOW).unwrap();

    assert_eq!(store.get_job(&job.id), Some(job.clone()));
    assert_eq!(store.list_jobs(), vec![job.clone()]);
    assert!(store.remove_job(&job.id));
    assert_eq!(store.get_job(&job.id), None);
}

#[test]
fn enabling_recalculates_next_run_and_disabling_prevents_claim() {
    let mut store = SchedulerStore::new();
    let job = store.add_job(new_turn("* * * * *"), NOW).unwrap();

    assert!(store.set_enabled(&job.id, false, NOW).unwrap());
    let disabled = store.get_job(&job.id).unwrap();
    assert!(!disabled.enabled);
    assert_eq!(disabled.next_run_at, None);
    assert!(store
        .claim_due_jobs(i64::MAX / 2, "w1", 60, 10)
        .is_empty());

    assert!(store.set_enabled(&job.id, true, NOW).unwrap());
    let enabled = store.get_job(&job.id).unwrap();
    assert!(enabled.enabled);
    assert!(enabled.next_run_at.is_some());
}

#[test]
fn claim_is_exclusive_across_workers() {
    let mut store = SchedulerStore::new();
    let job = store.add_job(new_turn("* * * * *"), NOW).unwrap();
    let now = job.next_run_at.unwrap();

    let first = store.claim_due_jobs(now, "w1", 300, 10);
    let second = store.claim_due_jobs(now, "w2", 300, 10);

    assert_eq!(first.len(), 1);
    assert!(second.is_empty());
}

#[test]
fn stale_lock_can_be_claimed_after_locked_until() {
    let mut store = SchedulerStore::new();
    let job = store.add_job(new_turn("* * * * *"), NOW).unwrap();
    let now = job.next_run_at.unwrap();

    assert_eq!(
        store.claim_due_jobs(now, "w1", 10, 10).len(),
        1
    );
    assert_eq!(
        store
            .claim_due_jobs(now + 11, "w2", 10, 10)
            .len(),
        1
    );
}

#[test]
fn completing_job_schedules_next_run() {
    let mut store = SchedulerStore::new();
    let job = store.add_job(new_turn("* * * * *"), NOW).unwrap();
    let due = job.next_run_at.unwrap();
    let claimed = store
        .claim_due_jobs(due, "w1", 60, 10)
        .remove(0);

    store.complete_job(&claimed, due).unwrap();
    let completed = store.get_job(&job.id).unwrap();

    assert_eq!(completed.last_run_at, Some(due));
    assert!(completed.next_run_at.unwrap() > due);
}

#[test]
fn run_history_records_success_and_failure() {
    let mut store = SchedulerStore::new();
    let job = store
        .add_job(NewJob {
            name: "maintenance".to_string(),
            kind: JobKind::Maintenance {
                scope: None,
                task: MaintenanceTask::Snapshot,
            },
            cron: "* * * * *".to_string(),
        }, NOW)
        .unwrap();

    let run1 = store.start_run(&job.id, 10).unwrap();
    store
        .finish_run(run1, RunStatus::Success, "ok", 11);
    let run2 = store.start_run(&job.id, 12).unwrap();
    store
        .finish_run(run2, RunStatus::Failure, "bad", 13);

    let runs = store.recent_runs(Some(job.id.as_str()), 10);
    assert_eq!(runs.len(), 2);
    assert_eq!(runs[0].status, RunStatus::Failure);
    assert_eq!(runs[0].message, "bad");
    assert_eq!(runs[1].status, RunStatus::Success);
}

#[test]
fn interrupted_status_round_trips() {
    assert_eq!(RunStatus::Interrupted.as_str(), "interrupted");
    assert_eq!(
        RunStatus::parse("interrupted").unwrap(),
        RunStatus::Interrupted
    );
}

#[test]
fn interrupt_stale_runs_updates_only_expired_or_missing_leases() {
    let mut store = SchedulerStore::new();
    let expired_job = store.add_job(new_turn("* * * * *"), NOW).unwrap();
    let active_job = store.add_job(new_turn("* * * * *"), NOW).unwrap();
    let unlocked_job = store.add_job(new_turn("* * * * *"), NOW).unwrap();
    let now = expired_job.next_run_at.unwrap();

    store
        .claim_job(&expired_job.id, now, "expired-worker", 10);
    store
        .claim_job(&active_job.id, now, "active-worker", 100);

    let expired_run = store.start_run(&expired_job.id, now).unwrap();
    let active_run = store.start_run(&active_job.id, now).unwrap();
    let unlocked_run = store.start_run(&unlocked_job.id, now).unwrap();
    let before_expired = store.get_job(&expired_job.id).unwrap();

    let changed = store.interrupt_stale_runs(now + 11);

    assert_eq!(changed, 2);
    let runs = store.recent_runs(None, 10);
    let expired = runs.iter().find(|run| run.id == expired_run).unwrap();
    let active = runs.iter().find(|run| run.id == active_run).unwrap();
    let unlocked = runs.iter().find(|run| run.id == unlocked_run).unwrap();
    assert_eq!(expired.status, RunStatus::Interrupted);
    assert_eq!(expired.finished_at, Some(now + 11));
    assert_eq!(
        expired.message,
        "scheduler process ended before the run completed"
    );
    assert_eq!(unlocked.status, RunStatus::Interrupted);
    assert_eq!(active.status, RunStatus::Running);
    assert_eq!(active.finished_at, None);

    let after_expired = store.get_job(&expired_job.id).unwrap();
    assert_eq!(after_expired.next_run_at, before_expired.next_run_at);
    assert_eq!(after_expired.last_run_at, before_expired.last_run_at);
}

#[test]
fn interrupt_stale_runs_is_idempotent_and_preserves_terminal_runs() {
    let mut store = SchedulerStore::new();
    let job = store.add_job(new_turn("* * * * *"), NOW).unwrap();
    let now = job.next_run_at.unwrap();
    let successful = store.start_run(&job.id, now - 2).unwrap();
    store
        .finish_run(successful, RunStatus::Success, "ok", now - 1);
    let stale = store.start_run(&job.id, now).unwrap();

    assert_eq!(store.interrupt_stale_runs(now + 1), 1);
    assert_eq!(store.interrupt_stale_runs(now + 2), 0);

    let runs = store.recent_runs(Some(job.id.as_str()), 10);
    assert_eq!(
        runs.iter().find(|run| run.id == stale).unwrap().status,
        RunStatus::Interrupted
    );
    assert_eq!(
        runs.iter().find(|run| run.id == successful).unwrap().status,
        RunStatus::Success
    );
}

#[test]
fn manual_claim_respects_active_lock() {
    let mut store = SchedulerStore::new();
    let job = store.add_job(new_turn("* * * * *"), NOW).unwrap();
    let now = job.next_run_at.unwrap();

    let claimed = store
        .claim_job(&job.id, now, "manual-1", 300);
    let duplicate = store
        .claim_job(&job.id, now + 1, "manual-2", 300);

    assert!(claimed.is_some());
    assert!(duplicate.is_none());
}

#[test]
fn stale_worker_cannot_complete_new_worker_claim() {
    let mut store = SchedulerStore::new();
    let job = store.add_job(new_turn("* * * * *"), NOW).unwrap();
    let now = job.next_run_at.unwrap();

    let first = store
        .claim_due_jobs(now, "w1", 10, 10)
        .remove(0);
    let second = store
        .claim_due_jobs(now + 11, "w2", 10, 10)
        .remove(0);

    assert!(!store
        .complete_claimed_job(&first, "w1", now + 12)
        .unwrap());
    assert!(store
        .complete_claimed_job(&second, "w2", now + 13)
        .unwrap());
    let completed = store.get_job(&job.id).unwrap();
    assert_eq!(completed.last_run_at, Some(now + 13));
}

#[test]
fn computes_next_timestamp_after_known_time() {
    let after = Utc.with_ymd_and_hms(2026, 6, 13, 8, 59, 30).unwrap().timestamp();
    let next = next_after("0 9 * * *", after).unwrap().unwrap();
    assert_eq!(next, Utc.with_ymd_and_hms(2026, 6, 13, 9, 0, 0).unwrap().timestamp());
}

#[test]
fn moments_outside_the_calendar_are_refused() {
    assert_eq!(
        next_after("0 9 * * *", i64::MAX),
        Err(SchedulerError::InvalidTimestamp(i64::MAX))
    );
}

#[test]
fn errors_of_the_scheduler_are_told() {
    let count = validate_cron("* * * *").unwrap_err();
    assert_eq!(count.message(), "cron expression must have 5 fields: * * * *");
    assert!(validate_cron("nope * * * *").unwrap_err().message().starts_with("invalid cron expression 'nope * * * *': "));
    assert_eq!(SchedulerError::Sqlx("x".to_string()).message(), "scheduler db: x");
    assert_eq!(SchedulerError::Json("x".to_string()).message(), "scheduler json: x");
    assert_eq!(SchedulerError::InvalidTimestamp(-3).message(), "invalid timestamp: -3");
    assert_eq!(SchedulerError::UnknownJobKind("k".to_string()).message(), "unknown scheduler job kind: k");
    assert_eq!(
        RunStatus::parse("done").unwrap_err().message(),
        "unknown scheduler run status: done"
    );
}

#[test]
fn kinds_are_held_against_their_labels() {
    let kind = JobKind::Maintenance { scope: Some("project:Wukong".to_string()), task: MaintenanceTask::Prune };
    assert_eq!(kind_label(&kind), "maintenance");
    assert_eq!(checked_kind("maintenance", kind.clone()), Ok(kind.clone()));
    assert_eq!(checked_kind("turn", kind), Err(SchedulerError::UnknownJobKind("turn".to_string())));
}

#[test]
fn ids_of_jobs_are_drawn_anew() {
    let mut store = SchedulerStore::new();
    let a = store.add_job(new_turn("* * * * *"), NOW).unwrap();
    let b = store.add_job(new_turn("* * * * *"), NOW).unwrap();
    assert_ne!(a.id, b.id);
    assert_eq!(a.id.len(), 36);
    assert_eq!(store.add_job_as(a.id.clone(), new_turn("* * * * *"), NOW).is_err(), true);
}

#[test]
fn removing_a_job_removes_its_runs() {
    let mut store = SchedulerStore::new();
    let job = store.add_job(new_turn("* * * * *"), NOW).unwrap();
    store.start_run(&job.id, 10).unwrap();
    assert!(store.start_run("nobody", 10).is_err());
    assert!(store.remove_job(&job.id));
    assert!(store.recent_runs(None, 10).is_empty());
    assert!(!store.remove_job(&job.id));
}
