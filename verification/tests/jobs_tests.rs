use kasir_cache::errors::JobRejection;
use kasir_cache::jobs::JobStatus;
use kasir_cache::models::Payload;
use kasir_cache::planner::RangeFetchPlanner;
use kasir_cache::state::AppState;
use kasir_cache::Date;

fn payload(from: &str, to: &str) -> Payload {
    Payload { from: String::from(from), to: String::from(to), cookie: String::from("c") }
}

fn d(year: u32, month: u32, day: u32) -> Date {
    Date { year, month, day }
}

#[test]
fn job_id_is_deterministic() {
    let p = payload("01/01/2024", "05/01/2024");
    assert_eq!(AppState::generate_job_id(&p), "01/01/2024-05/01/2024");
    assert_eq!(AppState::generate_job_id(&p), AppState::generate_job_id(&payload(
        "01/01/2024",
        "05/01/2024",
    )));
}

#[test]
fn duplicate_bounds_within_window_rejected() {
    // Same (from, to) while the first job is live: AlreadyRunning.
    let mut state = AppState::new();
    let id = state.start_job(payload("01/01/2024", "05/01/2024"), 1000, 3).unwrap();
    assert_eq!(id, "01/01/2024-05/01/2024");
    let second = state.start_job(payload("01/01/2024", "05/01/2024"), 1100, 3);
    assert_eq!(second, Err(JobRejection::AlreadyRunning));
}

#[test]
fn duplicate_bounds_accepted_after_window() {
    // After the liveness window (300 s) the same bounds are accepted again.
    let mut state = AppState::new();
    state.start_job(payload("01/01/2024", "05/01/2024"), 1000, 3).unwrap();
    let again = state.start_job(payload("01/01/2024", "05/01/2024"), 1300, 3);
    assert!(again.is_ok());
}

#[test]
fn concurrency_ceiling_rejects_excess() {
    // More simultaneous jobs than the ceiling: the excess gets
    // TooManyConcurrentJobs.
    let mut state = AppState::new();
    assert!(state.start_job(payload("01/01/2024", "01/01/2024"), 10, 3).is_ok());
    assert!(state.start_job(payload("02/01/2024", "02/01/2024"), 11, 3).is_ok());
    assert!(state.start_job(payload("03/01/2024", "03/01/2024"), 12, 3).is_ok());
    let fourth = state.start_job(payload("04/01/2024", "04/01/2024"), 13, 3);
    assert_eq!(fourth, Err(JobRejection::TooManyConcurrentJobs));
}

#[test]
fn completion_frees_a_slot() {
    let mut state = AppState::new();
    let id = state.start_job(payload("01/01/2024", "01/01/2024"), 10, 1).unwrap();
    assert_eq!(
        state.start_job(payload("02/01/2024", "02/01/2024"), 11, 1),
        Err(JobRejection::TooManyConcurrentJobs)
    );
    state.complete_job(&id, JobStatus::Completed);
    assert!(state.start_job(payload("02/01/2024", "02/01/2024"), 12, 1).is_ok());
}

#[test]
fn status_reflects_transitions() {
    let mut state = AppState::new();
    let id = state.start_job(payload("01/01/2024", "01/01/2024"), 10, 3).unwrap();
    assert!(matches!(state.get_job_status(&id), Some(JobStatus::Running)));
    state.complete_job(&id, JobStatus::Failed(String::from("boom")));
    match state.get_job_status(&id) {
        Some(JobStatus::Failed(reason)) => assert_eq!(reason, "boom"),
        other => panic!("unexpected status: {:?}", other),
    }
    assert!(state.get_job_status("absent-id").is_none());
}

#[test]
fn complete_absent_job_is_a_noop() {
    let mut state = AppState::new();
    state.complete_job("nothing", JobStatus::Completed);
    assert!(state.get_job_status("nothing").is_none());
}

#[test]
fn cleanup_drops_abandoned_and_stale_jobs() {
    let mut state = AppState::new();
    let running = state.start_job(payload("01/01/2024", "01/01/2024"), 1000, 3).unwrap();
    let done = state.start_job(payload("02/01/2024", "02/01/2024"), 1000, 3).unwrap();
    state.complete_job(&done, JobStatus::Completed);
    // within both windows: everything stays
    state.cleanup_old_jobs(1100);
    assert!(state.get_job_status(&running).is_some());
    assert!(state.get_job_status(&done).is_some());
    // past the liveness window: the still-Running job is treated as abandoned
    state.cleanup_old_jobs(1000 + 300);
    assert!(state.get_job_status(&running).is_none());
    assert!(state.get_job_status(&done).is_some());
    // past the retention window: the terminal job goes too
    state.cleanup_old_jobs(1000 + 3600);
    assert!(state.get_job_status(&done).is_none());
}

#[test]
fn cleanup_clears_processing_marks() {
    let mut state = AppState::new();
    state.processing.try_acquire(d(2024, 1, 1));
    state.cleanup_old_jobs(0);
    assert!(!state.processing.contains(&d(2024, 1, 1)));
}

#[test]
fn admin_operation_single_instance() {
    let mut state = AppState::new();
    assert!(state.start_admin_operation("refresh"));
    assert!(!state.start_admin_operation("refresh"));
    assert!(state.start_admin_operation("other"));
    state.complete_admin_operation("refresh");
    assert!(state.start_admin_operation("refresh"));
}

#[test]
fn auth_flag_defaults_closed() {
    let mut state = AppState::new();
    assert!(state.is_unauthorized());
    state.set_unauthorized(false);
    assert!(!state.is_unauthorized());
    state.set_unauthorized(true);
    assert!(state.is_unauthorized());
}

#[test]
fn grouping_example_minimal_and_ordered() {
    // [01/01, 02/01, 04/01] groups into [(01/01,02/01), (04/01,04/01)].
    let missing = vec![d(2024, 1, 1), d(2024, 1, 2), d(2024, 1, 4)];
    let groups = RangeFetchPlanner::group_consecutive(&missing);
    assert_eq!(groups, vec![(d(2024, 1, 1), d(2024, 1, 2)), (d(2024, 1, 4), d(2024, 1, 4))]);
}

#[test]
fn grouping_crosses_month_boundary() {
    let missing = vec![d(2024, 1, 31), d(2024, 2, 1), d(2024, 2, 3)];
    let groups = RangeFetchPlanner::group_consecutive(&missing);
    assert_eq!(groups, vec![(d(2024, 1, 31), d(2024, 2, 1)), (d(2024, 2, 3), d(2024, 2, 3))]);
}

#[test]
fn grouping_empty_and_singleton() {
    assert!(RangeFetchPlanner::group_consecutive(&vec![]).is_empty());
    assert_eq!(RangeFetchPlanner::group_consecutive(&vec![d(2024, 5, 5)]), vec![(
        d(2024, 5, 5),
        d(2024, 5, 5),
    )]);
}

#[test]
fn plan_rejects_overlong_range() {
    let cache = kasir_cache::cache::CacheStore::new();
    let r = RangeFetchPlanner::plan(&cache, &d(2023, 1, 1), &d(2024, 12, 31), 365);
    assert_eq!(r, Err(kasir_cache::planner::PlanError::RangeTooLarge));
    let ok = RangeFetchPlanner::plan(&cache, &d(2024, 1, 1), &d(2024, 1, 3), 365).unwrap();
    assert_eq!(ok, vec![(d(2024, 1, 1), d(2024, 1, 3))]);
}

#[test]
fn plan_skips_cached_days() {
    let mut cache = kasir_cache::cache::CacheStore::new();
    cache.put(d(2024, 1, 2), vec![kasir_cache::models::Transaksi {
        tanggal_transaksi: String::from("02/01/2024"),
        waktu_transaksi: String::new(),
        keterangan: String::new(),
        total_tagihan: 0,
        no_nota: String::new(),
    }]);
    let plan = RangeFetchPlanner::plan(&cache, &d(2024, 1, 1), &d(2024, 1, 3), 365).unwrap();
    assert_eq!(plan, vec![(d(2024, 1, 1), d(2024, 1, 1)), (d(2024, 1, 3), d(2024, 1, 3))]);
}
