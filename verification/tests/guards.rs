use freelancer::registry::Freelancer;
use freelancer::types::{JobError, OnwerRole, OnwerRoleInEnterprise, Status};

#[test]
fn out_of_range_ids_are_not_existed() {
    let mut reg = Freelancer::new();
    assert_eq!(reg.obtain(1, 0), Err(JobError::NotExisted));
    assert_eq!(reg.submit(1, 0, "x".to_string()), Err(JobError::NotExisted));
    assert_eq!(reg.reject(1, 0, OnwerRole::INDIVIDUAL), Err(JobError::NotExisted));
    assert_eq!(reg.aproval(1, 0, OnwerRole::INDIVIDUAL), Err(JobError::NotExisted));
    assert_eq!(reg.create(1, 0, "t".to_string(), "d".to_string(), OnwerRole::INDIVIDUAL), Ok(()));
    assert_eq!(reg.obtain(2, 1), Err(JobError::NotExisted));
    assert_eq!(reg.obtain(2, 7), Err(JobError::NotExisted));
}

#[test]
fn submit_demands_the_assigned_worker() {
    let mut reg = Freelancer::new();
    assert_eq!(reg.create(1, 0, "t".to_string(), "d".to_string(), OnwerRole::INDIVIDUAL), Ok(()));
    // Never obtained: no assignment entry at all.
    assert_eq!(reg.submit(2, 0, "x".to_string()), Err(JobError::NotTakeThisJob));
    assert_eq!(reg.obtain(2, 0), Ok(()));
    // Obtained by someone else.
    assert_eq!(reg.submit(3, 0, "x".to_string()), Err(JobError::NotTakeThisJob));
    assert_eq!(reg.submit(2, 0, "x".to_string()), Ok(()));
}

#[test]
fn double_submit_is_rejected() {
    let mut reg = Freelancer::new();
    assert_eq!(reg.create(1, 0, "t".to_string(), "d".to_string(), OnwerRole::INDIVIDUAL), Ok(()));
    assert_eq!(reg.obtain(2, 0), Ok(()));
    assert_eq!(reg.submit(2, 0, "first".to_string()), Ok(()));
    assert_eq!(reg.submit(2, 0, "second".to_string()), Err(JobError::Submited));
    assert_eq!(reg.get_job(0).unwrap().result, Some("first".to_string()));
}

#[test]
fn reject_and_aproval_wait_for_a_submission() {
    let mut reg = Freelancer::new();
    let role = OnwerRole::INDIVIDUAL;
    assert_eq!(reg.create(1, 0, "t".to_string(), "d".to_string(), role), Ok(()));
    assert_eq!(reg.obtain(2, 0), Ok(()));
    // DOING: nothing to review yet.
    assert_eq!(reg.reject(1, 0, role), Err(JobError::Proccesing));
    assert_eq!(reg.aproval(1, 0, role), Err(JobError::Proccesing));
    assert_eq!(reg.submit(2, 0, "v1".to_string()), Ok(()));
    assert_eq!(reg.reject(1, 0, role), Ok(()));
    // REOPEN: again nothing new to review.
    assert_eq!(reg.reject(1, 0, role), Err(JobError::Proccesing));
    assert_eq!(reg.aproval(1, 0, role), Err(JobError::Proccesing));
}

#[test]
fn reject_of_an_open_job_reports_finish() {
    // A job that was never obtained is neither under review nor in
    // progress, so the remaining branch answers.
    let mut reg = Freelancer::new();
    let role = OnwerRole::INDIVIDUAL;
    assert_eq!(reg.create(1, 0, "t".to_string(), "d".to_string(), role), Ok(()));
    assert_eq!(reg.reject(1, 0, role), Err(JobError::Finish));
    assert_eq!(reg.aproval(1, 0, role), Err(JobError::Finish));
    assert_eq!(reg.get_job(0).unwrap().status, Status::OPEN);
}

#[test]
fn reject_demands_the_exact_creation_role() {
    let mut reg = Freelancer::new();
    let lead = OnwerRole::ENTERPRISE(OnwerRoleInEnterprise::TEAMLEAD);
    assert_eq!(reg.create(1, 0, "t".to_string(), "d".to_string(), lead), Ok(()));
    assert_eq!(reg.obtain(2, 0), Ok(()));
    assert_eq!(reg.submit(2, 0, "v".to_string()), Ok(()));
    // The same owner under a different role is not the owner of record.
    assert_eq!(reg.reject(1, 0, OnwerRole::INDIVIDUAL), Err(JobError::NotExisted));
    assert_eq!(
        reg.reject(1, 0, OnwerRole::ENTERPRISE(OnwerRoleInEnterprise::ACCOUNTANT)),
        Err(JobError::NotExisted)
    );
    // A stranger under the right role is not either.
    assert_eq!(reg.reject(9, 0, lead), Err(JobError::NotExisted));
    assert_eq!(reg.aproval(1, 0, OnwerRole::INDIVIDUAL), Err(JobError::NotExisted));
    assert_eq!(reg.reject(1, 0, lead), Ok(()));
}

#[test]
fn listing_returns_matching_jobs_in_id_order() {
    let mut reg = Freelancer::new();
    assert_eq!(reg.create(1, 10, "a".to_string(), "da".to_string(), OnwerRole::INDIVIDUAL), Ok(()));
    assert_eq!(reg.create(2, 20, "b".to_string(), "db".to_string(), OnwerRole::INDIVIDUAL), Ok(()));
    assert_eq!(reg.create(3, 30, "c".to_string(), "dc".to_string(), OnwerRole::INDIVIDUAL), Ok(()));
    assert_eq!(reg.obtain(4, 1), Ok(()));
    let open = reg.get_jobs_with_status(Status::OPEN, None);
    assert_eq!(open.len(), 2);
    assert_eq!(open[0].name, "a".to_string());
    assert_eq!(open[1].name, "c".to_string());
    let doing = reg.get_jobs_with_status(Status::DOING, None);
    assert_eq!(doing.len(), 1);
    assert_eq!(doing[0].name, "b".to_string());
    // The owner filter parameter is accepted but deliberately not applied.
    let open_filtered = reg.get_jobs_with_status(Status::OPEN, Some(1));
    assert_eq!(open_filtered.len(), 2);
    assert_eq!(open_filtered[1].name, "c".to_string());
    assert_eq!(reg.get_jobs_with_status(Status::FINISH, None).len(), 0);
}
