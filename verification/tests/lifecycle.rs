use freelancer::registry::Freelancer;
use freelancer::types::{JobError, OnwerRole, OnwerRoleInEnterprise, Status};

#[test]
fn new_works() {
    let mut new_freelancer = Freelancer::new();
    assert_eq!(new_freelancer.current_job_id(), 0);

    let individual_role = OnwerRole::INDIVIDUAL;

    let r = new_freelancer.create(
        1,
        0,
        "TaskOne".to_string(),
        "Submit on one week".to_string(),
        individual_role,
    );
    assert_eq!(r, Ok(()));
    assert_eq!(new_freelancer.current_job_id(), 1);
    let job = new_freelancer.get_job(0).unwrap();
    assert_eq!(job.name, "TaskOne".to_string());
    assert_eq!(job.description, "Submit on one week".to_string());
    assert_eq!(job.result, None);
    assert_eq!(job.status, Status::OPEN);
    assert_eq!(job.budget, 0);
}

#[test]
fn create_assigns_sequential_ids() {
    let mut reg = Freelancer::new();
    assert_eq!(reg.current_job_id(), 0);
    assert_eq!(
        reg.create(1, 10, "a".to_string(), "da".to_string(), OnwerRole::INDIVIDUAL),
        Ok(())
    );
    assert_eq!(
        reg.create(2, 20, "b".to_string(), "db".to_string(), OnwerRole::INDIVIDUAL),
        Ok(())
    );
    assert_eq!(
        reg.create(
            1,
            30,
            "c".to_string(),
            "dc".to_string(),
            OnwerRole::ENTERPRISE(OnwerRoleInEnterprise::TEAMLEAD),
        ),
        Ok(())
    );
    assert_eq!(reg.current_job_id(), 3);
    assert_eq!(reg.owner_job_id(1, OnwerRole::INDIVIDUAL), Some(0));
    assert_eq!(reg.owner_job_id(2, OnwerRole::INDIVIDUAL), Some(1));
    assert_eq!(
        reg.owner_job_id(1, OnwerRole::ENTERPRISE(OnwerRoleInEnterprise::TEAMLEAD)),
        Some(2)
    );
    assert_eq!(reg.get_job(0).unwrap().name, "a".to_string());
    assert_eq!(reg.get_job(1).unwrap().name, "b".to_string());
    assert_eq!(reg.get_job(2).unwrap().name, "c".to_string());
    assert!(reg.get_job(3).is_none());
}

#[test]
fn one_active_job_per_owner_role() {
    let mut reg = Freelancer::new();
    let owner = 7;
    let worker = 8;
    let role = OnwerRole::INDIVIDUAL;
    assert_eq!(reg.create(owner, 100, "t".to_string(), "d".to_string(), role), Ok(()));
    // The slot is taken: a second creation under the same role fails.
    assert_eq!(
        reg.create(owner, 100, "t2".to_string(), "d2".to_string(), role),
        Err(JobError::CreatedJob)
    );
    // A different sub-role is a different slot.
    let lead = OnwerRole::ENTERPRISE(OnwerRoleInEnterprise::TEAMLEAD);
    let accountant = OnwerRole::ENTERPRISE(OnwerRoleInEnterprise::ACCOUNTANT);
    assert_eq!(reg.create(owner, 1, "t3".to_string(), "d3".to_string(), lead), Ok(()));
    assert_eq!(reg.create(owner, 1, "t4".to_string(), "d4".to_string(), accountant), Ok(()));
    assert_eq!(
        reg.create(owner, 1, "t5".to_string(), "d5".to_string(), lead),
        Err(JobError::CreatedJob)
    );
    // Drive the first job to FINISH; the INDIVIDUAL slot is then free again.
    assert_eq!(reg.obtain(worker, 0), Ok(()));
    assert_eq!(reg.submit(worker, 0, "done".to_string()), Ok(()));
    assert_eq!(reg.aproval(owner, 0, role), Ok((worker, 100)));
    assert_eq!(reg.create(owner, 50, "t6".to_string(), "d6".to_string(), role), Ok(()));
    assert_eq!(reg.owner_job_id(owner, role), Some(3));
}

#[test]
fn one_active_job_per_worker() {
    let mut reg = Freelancer::new();
    let worker = 9;
    assert_eq!(reg.create(1, 10, "a".to_string(), "da".to_string(), OnwerRole::INDIVIDUAL), Ok(()));
    assert_eq!(reg.create(2, 20, "b".to_string(), "db".to_string(), OnwerRole::INDIVIDUAL), Ok(()));
    assert_eq!(reg.obtain(worker, 0), Ok(()));
    assert_eq!(reg.worker_job_id(worker), Some(0));
    // Busy workers cannot take a second job.
    assert_eq!(reg.obtain(worker, 1), Err(JobError::CurrentJobIncomplete));
    // Approval of the held job frees the worker.
    assert_eq!(reg.submit(worker, 0, "done".to_string()), Ok(()));
    assert_eq!(reg.aproval(1, 0, OnwerRole::INDIVIDUAL), Ok((worker, 10)));
    assert_eq!(reg.worker_job_id(worker), None);
    assert_eq!(reg.obtain(worker, 1), Ok(()));
    assert_eq!(reg.worker_job_id(worker), Some(1));
}

#[test]
fn no_double_assignment() {
    let mut reg = Freelancer::new();
    assert_eq!(reg.create(1, 10, "a".to_string(), "da".to_string(), OnwerRole::INDIVIDUAL), Ok(()));
    assert_eq!(reg.obtain(5, 0), Ok(()));
    assert_eq!(reg.assigned_worker(0), Some(5));
    // Nobody can claim an assigned job, not even its own worker again.
    assert_eq!(reg.obtain(6, 0), Err(JobError::Taked));
    assert_eq!(reg.obtain(5, 0), Err(JobError::Taked));
    assert_eq!(reg.assigned_worker(0), Some(5));
}

#[test]
fn lifecycle_round_trip() {
    let mut reg = Freelancer::new();
    let owner = 1;
    let worker = 2;
    let role = OnwerRole::INDIVIDUAL;
    assert_eq!(reg.create(owner, 500, "task".to_string(), "desc".to_string(), role), Ok(()));
    assert_eq!(reg.obtain(worker, 0), Ok(()));
    assert_eq!(reg.submit(worker, 0, "draft".to_string()), Ok(()));
    assert_eq!(reg.reject(owner, 0, role), Ok(()));
    // The assignment persists through rejection, so the job cannot be
    // re-obtained; the worker on record resubmits directly.
    assert_eq!(reg.obtain(worker, 0), Err(JobError::Taked));
    assert_eq!(reg.obtain(3, 0), Err(JobError::Taked));
    assert_eq!(reg.submit(worker, 0, "final version".to_string()), Ok(()));
    // Approval pays the full budget to the worker.
    assert_eq!(reg.aproval(owner, 0, role), Ok((worker, 500)));
    let job = reg.get_job(0).unwrap();
    assert_eq!(job.status, Status::FINISH);
    assert_eq!(job.result, Some("final version".to_string()));
    assert_eq!(job.budget, 500);
    // Both the owner slot and the worker slot are gone; the historical
    // assignment record remains.
    assert_eq!(reg.owner_job_id(owner, role), None);
    assert_eq!(reg.worker_job_id(worker), None);
    assert_eq!(reg.assigned_worker(0), Some(worker));
}

#[test]
fn reject_clears_result() {
    let mut reg = Freelancer::new();
    let owner = 1;
    let worker = 2;
    let role = OnwerRole::INDIVIDUAL;
    assert_eq!(reg.create(owner, 9, "t".to_string(), "d".to_string(), role), Ok(()));
    assert_eq!(reg.obtain(worker, 0), Ok(()));
    assert_eq!(reg.submit(worker, 0, "draft-1".to_string()), Ok(()));
    assert_eq!(reg.get_job(0).unwrap().result, Some("draft-1".to_string()));
    assert_eq!(reg.reject(owner, 0, role), Ok(()));
    let job = reg.get_job(0).unwrap();
    assert_eq!(job.result, None);
    assert_eq!(job.status, Status::REOPEN);
    assert_eq!(reg.submit(worker, 0, "draft-2".to_string()), Ok(()));
    let job = reg.get_job(0).unwrap();
    assert_eq!(job.result, Some("draft-2".to_string()));
    assert_eq!(job.status, Status::REVIEW);
}

#[test]
fn finished_job_is_immutable() {
    let mut reg = Freelancer::new();
    let owner = 1;
    let worker = 2;
    let role = OnwerRole::INDIVIDUAL;
    assert_eq!(reg.create(owner, 5, "t".to_string(), "d".to_string(), role), Ok(()));
    assert_eq!(reg.obtain(worker, 0), Ok(()));
    assert_eq!(reg.submit(worker, 0, "done".to_string()), Ok(()));
    assert_eq!(reg.aproval(owner, 0, role), Ok((worker, 5)));
    assert_eq!(reg.get_job(0).unwrap().status, Status::FINISH);
    // The worker on record is told the job is finished; strangers fail the
    // assignment check first.
    assert_eq!(reg.submit(worker, 0, "late".to_string()), Err(JobError::Finish));
    assert_eq!(reg.submit(3, 0, "late".to_string()), Err(JobError::NotTakeThisJob));
    // The approval removed the owner-of-record slot, so reject and a second
    // approval no longer recognise the owner.
    assert_eq!(reg.reject(owner, 0, role), Err(JobError::NotExisted));
    assert_eq!(reg.aproval(owner, 0, role), Err(JobError::NotExisted));
    // The persisting assignment blocks any new claim.
    assert_eq!(reg.obtain(4, 0), Err(JobError::Taked));
    assert_eq!(reg.get_job(0).unwrap().status, Status::FINISH);
    assert_eq!(reg.get_job(0).unwrap().result, Some("done".to_string()));
}
