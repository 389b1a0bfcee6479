//! The mathematical model of the registry: its state as plain mathematical
//! data, the invariant every reachable state satisfies, and one spec
//! function per operation giving the exact next state and result.

use crate::types::{AccountId, Balance, Job, JobError, JobId, OnwerRole, Status};
use vstd::prelude::*;

verus! {

/// The registry's state, read mathematically: the job records in id order
/// and the three lookup indices.
pub ghost struct RegistryView {
    /// The job with id `i` sits at index `i`; the next id to assign is the
    /// length of this sequence. Records are never removed.
    pub jobs: Seq<Job>,
    /// (owner, role) -> id of that owner's outstanding job under that role;
    /// the entry is removed on approval, freeing the slot.
    pub owner_job: Map<(AccountId, OnwerRole), JobId>,
    /// worker -> id of the job that worker currently holds; removed when
    /// that job is approved.
    pub doing_job: Map<AccountId, JobId>,
    /// job id -> the worker it was assigned to; set when the job is
    /// obtained and kept from then on, even past approval.
    pub assigned_job: Map<JobId, AccountId>,
}

/// The state of a freshly constructed registry.
pub open spec fn initial_view() -> RegistryView {
    RegistryView {
        jobs: Seq::empty(),
        owner_job: Map::empty(),
        doing_job: Map::empty(),
        assigned_job: Map::empty(),
    }
}

/// Invariant of every reachable registry state:
/// every owner-index entry points at a distinct, existing job that is not
/// yet finished; every assignment points at an existing job; the worker
/// index is embedded in the assignment index; and every job that was ever
/// obtained (DOING, REVIEW or FINISH) has an assignment entry.
pub open spec fn inv(v: RegistryView) -> bool {
    &&& v.jobs.len() <= u128::MAX
    &&& forall|k: (AccountId, OnwerRole)| #[trigger]
        v.owner_job.dom().contains(k) ==> v.owner_job[k] < v.jobs.len()
    &&& forall|k1: (AccountId, OnwerRole), k2: (AccountId, OnwerRole)|
        v.owner_job.dom().contains(k1) && v.owner_job.dom().contains(k2) && k1 != k2 ==> (
        #[trigger] v.owner_job[k1]) != (#[trigger] v.owner_job[k2])
    &&& forall|k: (AccountId, OnwerRole)| #[trigger]
        v.owner_job.dom().contains(k) ==> v.jobs[v.owner_job[k] as int].status != Status::FINISH
    &&& forall|j: JobId| #[trigger] v.assigned_job.dom().contains(j) ==> j < v.jobs.len()
    &&& forall|w: AccountId| #[trigger]
        v.doing_job.dom().contains(w) ==> v.assigned_job.dom().contains(v.doing_job[w])
            && v.assigned_job[v.doing_job[w]] == w
    &&& forall|i: int|
        0 <= i < v.jobs.len() && ((#[trigger] v.jobs[i]).status == Status::DOING || v.jobs[i].status
            == Status::REVIEW || v.jobs[i].status == Status::FINISH)
            ==> v.assigned_job.dom().contains(i as JobId)
}

/// Exact outcome of `create`: fails iff the caller already holds an
/// owner-index slot under this role; otherwise stores a new OPEN job under
/// the next id, records the owner index entry and advances the counter.
pub open spec fn create_step(
    v: RegistryView,
    caller: AccountId,
    budget: Balance,
    name: String,
    description: String,
    role: OnwerRole,
) -> (RegistryView, Result<(), JobError>) {
    if v.owner_job.dom().contains((caller, role)) {
        (v, Err(JobError::CreatedJob))
    } else {
        let job = Job { name, description, result: None, status: Status::OPEN, budget };
        (
            RegistryView {
                jobs: v.jobs.push(job),
                owner_job: v.owner_job.insert((caller, role), v.jobs.len() as JobId),
                ..v
            },
            Ok(()),
        )
    }
}

/// Exact outcome of `obtain`: the job must exist, be unassigned, the caller
/// must hold no other job, and the status must be OPEN or REOPEN; then the
/// job moves to DOING and both the assignment and the worker index record
/// the caller.
pub open spec fn obtain_step(v: RegistryView, caller: AccountId, job_id: JobId) -> (
    RegistryView,
    Result<(), JobError>,
) {
    if job_id >= v.jobs.len() {
        (v, Err(JobError::NotExisted))
    } else if v.assigned_job.dom().contains(job_id) {
        (v, Err(JobError::Taked))
    } else if v.doing_job.dom().contains(caller) {
        (v, Err(JobError::CurrentJobIncomplete))
    } else if v.jobs[job_id as int].status != Status::OPEN && v.jobs[job_id as int].status
        != Status::REOPEN {
        (v, Err(JobError::JobInvalid))
    } else {
        let job = v.jobs[job_id as int];
        (
            RegistryView {
                jobs: v.jobs.update(job_id as int, Job { status: Status::DOING, ..job }),
                doing_job: v.doing_job.insert(caller, job_id),
                assigned_job: v.assigned_job.insert(job_id, caller),
                ..v
            },
            Ok(()),
        )
    }
}

/// Exact outcome of `submit`: the job must exist and the caller must be the
/// assigned worker; from DOING or REOPEN the result text is stored and the
/// job moves to REVIEW; from REVIEW the call fails as already submitted;
/// otherwise as finished.
pub open spec fn submit_step(v: RegistryView, caller: AccountId, job_id: JobId, result: String) -> (
    RegistryView,
    Result<(), JobError>,
) {
    if job_id >= v.jobs.len() {
        (v, Err(JobError::NotExisted))
    } else if !v.assigned_job.dom().contains(job_id) || v.assigned_job[job_id] != caller {
        (v, Err(JobError::NotTakeThisJob))
    } else {
        let job = v.jobs[job_id as int];
        if job.status == Status::DOING || job.status == Status::REOPEN {
            (
                RegistryView {
                    jobs: v.jobs.update(
                        job_id as int,
                        Job { result: Some(result), status: Status::REVIEW, ..job },
                    ),
                    ..v
                },
                Ok(()),
            )
        } else if job.status == Status::REVIEW {
            (v, Err(JobError::Submited))
        } else {
            (v, Err(JobError::Finish))
        }
    }
}

/// Whether the owner index maps (caller, role) to exactly this job; reject
/// and approval demand it, under the same role used at creation.
pub open spec fn owner_of_record(
    v: RegistryView,
    caller: AccountId,
    role: OnwerRole,
    job_id: JobId,
) -> bool {
    v.owner_job.dom().contains((caller, role)) && v.owner_job[(caller, role)] == job_id
}

/// Exact outcome of `reject`: the job must exist and the caller must be the
/// owner of record under this role; from REVIEW the result is cleared and
/// the job moves to REOPEN; from DOING or REOPEN the call fails as still in
/// progress; otherwise as finished.
pub open spec fn reject_step(v: RegistryView, caller: AccountId, job_id: JobId, role: OnwerRole) -> (
    RegistryView,
    Result<(), JobError>,
) {
    if job_id >= v.jobs.len() {
        (v, Err(JobError::NotExisted))
    } else if !owner_of_record(v, caller, role, job_id) {
        (v, Err(JobError::NotExisted))
    } else {
        let job = v.jobs[job_id as int];
        if job.status == Status::REVIEW {
            (
                RegistryView {
                    jobs: v.jobs.update(
                        job_id as int,
                        Job { result: None, status: Status::REOPEN, ..job },
                    ),
                    ..v
                },
                Ok(()),
            )
        } else if job.status == Status::DOING || job.status == Status::REOPEN {
            (v, Err(JobError::Proccesing))
        } else {
            (v, Err(JobError::Finish))
        }
    }
}

/// Exact outcome of `aproval`: same owner-of-record demand as `reject`;
/// from REVIEW the job moves to the terminal status FINISH, the owner-index
/// slot and the worker's index entry are removed, and the call returns the
/// payout the host must carry out: the assigned worker and the full budget.
pub open spec fn aproval_step(
    v: RegistryView,
    caller: AccountId,
    job_id: JobId,
    role: OnwerRole,
) -> (RegistryView, Result<(AccountId, Balance), JobError>) {
    if job_id >= v.jobs.len() {
        (v, Err(JobError::NotExisted))
    } else if !owner_of_record(v, caller, role, job_id) {
        (v, Err(JobError::NotExisted))
    } else {
        let job = v.jobs[job_id as int];
        if job.status == Status::REVIEW {
            let worker = v.assigned_job[job_id];
            (
                RegistryView {
                    jobs: v.jobs.update(job_id as int, Job { status: Status::FINISH, ..job }),
                    owner_job: v.owner_job.remove((caller, role)),
                    doing_job: v.doing_job.remove(worker),
                    ..v
                },
                Ok((worker, job.budget)),
            )
        } else if job.status == Status::DOING || job.status == Status::REOPEN {
            (v, Err(JobError::Proccesing))
        } else {
            (v, Err(JobError::Finish))
        }
    }
}

/// The jobs among `s` whose status is `status`, in ascending id order.
pub open spec fn jobs_with(s: Seq<Job>, status: Status) -> Seq<Job>
    decreases s.len(),
{
    if s.len() == 0 {
        Seq::empty()
    } else {
        let rest = jobs_with(s.drop_last(), status);
        if s.last().status == status {
            rest.push(s.last())
        } else {
            rest
        }
    }
}

} // verus!
