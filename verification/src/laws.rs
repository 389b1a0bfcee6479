//! Laws of the registry: properties that hold across operations, proved
//! once and for all over the spec-level step functions of `model`.

use crate::model::{
    aproval_step, create_step, initial_view, inv, jobs_with, obtain_step, reject_step, submit_step,
    RegistryView,
};
use crate::types::{AccountId, Balance, Job, JobError, JobId, OnwerRole, Status};
use vstd::prelude::*;

verus! {

/// Monotonic ids: a successful creation assigns exactly the next id — the
/// number of jobs ever created — stores the new record OPEN under it,
/// advances the counter by one, and leaves every existing record in place
/// under its old id. Together with `lemma_job_count_stable`, ids run
/// 0, 1, 2, ... with no gaps and no reuse.
pub proof fn lemma_create_assigns_next_id(
    v: RegistryView,
    caller: AccountId,
    budget: Balance,
    name: String,
    description: String,
    role: OnwerRole,
)
    ensures
        ({
            let (v1, r) = create_step(v, caller, budget, name, description, role);
            r == Ok::<(), JobError>(()) ==> {
                &&& v1.jobs.len() == v.jobs.len() + 1
                &&& v1.owner_job[(caller, role)] == v.jobs.len() as JobId
                &&& v1.jobs[v.jobs.len() as int].status == Status::OPEN
                &&& v1.jobs[v.jobs.len() as int].budget == budget
                &&& forall|i: int| 0 <= i < v.jobs.len() ==> v1.jobs[i] == v.jobs[i]
            }
        }),
{
}

/// No operation but a successful creation changes how many job records
/// exist; none ever removes one.
pub proof fn lemma_job_count_stable(
    v: RegistryView,
    caller: AccountId,
    budget: Balance,
    name: String,
    description: String,
    role: OnwerRole,
    job_id: JobId,
    text: String,
)
    ensures
        create_step(v, caller, budget, name, description, role).1 != Ok::<(), JobError>(())
            ==> create_step(v, caller, budget, name, description, role).0.jobs.len()
            == v.jobs.len(),
        obtain_step(v, caller, job_id).0.jobs.len() == v.jobs.len(),
        submit_step(v, caller, job_id, text).0.jobs.len() == v.jobs.len(),
        reject_step(v, caller, job_id, role).0.jobs.len() == v.jobs.len(),
        aproval_step(v, caller, job_id, role).0.jobs.len() == v.jobs.len(),
{
}

/// One active job per (owner, role), first half: a successful creation
/// fills the (caller, role) slot of the owner index, and any further
/// creation under a filled slot fails with CreatedJob and changes nothing.
pub proof fn lemma_owner_slot_blocks_create(
    v: RegistryView,
    caller: AccountId,
    budget: Balance,
    name: String,
    description: String,
    role: OnwerRole,
)
    ensures
        create_step(v, caller, budget, name, description, role).1 == Ok::<(), JobError>(())
            ==> create_step(
            v,
            caller,
            budget,
            name,
            description,
            role,
        ).0.owner_job.dom().contains((caller, role)),
        v.owner_job.dom().contains((caller, role)) ==> create_step(
            v,
            caller,
            budget,
            name,
            description,
            role,
        ) == (v, Err::<(), JobError>(JobError::CreatedJob)),
{
}

/// One active job per (owner, role), second half: the slot stays filled
/// until the job it names reaches FINISH — obtaining, submitting and
/// rejecting never touch the owner index, and an approval removes exactly
/// the approving caller's slot, in the same step that moves that very job
/// to FINISH.
pub proof fn lemma_owner_slot_freed_only_by_aproval(
    v: RegistryView,
    caller: AccountId,
    job_id: JobId,
    role: OnwerRole,
    text: String,
)
    ensures
        obtain_step(v, caller, job_id).0.owner_job == v.owner_job,
        submit_step(v, caller, job_id, text).0.owner_job == v.owner_job,
        reject_step(v, caller, job_id, role).0.owner_job == v.owner_job,
        aproval_step(v, caller, job_id, role).1 == Err::<(AccountId, Balance), JobError>(
            JobError::NotExisted,
        ) ==> aproval_step(v, caller, job_id, role).0.owner_job == v.owner_job,
        ({
            let (v1, r) = aproval_step(v, caller, job_id, role);
            r matches Ok(_) ==> {
                &&& v1.owner_job == v.owner_job.remove((caller, role))
                &&& v.owner_job[(caller, role)] == job_id
                &&& v1.jobs[job_id as int].status == Status::FINISH
            }
        }),
{
}

/// One active job per worker, first half: successfully obtaining a job
/// fills the caller's worker-index slot with that job, and while the slot
/// is filled any obtain by the same caller of an existing, unassigned job
/// fails with CurrentJobIncomplete and changes nothing.
pub proof fn lemma_worker_slot_blocks_obtain(
    v: RegistryView,
    caller: AccountId,
    job_id: JobId,
    other_id: JobId,
)
    requires
        other_id < v.jobs.len(),
        !v.assigned_job.dom().contains(other_id),
    ensures
        obtain_step(v, caller, job_id).1 == Ok::<(), JobError>(()) ==> {
            let v1 = obtain_step(v, caller, job_id).0;
            v1.doing_job.dom().contains(caller) && v1.doing_job[caller] == job_id
        },
        v.doing_job.dom().contains(caller) ==> obtain_step(v, caller, other_id) == (
            v,
            Err::<(), JobError>(JobError::CurrentJobIncomplete),
        ),
{
}

/// One active job per worker, second half: the worker's slot stays filled
/// until the held job is approved — creation, submission and rejection
/// never touch the worker index, and an approval removes exactly the
/// assigned worker's slot.
pub proof fn lemma_worker_slot_freed_only_by_aproval(
    v: RegistryView,
    caller: AccountId,
    budget: Balance,
    name: String,
    description: String,
    job_id: JobId,
    role: OnwerRole,
    text: String,
)
    ensures
        create_step(v, caller, budget, name, description, role).0.doing_job == v.doing_job,
        submit_step(v, caller, job_id, text).0.doing_job == v.doing_job,
        reject_step(v, caller, job_id, role).0.doing_job == v.doing_job,
        ({
            let (v1, r) = aproval_step(v, caller, job_id, role);
            match r {
                Ok(payout) => v1.doing_job == v.doing_job.remove(payout.0) && payout.0
                    == v.assigned_job[job_id],
                Err(_) => v1.doing_job == v.doing_job,
            }
        }),
{
}

/// No double assignment: successfully obtaining a job records the caller
/// in the assignment index, and while a job has an assignment entry any
/// further obtain of it, by any identity, fails with Taked and changes
/// nothing.
pub proof fn lemma_no_double_assignment(
    v: RegistryView,
    first: AccountId,
    second: AccountId,
    job_id: JobId,
)
    ensures
        obtain_step(v, first, job_id).1 == Ok::<(), JobError>(()) ==> {
            let v1 = obtain_step(v, first, job_id).0;
            v1.assigned_job.dom().contains(job_id) && v1.assigned_job[job_id] == first
        },
        v.assigned_job.dom().contains(job_id) && job_id < v.jobs.len() ==> obtain_step(
            v,
            second,
            job_id,
        ) == (v, Err::<(), JobError>(JobError::Taked)),
{
}

/// Assignment entries persist: no operation removes or rewrites an
/// existing assignment-index entry — not even approval — so a job once
/// obtained can never be claimed again.
pub proof fn lemma_assignment_persists(
    v: RegistryView,
    caller: AccountId,
    budget: Balance,
    name: String,
    description: String,
    job_id: JobId,
    role: OnwerRole,
    text: String,
    j: JobId,
)
    ensures
        create_step(v, caller, budget, name, description, role).0.assigned_job == v.assigned_job,
        submit_step(v, caller, job_id, text).0.assigned_job == v.assigned_job,
        reject_step(v, caller, job_id, role).0.assigned_job == v.assigned_job,
        aproval_step(v, caller, job_id, role).0.assigned_job == v.assigned_job,
        v.assigned_job.dom().contains(j) ==> {
            let v1 = obtain_step(v, caller, job_id).0;
            v1.assigned_job.dom().contains(j) && v1.assigned_job[j] == v.assigned_job[j]
        },
{
}

/// Terminal immutability: once a job is FINISH nothing changes it again.
/// Obtaining it fails with Taked, since its assignment entry persists;
/// submitting fails, with Finish for the worker still on record and
/// NotTakeThisJob for anyone else; rejecting and approving fail with
/// NotExisted, because the approval that finished the job also cleared the
/// owner-of-record slot. In every case the state is unchanged.
pub proof fn lemma_terminal_immutable(
    v: RegistryView,
    job_id: JobId,
    caller: AccountId,
    role: OnwerRole,
    text: String,
)
    requires
        inv(v),
        job_id < v.jobs.len(),
        v.jobs[job_id as int].status == Status::FINISH,
    ensures
        obtain_step(v, caller, job_id) == (v, Err::<(), JobError>(JobError::Taked)),
        submit_step(v, caller, job_id, text).0 == v,
        submit_step(v, caller, job_id, text).1 == if v.assigned_job.dom().contains(job_id)
            && v.assigned_job[job_id] == caller {
            Err::<(), JobError>(JobError::Finish)
        } else {
            Err::<(), JobError>(JobError::NotTakeThisJob)
        },
        reject_step(v, caller, job_id, role) == (v, Err::<(), JobError>(JobError::NotExisted)),
        aproval_step(v, caller, job_id, role) == (
            v,
            Err::<(AccountId, Balance), JobError>(JobError::NotExisted),
        ),
{
    assert(v.jobs[job_id as int].status == Status::FINISH);
    assert(v.assigned_job.dom().contains(job_id));
    if v.owner_job.dom().contains((caller, role)) {
        assert(v.jobs[v.owner_job[(caller, role)] as int].status != Status::FINISH);
    }
}

/// Rejection clears the result and reopens the job, and the worker still
/// on record can then submit afresh: the new text is stored and the job
/// returns to REVIEW.
pub proof fn lemma_reject_clears_result(
    v: RegistryView,
    owner: AccountId,
    worker: AccountId,
    job_id: JobId,
    role: OnwerRole,
    text: String,
)
    requires
        inv(v),
        reject_step(v, owner, job_id, role).1 == Ok::<(), JobError>(()),
        worker == v.assigned_job[job_id],
    ensures
        ({
            let v1 = reject_step(v, owner, job_id, role).0;
            &&& v1.jobs[job_id as int].result is None
            &&& v1.jobs[job_id as int].status == Status::REOPEN
            &&& submit_step(v1, worker, job_id, text).1 == Ok::<(), JobError>(())
            &&& submit_step(v1, worker, job_id, text).0.jobs[job_id as int].result == Some(text)
            &&& submit_step(v1, worker, job_id, text).0.jobs[job_id as int].status == Status::REVIEW
        }),
{
    assert(v.jobs[job_id as int].status == Status::REVIEW);
    assert(v.assigned_job.dom().contains(job_id));
}

/// Lifecycle round-trip, from an empty registry, for any owner, worker,
/// role, texts and budget: create, obtain and a first submission succeed;
/// re-obtaining the rejected job fails for every identity (its assignment
/// persists), but the worker on record resubmits without re-obtaining; the
/// final approval returns the full budget as payout to the worker, leaves
/// the job FINISH with the last submitted text, and clears both the
/// owner-index and the worker-index entry.
pub proof fn lemma_lifecycle_round_trip(
    owner: AccountId,
    worker: AccountId,
    anyone: AccountId,
    role: OnwerRole,
    name: String,
    description: String,
    budget: Balance,
    draft: String,
    fin: String,
)
    ensures
        ({
            let (v1, r1) = create_step(initial_view(), owner, budget, name, description, role);
            let (v2, r2) = obtain_step(v1, worker, 0);
            let (v3, r3) = submit_step(v2, worker, 0, draft);
            let (v4, r4) = reject_step(v3, owner, 0, role);
            let (v5, r5) = submit_step(v4, worker, 0, fin);
            let (v6, r6) = aproval_step(v5, owner, 0, role);
            &&& r1 == Ok::<(), JobError>(())
            &&& r2 == Ok::<(), JobError>(())
            &&& r3 == Ok::<(), JobError>(())
            &&& v3.jobs[0].result == Some(draft)
            &&& obtain_step(v4, anyone, 0) == (v4, Err::<(), JobError>(JobError::Taked))
            &&& r4 == Ok::<(), JobError>(())
            &&& v4.jobs[0].result is None
            &&& v4.jobs[0].status == Status::REOPEN
            &&& r5 == Ok::<(), JobError>(())
            &&& r6 == Ok::<(AccountId, Balance), JobError>((worker, budget))
            &&& v6.jobs.len() == 1
            &&& v6.jobs[0].status == Status::FINISH
            &&& v6.jobs[0].result == Some(fin)
            &&& v6.jobs[0].name == name
            &&& v6.jobs[0].budget == budget
            &&& !v6.owner_job.dom().contains((owner, role))
            &&& !v6.doing_job.dom().contains(worker)
        }),
{
}

/// Listing correctness: the query's specification is the standard sequence
/// filter — exactly the jobs bearing the given status, in ascending id
/// order.
pub proof fn lemma_jobs_with_is_filter(s: Seq<Job>, status: Status)
    ensures
        jobs_with(s, status) == s.filter(|j: Job| j.status == status),
    decreases s.len(),
{
    reveal_with_fuel(Seq::<_>::filter, 1);
    if s.len() == 0 {
        assert(s.filter(|j: Job| j.status == status) =~= Seq::<Job>::empty());
        assert(jobs_with(s, status) =~= Seq::<Job>::empty());
    } else {
        lemma_jobs_with_is_filter(s.drop_last(), status);
    }
}

} // verus!
