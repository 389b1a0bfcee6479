//! The Job Registry: a deterministic state machine over job records and
//! three lookup indices.
//!
//! The host environment invokes each operation synchronously and supplies
//! the caller's identity (and, for `create`, the deposited value) as plain
//! parameters; a successful approval hands back the payout for the host to
//! carry out as the final step of the same atomic unit. Every operation
//! validates all guards before mutating anything: on any failure the
//! registry is left unchanged.

use crate::indices::{IdMap, OwnerMap};
use crate::model::{
    aproval_step, create_step, initial_view, inv, jobs_with, obtain_step, reject_step, submit_step,
    RegistryView,
};
use crate::types::{AccountId, Balance, Job, JobError, JobId, OnwerRole, Status};
use vstd::pervasive::VecAdditionalExecFns;
use vstd::prelude::*;

verus! {

/// The job marketplace registry: all job records ever created, plus the
/// owner, worker and assignment indices that enforce the one-active-job
/// rules.
pub struct Freelancer {
    jobs: Vec<Job>,
    owner_job: OwnerMap,
    doing_job: IdMap,
    assigned_job: IdMap,
}

impl View for Freelancer {
    type V = RegistryView;

    closed spec fn view(&self) -> RegistryView {
        RegistryView {
            jobs: self.jobs@,
            owner_job: self.owner_job@,
            doing_job: self.doing_job@,
            assigned_job: self.assigned_job@,
        }
    }
}

impl Freelancer {
    /// Well-formed registry: the index tables hold each key once and the
    /// state satisfies the reachable-state invariant.
    pub closed spec fn wf(&self) -> bool {
        &&& self.owner_job.wf()
        &&& self.doing_job.wf()
        &&& self.assigned_job.wf()
        &&& inv(self@)
    }

    /// A well-formed registry satisfies the public reachable-state
    /// invariant; this makes the laws stated over `inv` applicable to any
    /// registry value handed out by this type.
    pub proof fn lemma_wf_implies_inv(&self)
        requires
            self.wf(),
        ensures
            inv(self@),
    {
    }

    /// Constructor: an empty registry whose first job will get id 0.
    pub fn new() -> (r: Freelancer)
        ensures
            r.wf(),
            r@ == initial_view(),
    {
        Freelancer {
            jobs: Vec::new(),
            owner_job: OwnerMap::new(),
            doing_job: IdMap::new(),
            assigned_job: IdMap::new(),
        }
    }

    /// The id the next successful `create` will assign: one past every id
    /// in use.
    pub fn current_job_id(&self) -> (r: JobId)
        ensures
            r == self@.jobs.len() as JobId,
    {
        self.jobs.len() as u128
    }

    /// Post a new job. `value` is the amount the caller deposited with the
    /// call; it becomes the job's budget. Fails iff the caller already has
    /// an outstanding job under this role; on success the job is stored
    /// OPEN under the next id and the owner index records the slot.
    pub fn create(
        &mut self,
        caller: AccountId,
        value: Balance,
        name: String,
        description: String,
        role: OnwerRole,
    ) -> (r: Result<(), JobError>)
        requires
            old(self).wf(),
        ensures
            final(self).wf(),
            final(self)@ == create_step(old(self)@, caller, value, name, description, role).0,
            r == create_step(old(self)@, caller, value, name, description, role).1,
    {
        if self.owner_job.get(caller, role).is_some() {
            return Err(JobError::CreatedJob);
        }
        let id = self.jobs.len() as u128;
        let job = Job { name, description, result: None, status: Status::OPEN, budget: value };
        self.jobs.push(job);
        self.owner_job.insert(caller, role, id);
        proof {
            let v0 = old(self)@;
            let v1 = self@;
            let key = (caller, role);
            let n = v0.jobs.len() as int;
            assert forall|k: (AccountId, OnwerRole)| #[trigger]
                v1.owner_job.dom().contains(k) implies v1.owner_job[k] < v1.jobs.len()
                && v1.jobs[v1.owner_job[k] as int].status != Status::FINISH by {
                if k == key {
                    assert(v1.jobs[n] == Job {
                        name,
                        description,
                        result: None,
                        status: Status::OPEN,
                        budget: value,
                    });
                } else {
                    assert(v0.owner_job.dom().contains(k));
                    assert(v1.jobs[v0.owner_job[k] as int] == v0.jobs[v0.owner_job[k] as int]);
                }
            }
            assert forall|k1: (AccountId, OnwerRole), k2: (AccountId, OnwerRole)|
                v1.owner_job.dom().contains(k1) && v1.owner_job.dom().contains(k2) && k1
                != k2 implies (#[trigger] v1.owner_job[k1]) != (#[trigger] v1.owner_job[k2]) by {
                if k1 == key {
                    assert(v0.owner_job.dom().contains(k2) && v0.owner_job[k2] < n);
                } else if k2 == key {
                    assert(v0.owner_job.dom().contains(k1) && v0.owner_job[k1] < n);
                } else {
                    assert(v0.owner_job.dom().contains(k1) && v0.owner_job.dom().contains(k2));
                }
            }
            assert forall|i: int|
                0 <= i < v1.jobs.len() && ((#[trigger] v1.jobs[i]).status == Status::DOING
                    || v1.jobs[i].status == Status::REVIEW || v1.jobs[i].status
                    == Status::FINISH) implies v1.assigned_job.dom().contains(i as JobId) by {
                assert(i < n);
                assert(v1.jobs[i] == v0.jobs[i]);
            }
        }
        Ok(())
    }

    /// Claim a job. Fails if the id is out of range, the job is already
    /// assigned, the caller already holds a job, or the status is neither
    /// OPEN nor REOPEN; on success the job moves to DOING and both the
    /// assignment and the worker index record the caller.
    pub fn obtain(&mut self, caller: AccountId, job_id: JobId) -> (r: Result<(), JobError>)
        requires
            old(self).wf(),
        ensures
            final(self).wf(),
            final(self)@ == obtain_step(old(self)@, caller, job_id).0,
            r == obtain_step(old(self)@, caller, job_id).1,
    {
        if job_id >= self.jobs.len() as u128 {
            return Err(JobError::NotExisted);
        }
        if self.assigned_job.get(job_id).is_some() {
            return Err(JobError::Taked);
        }
        if self.doing_job.get(caller).is_some() {
            return Err(JobError::CurrentJobIncomplete);
        }
        let idx = job_id as usize;
        let status = self.jobs[idx].status;
        if status != Status::OPEN && status != Status::REOPEN {
            return Err(JobError::JobInvalid);
        }
        let mut job = self.jobs[idx].clone();
        job.status = Status::DOING;
        self.jobs.set(idx, job);
        self.assigned_job.insert(job_id, caller);
        self.doing_job.insert(caller, job_id);
        proof {
            let v0 = old(self)@;
            let v1 = self@;
            let ji = job_id as int;
            assert forall|k: (AccountId, OnwerRole)| #[trigger]
                v1.owner_job.dom().contains(k) implies v1.owner_job[k] < v1.jobs.len()
                && v1.jobs[v1.owner_job[k] as int].status != Status::FINISH by {
                assert(v0.owner_job.dom().contains(k));
                if v0.owner_job[k] as int != ji {
                    assert(v1.jobs[v0.owner_job[k] as int] == v0.jobs[v0.owner_job[k] as int]);
                }
            }
            assert forall|j: JobId| #[trigger]
                v1.assigned_job.dom().contains(j) implies j < v1.jobs.len() by {
                if j != job_id {
                    assert(v0.assigned_job.dom().contains(j));
                }
            }
            assert forall|w: AccountId| #[trigger]
                v1.doing_job.dom().contains(w) implies v1.assigned_job.dom().contains(
                v1.doing_job[w]) && v1.assigned_job[v1.doing_job[w]] == w by {
                if w != caller {
                    assert(v0.doing_job.dom().contains(w));
                    assert(v0.assigned_job.dom().contains(v0.doing_job[w]));
                    assert(v0.doing_job[w] != job_id);
                }
            }
            assert forall|i: int|
                0 <= i < v1.jobs.len() && ((#[trigger] v1.jobs[i]).status == Status::DOING
                    || v1.jobs[i].status == Status::REVIEW || v1.jobs[i].status
                    == Status::FINISH) implies v1.assigned_job.dom().contains(i as JobId) by {
                if i == ji {
                    assert(v1.assigned_job.dom().contains(job_id));
                } else {
                    assert(v1.jobs[i] == v0.jobs[i]);
                    assert(v0.assigned_job.dom().contains(i as JobId));
                    assert(v1.assigned_job.dom().contains(i as JobId));
                }
            }
        }
        Ok(())
    }

    /// Submit a result for a job. Fails if the id is out of range or the
    /// caller is not the assigned worker; from DOING or REOPEN the text is
    /// stored and the job moves to REVIEW; from REVIEW it fails as already
    /// submitted, otherwise as finished.
    pub fn submit(&mut self, caller: AccountId, job_id: JobId, result: String) -> (r: Result<
        (),
        JobError,
    >)
        requires
            old(self).wf(),
        ensures
            final(self).wf(),
            final(self)@ == submit_step(old(self)@, caller, job_id, result).0,
            r == submit_step(old(self)@, caller, job_id, result).1,
    {
        if job_id >= self.jobs.len() as u128 {
            return Err(JobError::NotExisted);
        }
        let assigned = match self.assigned_job.get(job_id) {
            Some(w) => w == caller,
            None => false,
        };
        if !assigned {
            return Err(JobError::NotTakeThisJob);
        }
        let idx = job_id as usize;
        let status = self.jobs[idx].status;
        if status == Status::DOING || status == Status::REOPEN {
            let mut job = self.jobs[idx].clone();
            job.result = Some(result);
            job.status = Status::REVIEW;
            self.jobs.set(idx, job);
            proof {
                let v0 = old(self)@;
                let v1 = self@;
                let ji = job_id as int;
                assert forall|k: (AccountId, OnwerRole)| #[trigger]
                    v1.owner_job.dom().contains(k) implies v1.owner_job[k] < v1.jobs.len()
                    && v1.jobs[v1.owner_job[k] as int].status != Status::FINISH by {
                    assert(v0.owner_job.dom().contains(k));
                    if v0.owner_job[k] as int != ji {
                        assert(v1.jobs[v0.owner_job[k] as int] == v0.jobs[v0.owner_job[k] as int]);
                    }
                }
                assert forall|i: int|
                    0 <= i < v1.jobs.len() && ((#[trigger] v1.jobs[i]).status == Status::DOING
                        || v1.jobs[i].status == Status::REVIEW || v1.jobs[i].status
                        == Status::FINISH) implies v1.assigned_job.dom().contains(i as JobId) by {
                    if i == ji {
                        assert(v1.assigned_job.dom().contains(job_id));
                    } else {
                        assert(v1.jobs[i] == v0.jobs[i]);
                        assert(v0.assigned_job.dom().contains(i as JobId));
                    }
                }
            }
            Ok(())
        } else if status == Status::REVIEW {
            Err(JobError::Submited)
        } else {
            Err(JobError::Finish)
        }
    }

    /// Reject a submission. Fails if the id is out of range or the caller
    /// is not the owner of record under this role; from REVIEW the result
    /// is cleared and the job moves back to REOPEN; from DOING or REOPEN it
    /// fails as still in progress, otherwise as finished.
    pub fn reject(&mut self, caller: AccountId, job_id: JobId, role: OnwerRole) -> (r: Result<
        (),
        JobError,
    >)
        requires
            old(self).wf(),
        ensures
            final(self).wf(),
            final(self)@ == reject_step(old(self)@, caller, job_id, role).0,
            r == reject_step(old(self)@, caller, job_id, role).1,
    {
        if job_id >= self.jobs.len() as u128 {
            return Err(JobError::NotExisted);
        }
        let owned = match self.owner_job.get(caller, role) {
            Some(j) => j == job_id,
            None => false,
        };
        if !owned {
            return Err(JobError::NotExisted);
        }
        let idx = job_id as usize;
        let status = self.jobs[idx].status;
        if status == Status::REVIEW {
            let mut job = self.jobs[idx].clone();
            job.result = None;
            job.status = Status::REOPEN;
            self.jobs.set(idx, job);
            proof {
                let v0 = old(self)@;
                let v1 = self@;
                let ji = job_id as int;
                assert forall|k: (AccountId, OnwerRole)| #[trigger]
                    v1.owner_job.dom().contains(k) implies v1.owner_job[k] < v1.jobs.len()
                    && v1.jobs[v1.owner_job[k] as int].status != Status::FINISH by {
                    assert(v0.owner_job.dom().contains(k));
                    if v0.owner_job[k] as int != ji {
                        assert(v1.jobs[v0.owner_job[k] as int] == v0.jobs[v0.owner_job[k] as int]);
                    }
                }
                assert forall|i: int|
                    0 <= i < v1.jobs.len() && ((#[trigger] v1.jobs[i]).status == Status::DOING
                        || v1.jobs[i].status == Status::REVIEW || v1.jobs[i].status
                        == Status::FINISH) implies v1.assigned_job.dom().contains(i as JobId) by {
                    if i != ji {
                        assert(v1.jobs[i] == v0.jobs[i]);
                        assert(v0.assigned_job.dom().contains(i as JobId));
                    }
                }
            }
            Ok(())
        } else if status == Status::DOING || status == Status::REOPEN {
            Err(JobError::Proccesing)
        } else {
            Err(JobError::Finish)
        }
    }

    /// Approve a submission. Same owner-of-record demand as `reject`; from
    /// REVIEW the job moves to the terminal status FINISH, the owner-index
    /// slot and the worker's index entry are removed, and the call returns
    /// the payout — the assigned worker and the full budget — which the
    /// host must transfer as the final step of the same atomic unit.
    pub fn aproval(&mut self, caller: AccountId, job_id: JobId, role: OnwerRole) -> (r: Result<
        (AccountId, Balance),
        JobError,
    >)
        requires
            old(self).wf(),
        ensures
            final(self).wf(),
            final(self)@ == aproval_step(old(self)@, caller, job_id, role).0,
            r == aproval_step(old(self)@, caller, job_id, role).1,
    {
        if job_id >= self.jobs.len() as u128 {
            return Err(JobError::NotExisted);
        }
        let owned = match self.owner_job.get(caller, role) {
            Some(j) => j == job_id,
            None => false,
        };
        if !owned {
            return Err(JobError::NotExisted);
        }
        let idx = job_id as usize;
        let status = self.jobs[idx].status;
        if status == Status::REVIEW {
            proof {
                assert(old(self)@.jobs[job_id as int].status == Status::REVIEW);
                assert(old(self)@.assigned_job.dom().contains(job_id));
            }
            let mut job = self.jobs[idx].clone();
            job.status = Status::FINISH;
            let budget = job.budget;
            self.jobs.set(idx, job);
            self.owner_job.remove(caller, role);
            let worker = self.assigned_job.get(job_id).unwrap();
            self.doing_job.remove(worker);
            proof {
                let v0 = old(self)@;
                let v1 = self@;
                let key = (caller, role);
                let ji = job_id as int;
                assert forall|k: (AccountId, OnwerRole)| #[trigger]
                    v1.owner_job.dom().contains(k) implies v1.owner_job[k] < v1.jobs.len()
                    && v1.jobs[v1.owner_job[k] as int].status != Status::FINISH by {
                    assert(v0.owner_job.dom().contains(k));
                    assert(k != key);
                    assert(v0.owner_job[k] != v0.owner_job[key]);
                    assert(v1.jobs[v0.owner_job[k] as int] == v0.jobs[v0.owner_job[k] as int]);
                }
                assert forall|w: AccountId| #[trigger]
                    v1.doing_job.dom().contains(w) implies v1.assigned_job.dom().contains(
                    v1.doing_job[w]) && v1.assigned_job[v1.doing_job[w]] == w by {
                    assert(v0.doing_job.dom().contains(w));
                }
                assert forall|i: int|
                    0 <= i < v1.jobs.len() && ((#[trigger] v1.jobs[i]).status == Status::DOING
                        || v1.jobs[i].status == Status::REVIEW || v1.jobs[i].status
                        == Status::FINISH) implies v1.assigned_job.dom().contains(i as JobId) by {
                    if i != ji {
                        assert(v1.jobs[i] == v0.jobs[i]);
                        assert(v0.assigned_job.dom().contains(i as JobId));
                    }
                }
            }
            Ok((worker, budget))
        } else if status == Status::DOING || status == Status::REOPEN {
            Err(JobError::Proccesing)
        } else {
            Err(JobError::Finish)
        }
    }

    /// Read-only query: every job whose status equals `status`, as copies
    /// in ascending id order. The owner filter parameter is accepted for
    /// callers that wish to pass one, but it is deliberately never applied:
    /// the contract below promises every matching job, whoever owns it.
    pub fn get_jobs_with_status(&self, status: Status, _owner: Option<AccountId>) -> (r: Vec<Job>)
        ensures
            r@ == jobs_with(self@.jobs, status),
    {
        let mut out: Vec<Job> = Vec::new();
        let n = self.jobs.len();
        let mut i: usize = 0;
        while i < n
            invariant
                n == self.jobs@.len(),
                i <= n,
                out@ == jobs_with(self.jobs@.take(i as int), status),
            decreases n - i,
        {
            if self.jobs[i].status == status {
                out.push(self.jobs[i].clone());
            }
            proof {
                let t = self.jobs@.take(i as int + 1);
                assert(t.drop_last() =~= self.jobs@.take(i as int));
                assert(t.last() == self.jobs@[i as int]);
            }
            i += 1;
        }
        proof {
            assert(self.jobs@.take(n as int) =~= self.jobs@);
        }
        out
    }

    /// The job stored under `job_id`, if any, as a copy of the record.
    pub fn get_job(&self, job_id: JobId) -> (r: Option<Job>)
        ensures
            r == if job_id < self@.jobs.len() {
                Some(self@.jobs[job_id as int])
            } else {
                None::<Job>
            },
    {
        if job_id >= self.jobs.len() as u128 {
            None
        } else {
            Some(self.jobs[job_id as usize].clone())
        }
    }

    /// The owner index entry for (owner, role), if any.
    pub fn owner_job_id(&self, owner: AccountId, role: OnwerRole) -> (r: Option<JobId>)
        requires
            self.wf(),
        ensures
            r == if self@.owner_job.dom().contains((owner, role)) {
                Some(self@.owner_job[(owner, role)])
            } else {
                None::<JobId>
            },
    {
        self.owner_job.get(owner, role)
    }

    /// The worker index entry for `worker`, if any.
    pub fn worker_job_id(&self, worker: AccountId) -> (r: Option<JobId>)
        requires
            self.wf(),
        ensures
            r == if self@.doing_job.dom().contains(worker) {
                Some(self@.doing_job[worker])
            } else {
                None::<JobId>
            },
    {
        self.doing_job.get(worker)
    }

    /// The assignment index entry for `job_id`, if any.
    pub fn assigned_worker(&self, job_id: JobId) -> (r: Option<AccountId>)
        requires
            self.wf(),
        ensures
            r == if self@.assigned_job.dom().contains(job_id) {
                Some(self@.assigned_job[job_id])
            } else {
                None::<AccountId>
            },
    {
        self.assigned_job.get(job_id)
    }
}

} // verus!
