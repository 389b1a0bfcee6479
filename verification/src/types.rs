//! Core data model of the job registry: job records, owner roles,
//! lifecycle statuses and the error taxonomy.

use vstd::prelude::*;

verus! {

/// Identifier of a job. Ids are assigned 0, 1, 2, ... in creation order and
/// are never reused.
pub type JobId = u128;

/// Opaque, comparable token standing for the identity of a caller (an owner
/// or a worker). The host environment supplies it with every operation.
pub type AccountId = u128;

/// Amount of value deposited as a job's budget and paid out on approval.
pub type Balance = u128;

/// Lifecycle status of a job. A job starts OPEN, moves to DOING when a
/// worker obtains it, to REVIEW on submission, back to REOPEN on rejection,
/// and ends in the terminal status FINISH on approval.
#[allow(non_camel_case_types)]
#[derive(Clone, Copy, Debug, PartialEq, Eq, Structural)]
pub enum Status {
    OPEN,
    DOING,
    REVIEW,
    REOPEN,
    FINISH,
}

/// Sub-role of an owner acting for an enterprise.
#[allow(non_camel_case_types)]
#[derive(Clone, Copy, Debug, PartialEq, Eq, Structural)]
pub enum OnwerRoleInEnterprise {
    TEAMLEAD,
    ACCOUNTANT,
}

/// The capacity in which an owner creates a job. Two role values are equal
/// iff they are the same variant and, for ENTERPRISE, the same sub-role.
#[allow(non_camel_case_types)]
#[derive(Clone, Copy, Debug, PartialEq, Eq, Structural)]
pub enum OnwerRole {
    INDIVIDUAL,
    ENTERPRISE(OnwerRoleInEnterprise),
}

/// Errors returned by the registry's operations. Every failure leaves the
/// registry unchanged.
#[derive(Clone, Copy, Debug, PartialEq, Eq, Structural)]
pub enum JobError {
    /// The caller already has an outstanding job under this role.
    CreatedJob,
    /// The job id is out of range, or the caller is not the owner of record.
    NotExisted,
    /// The job has already been assigned to a worker.
    Taked,
    /// The caller is not the worker assigned to this job.
    NotTakeThisJob,
    /// The job already has a submission awaiting review.
    Submited,
    /// The job is still being worked on; there is nothing to review yet.
    Proccesing,
    /// The caller must complete their current job before obtaining another.
    CurrentJobIncomplete,
    /// The job is not open for claiming.
    JobInvalid,
    /// The job is past the point where this operation applies.
    Finish,
}

/// A unit of work. Job records persist forever, even after approval; only
/// index entries are removed.
#[derive(Debug)]
pub struct Job {
    /// Free-form title, immutable after creation.
    pub name: String,
    /// Free-form description, immutable after creation.
    pub description: String,
    /// Text supplied by the worker; present only after at least one
    /// submission and cleared again on rejection.
    pub result: Option<String>,
    /// Current lifecycle status.
    pub status: Status,
    /// Value deposited by the owner at creation; the exact payout on
    /// approval.
    pub budget: Balance,
}

impl Clone for Job {
    fn clone(&self) -> (r: Self)
        ensures
            r == *self,
    {
        Job {
            name: self.name.clone(),
            description: self.description.clone(),
            result: match &self.result {
                Some(s) => Some(s.clone()),
                None => None,
            },
            status: self.status,
            budget: self.budget,
        }
    }
}

} // verus!
