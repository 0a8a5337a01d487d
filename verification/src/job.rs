//! The job lifecycle state machine: the `Job` record, its status enum, the
//! error taxonomy, and one spec-level transition function per operation.
//! The transition functions are the single source of truth for what each
//! operation does; the executable methods of `market::Marketplace` are proved
//! against them, and the lemmas at the bottom state the lifecycle laws.

use vstd::prelude::*;

verus! {

/// Upper bound, in bytes, on a job's metadata.
pub const MAX_METADATA_LEN: usize = 256;

/// An opaque, comparable caller identity (a public key in a hosting ledger).
#[derive(Clone, Copy, PartialEq, Eq, Structural, Debug)]
pub struct Identity {
    pub key: u64,
}

/// The sentinel identity that a job's `worker` field holds until someone
/// accepts the job with `start_job`.
pub open spec fn no_worker() -> Identity {
    Identity { key: 0 }
}

impl Identity {
    /// The sentinel identity standing for "no worker assigned yet".
    pub fn unassigned() -> (r: Identity)
        ensures
            r == no_worker(),
    {
        Identity { key: 0 }
    }
}

/// Lifecycle of a job. Transitions only move forward, except that `refund`
/// deliberately leaves the status untouched; `Done` is the one terminal state.
#[derive(Clone, Copy, PartialEq, Eq, Structural, Debug)]
pub enum JobStatus {
    Pending,
    Started,
    Processing,
    Done,
}

/// Why an operation was rejected. Every rejection is total: the attempt
/// leaves the job record and all balances exactly as they were.
#[derive(Clone, Copy, PartialEq, Eq, Structural, Debug)]
pub enum EscrowError {
    /// Metadata longer than `MAX_METADATA_LEN` bytes at creation.
    MetadataTooLong,
    /// The caller does not hold the role the operation demands.
    Unauthorized,
    /// The operation is not permitted from the job's current status.
    InvalidState,
    /// The job's custody no longer covers the committed amount.
    InsufficientEscrow,
}

/// One posted job: its identifier, its byte-string metadata, the two parties,
/// the escrowed amount, and where it stands in its lifecycle.
pub struct Job {
    pub job_id: u64,
    pub metadata: Vec<u8>,
    pub owner: Identity,
    pub worker: Identity,
    pub amount: u64,
    pub status: JobStatus,
}

impl Job {
    /// Record well-formedness: metadata stays within its bound, and a job
    /// that nobody has started yet has no worker.
    pub open spec fn wf(self) -> bool {
        &&& self.metadata@.len() <= MAX_METADATA_LEN
        &&& self.status is Pending ==> self.worker == no_worker()
    }
}

/// A job record together with the balance held in its custody. The custody
/// is collateral controlled by the contract logic, owned by no party until
/// `complete` or `refund` releases it.
pub struct JobAccount {
    pub job: Job,
    pub custody: u64,
}

impl JobAccount {
    pub open spec fn wf(self) -> bool {
        self.job.wf()
    }
}

/// What creating a job yields: the fresh record (status `Pending`, no
/// worker), or `MetadataTooLong` when the metadata bound is exceeded.
pub open spec fn init_step(
    job_id: u64,
    metadata: Vec<u8>,
    amount: u64,
    owner: Identity,
) -> Result<Job, EscrowError> {
    if metadata@.len() > MAX_METADATA_LEN {
        Err(EscrowError::MetadataTooLong)
    } else {
        Ok(
            Job {
                job_id: job_id,
                metadata: metadata,
                owner: owner,
                worker: no_worker(),
                amount: amount,
                status: JobStatus::Pending,
            },
        )
    }
}

/// What `start` does to a job: from `Pending`, the caller becomes the worker
/// and the job is `Started`; from anywhere else, `InvalidState`.
pub open spec fn start_step(job: Job, caller: Identity) -> Result<Job, EscrowError> {
    if !(job.status is Pending) {
        Err(EscrowError::InvalidState)
    } else {
        Ok(
            Job {
                job_id: job.job_id,
                metadata: job.metadata,
                owner: job.owner,
                worker: caller,
                amount: job.amount,
                status: JobStatus::Started,
            },
        )
    }
}

/// What `mark_processing` does: only the assigned worker may advance the job,
/// and only from `Started` to `Processing`. A wrong caller is rejected before
/// the status is looked at.
pub open spec fn processing_step(job: Job, caller: Identity) -> Result<Job, EscrowError> {
    if caller != job.worker {
        Err(EscrowError::Unauthorized)
    } else if !(job.status is Started) {
        Err(EscrowError::InvalidState)
    } else {
        Ok(
            Job {
                job_id: job.job_id,
                metadata: job.metadata,
                owner: job.owner,
                worker: job.worker,
                amount: job.amount,
                status: JobStatus::Processing,
            },
        )
    }
}

/// What `complete` does to the job record and its custody: only the owner,
/// only while not `Done`, and only while custody covers the amount; then
/// exactly `amount` leaves custody (for the worker) and the job is `Done`.
/// The record is kept; custody beyond `amount` stays with it.
pub open spec fn complete_step(acc: JobAccount, caller: Identity) -> Result<
    JobAccount,
    EscrowError,
> {
    if caller != acc.job.owner {
        Err(EscrowError::Unauthorized)
    } else if acc.job.status is Done {
        Err(EscrowError::InvalidState)
    } else if acc.custody < acc.job.amount {
        Err(EscrowError::InsufficientEscrow)
    } else {
        Ok(
            JobAccount {
                job: Job {
                    job_id: acc.job.job_id,
                    metadata: acc.job.metadata,
                    owner: acc.job.owner,
                    worker: acc.job.worker,
                    amount: acc.job.amount,
                    status: JobStatus::Done,
                },
                custody: (acc.custody - acc.job.amount) as u64,
            },
        )
    }
}

/// What `refund` does: the same guards as `complete`, but exactly `amount`
/// leaves custody for the owner and the record — status included — is left
/// as it was.
pub open spec fn refund_step(acc: JobAccount, caller: Identity) -> Result<
    JobAccount,
    EscrowError,
> {
    if caller != acc.job.owner {
        Err(EscrowError::Unauthorized)
    } else if acc.job.status is Done {
        Err(EscrowError::InvalidState)
    } else if acc.custody < acc.job.amount {
        Err(EscrowError::InsufficientEscrow)
    } else {
        Ok(
            JobAccount {
                job: acc.job,
                custody: (acc.custody - acc.job.amount) as u64,
            },
        )
    }
}

/// A job can be started at most once: after a successful `start`, any further
/// `start`, by any caller, is rejected with `InvalidState`.
pub proof fn lemma_start_only_once(job: Job, first: Identity, second: Identity)
    requires
        start_step(job, first) is Ok,
    ensures
        start_step((start_step(job, first))->Ok_0, second) == Err::<Job, EscrowError>(
            EscrowError::InvalidState,
        ),
{
}

/// `Done` is terminal: after a successful `complete`, a further `complete` or
/// `refund` is rejected — with `InvalidState` for the owner, `Unauthorized`
/// for anyone else.
pub proof fn lemma_done_is_terminal(acc: JobAccount, first: Identity, second: Identity)
    requires
        complete_step(acc, first) is Ok,
    ensures
        complete_step((complete_step(acc, first))->Ok_0, second) == Err::<
            JobAccount,
            EscrowError,
        >(
            if second == acc.job.owner {
                EscrowError::InvalidState
            } else {
                EscrowError::Unauthorized
            },
        ),
        refund_step((complete_step(acc, first))->Ok_0, second) == Err::<
            JobAccount,
            EscrowError,
        >(
            if second == acc.job.owner {
                EscrowError::InvalidState
            } else {
                EscrowError::Unauthorized
            },
        ),
{
}

/// `refund` leaves the job record — its status in particular — untouched;
/// only the custody shrinks, by exactly the committed amount.
pub proof fn lemma_refund_keeps_status(acc: JobAccount, caller: Identity)
    requires
        refund_step(acc, caller) is Ok,
    ensures
        ((refund_step(acc, caller))->Ok_0).job == acc.job,
        ((refund_step(acc, caller))->Ok_0).custody == acc.custody - acc.job.amount,
{
}

/// Because `refund` does not move the status, a second refund is gated only
/// by the custody check: it succeeds exactly when the remaining custody still
/// covers the amount, and otherwise fails with `InsufficientEscrow`.
pub proof fn lemma_second_refund_gated_by_custody(acc: JobAccount, caller: Identity)
    requires
        refund_step(acc, caller) is Ok,
    ensures
        refund_step((refund_step(acc, caller))->Ok_0, caller) is Ok <==> acc.custody
            - acc.job.amount >= acc.job.amount,
        acc.custody - acc.job.amount < acc.job.amount ==> refund_step(
            (refund_step(acc, caller))->Ok_0,
            caller,
        ) == Err::<JobAccount, EscrowError>(EscrowError::InsufficientEscrow),
{
}

} // verus!
