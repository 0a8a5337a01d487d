use escrow_job::job::{EscrowError, Identity, JobStatus};
use escrow_job::market::Marketplace;

fn funded_market(owner: Identity, funds: u64) -> Marketplace {
    let mut m = Marketplace::new();
    assert!(m.fund(owner, funds));
    m
}

#[test]
fn full_lifecycle_pays_worker() {
    let owner = Identity { key: 10 };
    let worker = Identity { key: 20 };
    let mut m = funded_market(owner, 1000);

    let metadata = b"build image".to_vec();
    assert_eq!(m.initialize_job(1, metadata, 1000, owner), Ok(()));
    assert!(m.contains_job(1));
    assert_eq!(m.job_status(1), JobStatus::Pending);
    assert_eq!(m.job_worker(1), Identity::unassigned());
    assert_eq!(m.job_owner(1), owner);
    assert_eq!(m.job_amount(1), 1000);
    assert_eq!(m.job_custody(1), 1000);
    assert_eq!(m.job_metadata(1), b"build image".to_vec());
    assert_eq!(m.balance_of(owner), 0);

    assert_eq!(m.start_job(1, worker), Ok(()));
    assert_eq!(m.job_status(1), JobStatus::Started);
    assert_eq!(m.job_worker(1), worker);

    assert_eq!(m.mark_processing(1, worker), Ok(()));
    assert_eq!(m.job_status(1), JobStatus::Processing);

    assert_eq!(m.complete_job(1, owner), Ok(()));
    assert_eq!(m.balance_of(worker), 1000);
    assert_eq!(m.job_status(1), JobStatus::Done);
    assert_eq!(m.job_custody(1), 0);

    assert_eq!(m.complete_job(1, owner), Err(EscrowError::InvalidState));
    assert_eq!(m.refund_job(1, owner), Err(EscrowError::InvalidState));
    assert_eq!(m.total_issued(), 1000);
}

#[test]
fn refund_before_start_keeps_pending() {
    let owner = Identity { key: 7 };
    let mut m = funded_market(owner, 500);

    assert_eq!(m.initialize_job(2, b"".to_vec(), 500, owner), Ok(()));
    assert_eq!(m.job_status(2), JobStatus::Pending);
    assert_eq!(m.balance_of(owner), 0);

    assert_eq!(m.refund_job(2, owner), Ok(()));
    assert_eq!(m.balance_of(owner), 500);
    // Deliberate: a refund does not move the status.
    assert_eq!(m.job_status(2), JobStatus::Pending);
    assert_eq!(m.job_custody(2), 0);
}

#[test]
fn metadata_bound_is_enforced() {
    let owner = Identity { key: 3 };
    let mut m = funded_market(owner, 10);

    let longest = vec![0xABu8; 256];
    assert_eq!(m.initialize_job(1, longest.clone(), 5, owner), Ok(()));
    assert_eq!(m.job_metadata(1), longest);

    let too_long = vec![0u8; 257];
    assert_eq!(
        m.initialize_job(2, too_long, 5, owner),
        Err(EscrowError::MetadataTooLong)
    );
    assert!(!m.contains_job(2));
    assert_eq!(m.balance_of(owner), 5);
}

#[test]
fn start_only_once() {
    let owner = Identity { key: 1 };
    let first = Identity { key: 2 };
    let second = Identity { key: 3 };
    let mut m = funded_market(owner, 100);

    assert_eq!(m.initialize_job(9, b"task".to_vec(), 100, owner), Ok(()));
    assert_eq!(m.start_job(9, first), Ok(()));
    assert_eq!(m.job_worker(9), first);

    assert_eq!(m.start_job(9, second), Err(EscrowError::InvalidState));
    assert_eq!(m.job_worker(9), first);
    assert_eq!(m.job_status(9), JobStatus::Started);
}

#[test]
fn processing_requires_worker_and_started() {
    let owner = Identity { key: 1 };
    let worker = Identity { key: 2 };
    let intruder = Identity { key: 3 };
    let mut m = funded_market(owner, 100);

    assert_eq!(m.initialize_job(4, b"x".to_vec(), 100, owner), Ok(()));
    // Nobody is the worker of a pending job; the caller check fires first.
    assert_eq!(m.mark_processing(4, intruder), Err(EscrowError::Unauthorized));

    assert_eq!(m.start_job(4, worker), Ok(()));
    assert_eq!(m.mark_processing(4, intruder), Err(EscrowError::Unauthorized));
    assert_eq!(m.mark_processing(4, owner), Err(EscrowError::Unauthorized));
    assert_eq!(m.job_status(4), JobStatus::Started);

    assert_eq!(m.mark_processing(4, worker), Ok(()));
    assert_eq!(m.job_status(4), JobStatus::Processing);
    assert_eq!(m.mark_processing(4, worker), Err(EscrowError::InvalidState));
}

#[test]
fn complete_requires_owner() {
    let owner = Identity { key: 1 };
    let worker = Identity { key: 2 };
    let mut m = funded_market(owner, 300);

    assert_eq!(m.initialize_job(5, b"p".to_vec(), 300, owner), Ok(()));
    assert_eq!(m.start_job(5, worker), Ok(()));
    assert_eq!(m.complete_job(5, worker), Err(EscrowError::Unauthorized));
    assert_eq!(m.job_status(5), JobStatus::Started);

    assert_eq!(m.complete_job(5, owner), Ok(()));
    assert_eq!(m.balance_of(worker), 300);
}

#[test]
fn refund_requires_owner_and_not_done() {
    let owner = Identity { key: 1 };
    let worker = Identity { key: 2 };
    let mut m = funded_market(owner, 200);

    assert_eq!(m.initialize_job(6, b"r".to_vec(), 200, owner), Ok(()));
    assert_eq!(m.refund_job(6, worker), Err(EscrowError::Unauthorized));

    assert_eq!(m.start_job(6, worker), Ok(()));
    assert_eq!(m.complete_job(6, owner), Ok(()));
    assert_eq!(m.refund_job(6, owner), Err(EscrowError::InvalidState));
    assert_eq!(m.balance_of(owner), 0);
}

#[test]
fn double_refund_blocked_by_custody() {
    let owner = Identity { key: 8 };
    let mut m = funded_market(owner, 500);

    assert_eq!(m.initialize_job(2, b"".to_vec(), 500, owner), Ok(()));
    assert_eq!(m.refund_job(2, owner), Ok(()));
    assert_eq!(m.balance_of(owner), 500);

    // Deliberate: the status still permits a refund; only the custody
    // check blocks it.
    assert_eq!(m.job_status(2), JobStatus::Pending);
    assert_eq!(m.refund_job(2, owner), Err(EscrowError::InsufficientEscrow));
    assert_eq!(m.balance_of(owner), 500);
}

#[test]
fn complete_after_refund_lacks_escrow() {
    let owner = Identity { key: 8 };
    let worker = Identity { key: 9 };
    let mut m = funded_market(owner, 400);

    assert_eq!(m.initialize_job(3, b"w".to_vec(), 400, owner), Ok(()));
    assert_eq!(m.start_job(3, worker), Ok(()));
    assert_eq!(m.refund_job(3, owner), Ok(()));
    assert_eq!(
        m.complete_job(3, owner),
        Err(EscrowError::InsufficientEscrow)
    );
    assert_eq!(m.balance_of(worker), 0);
}

#[test]
fn zero_amount_refunds_repeat() {
    let owner = Identity { key: 5 };
    let mut m = Marketplace::new();

    assert_eq!(m.initialize_job(11, b"free".to_vec(), 0, owner), Ok(()));
    assert_eq!(m.refund_job(11, owner), Ok(()));
    assert_eq!(m.refund_job(11, owner), Ok(()));
    assert_eq!(m.job_status(11), JobStatus::Pending);
    assert_eq!(m.balance_of(owner), 0);
}

#[test]
fn complete_before_start_pays_sentinel() {
    let owner = Identity { key: 5 };
    let mut m = funded_market(owner, 50);

    assert_eq!(m.initialize_job(12, b"s".to_vec(), 50, owner), Ok(()));
    assert_eq!(m.complete_job(12, owner), Ok(()));
    assert_eq!(m.job_status(12), JobStatus::Done);
    // Nobody ever started the job, so the payment went to the sentinel
    // identity that the worker field still held.
    assert_eq!(m.balance_of(Identity::unassigned()), 50);
}

#[test]
fn funding_caps_at_issue_limit() {
    let rich = Identity { key: 42 };
    let mut m = Marketplace::new();

    assert!(m.fund(rich, u64::MAX));
    assert_eq!(m.balance_of(rich), u64::MAX);
    assert_eq!(m.total_issued(), u64::MAX);

    assert!(!m.fund(rich, 1));
    assert_eq!(m.balance_of(rich), u64::MAX);

    let poor = Identity { key: 43 };
    assert!(!m.fund(poor, 1));
    assert_eq!(m.balance_of(poor), 0);
}

#[test]
fn jobs_are_independent() {
    let owner_a = Identity { key: 1 };
    let owner_b = Identity { key: 2 };
    let worker = Identity { key: 3 };
    let mut m = Marketplace::new();
    assert!(m.fund(owner_a, 100));
    assert!(m.fund(owner_b, 60));

    assert_eq!(m.initialize_job(1, b"a".to_vec(), 100, owner_a), Ok(()));
    assert_eq!(m.initialize_job(2, b"b".to_vec(), 60, owner_b), Ok(()));

    assert_eq!(m.start_job(1, worker), Ok(()));
    assert_eq!(m.job_status(1), JobStatus::Started);
    assert_eq!(m.job_status(2), JobStatus::Pending);

    assert_eq!(m.refund_job(2, owner_b), Ok(()));
    assert_eq!(m.balance_of(owner_b), 60);
    assert_eq!(m.job_custody(1), 100);

    assert_eq!(m.complete_job(1, owner_a), Ok(()));
    assert_eq!(m.balance_of(worker), 100);
    assert_eq!(m.balance_of(owner_b), 60);
    assert_eq!(m.total_issued(), 160);
}
