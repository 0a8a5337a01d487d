//! An escrow-backed job marketplace: an owner posts a job with bounded
//! metadata and a fixed payment amount, a worker accepts and executes it, and
//! the escrowed funds are released to the worker on completion or returned to
//! the owner on refund. The lifecycle rules live in `job`; the keyed job
//! store, the ledger accounts and the custody bookkeeping live in `market`.

pub mod job;
pub mod market;
