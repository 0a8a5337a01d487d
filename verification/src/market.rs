//! The marketplace: the keyed store of job records with their custody
//! balances, the ledger accounts, and the five lifecycle operations, each
//! proved against the transition functions of `job`. A conservation
//! invariant — the total issued equals all account funds plus all custody —
//! keeps every credit free of overflow.

use vstd::prelude::*;
use crate::job::{
    complete_step, init_step, no_worker, processing_step, refund_step, start_step, EscrowError,
    Identity, Job, JobAccount, JobStatus, MAX_METADATA_LEN,
};

verus! {

/// One ledger account: an identity and the funds it holds.
#[derive(Clone, Copy, PartialEq, Eq, Structural, Debug)]
pub struct Account {
    pub id: Identity,
    pub balance: u64,
}

/// The funds held across a sequence of ledger accounts.
pub open spec fn sum_balances(s: Seq<Account>) -> int
    decreases s.len(),
{
    if s.len() == 0 {
        0
    } else {
        sum_balances(s.drop_last()) + s.last().balance
    }
}

/// The funds held in custody across a sequence of job records.
pub open spec fn sum_custody(s: Seq<JobAccount>) -> int
    decreases s.len(),
{
    if s.len() == 0 {
        0
    } else {
        sum_custody(s.drop_last()) + s.last().custody
    }
}

/// No two accounts share an identity.
pub open spec fn accounts_unique(s: Seq<Account>) -> bool {
    forall|i: int, j: int|
        0 <= i < s.len() && 0 <= j < s.len() && i != j ==> (#[trigger] s[i]).id != (
        #[trigger] s[j]).id
}

/// No two job records share a job identifier.
pub open spec fn jobs_unique(s: Seq<JobAccount>) -> bool {
    forall|i: int, j: int|
        0 <= i < s.len() && 0 <= j < s.len() && i != j ==> (#[trigger] s[i]).job.job_id != (
        #[trigger] s[j]).job.job_id
}

/// Whether some account carries this identity.
pub open spec fn has_acct(s: Seq<Account>, id: Identity) -> bool {
    exists|i: int| 0 <= i < s.len() && (#[trigger] s[i]).id == id
}

/// The index of the account carrying this identity.
pub open spec fn acct_idx(s: Seq<Account>, id: Identity) -> int {
    choose|i: int| 0 <= i < s.len() && (#[trigger] s[i]).id == id
}

/// The funds this identity holds: its account's balance, or 0 without one.
pub open spec fn balance_in(s: Seq<Account>, id: Identity) -> u64 {
    if has_acct(s, id) {
        s[acct_idx(s, id)].balance
    } else {
        0
    }
}

/// Whether some job record carries this identifier.
pub open spec fn has_job_id(s: Seq<JobAccount>, job_id: u64) -> bool {
    exists|i: int| 0 <= i < s.len() && (#[trigger] s[i]).job.job_id == job_id
}

/// The index of the job record carrying this identifier.
pub open spec fn job_idx(s: Seq<JobAccount>, job_id: u64) -> int {
    choose|i: int| 0 <= i < s.len() && (#[trigger] s[i]).job.job_id == job_id
}

proof fn lemma_sum_balances_nonneg(s: Seq<Account>)
    ensures
        sum_balances(s) >= 0,
    decreases s.len(),
{
    if s.len() > 0 {
        lemma_sum_balances_nonneg(s.drop_last());
    }
}

proof fn lemma_sum_custody_nonneg(s: Seq<JobAccount>)
    ensures
        sum_custody(s) >= 0,
    decreases s.len(),
{
    if s.len() > 0 {
        lemma_sum_custody_nonneg(s.drop_last());
    }
}

proof fn lemma_sum_balances_le(s: Seq<Account>, i: int)
    requires
        0 <= i < s.len(),
    ensures
        s[i].balance <= sum_balances(s),
    decreases s.len(),
{
    lemma_sum_balances_nonneg(s.drop_last());
    if i < s.len() - 1 {
        lemma_sum_balances_le(s.drop_last(), i);
        assert(s.drop_last()[i] == s[i]);
    }
}

proof fn lemma_sum_custody_le(s: Seq<JobAccount>, i: int)
    requires
        0 <= i < s.len(),
    ensures
        s[i].custody <= sum_custody(s),
    decreases s.len(),
{
    lemma_sum_custody_nonneg(s.drop_last());
    if i < s.len() - 1 {
        lemma_sum_custody_le(s.drop_last(), i);
        assert(s.drop_last()[i] == s[i]);
    }
}

proof fn lemma_sum_balances_update(s: Seq<Account>, i: int, a: Account)
    requires
        0 <= i < s.len(),
    ensures
        sum_balances(s.update(i, a)) == sum_balances(s) - s[i].balance + a.balance,
    decreases s.len(),
{
    let t = s.update(i, a);
    if i == s.len() - 1 {
        assert(t.drop_last() =~= s.drop_last());
    } else {
        assert(t.drop_last() =~= s.drop_last().update(i, a));
        lemma_sum_balances_update(s.drop_last(), i, a);
        assert(s.drop_last()[i] == s[i]);
    }
}

proof fn lemma_sum_custody_update(s: Seq<JobAccount>, i: int, e: JobAccount)
    requires
        0 <= i < s.len(),
    ensures
        sum_custody(s.update(i, e)) == sum_custody(s) - s[i].custody + e.custody,
    decreases s.len(),
{
    let t = s.update(i, e);
    if i == s.len() - 1 {
        assert(t.drop_last() =~= s.drop_last());
    } else {
        assert(t.drop_last() =~= s.drop_last().update(i, e));
        lemma_sum_custody_update(s.drop_last(), i, e);
        assert(s.drop_last()[i] == s[i]);
    }
}

proof fn lemma_sum_balances_push(s: Seq<Account>, a: Account)
    ensures
        sum_balances(s.push(a)) == sum_balances(s) + a.balance,
{
    assert(s.push(a).drop_last() =~= s);
    assert(s.push(a).last() == a);
}

proof fn lemma_sum_custody_push(s: Seq<JobAccount>, e: JobAccount)
    ensures
        sum_custody(s.push(e)) == sum_custody(s) + e.custody,
{
    assert(s.push(e).drop_last() =~= s);
    assert(s.push(e).last() == e);
}

/// With unique identities, the index found for an identity is the index of
/// any account that carries it.
proof fn lemma_acct_idx(s: Seq<Account>, id: Identity, i: int)
    requires
        accounts_unique(s),
        0 <= i < s.len(),
        s[i].id == id,
    ensures
        has_acct(s, id),
        acct_idx(s, id) == i,
{
    assert(has_acct(s, id));
    let k = acct_idx(s, id);
    if k != i {
        assert(s[k].id != s[i].id);
    }
}

/// With unique identifiers, the index found for an identifier is the index
/// of any record that carries it.
proof fn lemma_job_idx(s: Seq<JobAccount>, job_id: u64, i: int)
    requires
        jobs_unique(s),
        0 <= i < s.len(),
        s[i].job.job_id == job_id,
    ensures
        has_job_id(s, job_id),
        job_idx(s, job_id) == i,
{
    assert(has_job_id(s, job_id));
    let k = job_idx(s, job_id);
    if k != i {
        assert(s[k].job.job_id != s[i].job.job_id);
    }
}

/// Replacing the account at `i` by one with the same identity changes that
/// identity's balance and nothing else.
proof fn lemma_accts_update_frame(s: Seq<Account>, i: int, a: Account)
    requires
        accounts_unique(s),
        0 <= i < s.len(),
        a.id == s[i].id,
    ensures
        accounts_unique(s.update(i, a)),
        forall|id: Identity| has_acct(s.update(i, a), id) == has_acct(s, id),
        acct_idx(s, s[i].id) == i,
        acct_idx(s.update(i, a), a.id) == i,
        balance_in(s.update(i, a), a.id) == a.balance,
        balance_in(s, a.id) == s[i].balance,
        forall|id: Identity|
            id != a.id ==> #[trigger] balance_in(s.update(i, a), id) == balance_in(s, id),
{
    let t = s.update(i, a);
    lemma_acct_idx(s, a.id, i);
    assert forall|p: int, q: int|
        0 <= p < t.len() && 0 <= q < t.len() && p != q implies (#[trigger] t[p]).id != (
    #[trigger] t[q]).id by {
        assert(t[p].id == s[p].id);
        assert(t[q].id == s[q].id);
    }
    lemma_acct_idx(t, a.id, i);
    assert forall|id: Identity| has_acct(t, id) == has_acct(s, id) by {
        if has_acct(s, id) {
            let k = acct_idx(s, id);
            assert(t[k].id == id);
            assert(has_acct(t, id));
        }
        if has_acct(t, id) {
            let k = acct_idx(t, id);
            assert(s[k].id == id);
            assert(has_acct(s, id));
        }
    }
    assert forall|id: Identity|
        id != a.id implies #[trigger] balance_in(t, id) == balance_in(s, id) by {
        if has_acct(s, id) {
            let k = acct_idx(s, id);
            lemma_acct_idx(s, id, k);
            assert(k != i);
            assert(t[k] == s[k]);
            lemma_acct_idx(t, id, k);
        }
    }
}

/// Appending an account for a fresh identity gives that identity its
/// balance and leaves every other identity's balance alone.
proof fn lemma_accts_push_frame(s: Seq<Account>, a: Account)
    requires
        accounts_unique(s),
        !has_acct(s, a.id),
    ensures
        accounts_unique(s.push(a)),
        has_acct(s.push(a), a.id),
        acct_idx(s.push(a), a.id) == s.len(),
        balance_in(s.push(a), a.id) == a.balance,
        balance_in(s, a.id) == 0,
        forall|id: Identity| id != a.id ==> has_acct(s.push(a), id) == has_acct(s, id),
        forall|id: Identity|
            id != a.id ==> #[trigger] balance_in(s.push(a), id) == balance_in(s, id),
{
    let t = s.push(a);
    assert forall|p: int, q: int|
        0 <= p < t.len() && 0 <= q < t.len() && p != q implies (#[trigger] t[p]).id != (
    #[trigger] t[q]).id by {
        if p < s.len() && q < s.len() {
            assert(t[p] == s[p]);
            assert(t[q] == s[q]);
        } else if p == s.len() {
            assert(t[q] == s[q]);
            if t[q].id == a.id {
                assert(has_acct(s, a.id));
            }
        } else {
            assert(t[p] == s[p]);
            if t[p].id == a.id {
                assert(has_acct(s, a.id));
            }
        }
    }
    assert(t[s.len() as int] == a);
    lemma_acct_idx(t, a.id, s.len() as int);
    assert forall|id: Identity|
        id != a.id implies #[trigger] has_acct(t, id) == has_acct(s, id) by {
        if has_acct(s, id) {
            let k = acct_idx(s, id);
            assert(t[k].id == id);
            assert(has_acct(t, id));
        }
        if has_acct(t, id) {
            let k = acct_idx(t, id);
            if k < s.len() {
                assert(s[k].id == id);
                assert(has_acct(s, id));
            }
        }
    }
    assert forall|id: Identity|
        id != a.id implies #[trigger] balance_in(t, id) == balance_in(s, id) by {
        if has_acct(s, id) {
            let k = acct_idx(s, id);
            assert(t[k].id == id);
            lemma_acct_idx(t, id, k);
        }
    }
}

/// Replacing the record at `i` by one with the same identifier changes that
/// job and nothing else.
proof fn lemma_jobs_update_frame(s: Seq<JobAccount>, i: int, e: JobAccount)
    requires
        jobs_unique(s),
        0 <= i < s.len(),
        e.job.job_id == s[i].job.job_id,
    ensures
        jobs_unique(s.update(i, e)),
        forall|j: u64| has_job_id(s.update(i, e), j) == has_job_id(s, j),
        job_idx(s, e.job.job_id) == i,
        job_idx(s.update(i, e), e.job.job_id) == i,
        forall|j: u64|
            j != e.job.job_id && has_job_id(s, j) ==> #[trigger] job_idx(s.update(i, e), j)
                == job_idx(s, j) && s.update(i, e)[job_idx(s, j)] == s[job_idx(s, j)],
{
    let t = s.update(i, e);
    lemma_job_idx(s, e.job.job_id, i);
    assert forall|p: int, q: int|
        0 <= p < t.len() && 0 <= q < t.len() && p != q implies (#[trigger] t[p]).job.job_id != (
    #[trigger] t[q]).job.job_id by {
        assert(t[p].job.job_id == s[p].job.job_id);
        assert(t[q].job.job_id == s[q].job.job_id);
    }
    lemma_job_idx(t, e.job.job_id, i);
    assert forall|j: u64| has_job_id(t, j) == has_job_id(s, j) by {
        if has_job_id(s, j) {
            let k = job_idx(s, j);
            assert(t[k].job.job_id == j);
            assert(has_job_id(t, j));
        }
        if has_job_id(t, j) {
            let k = job_idx(t, j);
            assert(s[k].job.job_id == j);
            assert(has_job_id(s, j));
        }
    }
    assert forall|j: u64|
        j != e.job.job_id && has_job_id(s, j) implies #[trigger] job_idx(t, j) == job_idx(s, j)
        && t[job_idx(s, j)] == s[job_idx(s, j)] by {
        let k = job_idx(s, j);
        lemma_job_idx(s, j, k);
        assert(k != i);
        assert(t[k] == s[k]);
        lemma_job_idx(t, j, k);
    }
}

/// Appending a record with a fresh identifier adds that job and leaves every
/// other job alone.
proof fn lemma_jobs_push_frame(s: Seq<JobAccount>, e: JobAccount)
    requires
        jobs_unique(s),
        !has_job_id(s, e.job.job_id),
    ensures
        jobs_unique(s.push(e)),
        has_job_id(s.push(e), e.job.job_id),
        job_idx(s.push(e), e.job.job_id) == s.len(),
        s.push(e)[s.len() as int] == e,
        forall|j: u64| j != e.job.job_id ==> has_job_id(s.push(e), j) == has_job_id(s, j),
        forall|j: u64|
            j != e.job.job_id && has_job_id(s, j) ==> #[trigger] job_idx(s.push(e), j) == job_idx(
                s,
                j,
            ) && s.push(e)[job_idx(s, j)] == s[job_idx(s, j)],
{
    let t = s.push(e);
    assert forall|p: int, q: int|
        0 <= p < t.len() && 0 <= q < t.len() && p != q implies (#[trigger] t[p]).job.job_id != (
    #[trigger] t[q]).job.job_id by {
        if p < s.len() && q < s.len() {
            assert(t[p] == s[p]);
            assert(t[q] == s[q]);
        } else if p == s.len() {
            assert(t[q] == s[q]);
            if t[q].job.job_id == e.job.job_id {
                assert(has_job_id(s, e.job.job_id));
            }
        } else {
            assert(t[p] == s[p]);
            if t[p].job.job_id == e.job.job_id {
                assert(has_job_id(s, e.job.job_id));
            }
        }
    }
    assert(t[s.len() as int] == e);
    lemma_job_idx(t, e.job.job_id, s.len() as int);
    assert forall|j: u64|
        j != e.job.job_id implies has_job_id(t, j) == has_job_id(s, j) by {
        if has_job_id(s, j) {
            let k = job_idx(s, j);
            assert(t[k].job.job_id == j);
            assert(has_job_id(t, j));
        }
        if has_job_id(t, j) {
            let k = job_idx(t, j);
            if k < s.len() {
                assert(s[k].job.job_id == j);
                assert(has_job_id(s, j));
            }
        }
    }
    assert forall|j: u64|
        j != e.job.job_id && has_job_id(s, j) implies #[trigger] job_idx(t, j) == job_idx(s, j)
        && t[job_idx(s, j)] == s[job_idx(s, j)] by {
        let k = job_idx(s, j);
        lemma_job_idx(s, j, k);
        assert(t[k] == s[k]);
        lemma_job_idx(t, j, k);
    }
}

/// Linear search for the account that carries `who`.
fn find_acct(accounts: &Vec<Account>, who: Identity) -> (r: Option<usize>)
    ensures
        (match r {
            Some(i) => i < accounts@.len() && accounts@[i as int].id == who,
            None => !has_acct(accounts@, who),
        }),
{
    let mut i: usize = 0;
    while i < accounts.len()
        invariant
            i <= accounts@.len(),
            forall|k: int| 0 <= k < i ==> (#[trigger] accounts@[k]).id != who,
        decreases accounts@.len() - i,
    {
        if accounts[i].id == who {
            return Some(i);
        }
        i = i + 1;
    }
    None
}

/// Linear search for the job record that carries `job_id`.
fn find_job(jobs: &Vec<JobAccount>, job_id: u64) -> (r: Option<usize>)
    ensures
        (match r {
            Some(i) => i < jobs@.len() && jobs@[i as int].job.job_id == job_id,
            None => !has_job_id(jobs@, job_id),
        }),
{
    let mut i: usize = 0;
    while i < jobs.len()
        invariant
            i <= jobs@.len(),
            forall|k: int| 0 <= k < i ==> (#[trigger] jobs@[k]).job.job_id != job_id,
        decreases jobs@.len() - i,
    {
        if jobs[i].job.job_id == job_id {
            return Some(i);
        }
        i = i + 1;
    }
    None
}

/// The whole marketplace: every job record with its custody balance, every
/// ledger account, and the total amount of currency ever issued. The
/// conservation invariant ties the three together: `total` always equals the
/// sum of all account balances plus the sum of all custody balances, so no
/// transfer inside the marketplace can overflow and none can mint or destroy
/// funds.
pub struct Marketplace {
    jobs: Vec<JobAccount>,
    accounts: Vec<Account>,
    total: u64,
}

impl Marketplace {
    /// The marketplace invariant: identifiers are unique on both sides,
    /// every job record is well formed, and the issued total equals all
    /// funds held in accounts and custody together.
    pub closed spec fn wf(self) -> bool {
        &&& jobs_unique(self.jobs@)
        &&& accounts_unique(self.accounts@)
        &&& forall|i: int| 0 <= i < self.jobs@.len() ==> (#[trigger] self.jobs@[i]).wf()
        &&& self.total == sum_balances(self.accounts@) + sum_custody(self.jobs@)
    }

    /// Whether a job with this identifier has been posted.
    pub closed spec fn has_job(self, job_id: u64) -> bool {
        has_job_id(self.jobs@, job_id)
    }

    /// The record of the job with this identifier, custody included.
    pub closed spec fn job_rec(self, job_id: u64) -> JobAccount {
        self.jobs@[job_idx(self.jobs@, job_id)]
    }

    /// The funds this identity holds in its ledger account.
    pub closed spec fn balance(self, id: Identity) -> u64 {
        balance_in(self.accounts@, id)
    }

    /// The total amount of currency ever issued into the marketplace.
    pub closed spec fn issued(self) -> u64 {
        self.total
    }

    /// An empty marketplace: no jobs, no accounts, nothing issued.
    pub fn new() -> (r: Marketplace)
        ensures
            r.wf(),
            r.issued() == 0,
            forall|id: Identity| r.balance(id) == 0,
            forall|job_id: u64| !r.has_job(job_id),
    {
        Marketplace { jobs: Vec::new(), accounts: Vec::new(), total: 0 }
    }

    /// Add `amount` to `who`'s account, creating the account if need be.
    /// Purely internal: the caller squares the conservation invariant.
    fn credit(&mut self, who: Identity, amount: u64)
        requires
            accounts_unique(old(self).accounts@),
            sum_balances(old(self).accounts@) + amount <= u64::MAX,
        ensures
            accounts_unique(final(self).accounts@),
            sum_balances(final(self).accounts@) == sum_balances(old(self).accounts@) + amount,
            final(self).balance(who) == balance_in(old(self).accounts@, who) + amount,
            forall|id: Identity|
                id != who ==> #[trigger] balance_in(final(self).accounts@, id) == balance_in(
                    old(self).accounts@,
                    id,
                ),
            final(self).jobs == old(self).jobs,
            final(self).total == old(self).total,
    {
        match find_acct(&self.accounts, who) {
            Some(i) => {
                proof {
                    lemma_sum_balances_le(self.accounts@, i as int);
                    lemma_acct_idx(self.accounts@, who, i as int);
                }
                let b = self.accounts[i].balance;
                self.accounts[i] = Account { id: who, balance: b + amount };
                proof {
                    lemma_sum_balances_update(
                        old(self).accounts@,
                        i as int,
                        Account { id: who, balance: (b + amount) as u64 },
                    );
                    lemma_accts_update_frame(
                        old(self).accounts@,
                        i as int,
                        Account { id: who, balance: (b + amount) as u64 },
                    );
                }
            },
            None => {
                self.accounts.push(Account { id: who, balance: amount });
                proof {
                    lemma_sum_balances_push(
                        old(self).accounts@,
                        Account { id: who, balance: amount },
                    );
                    lemma_accts_push_frame(
                        old(self).accounts@,
                        Account { id: who, balance: amount },
                    );
                }
            },
        }
    }

    /// Take `amount` out of `who`'s account. Purely internal: the caller has
    /// established that the account covers it.
    fn debit(&mut self, who: Identity, amount: u64)
        requires
            accounts_unique(old(self).accounts@),
            balance_in(old(self).accounts@, who) >= amount,
        ensures
            accounts_unique(final(self).accounts@),
            sum_balances(final(self).accounts@) == sum_balances(old(self).accounts@) - amount,
            final(self).balance(who) == balance_in(old(self).accounts@, who) - amount,
            forall|id: Identity|
                id != who ==> #[trigger] balance_in(final(self).accounts@, id) == balance_in(
                    old(self).accounts@,
                    id,
                ),
            final(self).jobs == old(self).jobs,
            final(self).total == old(self).total,
    {
        match find_acct(&self.accounts, who) {
            Some(i) => {
                proof {
                    lemma_acct_idx(self.accounts@, who, i as int);
                }
                let b = self.accounts[i].balance;
                self.accounts[i] = Account { id: who, balance: b - amount };
                proof {
                    lemma_sum_balances_update(
                        old(self).accounts@,
                        i as int,
                        Account { id: who, balance: (b - amount) as u64 },
                    );
                    lemma_accts_update_frame(
                        old(self).accounts@,
                        i as int,
                        Account { id: who, balance: (b - amount) as u64 },
                    );
                }
            },
            None => {
                // Without an account the covered amount can only be zero, so
                // there is nothing to move.
            },
        }
    }

    /// Issue `amount` fresh currency units into `who`'s account — the way
    /// funds enter the marketplace at all. Returns `false`, changing
    /// nothing, when that would push the total issued past `u64::MAX`.
    pub fn fund(&mut self, who: Identity, amount: u64) -> (r: bool)
        requires
            old(self).wf(),
        ensures
            final(self).wf(),
            r == (old(self).issued() + amount <= u64::MAX),
            r ==> final(self).balance(who) == old(self).balance(who) + amount,
            r ==> final(self).issued() == old(self).issued() + amount,
            !r ==> *final(self) == *old(self),
            forall|id: Identity|
                id != who ==> #[trigger] final(self).balance(id) == old(self).balance(id),
            forall|job_id: u64| final(self).has_job(job_id) == old(self).has_job(job_id),
            forall|job_id: u64|
                old(self).has_job(job_id) ==> #[trigger] final(self).job_rec(job_id) == old(
                    self,
                ).job_rec(job_id),
    {
        if amount <= u64::MAX - self.total {
            proof {
                lemma_sum_custody_nonneg(self.jobs@);
            }
            self.credit(who, amount);
            self.total = self.total + amount;
            proof {
                assert forall|id: Identity|
                    id != who implies #[trigger] self.balance(id) == old(self).balance(id) by {
                    assert(balance_in(self.accounts@, id) == balance_in(old(self).accounts@, id));
                }
            }
            true
        } else {
            false
        }
    }

    /// The funds `id` holds in its ledger account.
    pub fn balance_of(&self, id: Identity) -> (r: u64)
        requires
            self.wf(),
        ensures
            r == self.balance(id),
    {
        match find_acct(&self.accounts, id) {
            Some(i) => {
                proof {
                    lemma_acct_idx(self.accounts@, id, i as int);
                }
                self.accounts[i].balance
            },
            None => 0,
        }
    }

    /// The total amount of currency ever issued into the marketplace.
    pub fn total_issued(&self) -> (r: u64)
        ensures
            r == self.issued(),
    {
        self.total
    }

    /// A caller volunteers as the job's worker. Succeeds exactly when the
    /// job is still `Pending` — the first caller ordered after creation wins;
    /// the caller becomes the worker and the job is `Started`. Any later
    /// attempt is rejected with `InvalidState`.
    pub fn start_job(&mut self, job_id: u64, caller: Identity) -> (r: Result<(), EscrowError>)
        requires
            old(self).wf(),
            old(self).has_job(job_id),
        ensures
            final(self).wf(),
            r is Ok <==> old(self).job_rec(job_id).job.status is Pending,
            r is Err ==> r == Err::<(), EscrowError>(EscrowError::InvalidState) && *final(self)
                == *old(self),
            r is Ok ==> (final(self).job_rec(job_id) == JobAccount {
                job: (start_step(old(self).job_rec(job_id).job, caller))->Ok_0,
                custody: old(self).job_rec(job_id).custody,
            }),
            r is Ok ==> final(self).job_rec(job_id).job.worker == caller && final(self).job_rec(
                job_id,
            ).job.status is Started,
            final(self).issued() == old(self).issued(),
            forall|id: Identity| #[trigger] final(self).balance(id) == old(self).balance(id),
            forall|j: u64| #[trigger] final(self).has_job(j) == old(self).has_job(j),
            forall|j: u64|
                j != job_id && old(self).has_job(j) ==> #[trigger] final(self).job_rec(j) == old(
                    self,
                ).job_rec(j),
    {
        let i = match find_job(&self.jobs, job_id) {
            Some(i) => i,
            None => {
                proof {
                    assert(false);
                }
                return Err(EscrowError::InvalidState);
            },
        };
        proof {
            lemma_job_idx(self.jobs@, job_id, i as int);
        }
        if self.jobs[i].job.status != JobStatus::Pending {
            return Err(EscrowError::InvalidState);
        }
        let ghost orig = self.jobs@[i as int];
        self.jobs[i].job.worker = caller;
        self.jobs[i].job.status = JobStatus::Started;
        proof {
            let e2 = JobAccount {
                job: Job {
                    job_id: orig.job.job_id,
                    metadata: orig.job.metadata,
                    owner: orig.job.owner,
                    worker: caller,
                    amount: orig.job.amount,
                    status: JobStatus::Started,
                },
                custody: orig.custody,
            };
            assert(self.jobs@ =~= old(self).jobs@.update(i as int, e2));
            lemma_sum_custody_update(old(self).jobs@, i as int, e2);
            lemma_jobs_update_frame(old(self).jobs@, i as int, e2);
            lemma_job_idx(self.jobs@, job_id, i as int);
            assert forall|k: int|
                0 <= k < self.jobs@.len() implies (#[trigger] self.jobs@[k]).wf() by {
                if k != i as int {
                    assert(self.jobs@[k] == old(self).jobs@[k]);
                }
            }
            assert forall|j: u64| #[trigger] self.has_job(j) == old(self).has_job(j) by {
                assert(has_job_id(self.jobs@, j) == has_job_id(old(self).jobs@, j));
            }
            assert forall|j: u64|
                j != job_id && old(self).has_job(j) implies #[trigger] self.job_rec(j) == old(
                self,
            ).job_rec(j) by {
                assert(job_idx(self.jobs@, j) == job_idx(old(self).jobs@, j));
                assert(self.jobs@[job_idx(old(self).jobs@, j)] == old(self).jobs@[job_idx(
                    old(self).jobs@,
                    j,
                )]);
            }
            assert forall|id: Identity| #[trigger] self.balance(id) == old(self).balance(id) by {
                assert(self.accounts@ == old(self).accounts@);
            }
        }
        Ok(())
    }

    /// Post a job: create its record — status `Pending`, no worker, metadata
    /// and amount as given, the caller as owner — and move `amount` from the
    /// caller's account into the job's custody. Rejected, creating nothing,
    /// exactly when the metadata is longer than `MAX_METADATA_LEN` bytes.
    /// The host-style preconditions — a fresh identifier and a funded
    /// caller — are demanded of the caller rather than checked here.
    pub fn initialize_job(
        &mut self,
        job_id: u64,
        metadata: Vec<u8>,
        amount: u64,
        caller: Identity,
    ) -> (r: Result<(), EscrowError>)
        requires
            old(self).wf(),
            !old(self).has_job(job_id),
            old(self).balance(caller) >= amount,
        ensures
            final(self).wf(),
            r is Ok <==> metadata@.len() <= MAX_METADATA_LEN,
            r is Err ==> r == Err::<(), EscrowError>(EscrowError::MetadataTooLong) && *final(self)
                == *old(self),
            r is Ok ==> final(self).has_job(job_id),
            r is Ok ==> (final(self).job_rec(job_id) == JobAccount {
                job: (init_step(job_id, metadata, amount, caller))->Ok_0,
                custody: amount,
            }),
            r is Ok ==> (final(self).job_rec(job_id) == JobAccount {
                job: Job {
                    job_id: job_id,
                    metadata: metadata,
                    owner: caller,
                    worker: no_worker(),
                    amount: amount,
                    status: JobStatus::Pending,
                },
                custody: amount,
            }),
            r is Ok ==> final(self).balance(caller) == old(self).balance(caller) - amount,
            final(self).issued() == old(self).issued(),
            forall|id: Identity|
                id != caller ==> #[trigger] final(self).balance(id) == old(self).balance(id),
            forall|j: u64| j != job_id ==> #[trigger] final(self).has_job(j) == old(self).has_job(j),
            forall|j: u64|
                j != job_id && old(self).has_job(j) ==> #[trigger] final(self).job_rec(j) == old(
                    self,
                ).job_rec(j),
    {
        if metadata.len() > MAX_METADATA_LEN {
            return Err(EscrowError::MetadataTooLong);
        }
        self.debit(caller, amount);
        let entry = JobAccount {
            job: Job {
                job_id: job_id,
                metadata: metadata,
                owner: caller,
                worker: Identity::unassigned(),
                amount: amount,
                status: JobStatus::Pending,
            },
            custody: amount,
        };
        let ghost e = entry;
        self.jobs.push(entry);
        proof {
            assert(self.jobs@ =~= old(self).jobs@.push(e));
            lemma_sum_custody_push(old(self).jobs@, e);
            lemma_jobs_push_frame(old(self).jobs@, e);
            assert forall|k: int|
                0 <= k < self.jobs@.len() implies (#[trigger] self.jobs@[k]).wf() by {
                if k < old(self).jobs@.len() {
                    assert(self.jobs@[k] == old(self).jobs@[k]);
                } else {
                    assert(self.jobs@[k] == e);
                }
            }
            assert forall|j: u64|
                j != job_id implies #[trigger] self.has_job(j) == old(self).has_job(j) by {
                assert(has_job_id(self.jobs@, j) == has_job_id(old(self).jobs@, j));
            }
            assert forall|j: u64|
                j != job_id && old(self).has_job(j) implies #[trigger] self.job_rec(j) == old(
                self,
            ).job_rec(j) by {
                assert(job_idx(self.jobs@, j) == job_idx(old(self).jobs@, j));
                assert(self.jobs@[job_idx(old(self).jobs@, j)] == old(self).jobs@[job_idx(
                    old(self).jobs@,
                    j,
                )]);
            }
            assert forall|id: Identity|
                id != caller implies #[trigger] self.balance(id) == old(self).balance(id) by {
                assert(balance_in(self.accounts@, id) == balance_in(old(self).accounts@, id));
            }
        }
        Ok(())
    }

    /// The assigned worker reports work in progress. Only the worker may do
    /// so — any other caller is rejected with `Unauthorized` before the
    /// status is looked at — and only from `Started`, which moves the job to
    /// `Processing`; any other status is rejected with `InvalidState`.
    pub fn mark_processing(&mut self, job_id: u64, caller: Identity) -> (r: Result<
        (),
        EscrowError,
    >)
        requires
            old(self).wf(),
            old(self).has_job(job_id),
        ensures
            final(self).wf(),
            r is Ok <==> caller == old(self).job_rec(job_id).job.worker && old(self).job_rec(
                job_id,
            ).job.status is Started,
            r == Err::<(), EscrowError>(EscrowError::Unauthorized) <==> caller != old(
                self,
            ).job_rec(job_id).job.worker,
            r == Err::<(), EscrowError>(EscrowError::InvalidState) <==> caller == old(
                self,
            ).job_rec(job_id).job.worker && !(old(self).job_rec(job_id).job.status is Started),
            r is Err ==> *final(self) == *old(self),
            r is Ok ==> (final(self).job_rec(job_id) == JobAccount {
                job: (processing_step(old(self).job_rec(job_id).job, caller))->Ok_0,
                custody: old(self).job_rec(job_id).custody,
            }),
            r is Ok ==> final(self).job_rec(job_id).job.status is Processing,
            final(self).issued() == old(self).issued(),
            forall|id: Identity| #[trigger] final(self).balance(id) == old(self).balance(id),
            forall|j: u64| #[trigger] final(self).has_job(j) == old(self).has_job(j),
            forall|j: u64|
                j != job_id && old(self).has_job(j) ==> #[trigger] final(self).job_rec(j) == old(
                    self,
                ).job_rec(j),
    {
        let i = match find_job(&self.jobs, job_id) {
            Some(i) => i,
            None => {
                proof {
                    assert(false);
                }
                return Err(EscrowError::InvalidState);
            },
        };
        proof {
            lemma_job_idx(self.jobs@, job_id, i as int);
        }
        if caller != self.jobs[i].job.worker {
            return Err(EscrowError::Unauthorized);
        }
        if self.jobs[i].job.status != JobStatus::Started {
            return Err(EscrowError::InvalidState);
        }
        let ghost orig = self.jobs@[i as int];
        self.jobs[i].job.status = JobStatus::Processing;
        proof {
            let e2 = JobAccount {
                job: Job {
                    job_id: orig.job.job_id,
                    metadata: orig.job.metadata,
                    owner: orig.job.owner,
                    worker: orig.job.worker,
                    amount: orig.job.amount,
                    status: JobStatus::Processing,
                },
                custody: orig.custody,
            };
            assert(self.jobs@ =~= old(self).jobs@.update(i as int, e2));
            lemma_sum_custody_update(old(self).jobs@, i as int, e2);
            lemma_jobs_update_frame(old(self).jobs@, i as int, e2);
            lemma_job_idx(self.jobs@, job_id, i as int);
            assert forall|k: int|
                0 <= k < self.jobs@.len() implies (#[trigger] self.jobs@[k]).wf() by {
                if k != i as int {
                    assert(self.jobs@[k] == old(self).jobs@[k]);
                }
            }
            assert forall|j: u64| #[trigger] self.has_job(j) == old(self).has_job(j) by {
                assert(has_job_id(self.jobs@, j) == has_job_id(old(self).jobs@, j));
            }
            assert forall|j: u64|
                j != job_id && old(self).has_job(j) implies #[trigger] self.job_rec(j) == old(
                self,
            ).job_rec(j) by {
                assert(job_idx(self.jobs@, j) == job_idx(old(self).jobs@, j));
                assert(self.jobs@[job_idx(old(self).jobs@, j)] == old(self).jobs@[job_idx(
                    old(self).jobs@,
                    j,
                )]);
            }
            assert forall|id: Identity| #[trigger] self.balance(id) == old(self).balance(id) by {
                assert(self.accounts@ == old(self).accounts@);
            }
        }
        Ok(())
    }

    /// The owner releases the escrow: exactly `amount` moves from the job's
    /// custody into the worker's account and the job becomes `Done` — the
    /// terminal state. The record is kept; custody beyond `amount` stays
    /// with it. Only the owner may complete, only while the job is not
    /// `Done`, and only while custody covers the amount.
    pub fn complete_job(&mut self, job_id: u64, caller: Identity) -> (r: Result<(), EscrowError>)
        requires
            old(self).wf(),
            old(self).has_job(job_id),
        ensures
            final(self).wf(),
            r is Ok <==> caller == old(self).job_rec(job_id).job.owner && !(old(self).job_rec(
                job_id,
            ).job.status is Done) && old(self).job_rec(job_id).custody >= old(self).job_rec(
                job_id,
            ).job.amount,
            r == Err::<(), EscrowError>(EscrowError::Unauthorized) <==> caller != old(
                self,
            ).job_rec(job_id).job.owner,
            r == Err::<(), EscrowError>(EscrowError::InvalidState) <==> caller == old(
                self,
            ).job_rec(job_id).job.owner && old(self).job_rec(job_id).job.status is Done,
            r == Err::<(), EscrowError>(EscrowError::InsufficientEscrow) <==> caller == old(
                self,
            ).job_rec(job_id).job.owner && !(old(self).job_rec(job_id).job.status is Done) && old(
                self,
            ).job_rec(job_id).custody < old(self).job_rec(job_id).job.amount,
            r is Err ==> *final(self) == *old(self),
            r is Ok ==> final(self).job_rec(job_id) == (complete_step(
                old(self).job_rec(job_id),
                caller,
            ))->Ok_0,
            r is Ok ==> final(self).job_rec(job_id).job.status is Done,
            r is Ok ==> final(self).balance(old(self).job_rec(job_id).job.worker) == old(
                self,
            ).balance(old(self).job_rec(job_id).job.worker) + old(self).job_rec(
                job_id,
            ).job.amount,
            r is Ok ==> forall|id: Identity|
                id != old(self).job_rec(job_id).job.worker ==> #[trigger] final(self).balance(id)
                    == old(self).balance(id),
            final(self).issued() == old(self).issued(),
            forall|j: u64| #[trigger] final(self).has_job(j) == old(self).has_job(j),
            forall|j: u64|
                j != job_id && old(self).has_job(j) ==> #[trigger] final(self).job_rec(j) == old(
                    self,
                ).job_rec(j),
    {
        let i = match find_job(&self.jobs, job_id) {
            Some(i) => i,
            None => {
                proof {
                    assert(false);
                }
                return Err(EscrowError::InvalidState);
            },
        };
        proof {
            lemma_job_idx(self.jobs@, job_id, i as int);
        }
        if caller != self.jobs[i].job.owner {
            return Err(EscrowError::Unauthorized);
        }
        if self.jobs[i].job.status == JobStatus::Done {
            return Err(EscrowError::InvalidState);
        }
        if self.jobs[i].custody < self.jobs[i].job.amount {
            return Err(EscrowError::InsufficientEscrow);
        }
        let amount = self.jobs[i].job.amount;
        let worker = self.jobs[i].job.worker;
        let ghost orig = self.jobs@[i as int];
        let c = self.jobs[i].custody;
        self.jobs[i].custody = c - amount;
        self.jobs[i].job.status = JobStatus::Done;
        let ghost e2 = JobAccount {
            job: Job {
                job_id: orig.job.job_id,
                metadata: orig.job.metadata,
                owner: orig.job.owner,
                worker: orig.job.worker,
                amount: orig.job.amount,
                status: JobStatus::Done,
            },
            custody: (orig.custody - orig.job.amount) as u64,
        };
        proof {
            assert(self.jobs@ =~= old(self).jobs@.update(i as int, e2));
            lemma_sum_custody_update(old(self).jobs@, i as int, e2);
            lemma_jobs_update_frame(old(self).jobs@, i as int, e2);
            lemma_job_idx(self.jobs@, job_id, i as int);
            // custody covered the amount, so crediting the worker stays
            // within the issued total.
            lemma_sum_custody_le(old(self).jobs@, i as int);
        }
        self.credit(worker, amount);
        proof {
            assert forall|k: int|
                0 <= k < self.jobs@.len() implies (#[trigger] self.jobs@[k]).wf() by {
                if k != i as int {
                    assert(self.jobs@[k] == old(self).jobs@[k]);
                }
            }
            assert forall|j: u64| #[trigger] self.has_job(j) == old(self).has_job(j) by {
                assert(has_job_id(self.jobs@, j) == has_job_id(old(self).jobs@, j));
            }
            assert forall|j: u64|
                j != job_id && old(self).has_job(j) implies #[trigger] self.job_rec(j) == old(
                self,
            ).job_rec(j) by {
                assert(job_idx(self.jobs@, j) == job_idx(old(self).jobs@, j));
                assert(self.jobs@[job_idx(old(self).jobs@, j)] == old(self).jobs@[job_idx(
                    old(self).jobs@,
                    j,
                )]);
            }
            assert forall|id: Identity|
                id != worker implies #[trigger] self.balance(id) == old(self).balance(id) by {
                assert(balance_in(self.accounts@, id) == balance_in(old(self).accounts@, id));
            }
        }
        Ok(())
    }

    /// The owner takes the escrow back: exactly `amount` moves from the
    /// job's custody into the owner's account. The record — its status in
    /// particular — is deliberately left as it was, so a further refund or a
    /// completion stays possible and is gated only by the custody check.
    /// The same guards as `complete_job` apply.
    pub fn refund_job(&mut self, job_id: u64, caller: Identity) -> (r: Result<(), EscrowError>)
        requires
            old(self).wf(),
            old(self).has_job(job_id),
        ensures
            final(self).wf(),
            r is Ok <==> caller == old(self).job_rec(job_id).job.owner && !(old(self).job_rec(
                job_id,
            ).job.status is Done) && old(self).job_rec(job_id).custody >= old(self).job_rec(
                job_id,
            ).job.amount,
            r == Err::<(), EscrowError>(EscrowError::Unauthorized) <==> caller != old(
                self,
            ).job_rec(job_id).job.owner,
            r == Err::<(), EscrowError>(EscrowError::InvalidState) <==> caller == old(
                self,
            ).job_rec(job_id).job.owner && old(self).job_rec(job_id).job.status is Done,
            r == Err::<(), EscrowError>(EscrowError::InsufficientEscrow) <==> caller == old(
                self,
            ).job_rec(job_id).job.owner && !(old(self).job_rec(job_id).job.status is Done) && old(
                self,
            ).job_rec(job_id).custody < old(self).job_rec(job_id).job.amount,
            r is Err ==> *final(self) == *old(self),
            r is Ok ==> final(self).job_rec(job_id) == (refund_step(
                old(self).job_rec(job_id),
                caller,
            ))->Ok_0,
            r is Ok ==> final(self).job_rec(job_id).job == old(self).job_rec(job_id).job,
            r is Ok ==> final(self).balance(caller) == old(self).balance(caller) + old(
                self,
            ).job_rec(job_id).job.amount,
            r is Ok ==> forall|id: Identity|
                id != caller ==> #[trigger] final(self).balance(id) == old(self).balance(id),
            final(self).issued() == old(self).issued(),
            forall|j: u64| #[trigger] final(self).has_job(j) == old(self).has_job(j),
            forall|j: u64|
                j != job_id && old(self).has_job(j) ==> #[trigger] final(self).job_rec(j) == old(
                    self,
                ).job_rec(j),
    {
        let i = match find_job(&self.jobs, job_id) {
            Some(i) => i,
            None => {
                proof {
                    assert(false);
                }
                return Err(EscrowError::InvalidState);
            },
        };
        proof {
            lemma_job_idx(self.jobs@, job_id, i as int);
        }
        if caller != self.jobs[i].job.owner {
            return Err(EscrowError::Unauthorized);
        }
        if self.jobs[i].job.status == JobStatus::Done {
            return Err(EscrowError::InvalidState);
        }
        if self.jobs[i].custody < self.jobs[i].job.amount {
            return Err(EscrowError::InsufficientEscrow);
        }
        let amount = self.jobs[i].job.amount;
        let ghost orig = self.jobs@[i as int];
        let c = self.jobs[i].custody;
        self.jobs[i].custody = c - amount;
        let ghost e2 = JobAccount { job: orig.job, custody: (orig.custody - orig.job.amount) as u64 };
        proof {
            assert(self.jobs@ =~= old(self).jobs@.update(i as int, e2));
            lemma_sum_custody_update(old(self).jobs@, i as int, e2);
            lemma_jobs_update_frame(old(self).jobs@, i as int, e2);
            lemma_job_idx(self.jobs@, job_id, i as int);
            // custody covered the amount, so crediting the owner stays
            // within the issued total.
            lemma_sum_custody_le(old(self).jobs@, i as int);
        }
        self.credit(caller, amount);
        proof {
            assert forall|k: int|
                0 <= k < self.jobs@.len() implies (#[trigger] self.jobs@[k]).wf() by {
                if k != i as int {
                    assert(self.jobs@[k] == old(self).jobs@[k]);
                }
            }
            assert forall|j: u64| #[trigger] self.has_job(j) == old(self).has_job(j) by {
                assert(has_job_id(self.jobs@, j) == has_job_id(old(self).jobs@, j));
            }
            assert forall|j: u64|
                j != job_id && old(self).has_job(j) implies #[trigger] self.job_rec(j) == old(
                self,
            ).job_rec(j) by {
                assert(job_idx(self.jobs@, j) == job_idx(old(self).jobs@, j));
                assert(self.jobs@[job_idx(old(self).jobs@, j)] == old(self).jobs@[job_idx(
                    old(self).jobs@,
                    j,
                )]);
            }
            assert forall|id: Identity|
                id != caller implies #[trigger] self.balance(id) == old(self).balance(id) by {
                assert(balance_in(self.accounts@, id) == balance_in(old(self).accounts@, id));
            }
        }
        Ok(())
    }

    /// Whether a job with this identifier has been posted.
    pub fn contains_job(&self, job_id: u64) -> (r: bool)
        ensures
            r == self.has_job(job_id),
    {
        match find_job(&self.jobs, job_id) {
            Some(i) => {
                proof {
                    assert(self.jobs@[i as int].job.job_id == job_id);
                }
                true
            },
            None => false,
        }
    }

    /// Where the job stands in its lifecycle.
    pub fn job_status(&self, job_id: u64) -> (r: JobStatus)
        requires
            self.wf(),
            self.has_job(job_id),
        ensures
            r == self.job_rec(job_id).job.status,
    {
        let i = self.job_index(job_id);
        self.jobs[i].job.status
    }

    /// The job's worker, or the sentinel while nobody has started it.
    pub fn job_worker(&self, job_id: u64) -> (r: Identity)
        requires
            self.wf(),
            self.has_job(job_id),
        ensures
            r == self.job_rec(job_id).job.worker,
    {
        let i = self.job_index(job_id);
        self.jobs[i].job.worker
    }

    /// The identity that posted the job and funded its escrow.
    pub fn job_owner(&self, job_id: u64) -> (r: Identity)
        requires
            self.wf(),
            self.has_job(job_id),
        ensures
            r == self.job_rec(job_id).job.owner,
    {
        let i = self.job_index(job_id);
        self.jobs[i].job.owner
    }

    /// The payment committed to the job at creation.
    pub fn job_amount(&self, job_id: u64) -> (r: u64)
        requires
            self.wf(),
            self.has_job(job_id),
        ensures
            r == self.job_rec(job_id).job.amount,
    {
        let i = self.job_index(job_id);
        self.jobs[i].job.amount
    }

    /// The funds currently held in the job's custody.
    pub fn job_custody(&self, job_id: u64) -> (r: u64)
        requires
            self.wf(),
            self.has_job(job_id),
        ensures
            r == self.job_rec(job_id).custody,
    {
        let i = self.job_index(job_id);
        self.jobs[i].custody
    }

    /// A copy of the job's metadata bytes.
    pub fn job_metadata(&self, job_id: u64) -> (r: Vec<u8>)
        requires
            self.wf(),
            self.has_job(job_id),
        ensures
            r@ == self.job_rec(job_id).job.metadata@,
    {
        let i = self.job_index(job_id);
        let md = &self.jobs[i].job.metadata;
        let mut out: Vec<u8> = Vec::new();
        let mut k: usize = 0;
        while k < md.len()
            invariant
                k <= md@.len(),
                out@.len() == k,
                forall|t: int| 0 <= t < k ==> out@[t] == md@[t],
            decreases md@.len() - k,
        {
            out.push(md[k]);
            k = k + 1;
        }
        proof {
            assert(out@ =~= md@);
        }
        out
    }

    /// No account can hold more than was ever issued: funds are conserved,
    /// so no sequence of operations can mint money for anyone.
    pub proof fn lemma_balance_covered_by_issued(self, id: Identity)
        requires
            self.wf(),
        ensures
            self.balance(id) <= self.issued(),
    {
        if has_acct(self.accounts@, id) {
            let k = acct_idx(self.accounts@, id);
            lemma_sum_balances_le(self.accounts@, k);
            lemma_sum_custody_nonneg(self.jobs@);
        }
    }

    /// No job's custody can hold more than was ever issued: escrow is backed
    /// by funds that really entered the marketplace.
    pub proof fn lemma_custody_covered_by_issued(self, job_id: u64)
        requires
            self.wf(),
            self.has_job(job_id),
        ensures
            self.job_rec(job_id).custody <= self.issued(),
    {
        let k = job_idx(self.jobs@, job_id);
        lemma_sum_custody_le(self.jobs@, k);
        lemma_sum_balances_nonneg(self.accounts@);
    }

    /// The position of the job with this identifier in the store.
    fn job_index(&self, job_id: u64) -> (r: usize)
        requires
            self.wf(),
            self.has_job(job_id),
        ensures
            r < self.jobs@.len(),
            self.jobs@[r as int] == self.job_rec(job_id),
    {
        match find_job(&self.jobs, job_id) {
            Some(i) => {
                proof {
                    lemma_job_idx(self.jobs@, job_id, i as int);
                }
                i
            },
            None => {
                proof {
                    assert(false);
                }
                0
            },
        }
    }
}

} // verus!
