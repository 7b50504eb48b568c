//! A single-currency balance book: per-account free and reserved balances
//! with named locks, and a running total issuance.
//!
//! The book's invariant is the accounting law of the whole ledger: at every
//! observation point the stored issuance equals the sum over all accounts of
//! free plus reserved balance. Every operation requires and re-establishes it.

use vstd::prelude::*;

use crate::alist::{find_key, has_key, lemma_find_key_is_first, lemma_find_key_props,
    lemma_find_key_push, lemma_find_key_unique, lemma_find_key_update, uniq_keys};
use crate::types::{AccountId, Amount, Balance, BalanceStatus, Error, Lock, LockIdentifier};

verus! {

/// Free plus reserved balance of one entry.
pub open spec fn entry_total(e: LedgerEntry) -> int {
    e.free + e.reserved
}

/// Sum of free plus reserved over a sequence of account entries.
pub open spec fn sum_totals(s: Seq<(AccountId, LedgerEntry)>) -> int
    decreases s.len(),
{
    if s.len() == 0 {
        0
    } else {
        entry_total(s[0].1) + sum_totals(s.skip(1))
    }
}

/// Index of the lock named `k`, or a negative value if none.
pub open spec fn find_lock(ls: Seq<Lock>, k: Seq<u8>) -> int
    decreases ls.len(),
{
    if ls.len() == 0 {
        -1
    } else if ls[0].id@ == k {
        0
    } else {
        let r = find_lock(ls.skip(1), k);
        if r < 0 {
            -1
        } else {
            r + 1
        }
    }
}

/// Whether a lock named `k` is present.
pub open spec fn has_lock(ls: Seq<Lock>, k: Seq<u8>) -> bool {
    find_lock(ls, k) >= 0
}

/// No two locks share a name.
pub open spec fn locks_uniq(ls: Seq<Lock>) -> bool {
    forall|i: int, j: int| 0 <= i < j < ls.len() ==> ls[i].id@ != ls[j].id@
}

/// Every entry's locks have pairwise distinct names.
pub open spec fn locks_all_uniq(s: Seq<(AccountId, LedgerEntry)>) -> bool {
    forall|i: int| 0 <= i < s.len() ==> locks_uniq(#[trigger] s[i].1.locks@)
}

/// Largest amount held by any lock; zero when there are none. Free balance
/// below this bound is not withdrawable.
pub open spec fn lock_max(ls: Seq<Lock>) -> int
    decreases ls.len(),
{
    if ls.len() == 0 {
        0
    } else {
        let rest = lock_max(ls.skip(1));
        if ls[0].amount >= rest {
            ls[0].amount as int
        } else {
            rest
        }
    }
}

/// One account's balances: spendable `free`, set-aside `reserved`, and the
/// named holds on the free balance.
#[derive(Debug)]
pub struct LedgerEntry {
    /// Spendable balance.
    pub free: Balance,
    /// Balance set aside, not spendable until unreserved or repatriated.
    pub reserved: Balance,
    /// Named holds on the free balance.
    pub locks: Vec<Lock>,
}

/// A single-currency balance store: the native ledger is one of these, and
/// the multi-asset ledger keeps one per currency.
/// The fields are exposed for specification; all verified callers go through
/// the operations below, which keep `wf` standing.
#[derive(Debug)]
pub struct BasicCurrencyAdapter {
    /// Account entries, keyed by account id, one entry per account.
    pub accounts: Vec<(AccountId, LedgerEntry)>,
    /// Recorded total issuance; `wf` ties it to the entries.
    pub issuance: Balance,
    /// Least balance an account must retain to withdraw.
    pub min_balance: Balance,
}

impl BasicCurrencyAdapter {
    /// The stored total issuance, for specification purposes.
    pub open spec fn issuance_of(self) -> int {
        self.issuance as int
    }

    /// The configured minimum balance, for specification purposes.
    pub open spec fn min_balance_of(self) -> int {
        self.min_balance as int
    }

    /// Spendable balance of `who`; zero for an unknown account.
    pub open spec fn free_of(self, who: AccountId) -> int {
        if has_key(self.accounts@, who) {
            self.accounts@[find_key(self.accounts@, who)].1.free as int
        } else {
            0
        }
    }

    /// Reserved balance of `who`; zero for an unknown account.
    pub open spec fn reserved_of(self, who: AccountId) -> int {
        if has_key(self.accounts@, who) {
            self.accounts@[find_key(self.accounts@, who)].1.reserved as int
        } else {
            0
        }
    }

    /// Locks of `who`; empty for an unknown account.
    pub open spec fn locks_of(self, who: AccountId) -> Seq<Lock> {
        if has_key(self.accounts@, who) {
            self.accounts@[find_key(self.accounts@, who)].1.locks@
        } else {
            Seq::<Lock>::empty()
        }
    }

    /// Free plus reserved balance of `who`.
    pub open spec fn total_of(self, who: AccountId) -> int {
        self.free_of(who) + self.reserved_of(who)
    }

    /// Amount of `who`'s free balance frozen by locks.
    pub open spec fn frozen_of(self, who: AccountId) -> int {
        lock_max(self.locks_of(who))
    }

    /// The book's invariant: account keys are unique, lock names are unique
    /// within each account, and the stored issuance is exactly the sum over
    /// all accounts of free plus reserved balance.
    pub open spec fn wf(self) -> bool {
        &&& uniq_keys(self.accounts@)
        &&& self.issuance as int == sum_totals(self.accounts@)
        &&& locks_all_uniq(self.accounts@)
    }

    /// Whether `who` may give up `amount` of free balance: the amount is
    /// covered, and what remains stays at or above both the minimum balance
    /// and the frozen bound.
    pub open spec fn can_withdraw(self, who: AccountId, amount: int) -> bool {
        &&& amount <= self.free_of(who)
        &&& self.free_of(who) - amount >= self.min_balance_of()
        &&& self.free_of(who) - amount >= self.frozen_of(who)
    }
}

/// The smaller of two integers.
pub open spec fn min_int(a: int, b: int) -> int {
    if a <= b {
        a
    } else {
        b
    }
}

/// `a`'s balances and locks are the same in both books.
pub open spec fn entry_same(pre: BasicCurrencyAdapter, post: BasicCurrencyAdapter, a: AccountId) -> bool {
    &&& pre.free_of(a) == post.free_of(a)
    &&& pre.reserved_of(a) == post.reserved_of(a)
    &&& pre.locks_of(a) == post.locks_of(a)
}

/// Every account other than `who` has the same balances and locks.
pub open spec fn others_same(pre: BasicCurrencyAdapter, post: BasicCurrencyAdapter, who: AccountId) -> bool {
    forall|a: AccountId| a != who ==> #[trigger] entry_same(pre, post, a)
}

/// Every account other than `x` and `y` has the same balances and locks.
pub open spec fn others_same2(
    pre: BasicCurrencyAdapter,
    post: BasicCurrencyAdapter,
    x: AccountId,
    y: AccountId,
) -> bool {
    forall|a: AccountId| a != x && a != y ==> #[trigger] entry_same(pre, post, a)
}

/// The sum of entry totals is never negative.
pub proof fn lemma_sum_nonneg(s: Seq<(AccountId, LedgerEntry)>)
    ensures
        sum_totals(s) >= 0,
    decreases s.len(),
{
    if s.len() > 0 {
        lemma_sum_nonneg(s.skip(1));
    }
}

/// Each entry's total is bounded by the sum.
pub proof fn lemma_elem_le_sum(s: Seq<(AccountId, LedgerEntry)>, i: int)
    requires
        0 <= i < s.len(),
    ensures
        entry_total(s[i].1) <= sum_totals(s),
    decreases s.len(),
{
    lemma_sum_nonneg(s.skip(1));
    if i == 0 {
    } else {
        lemma_elem_le_sum(s.skip(1), i - 1);
        lemma_sum_nonneg(s);
    }
}

/// Two distinct entries' totals together are bounded by the sum.
pub proof fn lemma_two_le_sum(s: Seq<(AccountId, LedgerEntry)>, i: int, j: int)
    requires
        0 <= i < s.len(),
        0 <= j < s.len(),
        i != j,
    ensures
        entry_total(s[i].1) + entry_total(s[j].1) <= sum_totals(s),
    decreases s.len(),
{
    if i == 0 {
        lemma_elem_le_sum(s.skip(1), j - 1);
    } else if j == 0 {
        lemma_elem_le_sum(s.skip(1), i - 1);
    } else {
        lemma_two_le_sum(s.skip(1), i - 1, j - 1);
    }
}

/// Replacing one entry changes the sum by the difference of the totals.
pub proof fn lemma_sum_update(s: Seq<(AccountId, LedgerEntry)>, i: int, x: (AccountId, LedgerEntry))
    requires
        0 <= i < s.len(),
    ensures
        sum_totals(s.update(i, x)) == sum_totals(s) - entry_total(s[i].1) + entry_total(x.1),
    decreases s.len(),
{
    if i == 0 {
        assert(s.update(0, x).skip(1) =~= s.skip(1));
    } else {
        assert(s.update(i, x).skip(1) =~= s.skip(1).update(i - 1, x));
        lemma_sum_update(s.skip(1), i - 1, x);
    }
}

/// Appending an entry adds its total to the sum.
pub proof fn lemma_sum_push(s: Seq<(AccountId, LedgerEntry)>, x: (AccountId, LedgerEntry))
    ensures
        sum_totals(s.push(x)) == sum_totals(s) + entry_total(x.1),
    decreases s.len(),
{
    if s.len() == 0 {
        assert(s.push(x)[0] == x);
        assert(s.push(x).skip(1) =~= Seq::<(AccountId, LedgerEntry)>::empty());
        assert(sum_totals(s.push(x).skip(1)) == 0);
    } else {
        assert(s.push(x)[0] == s[0]);
        assert(s.push(x).skip(1) =~= s.skip(1).push(x));
        lemma_sum_push(s.skip(1), x);
        assert(sum_totals(s.push(x).skip(1)) == sum_totals(s.skip(1).push(x)));
    }
}

/// Appending a lock raises the frozen bound to at least its amount.
pub proof fn lemma_lock_max_push(ls: Seq<Lock>, x: Lock)
    ensures
        lock_max(ls.push(x)) == if x.amount as int >= lock_max(ls) {
            x.amount as int
        } else {
            lock_max(ls)
        },
    decreases ls.len(),
{
    if ls.len() == 0 {
        assert(ls.push(x)[0] == x);
        assert(ls.push(x).skip(1) =~= Seq::<Lock>::empty());
        assert(lock_max(ls.push(x).skip(1)) == 0);
    } else {
        assert(ls.push(x)[0] == ls[0]);
        assert(ls.push(x).skip(1) =~= ls.skip(1).push(x));
        lemma_lock_max_push(ls.skip(1), x);
        assert(lock_max(ls.push(x).skip(1)) == lock_max(ls.skip(1).push(x)));
    }
}

/// `find_lock` stays in range, lands on the name it was asked for, and fails
/// only when no lock carries the name.
pub proof fn lemma_find_lock_props(ls: Seq<Lock>, k: Seq<u8>)
    ensures
        -1 <= find_lock(ls, k) < ls.len(),
        find_lock(ls, k) >= 0 ==> ls[find_lock(ls, k)].id@ == k,
        find_lock(ls, k) == -1 ==> forall|i: int| 0 <= i < ls.len() ==> ls[i].id@ != k,
    decreases ls.len(),
{
    if ls.len() > 0 && ls[0].id@ != k {
        lemma_find_lock_props(ls.skip(1), k);
        let r = find_lock(ls.skip(1), k);
        if r >= 0 {
            assert(ls.skip(1)[r] == ls[r + 1]);
        } else {
            assert forall|i: int| 0 <= i < ls.len() implies ls[i].id@ != k by {
                if i >= 1 {
                    assert(ls.skip(1)[i - 1] == ls[i]);
                }
            }
        }
    }
}

/// `find_lock` returns exactly the first index carrying the name.
pub proof fn lemma_find_lock_is_first(ls: Seq<Lock>, k: Seq<u8>, i: int)
    requires
        0 <= i < ls.len(),
        ls[i].id@ == k,
        forall|j: int| 0 <= j < i ==> ls[j].id@ != k,
    ensures
        find_lock(ls, k) == i,
    decreases ls.len(),
{
    if i > 0 {
        lemma_find_lock_is_first(ls.skip(1), k, i - 1);
    }
}

/// After replacing the entry at `i` with one under the same account, every
/// lookup finds what it found before, and every other account's entry is
/// untouched.
pub proof fn lemma_update_entry(
    s: Seq<(AccountId, LedgerEntry)>,
    i: int,
    x: (AccountId, LedgerEntry),
)
    requires
        0 <= i < s.len(),
        s[i].0 == x.0,
        uniq_keys(s),
    ensures
        uniq_keys(s.update(i, x)),
        find_key(s, x.0) == i,
        forall|a: AccountId| #[trigger] find_key(s.update(i, x), a) == find_key(s, a),
    decreases s.len(),
{
    lemma_find_key_unique(s, x.0, i);
    assert forall|a: AccountId| #[trigger] find_key(s.update(i, x), a) == find_key(s, a) by {
        lemma_find_key_update(s, i, x, a);
    }
    assert forall|p: int, q: int| 0 <= p < q < s.update(i, x).len() implies s.update(
        i,
        x,
    )[p].0 != s.update(i, x)[q].0 by {
        assert(s.update(i, x)[p].0 == s[p].0);
        assert(s.update(i, x)[q].0 == s[q].0);
    }
}

/// What replacing the entry at `i` with one under the same account does to a
/// book: the account shows the new entry, every other account is untouched,
/// the sum moves by the difference of the totals, and uniqueness survives.
pub proof fn lemma_book_entry_update(
    pre: BasicCurrencyAdapter,
    post: BasicCurrencyAdapter,
    i: int,
    x: (AccountId, LedgerEntry),
)
    requires
        uniq_keys(pre.accounts@),
        locks_all_uniq(pre.accounts@),
        locks_uniq(x.1.locks@),
        0 <= i < pre.accounts@.len(),
        x.0 == pre.accounts@[i].0,
        post.accounts@ == pre.accounts@.update(i, x),
    ensures
        uniq_keys(post.accounts@),
        locks_all_uniq(post.accounts@),
        find_key(pre.accounts@, x.0) == i,
        pre.free_of(x.0) == pre.accounts@[i].1.free,
        pre.reserved_of(x.0) == pre.accounts@[i].1.reserved,
        pre.locks_of(x.0) == pre.accounts@[i].1.locks@,
        post.free_of(x.0) == x.1.free,
        post.reserved_of(x.0) == x.1.reserved,
        post.locks_of(x.0) == x.1.locks@,
        others_same(pre, post, x.0),
        sum_totals(post.accounts@) == sum_totals(pre.accounts@) - entry_total(
            pre.accounts@[i].1,
        ) + entry_total(x.1),
{
    lemma_update_entry(pre.accounts@, i, x);
    lemma_sum_update(pre.accounts@, i, x);
    assert(post.accounts@[i] == x);
    assert forall|j: int| 0 <= j < post.accounts@.len() implies locks_uniq(
        #[trigger] post.accounts@[j].1.locks@,
    ) by {
        if j != i {
            assert(post.accounts@[j] == pre.accounts@[j]);
            assert(locks_uniq(pre.accounts@[j].1.locks@));
        }
    }
    assert forall|a: AccountId| a != x.0 implies #[trigger] entry_same(pre, post, a) by {
        if has_key(pre.accounts@, a) {
            lemma_find_key_props(pre.accounts@, a);
            assert(post.accounts@[find_key(pre.accounts@, a)] == pre.accounts@[find_key(
                pre.accounts@,
                a,
            )]);
        }
    }
}

/// After appending an entry under a fresh account, existing lookups are
/// unmoved, the new account is found at the end, and keys stay unique.
pub proof fn lemma_push_entry(s: Seq<(AccountId, LedgerEntry)>, x: (AccountId, LedgerEntry))
    requires
        uniq_keys(s),
        !has_key(s, x.0),
    ensures
        uniq_keys(s.push(x)),
        find_key(s.push(x), x.0) == s.len(),
        forall|a: AccountId| a != x.0 ==> #[trigger] find_key(s.push(x), a) == find_key(s, a),
{
    lemma_find_key_props(s, x.0);
    assert forall|a: AccountId| a != x.0 implies #[trigger] find_key(s.push(x), a) == find_key(
        s,
        a,
    ) by {
        lemma_find_key_push(s, x, a);
    }
    lemma_find_key_push(s, x, x.0);
    assert forall|p: int, q: int| 0 <= p < q < s.push(x).len() implies s.push(x)[p].0 != s.push(
        x,
    )[q].0 by {
        if q < s.len() {
        } else {
            assert(s.push(x)[q] == x);
            lemma_find_key_is_first(s, s[p].0, p);  // hence s[p].0 is present, so != x.0
        }
    }
}

impl BasicCurrencyAdapter {
    /// An empty book: no accounts, no issuance.
    pub fn new(min_balance: Balance) -> (r: Self)
        ensures
            r.wf(),
            r.issuance_of() == 0,
            r.min_balance_of() == min_balance,
            forall|a: AccountId| #![all_triggers] r.free_of(a) == 0 && r.reserved_of(a) == 0
                && r.locks_of(a) == Seq::<Lock>::empty(),
    {
        let r = BasicCurrencyAdapter { accounts: Vec::new(), issuance: 0, min_balance };
        proof {
            assert forall|a: AccountId| #![all_triggers] r.free_of(a) == 0 && r.reserved_of(a)
                == 0 && r.locks_of(a) == Seq::<Lock>::empty() by {
                lemma_find_key_props(r.accounts@, a);
            }
        }
        r
    }

    /// The minimum balance an account must retain to withdraw.
    pub fn minimum_balance(&self) -> (r: Balance)
        ensures
            r == self.min_balance_of(),
    {
        self.min_balance
    }

    /// The recorded total issuance.
    pub fn total_issuance(&self) -> (r: Balance)
        ensures
            r == self.issuance_of(),
    {
        self.issuance
    }

    /// Index of `who`'s entry, if the account is known.
    fn find_account(&self, who: AccountId) -> (r: Option<usize>)
        ensures
            match r {
                Some(i) => find_key(self.accounts@, who) == i && i < self.accounts@.len(),
                None => find_key(self.accounts@, who) == -1,
            },
    {
        let n = self.accounts.len();
        let mut i: usize = 0;
        while i < n
            invariant
                i <= n,
                n == self.accounts@.len(),
                forall|j: int| 0 <= j < i ==> self.accounts@[j].0 != who,
            decreases n - i,
        {
            if self.accounts[i].0 == who {
                proof {
                    lemma_find_key_is_first(self.accounts@, who, i as int);
                }
                return Some(i);
            }
            i = i + 1;
        }
        proof {
            lemma_find_key_props(self.accounts@, who);
        }
        None
    }

    /// Free balance of `who`.
    pub fn free_balance(&self, who: AccountId) -> (r: Balance)
        ensures
            r == self.free_of(who),
    {
        match self.find_account(who) {
            Some(i) => self.accounts[i].1.free,
            None => 0,
        }
    }

    /// Reserved balance of `who`.
    pub fn reserved_balance(&self, who: AccountId) -> (r: Balance)
        ensures
            r == self.reserved_of(who),
    {
        match self.find_account(who) {
            Some(i) => self.accounts[i].1.reserved,
            None => 0,
        }
    }

    /// Free plus reserved balance of `who`.
    pub fn total_balance(&self, who: AccountId) -> (r: Balance)
        requires
            self.wf(),
        ensures
            r == self.total_of(who),
    {
        match self.find_account(who) {
            Some(i) => {
                proof {
                    lemma_elem_le_sum(self.accounts@, i as int);
                    lemma_sum_nonneg(self.accounts@);
                }
                self.accounts[i].1.free + self.accounts[i].1.reserved
            },
            None => 0,
        }
    }

    /// The locks currently placed on `who`'s free balance.
    pub fn locks(&self, who: AccountId) -> (r: Vec<Lock>)
        ensures
            r@ == self.locks_of(who),
    {
        let mut out: Vec<Lock> = Vec::new();
        match self.find_account(who) {
            Some(i) => {
                let n = self.accounts[i].1.locks.len();
                let mut j: usize = 0;
                while j < n
                    invariant
                        j <= n,
                        i < self.accounts@.len(),
                        n == self.accounts@[i as int].1.locks@.len(),
                        out@ == self.accounts@[i as int].1.locks@.take(j as int),
                    decreases n - j,
                {
                    out.push(self.accounts[i].1.locks[j]);
                    proof {
                        assert(out@ =~= self.accounts@[i as int].1.locks@.take(j + 1));
                    }
                    j = j + 1;
                }
                proof {
                    assert(self.accounts@[i as int].1.locks@.take(n as int) =~= self.accounts@[
                        i as int].1.locks@);
                }
                out
            },
            None => out,
        }
    }

    /// Largest amount frozen by `who`'s locks.
    pub(crate) fn frozen_balance(&self, who: AccountId) -> (r: Balance)
        ensures
            r == self.frozen_of(who),
    {
        match self.find_account(who) {
            Some(i) => {
                let n = self.accounts[i].1.locks.len();
                let mut m: Balance = 0;
                let mut j: usize = 0;
                proof {
                    assert(self.accounts@[i as int].1.locks@.take(0) =~= Seq::<Lock>::empty());
                }
                while j < n
                    invariant
                        j <= n,
                        i < self.accounts@.len(),
                        n == self.accounts@[i as int].1.locks@.len(),
                        m == lock_max(self.accounts@[i as int].1.locks@.take(j as int)),
                    decreases n - j,
                {
                    let l = self.accounts[i].1.locks[j];
                    proof {
                        assert(self.accounts@[i as int].1.locks@.take(j + 1) =~= self.accounts@[
                            i as int].1.locks@.take(j as int).push(l));
                        lemma_lock_max_push(
                            self.accounts@[i as int].1.locks@.take(j as int),
                            l,
                        );
                    }
                    if l.amount > m {
                        m = l.amount;
                    }
                    j = j + 1;
                }
                proof {
                    assert(self.accounts@[i as int].1.locks@.take(n as int) =~= self.accounts@[
                        i as int].1.locks@);
                }
                m
            },
            None => 0,
        }
    }

    /// Replace the free and reserved balances at entry `i`, keeping its locks.
    fn set_entry(&mut self, i: usize, free: Balance, reserved: Balance)
        requires
            i < old(self).accounts@.len(),
        ensures
            final(self).accounts@ == old(self).accounts@.update(
                i as int,
                (
                    old(self).accounts@[i as int].0,
                    (LedgerEntry { free, reserved, locks: old(self).accounts@[i as int].1.locks }),
                ),
            ),
            final(self).issuance == old(self).issuance,
            final(self).min_balance == old(self).min_balance,
    {
        let (k, mut e) = self.accounts.remove(i);
        e.free = free;
        e.reserved = reserved;
        self.accounts.insert(i, (k, e));
        proof {
            assert(self.accounts@ =~= old(self).accounts@.update(
                i as int,
                (
                    old(self).accounts@[i as int].0,
                    (LedgerEntry {
                        free,
                        reserved,
                        locks: old(self).accounts@[i as int].1.locks,
                    }),
                ),
            ));
        }
    }

    /// Index of `who`'s entry, creating an empty one if the account is new.
    /// No balance, lock or issuance changes.
    fn ensure_account(&mut self, who: AccountId) -> (i: usize)
        requires
            uniq_keys(old(self).accounts@),
            locks_all_uniq(old(self).accounts@),
        ensures
            uniq_keys(final(self).accounts@),
            locks_all_uniq(final(self).accounts@),
            final(self).issuance == old(self).issuance,
            final(self).min_balance == old(self).min_balance,
            i < final(self).accounts@.len(),
            find_key(final(self).accounts@, who) == i,
            final(self).accounts@[i as int].0 == who,
            final(self).accounts@[i as int].1.free == old(self).free_of(who),
            final(self).accounts@[i as int].1.reserved == old(self).reserved_of(who),
            final(self).accounts@[i as int].1.locks@ == old(self).locks_of(who),
            forall|a: AccountId| #[trigger] entry_same(*old(self), *final(self), a),
            sum_totals(final(self).accounts@) == sum_totals(old(self).accounts@),
    {
        match self.find_account(who) {
            Some(i) => {
                proof {
                    lemma_find_key_props(self.accounts@, who);
                }
                i
            },
            None => {
                let i = self.accounts.len();
                let e = LedgerEntry { free: 0, reserved: 0, locks: Vec::new() };
                proof {
                    lemma_push_entry(self.accounts@, (who, e));
                    lemma_sum_push(self.accounts@, (who, e));
                }
                self.accounts.push((who, e));
                proof {
                    assert(self.accounts@[i as int].1.locks@ =~= Seq::<Lock>::empty());
                    assert forall|j: int| 0 <= j < self.accounts@.len() implies locks_uniq(
                        #[trigger] self.accounts@[j].1.locks@,
                    ) by {
                        if j < i as int {
                            assert(self.accounts@[j] == old(self).accounts@[j]);
                        }
                    }
                    assert forall|a: AccountId| #[trigger] entry_same(
                        *old(self),
                        *final(self),
                        a,
                    ) by {
                        if a != who {
                            assert(find_key(self.accounts@, a) == find_key(
                                old(self).accounts@,
                                a,
                            ));
                            if has_key(old(self).accounts@, a) {
                                lemma_find_key_props(old(self).accounts@, a);
                                assert(self.accounts@[find_key(old(self).accounts@, a)] == old(self).accounts@[find_key(old(self).accounts@, a)]);
                            }
                        }
                    }
                }
                i
            },
        }
    }
}

impl BasicCurrencyAdapter {
    /// Check that `who` may give up `amount` of free balance; side-effect
    /// free. Fails with `BalanceTooLow` exactly when the withdrawal would
    /// leave less than the minimum balance or break a lock.
    pub fn ensure_can_withdraw(&self, who: AccountId, amount: Balance) -> (r: Result<(), Error>)
        ensures
            r is Ok <==> self.can_withdraw(who, amount as int),
            r is Err ==> r == Err::<(), Error>(Error::BalanceTooLow),
    {
        let free = self.free_balance(who);
        if amount > free || free - amount < self.min_balance || free - amount
            < self.frozen_balance(who) {
            Err(Error::BalanceTooLow)
        } else {
            Ok(())
        }
    }

    /// Credit `amount` of new issuance to `who`'s free balance. A zero amount
    /// is a no-op; fails with `SupplyOverflow` exactly when the issuance
    /// counter cannot take the amount.
    pub fn deposit(&mut self, who: AccountId, amount: Balance) -> (r: Result<(), Error>)
        requires
            old(self).wf(),
        ensures
            final(self).wf(),
            final(self).min_balance == old(self).min_balance,
            r is Ok <==> (amount == 0 || old(self).issuance_of() + amount <= u64::MAX),
            r is Err ==> r == Err::<(), Error>(Error::SupplyOverflow) && *final(self) == *old(self),
            amount == 0 ==> *final(self) == *old(self),
            (r is Ok && amount > 0) ==> final(self).free_of(who) == old(self).free_of(who)
                + amount && final(self).reserved_of(who) == old(self).reserved_of(who) && final(self).locks_of(who) == old(self).locks_of(who) && final(self).issuance_of() == old(self).issuance_of() + amount && others_same(*old(self), *final(self), who),
    {
        if amount == 0 {
            return Ok(());
        }
        if amount > u64::MAX - self.issuance {
            return Err(Error::SupplyOverflow);
        }
        let i = self.ensure_account(who);
        let ghost mid = *self;
        let f = self.accounts[i].1.free;
        let rv = self.accounts[i].1.reserved;
        proof {
            lemma_elem_le_sum(mid.accounts@, i as int);
        }
        self.set_entry(i, f + amount, rv);
        self.issuance = self.issuance + amount;
        proof {
            let x = (
                who,
                (LedgerEntry {
                    free: (f + amount) as u64,
                    reserved: rv,
                    locks: mid.accounts@[i as int].1.locks,
                }),
            );
            lemma_book_entry_update(mid, *self, i as int, x);
            assert forall|a: AccountId| a != who implies #[trigger] entry_same(
                *old(self),
                *final(self),
                a,
            ) by {
                assert(entry_same(*old(self), mid, a));
                assert(entry_same(mid, *self, a));
            }
        }
        Ok(())
    }

    /// Remove `amount` of issuance from `who`'s free balance. A zero amount
    /// is a no-op; fails with `BalanceTooLow` exactly when `who` cannot give
    /// up the amount.
    pub fn withdraw(&mut self, who: AccountId, amount: Balance) -> (r: Result<(), Error>)
        requires
            old(self).wf(),
        ensures
            final(self).wf(),
            final(self).min_balance == old(self).min_balance,
            r is Ok <==> (amount == 0 || old(self).can_withdraw(who, amount as int)),
            r is Err ==> r == Err::<(), Error>(Error::BalanceTooLow) && *final(self) == *old(self),
            amount == 0 ==> *final(self) == *old(self),
            (r is Ok && amount > 0) ==> final(self).free_of(who) == old(self).free_of(who)
                - amount && final(self).reserved_of(who) == old(self).reserved_of(who) && final(self).locks_of(who) == old(self).locks_of(who) && final(self).issuance_of() == old(self).issuance_of() - amount && others_same(*old(self), *final(self), who),
    {
        if amount == 0 {
            return Ok(());
        }
        let free = self.free_balance(who);
        if amount > free || free - amount < self.min_balance || free - amount
            < self.frozen_balance(who) {
            return Err(Error::BalanceTooLow);
        }
        let i = self.ensure_account(who);
        let ghost mid = *self;
        let f = self.accounts[i].1.free;
        let rv = self.accounts[i].1.reserved;
        proof {
            lemma_elem_le_sum(mid.accounts@, i as int);
        }
        self.set_entry(i, f - amount, rv);
        self.issuance = self.issuance - amount;
        proof {
            let x = (
                who,
                (LedgerEntry {
                    free: (f - amount) as u64,
                    reserved: rv,
                    locks: mid.accounts@[i as int].1.locks,
                }),
            );
            lemma_book_entry_update(mid, *self, i as int, x);
            assert forall|a: AccountId| a != who implies #[trigger] entry_same(
                *old(self),
                *final(self),
                a,
            ) by {
                assert(entry_same(*old(self), mid, a));
                assert(entry_same(mid, *self, a));
            }
        }
        Ok(())
    }

    /// Mint new issuance into `who`'s free balance; `deposit` under the name
    /// the supply-management interface uses.
    pub fn mint(&mut self, who: AccountId, amount: Balance) -> (r: Result<(), Error>)
        requires
            old(self).wf(),
        ensures
            final(self).wf(),
            final(self).min_balance == old(self).min_balance,
            r is Ok <==> (amount == 0 || old(self).issuance_of() + amount <= u64::MAX),
            r is Err ==> r == Err::<(), Error>(Error::SupplyOverflow) && *final(self) == *old(self),
            amount == 0 ==> *final(self) == *old(self),
            (r is Ok && amount > 0) ==> final(self).free_of(who) == old(self).free_of(who)
                + amount && final(self).reserved_of(who) == old(self).reserved_of(who) && final(self).locks_of(who) == old(self).locks_of(who) && final(self).issuance_of() == old(self).issuance_of() + amount && others_same(*old(self), *final(self), who),
    {
        self.deposit(who, amount)
    }

    /// Burn issuance out of `who`'s free balance; `withdraw` under the name
    /// the supply-management interface uses.
    pub fn burn(&mut self, who: AccountId, amount: Balance) -> (r: Result<(), Error>)
        requires
            old(self).wf(),
        ensures
            final(self).wf(),
            final(self).min_balance == old(self).min_balance,
            r is Ok <==> (amount == 0 || old(self).can_withdraw(who, amount as int)),
            r is Err ==> r == Err::<(), Error>(Error::BalanceTooLow) && *final(self) == *old(self),
            amount == 0 ==> *final(self) == *old(self),
            (r is Ok && amount > 0) ==> final(self).free_of(who) == old(self).free_of(who)
                - amount && final(self).reserved_of(who) == old(self).reserved_of(who) && final(self).locks_of(who) == old(self).locks_of(who) && final(self).issuance_of() == old(self).issuance_of() - amount && others_same(*old(self), *final(self), who),
    {
        self.withdraw(who, amount)
    }

    /// Adjust `who`'s free balance by a signed delta: positive deltas
    /// deposit, negative deltas withdraw the magnitude. Fails with
    /// `AmountConversionFailed` exactly when the delta's magnitude is not
    /// representable as a balance.
    pub fn update_balance(&mut self, who: AccountId, by_amount: Amount) -> (r: Result<(), Error>)
        requires
            old(self).wf(),
        ensures
            final(self).wf(),
            final(self).min_balance == old(self).min_balance,
            r is Ok <==> (by_amount != i64::MIN && (by_amount >= 0 ==> old(self).issuance_of()
                + by_amount <= u64::MAX) && (by_amount < 0 ==> by_amount == i64::MIN || old(self).can_withdraw(who, -(by_amount as int)))),
            r is Err ==> *final(self) == *old(self),
            by_amount == i64::MIN ==> r == Err::<(), Error>(Error::AmountConversionFailed),
            (by_amount != i64::MIN && by_amount > 0 && old(self).issuance_of() + by_amount
                > u64::MAX) ==> r == Err::<(), Error>(Error::SupplyOverflow),
            (by_amount != i64::MIN && by_amount < 0 && !old(self).can_withdraw(
                who,
                -(by_amount as int),
            )) ==> r == Err::<(), Error>(Error::BalanceTooLow),
            r is Ok ==> final(self).free_of(who) == old(self).free_of(who) + by_amount && final(self).reserved_of(who) == old(self).reserved_of(who) && final(self).locks_of(who) == old(self).locks_of(who) && final(self).issuance_of() == old(self).issuance_of() + by_amount
                && others_same(*old(self), *final(self), who),
    {
        if by_amount == i64::MIN {
            return Err(Error::AmountConversionFailed);
        }
        if by_amount > 0 {
            self.deposit(who, by_amount as u64)
        } else {
            let r = self.withdraw(who, (-by_amount) as u64);
            proof {
                if r is Ok && by_amount == 0 {
                    assert(entry_same(*old(self), *final(self), who));
                }
            }
            r
        }
    }

    /// Move `amount` from `from`'s free balance to `to`'s. A zero amount or a
    /// self-transfer is a no-op; otherwise both sides change together or the
    /// call fails with `BalanceTooLow` and nothing changes.
    pub fn transfer(&mut self, from: AccountId, to: AccountId, amount: Balance) -> (r: Result<
        (),
        Error,
    >)
        requires
            old(self).wf(),
        ensures
            final(self).wf(),
            final(self).min_balance == old(self).min_balance,
            final(self).issuance == old(self).issuance,
            (amount == 0 || from == to) ==> r is Ok && *final(self) == *old(self),
            r is Err ==> r == Err::<(), Error>(Error::BalanceTooLow) && *final(self) == *old(self),
            (amount > 0 && from != to) ==> (r is Ok <==> old(self).can_withdraw(
                from,
                amount as int,
            )),
            (r is Ok && amount > 0 && from != to) ==> final(self).free_of(from) == old(self).free_of(from) - amount && final(self).free_of(to) == old(self).free_of(to) + amount
                && final(self).reserved_of(from) == old(self).reserved_of(from) && final(self).reserved_of(to) == old(self).reserved_of(to) && final(self).locks_of(from) == old(self).locks_of(from) && final(self).locks_of(to) == old(self).locks_of(to) && others_same2(
                *old(self),
                *final(self),
                from,
                to,
            ),
    {
        if amount == 0 || from == to {
            return Ok(());
        }
        let free = self.free_balance(from);
        if amount > free || free - amount < self.min_balance || free - amount
            < self.frozen_balance(from) {
            return Err(Error::BalanceTooLow);
        }
        let i = self.ensure_account(from);
        let ghost mid1 = *self;
        let f_from = self.accounts[i].1.free;
        let r_from = self.accounts[i].1.reserved;
        self.set_entry(i, f_from - amount, r_from);
        let ghost mid2 = *self;
        proof {
            let x = (
                from,
                (LedgerEntry {
                    free: (f_from - amount) as u64,
                    reserved: r_from,
                    locks: mid1.accounts@[i as int].1.locks,
                }),
            );
            lemma_book_entry_update(mid1, mid2, i as int, x);
        }
        let j = self.ensure_account(to);
        let ghost mid3 = *self;
        let f_to = self.accounts[j].1.free;
        let r_to = self.accounts[j].1.reserved;
        proof {
            lemma_elem_le_sum(mid3.accounts@, j as int);
            lemma_sum_nonneg(mid3.accounts@);
        }
        self.set_entry(j, f_to + amount, r_to);
        proof {
            let y = (
                to,
                (LedgerEntry {
                    free: (f_to + amount) as u64,
                    reserved: r_to,
                    locks: mid3.accounts@[j as int].1.locks,
                }),
            );
            lemma_book_entry_update(mid3, *self, j as int, y);
            assert(entry_same(mid2, mid3, from));
            assert(entry_same(mid3, *self, from));
            assert(entry_same(*old(self), mid1, to));
            assert(entry_same(mid1, mid2, to));
            assert(entry_same(mid2, mid3, to));
            assert forall|a: AccountId| a != from && a != to implies #[trigger] entry_same(
                *old(self),
                *final(self),
                a,
            ) by {
                assert(entry_same(*old(self), mid1, a));
                assert(entry_same(mid1, mid2, a));
                assert(entry_same(mid2, mid3, a));
                assert(entry_same(mid3, *self, a));
            }
        }
        Ok(())
    }
}

/// Whether two lock names are the same.
fn lock_id_eq(a: &LockIdentifier, b: &LockIdentifier) -> (r: bool)
    ensures
        r <==> a@ == b@,
{
    let mut i: usize = 0;
    while i < 8
        invariant
            i <= 8,
            forall|j: int| 0 <= j < i ==> a@[j] == b@[j],
        decreases 8 - i,
    {
        if a[i] != b[i] {
            return false;
        }
        i = i + 1;
    }
    proof {
        assert(a@ =~= b@);
    }
    true
}

/// Index of the lock named `id` in `locks`, if present.
fn find_lock_idx(locks: &Vec<Lock>, id: &LockIdentifier) -> (r: Option<usize>)
    ensures
        match r {
            Some(j) => find_lock(locks@, id@) == j && j < locks@.len(),
            None => find_lock(locks@, id@) == -1,
        },
{
    let n = locks.len();
    let mut j: usize = 0;
    while j < n
        invariant
            j <= n,
            n == locks@.len(),
            forall|p: int| 0 <= p < j ==> locks@[p].id@ != id@,
        decreases n - j,
    {
        let l = locks[j];
        if lock_id_eq(&l.id, id) {
            proof {
                lemma_find_lock_is_first(locks@, id@, j as int);
            }
            return Some(j);
        }
        j = j + 1;
    }
    proof {
        lemma_find_lock_props(locks@, id@);
    }
    None
}

/// Removing a lock keeps the remaining names pairwise distinct.
pub proof fn lemma_locks_uniq_remove(ls: Seq<Lock>, i: int)
    requires
        locks_uniq(ls),
        0 <= i < ls.len(),
    ensures
        locks_uniq(ls.remove(i)),
{
    assert forall|p: int, q: int| 0 <= p < q < ls.remove(i).len() implies ls.remove(i)[p].id@
        != ls.remove(i)[q].id@ by {
        let p0 = if p < i { p } else { p + 1 };
        let q0 = if q < i { q } else { q + 1 };
        assert(ls.remove(i)[p] == ls[p0]);
        assert(ls.remove(i)[q] == ls[q0]);
    }
}

impl BasicCurrencyAdapter {
    /// Whether a slash of `amount` would be fully covered by free balance.
    pub fn can_slash(&self, who: AccountId, amount: Balance) -> (r: bool)
        ensures
            r <==> amount <= self.free_of(who),
    {
        amount <= self.free_balance(who)
    }

    /// Forcibly remove up to `amount` of issuance from `who`, taking free
    /// balance first and reserved balance for the rest, and return the
    /// shortfall that could not be taken. Never fails.
    pub fn slash(&mut self, who: AccountId, amount: Balance) -> (r: Balance)
        requires
            old(self).wf(),
        ensures
            final(self).wf(),
            final(self).min_balance == old(self).min_balance,
            final(self).free_of(who) == old(self).free_of(who) - min_int(
                amount as int,
                old(self).free_of(who),
            ),
            final(self).reserved_of(who) == old(self).reserved_of(who) - min_int(
                amount - min_int(amount as int, old(self).free_of(who)),
                old(self).reserved_of(who),
            ),
            final(self).locks_of(who) == old(self).locks_of(who),
            final(self).issuance_of() == old(self).issuance_of() - (old(self).total_of(who)
                - final(self).total_of(who)),
            r == amount - (old(self).total_of(who) - final(self).total_of(who)),
            others_same(*old(self), *final(self), who),
    {
        let i = self.ensure_account(who);
        let ghost mid = *self;
        let f = self.accounts[i].1.free;
        let rv = self.accounts[i].1.reserved;
        let free_cut = if amount <= f {
            amount
        } else {
            f
        };
        let rest = amount - free_cut;
        let reserved_cut = if rest <= rv {
            rest
        } else {
            rv
        };
        proof {
            lemma_elem_le_sum(mid.accounts@, i as int);
        }
        self.set_entry(i, f - free_cut, rv - reserved_cut);
        self.issuance = self.issuance - (free_cut + reserved_cut);
        proof {
            let x = (
                who,
                (LedgerEntry {
                    free: (f - free_cut) as u64,
                    reserved: (rv - reserved_cut) as u64,
                    locks: mid.accounts@[i as int].1.locks,
                }),
            );
            lemma_book_entry_update(mid, *self, i as int, x);
            assert forall|a: AccountId| a != who implies #[trigger] entry_same(
                *old(self),
                *final(self),
                a,
            ) by {
                assert(entry_same(*old(self), mid, a));
                assert(entry_same(mid, *self, a));
            }
        }
        amount - free_cut - reserved_cut
    }

    /// Whether `reserve` of `value` would succeed.
    pub fn can_reserve(&self, who: AccountId, value: Balance) -> (r: bool)
        ensures
            r <==> (value == 0 || self.can_withdraw(who, value as int)),
    {
        if value == 0 {
            return true;
        }
        let free = self.free_balance(who);
        !(value > free || free - value < self.min_balance || free - value
            < self.frozen_balance(who))
    }

    /// Move `value` from `who`'s free balance into reserve. A zero value is a
    /// no-op; fails with `BalanceTooLow` exactly when the free balance cannot
    /// give up the value.
    pub fn reserve(&mut self, who: AccountId, value: Balance) -> (r: Result<(), Error>)
        requires
            old(self).wf(),
        ensures
            final(self).wf(),
            final(self).min_balance == old(self).min_balance,
            final(self).issuance == old(self).issuance,
            r is Ok <==> (value == 0 || old(self).can_withdraw(who, value as int)),
            r is Err ==> r == Err::<(), Error>(Error::BalanceTooLow) && *final(self) == *old(self),
            value == 0 ==> *final(self) == *old(self),
            (r is Ok && value > 0) ==> final(self).free_of(who) == old(self).free_of(who) - value
                && final(self).reserved_of(who) == old(self).reserved_of(who) + value && final(self).locks_of(who) == old(self).locks_of(who) && others_same(*old(self), *final(self), who),
    {
        if value == 0 {
            return Ok(());
        }
        let free = self.free_balance(who);
        if value > free || free - value < self.min_balance || free - value
            < self.frozen_balance(who) {
            return Err(Error::BalanceTooLow);
        }
        let i = self.ensure_account(who);
        let ghost mid = *self;
        let f = self.accounts[i].1.free;
        let rv = self.accounts[i].1.reserved;
        proof {
            lemma_elem_le_sum(mid.accounts@, i as int);
            lemma_sum_nonneg(mid.accounts@);
        }
        self.set_entry(i, f - value, rv + value);
        proof {
            let x = (
                who,
                (LedgerEntry {
                    free: (f - value) as u64,
                    reserved: (rv + value) as u64,
                    locks: mid.accounts@[i as int].1.locks,
                }),
            );
            lemma_book_entry_update(mid, *self, i as int, x);
            assert forall|a: AccountId| a != who implies #[trigger] entry_same(
                *old(self),
                *final(self),
                a,
            ) by {
                assert(entry_same(*old(self), mid, a));
                assert(entry_same(mid, *self, a));
            }
        }
        Ok(())
    }

    /// Move up to `value` from `who`'s reserve back to free balance and
    /// return the part of the request that was not covered by the reserve.
    /// Never fails.
    pub fn unreserve(&mut self, who: AccountId, value: Balance) -> (r: Balance)
        requires
            old(self).wf(),
        ensures
            final(self).wf(),
            final(self).min_balance == old(self).min_balance,
            final(self).issuance == old(self).issuance,
            final(self).free_of(who) == old(self).free_of(who) + min_int(
                value as int,
                old(self).reserved_of(who),
            ),
            final(self).reserved_of(who) == old(self).reserved_of(who) - min_int(
                value as int,
                old(self).reserved_of(who),
            ),
            final(self).locks_of(who) == old(self).locks_of(who),
            r == value - min_int(value as int, old(self).reserved_of(who)),
            others_same(*old(self), *final(self), who),
    {
        let i = self.ensure_account(who);
        let ghost mid = *self;
        let f = self.accounts[i].1.free;
        let rv = self.accounts[i].1.reserved;
        let moved = if value <= rv {
            value
        } else {
            rv
        };
        proof {
            lemma_elem_le_sum(mid.accounts@, i as int);
            lemma_sum_nonneg(mid.accounts@);
        }
        self.set_entry(i, f + moved, rv - moved);
        proof {
            let x = (
                who,
                (LedgerEntry {
                    free: (f + moved) as u64,
                    reserved: (rv - moved) as u64,
                    locks: mid.accounts@[i as int].1.locks,
                }),
            );
            lemma_book_entry_update(mid, *self, i as int, x);
            assert forall|a: AccountId| a != who implies #[trigger] entry_same(
                *old(self),
                *final(self),
                a,
            ) by {
                assert(entry_same(*old(self), mid, a));
                assert(entry_same(mid, *self, a));
            }
        }
        value - moved
    }

    /// Forcibly remove up to `value` of issuance from `who`'s reserve and
    /// return the shortfall. Never fails.
    pub fn slash_reserved(&mut self, who: AccountId, value: Balance) -> (r: Balance)
        requires
            old(self).wf(),
        ensures
            final(self).wf(),
            final(self).min_balance == old(self).min_balance,
            final(self).free_of(who) == old(self).free_of(who),
            final(self).reserved_of(who) == old(self).reserved_of(who) - min_int(
                value as int,
                old(self).reserved_of(who),
            ),
            final(self).locks_of(who) == old(self).locks_of(who),
            final(self).issuance_of() == old(self).issuance_of() - min_int(
                value as int,
                old(self).reserved_of(who),
            ),
            r == value - min_int(value as int, old(self).reserved_of(who)),
            others_same(*old(self), *final(self), who),
    {
        let i = self.ensure_account(who);
        let ghost mid = *self;
        let f = self.accounts[i].1.free;
        let rv = self.accounts[i].1.reserved;
        let cut = if value <= rv {
            value
        } else {
            rv
        };
        proof {
            lemma_elem_le_sum(mid.accounts@, i as int);
        }
        self.set_entry(i, f, rv - cut);
        self.issuance = self.issuance - cut;
        proof {
            let x = (
                who,
                (LedgerEntry {
                    free: f,
                    reserved: (rv - cut) as u64,
                    locks: mid.accounts@[i as int].1.locks,
                }),
            );
            lemma_book_entry_update(mid, *self, i as int, x);
            assert forall|a: AccountId| a != who implies #[trigger] entry_same(
                *old(self),
                *final(self),
                a,
            ) by {
                assert(entry_same(*old(self), mid, a));
                assert(entry_same(mid, *self, a));
            }
        }
        value - cut
    }

    /// Move up to `value` from `slashed`'s reserve into `beneficiary`'s free
    /// or reserved balance, as `status` says, and return the part of the
    /// request the reserve did not cover. Never fails; a partial move is a
    /// valid outcome.
    pub fn repatriate_reserved(
        &mut self,
        slashed: AccountId,
        beneficiary: AccountId,
        value: Balance,
        status: BalanceStatus,
    ) -> (r: Balance)
        requires
            old(self).wf(),
        ensures
            final(self).wf(),
            final(self).min_balance == old(self).min_balance,
            final(self).issuance == old(self).issuance,
            r == value - min_int(value as int, old(self).reserved_of(slashed)),
            (slashed == beneficiary && status is Reserved) ==> *final(self) == *old(self),
            (slashed == beneficiary && status is Free) ==> final(self).free_of(slashed) == old(self).free_of(slashed) + min_int(value as int, old(self).reserved_of(slashed)) && final(self).reserved_of(slashed) == old(self).reserved_of(slashed) - min_int(
                value as int,
                old(self).reserved_of(slashed),
            ) && final(self).locks_of(slashed) == old(self).locks_of(slashed) && others_same(
                *old(self),
                *final(self),
                slashed,
            ),
            slashed != beneficiary ==> final(self).reserved_of(slashed) == old(self).reserved_of(
                slashed,
            ) - min_int(value as int, old(self).reserved_of(slashed)) && final(self).free_of(
                slashed,
            ) == old(self).free_of(slashed) && final(self).locks_of(slashed) == old(self).locks_of(
                slashed,
            ) && final(self).locks_of(beneficiary) == old(self).locks_of(beneficiary)
                && others_same2(*old(self), *final(self), slashed, beneficiary),
            (slashed != beneficiary && status is Free) ==> final(self).free_of(beneficiary) == old(self).free_of(beneficiary) + min_int(value as int, old(self).reserved_of(slashed))
                && final(self).reserved_of(beneficiary) == old(self).reserved_of(beneficiary),
            (slashed != beneficiary && status is Reserved) ==> final(self).reserved_of(
                beneficiary,
            ) == old(self).reserved_of(beneficiary) + min_int(
                value as int,
                old(self).reserved_of(slashed),
            ) && final(self).free_of(beneficiary) == old(self).free_of(beneficiary),
    {
        if slashed == beneficiary {
            match status {
                BalanceStatus::Free => {
                    return self.unreserve(slashed, value);
                },
                BalanceStatus::Reserved => {
                    let rv = self.reserved_balance(slashed);
                    let moved = if value <= rv {
                        value
                    } else {
                        rv
                    };
                    return value - moved;
                },
            }
        }
        let i = self.ensure_account(slashed);
        let ghost mid1 = *self;
        let f_s = self.accounts[i].1.free;
        let r_s = self.accounts[i].1.reserved;
        let moved = if value <= r_s {
            value
        } else {
            r_s
        };
        self.set_entry(i, f_s, r_s - moved);
        let ghost mid2 = *self;
        proof {
            let x = (
                slashed,
                (LedgerEntry {
                    free: f_s,
                    reserved: (r_s - moved) as u64,
                    locks: mid1.accounts@[i as int].1.locks,
                }),
            );
            lemma_book_entry_update(mid1, mid2, i as int, x);
        }
        let j = self.ensure_account(beneficiary);
        let ghost mid3 = *self;
        let f_b = self.accounts[j].1.free;
        let r_b = self.accounts[j].1.reserved;
        proof {
            lemma_elem_le_sum(mid3.accounts@, j as int);
            lemma_sum_nonneg(mid3.accounts@);
        }
        let (nf, nr) = match status {
            BalanceStatus::Free => (f_b + moved, r_b),
            BalanceStatus::Reserved => (f_b, r_b + moved),
        };
        self.set_entry(j, nf, nr);
        proof {
            let y = (
                beneficiary,
                (LedgerEntry { free: nf, reserved: nr, locks: mid3.accounts@[j as int].1.locks }),
            );
            lemma_book_entry_update(mid3, *self, j as int, y);
            assert(entry_same(mid2, mid3, slashed));
            assert(entry_same(mid3, *self, slashed));
            assert(entry_same(*old(self), mid1, beneficiary));
            assert(entry_same(mid1, mid2, beneficiary));
            assert(entry_same(mid2, mid3, beneficiary));
            assert forall|a: AccountId| a != slashed && a != beneficiary implies #[trigger]
                entry_same(*old(self), *final(self), a) by {
                assert(entry_same(*old(self), mid1, a));
                assert(entry_same(mid1, mid2, a));
                assert(entry_same(mid2, mid3, a));
                assert(entry_same(mid3, *self, a));
            }
        }
        value - moved
    }
}

impl BasicCurrencyAdapter {
    /// Place or replace the lock named `lock_id` on `who`'s free balance,
    /// holding `amount`. Balances and issuance stay as they are.
    pub fn set_lock(&mut self, lock_id: LockIdentifier, who: AccountId, amount: Balance) -> (r:
        Result<(), Error>)
        requires
            old(self).wf(),
        ensures
            final(self).wf(),
            r is Ok,
            final(self).min_balance == old(self).min_balance,
            final(self).issuance == old(self).issuance,
            final(self).free_of(who) == old(self).free_of(who),
            final(self).reserved_of(who) == old(self).reserved_of(who),
            final(self).locks_of(who) == ({
                let ols = old(self).locks_of(who);
                if has_lock(ols, lock_id@) {
                    ols.update(find_lock(ols, lock_id@), (Lock { id: lock_id, amount }))
                } else {
                    ols.push((Lock { id: lock_id, amount }))
                }
            }),
            others_same(*old(self), *final(self), who),
    {
        let i = self.ensure_account(who);
        let ghost mid = *self;
        let (k, mut e) = self.accounts.remove(i);
        let ghost pre_locks = e.locks@;
        match find_lock_idx(&e.locks, &lock_id) {
            Some(j) => {
                e.locks.remove(j);
                e.locks.insert(j, Lock { id: lock_id, amount });
                proof {
                    assert(e.locks@ =~= pre_locks.update(j as int, (Lock { id: lock_id, amount })));
                    lemma_find_lock_props(pre_locks, lock_id@);
                    assert forall|p: int, q: int| 0 <= p < q < e.locks@.len() implies e.locks@[
                        p].id@ != e.locks@[q].id@ by {
                        assert(pre_locks[p].id@ != pre_locks[q].id@);
                        assert(e.locks@[p].id@ == pre_locks[p].id@);
                        assert(e.locks@[q].id@ == pre_locks[q].id@);
                    }
                }
            },
            None => {
                e.locks.push(Lock { id: lock_id, amount });
                proof {
                    lemma_find_lock_props(pre_locks, lock_id@);
                }
            },
        }
        let ghost new_locks = e.locks@;
        proof {
            assert(locks_uniq(new_locks));
        }
        self.accounts.insert(i, (k, e));
        proof {
            let x = self.accounts@[i as int];
            assert(self.accounts@ =~= mid.accounts@.update(i as int, x));
            assert(x.1.locks@ == new_locks);
            lemma_book_entry_update(mid, *self, i as int, x);
            assert forall|a: AccountId| a != who implies #[trigger] entry_same(
                *old(self),
                *final(self),
                a,
            ) by {
                assert(entry_same(*old(self), mid, a));
                assert(entry_same(mid, *self, a));
            }
        }
        Ok(())
    }

    /// Raise the lock named `lock_id` on `who` to at least `amount`; an
    /// existing larger hold is kept, a missing lock is created. Never lowers
    /// a hold.
    pub fn extend_lock(&mut self, lock_id: LockIdentifier, who: AccountId, amount: Balance) -> (r:
        Result<(), Error>)
        requires
            old(self).wf(),
        ensures
            final(self).wf(),
            r is Ok,
            final(self).min_balance == old(self).min_balance,
            final(self).issuance == old(self).issuance,
            final(self).free_of(who) == old(self).free_of(who),
            final(self).reserved_of(who) == old(self).reserved_of(who),
            final(self).locks_of(who) == ({
                let ols = old(self).locks_of(who);
                if has_lock(ols, lock_id@) {
                    ols.update(
                        find_lock(ols, lock_id@),
                        (Lock {
                            id: lock_id,
                            amount: (if amount as int >= ols[find_lock(ols, lock_id@)].amount
                                as int {
                                amount
                            } else {
                                ols[find_lock(ols, lock_id@)].amount
                            }),
                        }),
                    )
                } else {
                    ols.push((Lock { id: lock_id, amount }))
                }
            }),
            others_same(*old(self), *final(self), who),
    {
        let i = self.ensure_account(who);
        let ghost mid = *self;
        let (k, mut e) = self.accounts.remove(i);
        let ghost pre_locks = e.locks@;
        match find_lock_idx(&e.locks, &lock_id) {
            Some(j) => {
                let cur = e.locks[j].amount;
                let held = if amount >= cur {
                    amount
                } else {
                    cur
                };
                e.locks.remove(j);
                e.locks.insert(j, Lock { id: lock_id, amount: held });
                proof {
                    assert(e.locks@ =~= pre_locks.update(
                        j as int,
                        (Lock { id: lock_id, amount: held }),
                    ));
                    lemma_find_lock_props(pre_locks, lock_id@);
                    assert forall|p: int, q: int| 0 <= p < q < e.locks@.len() implies e.locks@[
                        p].id@ != e.locks@[q].id@ by {
                        assert(pre_locks[p].id@ != pre_locks[q].id@);
                        assert(e.locks@[p].id@ == pre_locks[p].id@);
                        assert(e.locks@[q].id@ == pre_locks[q].id@);
                    }
                }
            },
            None => {
                e.locks.push(Lock { id: lock_id, amount });
                proof {
                    lemma_find_lock_props(pre_locks, lock_id@);
                }
            },
        }
        let ghost new_locks = e.locks@;
        proof {
            assert(locks_uniq(new_locks));
        }
        self.accounts.insert(i, (k, e));
        proof {
            let x = self.accounts@[i as int];
            assert(self.accounts@ =~= mid.accounts@.update(i as int, x));
            assert(x.1.locks@ == new_locks);
            lemma_book_entry_update(mid, *self, i as int, x);
            assert forall|a: AccountId| a != who implies #[trigger] entry_same(
                *old(self),
                *final(self),
                a,
            ) by {
                assert(entry_same(*old(self), mid, a));
                assert(entry_same(mid, *self, a));
            }
        }
        Ok(())
    }

    /// Drop the lock named `lock_id` from `who`, if it is there. Balances and
    /// issuance stay as they are.
    pub fn remove_lock(&mut self, lock_id: LockIdentifier, who: AccountId) -> (r: Result<
        (),
        Error,
    >)
        requires
            old(self).wf(),
        ensures
            final(self).wf(),
            r is Ok,
            final(self).min_balance == old(self).min_balance,
            final(self).issuance == old(self).issuance,
            final(self).free_of(who) == old(self).free_of(who),
            final(self).reserved_of(who) == old(self).reserved_of(who),
            final(self).locks_of(who) == ({
                let ols = old(self).locks_of(who);
                if has_lock(ols, lock_id@) {
                    ols.remove(find_lock(ols, lock_id@))
                } else {
                    ols
                }
            }),
            others_same(*old(self), *final(self), who),
    {
        let i = match self.find_account(who) {
            Some(i) => i,
            None => {
                return Ok(());
            },
        };
        let ghost mid = *self;
        let (k, mut e) = self.accounts.remove(i);
        let ghost pre_locks = e.locks@;
        match find_lock_idx(&e.locks, &lock_id) {
            Some(j) => {
                e.locks.remove(j);
                proof {
                    lemma_locks_uniq_remove(pre_locks, j as int);
                }
            },
            None => {},
        }
        let ghost new_locks = e.locks@;
        proof {
            assert(locks_uniq(new_locks));
        }
        self.accounts.insert(i, (k, e));
        proof {
            lemma_find_key_props(mid.accounts@, who);
            let x = self.accounts@[i as int];
            assert(self.accounts@ =~= mid.accounts@.update(i as int, x));
            assert(x.1.locks@ == new_locks);
            lemma_book_entry_update(mid, *self, i as int, x);
            assert forall|a: AccountId| a != who implies #[trigger] entry_same(
                *old(self),
                *final(self),
                a,
            ) by {
                assert(entry_same(*old(self), mid, a));
                assert(entry_same(mid, *self, a));
            }
        }
        Ok(())
    }
}

} // verus!
