//! The currency router and the state it owns: the native book, one book per
//! other currency, the swap registry, prices, the emitted events and the
//! clock. Every balance operation is dispatched to the native book or to the
//! asset book of the requested currency.

use vstd::prelude::*;

use crate::alist::{find_key, has_key, lemma_alist_push, lemma_alist_update, lemma_find_key_is_first,
    lemma_find_key_props, uniq_keys, value_of};
use crate::book::{lock_max, BasicCurrencyAdapter};
use crate::types::{AccountId, Balance, BlockNumber, Config, CurrencyId, Event, Lock, PendingSwap};

verus! {

/// Index of the pending swap keyed by `target` and hash `h`, or a negative
/// value if none.
pub open spec fn find_swap(s: Seq<PendingSwap>, target: AccountId, h: Seq<u8>) -> int
    decreases s.len(),
{
    if s.len() == 0 {
        -1
    } else if s[0].target == target && s[0].hashed_proof@ == h {
        0
    } else {
        let r = find_swap(s.skip(1), target, h);
        if r < 0 {
            -1
        } else {
            r + 1
        }
    }
}

/// Whether a pending swap is keyed by `target` and hash `h`.
pub open spec fn has_swap(s: Seq<PendingSwap>, target: AccountId, h: Seq<u8>) -> bool {
    find_swap(s, target, h) >= 0
}

/// No two pending swaps share a target and hashed proof.
pub open spec fn swaps_uniq(s: Seq<PendingSwap>) -> bool {
    forall|i: int, j: int|
        0 <= i < j < s.len() ==> !(s[i].target == s[j].target && s[i].hashed_proof@
            == s[j].hashed_proof@)
}

/// `find_swap` stays in range, lands on the key it was asked for, and fails
/// only when the key is nowhere in the registry.
pub proof fn lemma_find_swap_props(s: Seq<PendingSwap>, target: AccountId, h: Seq<u8>)
    ensures
        -1 <= find_swap(s, target, h) < s.len(),
        find_swap(s, target, h) >= 0 ==> s[find_swap(s, target, h)].target == target && s[find_swap(
            s,
            target,
            h,
        )].hashed_proof@ == h,
        find_swap(s, target, h) == -1 ==> forall|i: int|
            0 <= i < s.len() ==> !(s[i].target == target && s[i].hashed_proof@ == h),
    decreases s.len(),
{
    if s.len() > 0 && !(s[0].target == target && s[0].hashed_proof@ == h) {
        lemma_find_swap_props(s.skip(1), target, h);
        let r = find_swap(s.skip(1), target, h);
        if r >= 0 {
            assert(s.skip(1)[r] == s[r + 1]);
        } else {
            assert forall|i: int|
                0 <= i < s.len() implies !(s[i].target == target && s[i].hashed_proof@ == h) by {
                if i >= 1 {
                    assert(s.skip(1)[i - 1] == s[i]);
                }
            }
        }
    }
}

/// `find_swap` returns exactly the first index carrying the key.
pub proof fn lemma_find_swap_is_first(s: Seq<PendingSwap>, target: AccountId, h: Seq<u8>, i: int)
    requires
        0 <= i < s.len(),
        s[i].target == target,
        s[i].hashed_proof@ == h,
        forall|j: int| 0 <= j < i ==> !(s[j].target == target && s[j].hashed_proof@ == h),
    ensures
        find_swap(s, target, h) == i,
    decreases s.len(),
{
    if i > 0 {
        lemma_find_swap_is_first(s.skip(1), target, h, i - 1);
    }
}

/// Removing a pending swap keeps the remaining keys pairwise distinct.
pub proof fn lemma_swaps_uniq_remove(s: Seq<PendingSwap>, i: int)
    requires
        swaps_uniq(s),
        0 <= i < s.len(),
    ensures
        swaps_uniq(s.remove(i)),
{
    assert forall|p: int, q: int| 0 <= p < q < s.remove(i).len() implies !(s.remove(
        i,
    )[p].target == s.remove(i)[q].target && s.remove(i)[p].hashed_proof@ == s.remove(
        i,
    )[q].hashed_proof@) by {
        let p0 = if p < i {
            p
        } else {
            p + 1
        };
        let q0 = if q < i {
            q
        } else {
            q + 1
        };
        assert(s.remove(i)[p] == s[p0]);
        assert(s.remove(i)[q] == s[q0]);
    }
}

/// The ledger, swap registry, prices, clock and event log, owned together and
/// mutated only through the operations of this crate.
/// The fields are exposed for specification; all verified callers go through
/// the operations, which keep `wf` standing.
#[derive(Debug)]
pub struct Pallet {
    /// Fixed wiring: native currency id, minimum balances, proof bound.
    pub config: Config,
    /// The book backing the native currency.
    pub native: BasicCurrencyAdapter,
    /// One book per non-native currency, keyed by currency id.
    pub assets: Vec<(CurrencyId, BasicCurrencyAdapter)>,
    /// Pending swaps, uniquely keyed by target account and hashed proof.
    pub swaps: Vec<PendingSwap>,
    /// Manually set price per currency.
    pub prices: Vec<(CurrencyId, u32)>,
    /// Basket price per currency, the mean of its component prices.
    pub basket_prices: Vec<(CurrencyId, u32)>,
    /// Domain events, in the order they were emitted.
    pub events: Vec<Event>,
    /// The current tick of the host's clock.
    pub block_number: BlockNumber,
}

impl Pallet {
    /// Whether `c` is the currency backed by the native book.
    pub open spec fn is_native(self, c: CurrencyId) -> bool {
        c == self.config.native_currency_id
    }

    /// The configured minimum balance of `c`; zero when not configured.
    pub open spec fn min_balance_cfg(self, c: CurrencyId) -> int {
        value_of(self.config.min_balances@, c, 0u64) as int
    }

    /// Total issuance of `c`: the backing book's counter, zero for a currency
    /// no operation has touched.
    pub open spec fn issuance_of(self, c: CurrencyId) -> int {
        if self.is_native(c) {
            self.native.issuance_of()
        } else if has_key(self.assets@, c) {
            self.assets@[find_key(self.assets@, c)].1.issuance_of()
        } else {
            0
        }
    }

    /// Free balance of `who` in currency `c`.
    pub open spec fn free_balance_of(self, c: CurrencyId, who: AccountId) -> int {
        if self.is_native(c) {
            self.native.free_of(who)
        } else if has_key(self.assets@, c) {
            self.assets@[find_key(self.assets@, c)].1.free_of(who)
        } else {
            0
        }
    }

    /// Reserved balance of `who` in currency `c`.
    pub open spec fn reserved_balance_of(self, c: CurrencyId, who: AccountId) -> int {
        if self.is_native(c) {
            self.native.reserved_of(who)
        } else if has_key(self.assets@, c) {
            self.assets@[find_key(self.assets@, c)].1.reserved_of(who)
        } else {
            0
        }
    }

    /// Locks of `who` in currency `c`.
    pub open spec fn locks_seq_of(self, c: CurrencyId, who: AccountId) -> Seq<Lock> {
        if self.is_native(c) {
            self.native.locks_of(who)
        } else if has_key(self.assets@, c) {
            self.assets@[find_key(self.assets@, c)].1.locks_of(who)
        } else {
            Seq::<Lock>::empty()
        }
    }

    /// Free plus reserved balance of `who` in currency `c`.
    pub open spec fn total_balance_of(self, c: CurrencyId, who: AccountId) -> int {
        self.free_balance_of(c, who) + self.reserved_balance_of(c, who)
    }

    /// Whether `who` may give up `amount` of free balance in currency `c`:
    /// the amount is covered, and what remains stays at or above both the
    /// minimum balance and the frozen bound.
    pub open spec fn can_withdraw_c(self, c: CurrencyId, who: AccountId, amount: int) -> bool {
        &&& amount <= self.free_balance_of(c, who)
        &&& self.free_balance_of(c, who) - amount >= self.min_balance_cfg(c)
        &&& self.free_balance_of(c, who) - amount >= lock_max(self.locks_seq_of(c, who))
    }

    /// The router's invariant: the native and every asset book are well
    /// formed with their configured minimum balances, no asset book is keyed
    /// by the native id, currency keys and price keys are unique, and the
    /// swap registry holds at most one entry per target and hashed proof.
    /// Through each book's own invariant this is the global accounting law:
    /// for every currency, total issuance equals the sum over all accounts of
    /// free plus reserved balance.
    pub open spec fn wf(self) -> bool {
        &&& self.native.wf()
        &&& self.native.min_balance_of() == self.min_balance_cfg(self.config.native_currency_id)
        &&& uniq_keys(self.assets@)
        &&& forall|i: int|
            0 <= i < self.assets@.len() ==> ((#[trigger] self.assets@[i].1).wf()
                && self.assets@[i].1.min_balance_of() == self.min_balance_cfg(self.assets@[i].0)
                && self.assets@[i].0 != self.config.native_currency_id)
        &&& uniq_keys(self.prices@)
        &&& uniq_keys(self.basket_prices@)
        &&& swaps_uniq(self.swaps@)
    }
}

/// `who`'s balances and locks in currency `c` are the same in both states.
pub open spec fn account_same_in(pre: Pallet, post: Pallet, c: CurrencyId, who: AccountId) -> bool {
    &&& pre.free_balance_of(c, who) == post.free_balance_of(c, who)
    &&& pre.reserved_balance_of(c, who) == post.reserved_balance_of(c, who)
    &&& pre.locks_seq_of(c, who) == post.locks_seq_of(c, who)
}

/// Currency `c` is untouched: same issuance, and the same balances and locks
/// for every account.
pub open spec fn currency_same(pre: Pallet, post: Pallet, c: CurrencyId) -> bool {
    &&& pre.issuance_of(c) == post.issuance_of(c)
    &&& forall|a: AccountId| #[trigger] account_same_in(pre, post, c, a)
}

/// Every currency other than `c` is untouched.
pub open spec fn other_currencies_same(pre: Pallet, post: Pallet, c: CurrencyId) -> bool {
    forall|c2: CurrencyId| c2 != c ==> #[trigger] currency_same(pre, post, c2)
}

/// Every account other than `who` is untouched in currency `c`.
pub open spec fn other_accounts_same_in(
    pre: Pallet,
    post: Pallet,
    c: CurrencyId,
    who: AccountId,
) -> bool {
    forall|a: AccountId| a != who ==> #[trigger] account_same_in(pre, post, c, a)
}

/// Every account other than `x` and `y` is untouched in currency `c`.
pub open spec fn other_accounts_same_in2(
    pre: Pallet,
    post: Pallet,
    c: CurrencyId,
    x: AccountId,
    y: AccountId,
) -> bool {
    forall|a: AccountId| a != x && a != y ==> #[trigger] account_same_in(pre, post, c, a)
}

/// Everything that is not a balance book is the same: configuration, swap
/// registry, prices, clock. The event log is stated separately by each
/// operation.
pub open spec fn frame_same(pre: Pallet, post: Pallet) -> bool {
    &&& pre.config == post.config
    &&& pre.swaps@ == post.swaps@
    &&& pre.prices@ == post.prices@
    &&& pre.basket_prices@ == post.basket_prices@
    &&& pre.block_number == post.block_number
}

/// No balance, lock or issuance of any currency differs between the two
/// states.
pub open spec fn ledger_same(pre: Pallet, post: Pallet) -> bool {
    forall|c: CurrencyId| #[trigger] currency_same(pre, post, c)
}

/// Two states with the same books and configuration show the same ledger.
pub proof fn lemma_ledger_same_trivial(pre: Pallet, post: Pallet)
    requires
        post.native == pre.native,
        post.assets@ == pre.assets@,
        post.config == pre.config,
    ensures
        ledger_same(pre, post),
{
    assert forall|c: CurrencyId| #[trigger] currency_same(pre, post, c) by {
        assert forall|a: AccountId| #[trigger] account_same_in(pre, post, c, a) by {}
    }
}

/// What swapping in an updated native book does to the router: the native
/// currency's view becomes the new book's and every other currency is
/// untouched.
pub proof fn lemma_native_book_update(pre: Pallet, post: Pallet, b: BasicCurrencyAdapter)
    requires
        pre.wf(),
        post.native == b,
        post.assets@ == pre.assets@,
        post.config == pre.config,
        b.wf(),
        b.min_balance_of() == pre.native.min_balance_of(),
    ensures
        other_currencies_same(pre, post, pre.config.native_currency_id),
        post.issuance_of(pre.config.native_currency_id) == b.issuance_of(),
        pre.issuance_of(pre.config.native_currency_id) == pre.native.issuance_of(),
        forall|a: AccountId| #![all_triggers]
            post.free_balance_of(pre.config.native_currency_id, a) == b.free_of(a)
                && post.reserved_balance_of(pre.config.native_currency_id, a) == b.reserved_of(a)
                && post.locks_seq_of(pre.config.native_currency_id, a) == b.locks_of(a),
        forall|a: AccountId| #![all_triggers]
            pre.free_balance_of(pre.config.native_currency_id, a) == pre.native.free_of(a)
                && pre.reserved_balance_of(pre.config.native_currency_id, a)
                == pre.native.reserved_of(a) && pre.locks_seq_of(pre.config.native_currency_id, a)
                == pre.native.locks_of(a),
{
    assert forall|c2: CurrencyId|
        c2 != pre.config.native_currency_id implies #[trigger] currency_same(pre, post, c2) by {
        assert forall|a: AccountId| #[trigger] account_same_in(pre, post, c2, a) by {}
    }
}

/// What swapping in an updated book for currency `c` does to the router:
/// `c`'s view becomes the new book's, every other currency is untouched, and
/// the book-related invariant conjuncts survive.
pub proof fn lemma_asset_book_update(pre: Pallet, post: Pallet, i: int, c: CurrencyId, b: BasicCurrencyAdapter)
    requires
        pre.wf(),
        0 <= i < pre.assets@.len(),
        pre.assets@[i].0 == c,
        post.assets@ == pre.assets@.update(i, (c, b)),
        post.native == pre.native,
        post.config == pre.config,
        b.wf(),
        b.min_balance_of() == pre.min_balance_cfg(c),
    ensures
        uniq_keys(post.assets@),
        forall|j: int|
            0 <= j < post.assets@.len() ==> ((#[trigger] post.assets@[j].1).wf()
                && post.assets@[j].1.min_balance_of() == post.min_balance_cfg(post.assets@[j].0)
                && post.assets@[j].0 != post.config.native_currency_id),
        find_key(pre.assets@, c) == i,
        pre.issuance_of(c) == pre.assets@[i].1.issuance_of(),
        post.issuance_of(c) == b.issuance_of(),
        forall|a: AccountId| #![all_triggers]
            pre.free_balance_of(c, a) == pre.assets@[i].1.free_of(a) && pre.reserved_balance_of(
                c,
                a,
            ) == pre.assets@[i].1.reserved_of(a) && pre.locks_seq_of(c, a) == pre.assets@[i].1.locks_of(a),
        forall|a: AccountId| #![all_triggers]
            post.free_balance_of(c, a) == b.free_of(a) && post.reserved_balance_of(c, a)
                == b.reserved_of(a) && post.locks_seq_of(c, a) == b.locks_of(a),
        other_currencies_same(pre, post, c),
{
    lemma_alist_update(pre.assets@, i, (c, b));
    assert(post.assets@[i] == (c, b));
    assert forall|j: int|
        0 <= j < post.assets@.len() implies ((#[trigger] post.assets@[j].1).wf()
        && post.assets@[j].1.min_balance_of() == post.min_balance_cfg(post.assets@[j].0)
        && post.assets@[j].0 != post.config.native_currency_id) by {
        if j == i {
            assert(pre.assets@[i].1.wf());
            assert(post.assets@[j] == (c, b));
        } else {
            assert(post.assets@[j] == pre.assets@[j]);
            assert(pre.assets@[j].1.wf());
        }
    }
    assert forall|c2: CurrencyId| c2 != c implies #[trigger] currency_same(pre, post, c2) by {
        if c2 != pre.config.native_currency_id {
            assert(find_key(post.assets@, c2) == find_key(pre.assets@, c2));
            if has_key(pre.assets@, c2) {
                lemma_find_key_props(pre.assets@, c2);
                assert(post.assets@[find_key(pre.assets@, c2)] == pre.assets@[find_key(
                    pre.assets@,
                    c2,
                )]);
            }
        }
        assert forall|a: AccountId| #[trigger] account_same_in(pre, post, c2, a) by {}
    }
}

/// The balance configured under `c` in a minimum-balance table; zero when the
/// currency is not listed.
fn lookup_min(list: &Vec<(CurrencyId, Balance)>, c: CurrencyId) -> (r: Balance)
    ensures
        r == value_of(list@, c, 0u64),
{
    let n = list.len();
    let mut i: usize = 0;
    while i < n
        invariant
            i <= n,
            n == list@.len(),
            forall|j: int| 0 <= j < i ==> list@[j].0 != c,
        decreases n - i,
    {
        if list[i].0 == c {
            proof {
                lemma_find_key_is_first(list@, c, i as int);
            }
            return list[i].1;
        }
        i = i + 1;
    }
    proof {
        lemma_find_key_props(list@, c);
    }
    0
}

/// The whole effect of one asset-book operation on the router, composed with
/// the book lookup that preceded it: `pre` is the state the caller saw, `mid`
/// the state after `ensure_asset` found the book `b0` at `i`, and `post` the
/// state with the operation's result `b1` swapped in. Currency `c`'s view is
/// `b0`'s in `pre` and `b1`'s in `post`; every other currency is untouched.
pub proof fn lemma_router_asset_op(
    pre: Pallet,
    mid: Pallet,
    post: Pallet,
    c: CurrencyId,
    i: int,
    b0: BasicCurrencyAdapter,
    b1: BasicCurrencyAdapter,
)
    requires
        mid.wf(),
        ledger_same(pre, mid),
        pre.config == mid.config,
        0 <= i < mid.assets@.len(),
        mid.assets@[i] == (c, b0),
        find_key(mid.assets@, c) == i,
        post.assets@ == mid.assets@.update(i, (c, b1)),
        post.native == mid.native,
        post.config == mid.config,
        b1.wf(),
        b1.min_balance_of() == mid.min_balance_cfg(c),
    ensures
        uniq_keys(post.assets@),
        forall|j: int|
            0 <= j < post.assets@.len() ==> ((#[trigger] post.assets@[j].1).wf()
                && post.assets@[j].1.min_balance_of() == post.min_balance_cfg(post.assets@[j].0)
                && post.assets@[j].0 != post.config.native_currency_id),
        pre.issuance_of(c) == b0.issuance_of(),
        post.issuance_of(c) == b1.issuance_of(),
        forall|a: AccountId| #![all_triggers]
            pre.free_balance_of(c, a) == b0.free_of(a) && pre.reserved_balance_of(c, a)
                == b0.reserved_of(a) && pre.locks_seq_of(c, a) == b0.locks_of(a),
        forall|a: AccountId| #![all_triggers]
            post.free_balance_of(c, a) == b1.free_of(a) && post.reserved_balance_of(c, a)
                == b1.reserved_of(a) && post.locks_seq_of(c, a) == b1.locks_of(a),
        other_currencies_same(pre, post, c),
{
    lemma_asset_book_update(mid, post, i, c, b1);
    assert(currency_same(pre, mid, c));
    assert forall|a: AccountId| #![all_triggers]
        pre.free_balance_of(c, a) == b0.free_of(a) && pre.reserved_balance_of(c, a)
            == b0.reserved_of(a) && pre.locks_seq_of(c, a) == b0.locks_of(a) by {
        assert(account_same_in(pre, mid, c, a));
    }
    assert forall|c2: CurrencyId| c2 != c implies #[trigger] currency_same(pre, post, c2) by {
        assert(currency_same(pre, mid, c2));
        assert(currency_same(mid, post, c2));
        assert forall|a: AccountId| #[trigger] account_same_in(pre, post, c2, a) by {
            assert(account_same_in(pre, mid, c2, a));
            assert(account_same_in(mid, post, c2, a));
        }
    }
}

impl Pallet {
    /// Index of the book backing `c`, if one exists.
    pub(crate) fn find_asset(&self, c: CurrencyId) -> (r: Option<usize>)
        ensures
            match r {
                Some(i) => find_key(self.assets@, c) == i && i < self.assets@.len(),
                None => find_key(self.assets@, c) == -1,
            },
    {
        let n = self.assets.len();
        let mut i: usize = 0;
        while i < n
            invariant
                i <= n,
                n == self.assets@.len(),
                forall|j: int| 0 <= j < i ==> self.assets@[j].0 != c,
            decreases n - i,
        {
            if self.assets[i].0 == c {
                proof {
                    lemma_find_key_is_first(self.assets@, c, i as int);
                }
                return Some(i);
            }
            i = i + 1;
        }
        proof {
            lemma_find_key_props(self.assets@, c);
        }
        None
    }

    /// The configured minimum balance of `c`.
    pub fn minimum_balance(&self, c: CurrencyId) -> (r: Balance)
        ensures
            r == self.min_balance_cfg(c),
    {
        lookup_min(&self.config.min_balances, c)
    }

    /// Total issuance of `c`.
    pub fn total_issuance(&self, c: CurrencyId) -> (r: Balance)
        ensures
            r == self.issuance_of(c),
    {
        if c == self.config.native_currency_id {
            self.native.total_issuance()
        } else {
            match self.find_asset(c) {
                Some(i) => self.assets[i].1.total_issuance(),
                None => 0,
            }
        }
    }

    /// Free balance of `who` in `c`.
    pub fn free_balance(&self, c: CurrencyId, who: AccountId) -> (r: Balance)
        ensures
            r == self.free_balance_of(c, who),
    {
        if c == self.config.native_currency_id {
            self.native.free_balance(who)
        } else {
            match self.find_asset(c) {
                Some(i) => self.assets[i].1.free_balance(who),
                None => 0,
            }
        }
    }

    /// Reserved balance of `who` in `c`.
    pub fn reserved_balance(&self, c: CurrencyId, who: AccountId) -> (r: Balance)
        ensures
            r == self.reserved_balance_of(c, who),
    {
        if c == self.config.native_currency_id {
            self.native.reserved_balance(who)
        } else {
            match self.find_asset(c) {
                Some(i) => self.assets[i].1.reserved_balance(who),
                None => 0,
            }
        }
    }

    /// Free plus reserved balance of `who` in `c`.
    pub fn total_balance(&self, c: CurrencyId, who: AccountId) -> (r: Balance)
        requires
            self.wf(),
        ensures
            r == self.total_balance_of(c, who),
    {
        if c == self.config.native_currency_id {
            self.native.total_balance(who)
        } else {
            match self.find_asset(c) {
                Some(i) => self.assets[i].1.total_balance(who),
                None => 0,
            }
        }
    }

    /// The locks placed on `who`'s free balance in `c`.
    pub fn locks(&self, c: CurrencyId, who: AccountId) -> (r: Vec<Lock>)
        ensures
            r@ == self.locks_seq_of(c, who),
    {
        if c == self.config.native_currency_id {
            self.native.locks(who)
        } else {
            match self.find_asset(c) {
                Some(i) => self.assets[i].1.locks(who),
                None => Vec::new(),
            }
        }
    }

    /// The events emitted so far, oldest first.
    pub fn events(&self) -> (r: &Vec<Event>)
        ensures
            r@ == self.events@,
    {
        &self.events
    }

    /// The host's current tick, as last reported to `set_block_number`.
    pub fn current_block_number(&self) -> (r: BlockNumber)
        ensures
            r == self.block_number,
    {
        self.block_number
    }

    /// A fresh router over the given wiring: no accounts, no issuance, no
    /// pending swaps, no prices, no events, at tick zero.
    pub fn new(config: Config) -> (r: Pallet)
        ensures
            r.wf(),
            r.config == config,
            r.swaps@ == Seq::<PendingSwap>::empty(),
            r.prices@ == Seq::<(CurrencyId, u32)>::empty(),
            r.basket_prices@ == Seq::<(CurrencyId, u32)>::empty(),
            r.events@ == Seq::<Event>::empty(),
            r.block_number == 0,
            forall|c: CurrencyId| #[trigger] r.issuance_of(c) == 0,
            forall|c: CurrencyId, a: AccountId| #![all_triggers]
                r.free_balance_of(c, a) == 0 && r.reserved_balance_of(c, a) == 0 && r.locks_seq_of(
                    c,
                    a,
                ) == Seq::<Lock>::empty(),
    {
        let native_min = lookup_min(&config.min_balances, config.native_currency_id);
        let r = Pallet {
            native: BasicCurrencyAdapter::new(native_min),
            config,
            assets: Vec::new(),
            swaps: Vec::new(),
            prices: Vec::new(),
            basket_prices: Vec::new(),
            events: Vec::new(),
            block_number: 0,
        };
        r
    }

    /// Index of the book backing non-native currency `c`, creating an empty
    /// book with the configured minimum balance if none exists. No balance,
    /// lock or issuance changes.
    pub(crate) fn ensure_asset(&mut self, c: CurrencyId) -> (i: usize)
        requires
            old(self).wf(),
            c != old(self).config.native_currency_id,
        ensures
            final(self).wf(),
            frame_same(*old(self), *final(self)),
            final(self).events@ == old(self).events@,
            final(self).native == old(self).native,
            ledger_same(*old(self), *final(self)),
            i < final(self).assets@.len(),
            find_key(final(self).assets@, c) == i,
            final(self).assets@[i as int].0 == c,
            final(self).assets@[i as int].1.wf(),
            final(self).assets@[i as int].1.min_balance_of() == final(self).min_balance_cfg(c),
            final(self).assets@[i as int].1.issuance_of() == old(self).issuance_of(c),
            forall|a: AccountId| #![all_triggers]
                final(self).assets@[i as int].1.free_of(a) == old(self).free_balance_of(c, a)
                    && final(self).assets@[i as int].1.reserved_of(a) == old(
                    self,
                ).reserved_balance_of(c, a) && final(self).assets@[i as int].1.locks_of(a) == old(
                    self,
                ).locks_seq_of(c, a),
    {
        match self.find_asset(c) {
            Some(i) => {
                proof {
                    lemma_find_key_props(self.assets@, c);
                    assert(self.assets@[i as int].1.wf());
                    lemma_ledger_same_trivial(*old(self), *final(self));
                }
                i
            },
            None => {
                let i = self.assets.len();
                let min = self.minimum_balance(c);
                let b = BasicCurrencyAdapter::new(min);
                proof {
                    lemma_alist_push(self.assets@, (c, b));
                }
                self.assets.push((c, b));
                proof {
                    assert forall|j: int|
                        0 <= j < self.assets@.len() implies ((#[trigger] self.assets@[j].1).wf()
                        && self.assets@[j].1.min_balance_of() == self.min_balance_cfg(
                        self.assets@[j].0,
                    ) && self.assets@[j].0 != self.config.native_currency_id) by {
                        if j < i as int {
                            assert(self.assets@[j] == old(self).assets@[j]);
                            assert(old(self).assets@[j].1.wf());
                        } else {
                            assert(self.assets@[j] == (c, b));
                        }
                    }
                    assert forall|c2: CurrencyId| #[trigger]
                        currency_same(*old(self), *final(self), c2) by {
                        if c2 != c && c2 != self.config.native_currency_id {
                            if has_key(old(self).assets@, c2) {
                                lemma_find_key_props(old(self).assets@, c2);
                                assert(self.assets@[find_key(old(self).assets@, c2)] == old(
                                    self,
                                ).assets@[find_key(old(self).assets@, c2)]);
                            }
                        }
                        assert forall|a: AccountId| #[trigger]
                            account_same_in(*old(self), *final(self), c2, a) by {}
                    }
                }
                i
            },
        }
    }
}

impl Pallet {
    /// Record the host's clock; swap timeouts are judged against it.
    pub fn set_block_number(&mut self, n: BlockNumber)
        ensures
            final(self).block_number == n,
            final(self).config == old(self).config,
            final(self).native == old(self).native,
            final(self).assets@ == old(self).assets@,
            final(self).swaps@ == old(self).swaps@,
            final(self).prices@ == old(self).prices@,
            final(self).basket_prices@ == old(self).basket_prices@,
            final(self).events@ == old(self).events@,
            old(self).wf() ==> final(self).wf(),
    {
        self.block_number = n;
    }
}

} // verus!
