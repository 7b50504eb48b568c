//! Account consolidation: move everything an account holds into another
//! account, currency by currency, as one transactional unit. Either every
//! step succeeds, or the call fails and nothing is observed.

use vstd::prelude::*;

use crate::alist::{find_key, has_key, lemma_find_key_props, lemma_find_key_same_keys};
use crate::book::{entry_same, others_same2, BasicCurrencyAdapter};
use crate::pallet::{account_same_in, currency_same, frame_same, ledger_same,
    lemma_ledger_same_trivial, Pallet};
use crate::types::{AccountId, CurrencyId, Error};

verus! {

/// Whether one book lets `src`'s holdings move wholly to `dst`: nothing may
/// be reserved, and a positive free balance must be neither locked nor kept
/// back by a minimum balance.
pub open spec fn book_merge_ok(
    b: BasicCurrencyAdapter,
    src: AccountId,
    dst: AccountId,
) -> bool {
    &&& b.reserved_of(src) == 0
    &&& (b.free_of(src) == 0 || src == dst || (b.frozen_of(src) == 0 && b.min_balance_of() == 0))
}

/// Whether the native book lets `src`'s holdings move wholly to `dst` once
/// its reserve has been freed.
pub open spec fn native_merge_ok(
    b: BasicCurrencyAdapter,
    src: AccountId,
    dst: AccountId,
) -> bool {
    ||| b.free_of(src) + b.reserved_of(src) == 0
    ||| src == dst
    ||| (b.frozen_of(src) == 0 && b.min_balance_of() == 0)
}

/// One book after the other has given all of `src`'s free balance to `dst`
/// and nothing else moved.
pub open spec fn merged_book(
    b0: BasicCurrencyAdapter,
    b1: BasicCurrencyAdapter,
    src: AccountId,
    dst: AccountId,
) -> bool {
    &&& b1.wf()
    &&& b1.min_balance_of() == b0.min_balance_of()
    &&& b1.issuance_of() == b0.issuance_of()
    &&& b1.free_of(src) == 0
    &&& b1.reserved_of(src) == b0.reserved_of(src)
    &&& b1.free_of(dst) == b0.free_of(dst) + b0.free_of(src)
    &&& b1.reserved_of(dst) == b0.reserved_of(dst)
    &&& b1.locks_of(src) == b0.locks_of(src)
    &&& b1.locks_of(dst) == b0.locks_of(dst)
    &&& others_same2(b0, b1, src, dst)
}

impl Pallet {
    /// Whether `merge_account(source, dest)` would go through: every book
    /// holds nothing reserved for `source` outside the native currency, and
    /// every positive balance of `source` is free to leave in full.
    pub open spec fn can_merge(self, source: AccountId, dest: AccountId) -> bool {
        &&& native_merge_ok(self.native, source, dest)
        &&& forall|i: int|
            0 <= i < self.assets@.len() ==> book_merge_ok(
                #[trigger] self.assets@[i].1,
                source,
                dest,
            )
    }

    /// Whether the merge's preconditions hold; side-effect free.
    fn check_can_merge(&self, source: AccountId, dest: AccountId) -> (r: bool)
        requires
            self.wf(),
        ensures
            r == self.can_merge(source, dest),
    {
        let nf = self.native.free_balance(source);
        let nr = self.native.reserved_balance(source);
        let native_ok = (nf == 0 && nr == 0) || source == dest || (self.native.frozen_balance(
            source,
        ) == 0 && self.native.minimum_balance() == 0);
        if !native_ok {
            return false;
        }
        let n = self.assets.len();
        let mut i: usize = 0;
        while i < n
            invariant
                i <= n,
                n == self.assets@.len(),
                forall|j: int|
                    0 <= j < i ==> book_merge_ok(#[trigger] self.assets@[j].1, source, dest),
            decreases n - i,
        {
            let f = self.assets[i].1.free_balance(source);
            let rv = self.assets[i].1.reserved_balance(source);
            let ok = rv == 0 && (f == 0 || source == dest || (self.assets[i].1.frozen_balance(
                source,
            ) == 0 && self.assets[i].1.minimum_balance() == 0));
            if !ok {
                return false;
            }
            i = i + 1;
        }
        true
    }

    /// Move all of `source`'s holdings to `dest`: every non-native free
    /// balance transfers in full, the native reserve is freed, and the native
    /// free balance follows — one transactional unit that either completes or
    /// fails with `BalanceTooLow` leaving both accounts untouched. No events
    /// are emitted; reporting a consolidation is the host's concern.
    pub fn merge_account(&mut self, source: AccountId, dest: AccountId) -> (r: Result<(), Error>)
        requires
            old(self).wf(),
        ensures
            final(self).wf(),
            frame_same(*old(self), *final(self)),
            final(self).events@ == old(self).events@,
            r is Ok <==> old(self).can_merge(source, dest),
            r is Err ==> r == Err::<(), Error>(Error::BalanceTooLow) && ledger_same(
                *old(self),
                *final(self),
            ),
            (r is Ok && source == dest) ==> ({
                let nc = old(self).config.native_currency_id;
                &&& final(self).free_balance_of(nc, source) == old(self).free_balance_of(
                    nc,
                    source,
                ) + old(self).reserved_balance_of(nc, source)
                &&& final(self).reserved_balance_of(nc, source) == 0
                &&& final(self).locks_seq_of(nc, source) == old(self).locks_seq_of(nc, source)
                &&& final(self).issuance_of(nc) == old(self).issuance_of(nc)
                &&& forall|a: AccountId| a != source ==> #[trigger] account_same_in(
                    *old(self),
                    *final(self),
                    nc,
                    a,
                )
                &&& forall|c2: CurrencyId| c2 != nc ==> #[trigger] currency_same(
                    *old(self),
                    *final(self),
                    c2,
                )
            }),
            (r is Ok && source != dest) ==> ({
                let nc = old(self).config.native_currency_id;
                &&& forall|c2: CurrencyId| #![all_triggers]
                    final(self).free_balance_of(c2, source) == 0 && final(self).reserved_balance_of(c2, source) == 0
                &&& forall|c2: CurrencyId|
                    c2 != nc ==> #[trigger] final(self).free_balance_of(c2, dest) == old(self).free_balance_of(c2, dest) + old(self).free_balance_of(c2, source) && final(self).reserved_balance_of(c2, dest) == old(self).reserved_balance_of(c2, dest)
                &&& final(self).free_balance_of(nc, dest) == old(self).free_balance_of(nc, dest)
                    + old(self).free_balance_of(nc, source) + old(self).reserved_balance_of(
                    nc,
                    source,
                )
                &&& final(self).reserved_balance_of(nc, dest) == old(self).reserved_balance_of(
                    nc,
                    dest,
                )
                &&& forall|c2: CurrencyId| #[trigger] final(self).issuance_of(c2) == old(self).issuance_of(c2)
                &&& forall|c2: CurrencyId, a: AccountId|
                    a != source && a != dest ==> #[trigger] account_same_in(
                        *old(self),
                        *final(self),
                        c2,
                        a,
                    )
            }),
    {
        if !self.check_can_merge(source, dest) {
            proof {
                lemma_ledger_same_trivial(*old(self), *self);
            }
            return Err(Error::BalanceTooLow);
        }
        if source == dest {
            let ghost pre = *self;
            let rv = self.native.reserved_balance(source);
            let _rem = self.native.unreserve(source, rv);
            proof {
                crate::pallet::lemma_native_book_update(pre, *self, self.native);
                assert forall|a: AccountId|
                    a != source implies #[trigger] account_same_in(
                    pre,
                    *self,
                    pre.config.native_currency_id,
                    a,
                ) by {
                    assert(entry_same(pre.native, self.native, a));
                }
            }
            return Ok(());
        }
        let n = self.assets.len();
        let mut i: usize = 0;
        while i < n
            invariant
                i <= n,
                source != dest,
                old(self).wf(),
                old(self).can_merge(source, dest),
                n == self.assets@.len(),
                n == old(self).assets@.len(),
                forall|j: int| 0 <= j < n ==> self.assets@[j].0 == old(self).assets@[j].0,
                forall|j: int| i <= j < n ==> self.assets@[j].1 == old(self).assets@[j].1,
                forall|j: int|
                    0 <= j < i ==> merged_book(
                        old(self).assets@[j].1,
                        #[trigger] self.assets@[j].1,
                        source,
                        dest,
                    ),
                self.native == old(self).native,
                self.config == old(self).config,
                self.swaps@ == old(self).swaps@,
                self.prices@ == old(self).prices@,
                self.basket_prices@ == old(self).basket_prices@,
                self.events@ == old(self).events@,
                self.block_number == old(self).block_number,
            decreases n - i,
        {
            let ghost step_pre = *self;
            let (cid, mut b) = self.assets.remove(i);
            let ghost b0 = b;
            proof {
                assert(b0 == old(self).assets@[i as int].1);
                assert(b0.wf());
                assert(book_merge_ok(old(self).assets@[i as int].1, source, dest));
            }
            let f = b.free_balance(source);
            let tr = b.transfer(source, dest, f);
            proof {
                assert(tr is Ok);
            }
            self.assets.insert(i, (cid, b));
            proof {
                assert(self.assets@ =~= step_pre.assets@.update(
                    i as int,
                    self.assets@[i as int],
                ));
                assert forall|j: int|
                    0 <= j < i + 1 implies merged_book(
                    old(self).assets@[j].1,
                    #[trigger] self.assets@[j].1,
                    source,
                    dest,
                ) by {
                    if j < i as int {
                        assert(self.assets@[j] == step_pre.assets@[j]);
                    }
                }
            }
            i = i + 1;
        }
        let ghost mid = *self;
        let rv = self.native.reserved_balance(source);
        let _rem = self.native.unreserve(source, rv);
        let ghost mid2 = *self;
        let f2 = self.native.free_balance(source);
        let tr2 = self.native.transfer(source, dest, f2);
        proof {
            assert(native_merge_ok(old(self).native, source, dest));
            assert(tr2 is Ok);
        }
        proof {
            let pre = *old(self);
            let nc = pre.config.native_currency_id;
            // the native book's chain: reserve freed, then all free moved
            assert(entry_same(mid.native, mid2.native, dest));
            assert(mid2.native.reserved_of(source) == 0);
            assert(mid2.native.free_of(source) == pre.free_balance_of(nc, source)
                + pre.reserved_balance_of(nc, source));
            assert(self.native.free_of(source) == 0);
            assert(self.native.reserved_of(source) == 0);
            assert(self.native.free_of(dest) == pre.free_balance_of(nc, dest)
                + pre.free_balance_of(nc, source) + pre.reserved_balance_of(nc, source));
            assert(self.native.reserved_of(dest) == pre.reserved_balance_of(nc, dest));
            // keys are unchanged, so every lookup lands where it did before
            assert forall|c2: CurrencyId| #[trigger] find_key(self.assets@, c2) == find_key(
                pre.assets@,
                c2,
            ) by {
                lemma_find_key_same_keys(self.assets@, pre.assets@, c2);
            }
            // the invariant pieces of `wf` that concern the asset books
            assert forall|j: int|
                0 <= j < self.assets@.len() implies ((#[trigger] self.assets@[j].1).wf()
                && self.assets@[j].1.min_balance_of() == self.min_balance_cfg(self.assets@[j].0)
                && self.assets@[j].0 != self.config.native_currency_id) by {
                assert(merged_book(pre.assets@[j].1, self.assets@[j].1, source, dest));
                assert(pre.assets@[j].1.wf());
            }
            assert forall|p: int, q: int|
                0 <= p < q < self.assets@.len() implies self.assets@[p].0 != self.assets@[q].0 by {
                assert(self.assets@[p].0 == pre.assets@[p].0);
                assert(self.assets@[q].0 == pre.assets@[q].0);
            }
            // source ends empty everywhere
            assert forall|c2: CurrencyId| #![all_triggers]
                self.free_balance_of(c2, source) == 0 && self.reserved_balance_of(c2, source)
                == 0 by {
                if c2 != nc && has_key(pre.assets@, c2) {
                    lemma_find_key_props(pre.assets@, c2);
                    let j = find_key(pre.assets@, c2);
                    assert(merged_book(pre.assets@[j].1, self.assets@[j].1, source, dest));
                    assert(book_merge_ok(pre.assets@[j].1, source, dest));
                }
            }
            // dest has gained exactly the sums
            assert forall|c2: CurrencyId|
                c2 != nc implies #[trigger] self.free_balance_of(c2, dest) == pre.free_balance_of(
                c2,
                dest,
            ) + pre.free_balance_of(c2, source) && self.reserved_balance_of(c2, dest)
                == pre.reserved_balance_of(c2, dest) by {
                if has_key(pre.assets@, c2) {
                    lemma_find_key_props(pre.assets@, c2);
                    let j = find_key(pre.assets@, c2);
                    assert(merged_book(pre.assets@[j].1, self.assets@[j].1, source, dest));
                }
            }
            // no issuance moved
            assert forall|c2: CurrencyId| #[trigger] self.issuance_of(c2) == pre.issuance_of(
                c2,
            ) by {
                if c2 != nc && has_key(pre.assets@, c2) {
                    lemma_find_key_props(pre.assets@, c2);
                    let j = find_key(pre.assets@, c2);
                    assert(merged_book(pre.assets@[j].1, self.assets@[j].1, source, dest));
                }
            }
            // bystander accounts are untouched in every currency
            assert forall|c2: CurrencyId, a: AccountId|
                a != source && a != dest implies #[trigger] account_same_in(
                pre,
                *self,
                c2,
                a,
            ) by {
                if c2 == nc {
                    assert(entry_same(mid.native, mid2.native, a));
                    assert(entry_same(mid2.native, self.native, a));
                } else if has_key(pre.assets@, c2) {
                    lemma_find_key_props(pre.assets@, c2);
                    let j = find_key(pre.assets@, c2);
                    assert(merged_book(pre.assets@[j].1, self.assets@[j].1, source, dest));
                    assert(entry_same(pre.assets@[j].1, self.assets@[j].1, a));
                }
            }
        }
        Ok(())
    }
}

} // verus!
