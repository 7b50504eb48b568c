//! The router's mutating balance operations: each one dispatches to the
//! native book or to the asset book of the requested currency, and emits one
//! event per successful state change.

use vstd::prelude::*;

use crate::book::{entry_same, find_lock, has_lock, min_int};
use crate::pallet::{account_same_in, currency_same, frame_same, ledger_same,
    lemma_ledger_same_trivial, lemma_native_book_update, lemma_router_asset_op,
    other_accounts_same_in, other_accounts_same_in2, other_currencies_same, Pallet};
use crate::types::{AccountId, Amount, Balance, BalanceStatus, CurrencyId, Error, Event, Lock,
    LockIdentifier};

verus! {

impl Pallet {
    /// Credit `amount` of new issuance to `who`'s free balance in `c` and
    /// emit `Deposited`. A zero amount is a no-op without an event; fails
    /// with `SupplyOverflow` exactly when the currency's issuance counter
    /// cannot take the amount, changing nothing.
    pub fn deposit(&mut self, c: CurrencyId, who: AccountId, amount: Balance) -> (r: Result<
        (),
        Error,
    >)
        requires
            old(self).wf(),
        ensures
            final(self).wf(),
            frame_same(*old(self), *final(self)),
            r is Ok <==> (amount == 0 || old(self).issuance_of(c) + amount <= u64::MAX),
            r is Err ==> r == Err::<(), Error>(Error::SupplyOverflow),
            !(r is Ok && amount > 0) ==> ledger_same(*old(self), *final(self)) && final(self).events@ == old(self).events@,
            (r is Ok && amount > 0) ==> final(self).free_balance_of(c, who) == old(self).free_balance_of(c, who) + amount && final(self).reserved_balance_of(c, who) == old(self).reserved_balance_of(c, who) && final(self).locks_seq_of(c, who) == old(self).locks_seq_of(c, who) && final(self).issuance_of(c) == old(self).issuance_of(c)
                + amount && other_accounts_same_in(*old(self), *final(self), c, who)
                && other_currencies_same(*old(self), *final(self), c) && final(self).events@ == old(self).events@.push(Event::Deposited(c, who, amount)),
    {
        if amount == 0 {
            proof {
                lemma_ledger_same_trivial(*old(self), *self);
            }
            return Ok(());
        }
        if c == self.config.native_currency_id {
            let ghost pre = *self;
            let r = self.native.deposit(who, amount);
            match r {
                Ok(_) => {
                    self.events.push(Event::Deposited(c, who, amount));
                    proof {
                        lemma_native_book_update(pre, *self, self.native);
                        assert forall|a: AccountId| a != who implies #[trigger] account_same_in(
                            pre,
                            *self,
                            c,
                            a,
                        ) by {
                            assert(entry_same(pre.native, self.native, a));
                        }
                    }
                    Ok(())
                },
                Err(e) => {
                    proof {
                        lemma_ledger_same_trivial(pre, *self);
                    }
                    Err(e)
                },
            }
        } else {
            let bi = self.ensure_asset(c);
            let ghost pre = *old(self);
            let ghost mid = *self;
            let (cid, mut b) = self.assets.remove(bi);
            let ghost b0 = b;
            let r = b.deposit(who, amount);
            self.assets.insert(bi, (cid, b));
            match r {
                Ok(_) => {
                    self.events.push(Event::Deposited(c, who, amount));
                    proof {
                        assert(self.assets@ =~= mid.assets@.update(
                            bi as int,
                            self.assets@[bi as int],
                        ));
                        let b1 = self.assets@[bi as int].1;
                        lemma_router_asset_op(pre, mid, *self, c, bi as int, b0, b1);
                        assert forall|a: AccountId| a != who implies #[trigger] account_same_in(
                            pre,
                            *self,
                            c,
                            a,
                        ) by {
                            assert(entry_same(b0, b1, a));
                        }
                    }
                    Ok(())
                },
                Err(e) => {
                    proof {
                        assert(self.assets@ =~= mid.assets@.update(
                            bi as int,
                            self.assets@[bi as int],
                        ));
                        let b1 = self.assets@[bi as int].1;
                        lemma_router_asset_op(pre, mid, *self, c, bi as int, b0, b1);
                        assert(b1 == b0);
                        assert forall|c2: CurrencyId| #[trigger] currency_same(pre, *self, c2) by {
                            if c2 == c {
                                assert forall|a: AccountId| #[trigger] account_same_in(
                                    pre,
                                    *self,
                                    c2,
                                    a,
                                ) by {}
                            }
                        }
                    }
                    Err(e)
                },
            }
        }
    }
    /// Remove `amount` of issuance from `who`'s free balance in `c` and emit
    /// `Withdrawn`. A zero amount is a no-op without an event; fails with
    /// `BalanceTooLow` exactly when `who` cannot give up the amount, changing
    /// nothing.
    pub fn withdraw(&mut self, c: CurrencyId, who: AccountId, amount: Balance) -> (r: Result<
        (),
        Error,
    >)
        requires
            old(self).wf(),
        ensures
            final(self).wf(),
            frame_same(*old(self), *final(self)),
            r is Ok <==> (amount == 0 || old(self).can_withdraw_c(c, who, amount as int)),
            r is Err ==> r == Err::<(), Error>(Error::BalanceTooLow),
            !(r is Ok && amount > 0) ==> ledger_same(*old(self), *final(self)) && final(self).events@ == old(self).events@,
            (r is Ok && amount > 0) ==> final(self).free_balance_of(c, who) == old(self).free_balance_of(c, who) - amount && final(self).reserved_balance_of(c, who) == old(self).reserved_balance_of(c, who) && final(self).locks_seq_of(c, who) == old(self).locks_seq_of(c, who) && final(self).issuance_of(c) == old(self).issuance_of(c)
                - amount && other_accounts_same_in(*old(self), *final(self), c, who)
                && other_currencies_same(*old(self), *final(self), c) && final(self).events@ == old(self).events@.push(Event::Withdrawn(c, who, amount)),
    {
        if amount == 0 {
            proof {
                lemma_ledger_same_trivial(*old(self), *self);
            }
            return Ok(());
        }
        if c == self.config.native_currency_id {
            let ghost pre = *self;
            let r = self.native.withdraw(who, amount);
            match r {
                Ok(_) => {
                    self.events.push(Event::Withdrawn(c, who, amount));
                    proof {
                        lemma_native_book_update(pre, *self, self.native);
                        assert forall|a: AccountId| a != who implies #[trigger] account_same_in(
                            pre,
                            *self,
                            c,
                            a,
                        ) by {
                            assert(entry_same(pre.native, self.native, a));
                        }
                    }
                    Ok(())
                },
                Err(e) => {
                    proof {
                        lemma_ledger_same_trivial(pre, *self);
                    }
                    Err(e)
                },
            }
        } else {
            let bi = self.ensure_asset(c);
            let ghost pre = *old(self);
            let ghost mid = *self;
            let (cid, mut b) = self.assets.remove(bi);
            let ghost b0 = b;
            let r = b.withdraw(who, amount);
            self.assets.insert(bi, (cid, b));
            match r {
                Ok(_) => {
                    self.events.push(Event::Withdrawn(c, who, amount));
                    proof {
                        assert(self.assets@ =~= mid.assets@.update(
                            bi as int,
                            self.assets@[bi as int],
                        ));
                        let b1 = self.assets@[bi as int].1;
                        lemma_router_asset_op(pre, mid, *self, c, bi as int, b0, b1);
                        assert forall|a: AccountId| a != who implies #[trigger] account_same_in(
                            pre,
                            *self,
                            c,
                            a,
                        ) by {
                            assert(entry_same(b0, b1, a));
                        }
                    }
                    Ok(())
                },
                Err(e) => {
                    proof {
                        assert(self.assets@ =~= mid.assets@.update(
                            bi as int,
                            self.assets@[bi as int],
                        ));
                        let b1 = self.assets@[bi as int].1;
                        lemma_router_asset_op(pre, mid, *self, c, bi as int, b0, b1);
                        assert(b1 == b0);
                        assert forall|c2: CurrencyId| #[trigger] currency_same(pre, *self, c2) by {
                            if c2 == c {
                                assert forall|a: AccountId| #[trigger] account_same_in(
                                    pre,
                                    *self,
                                    c2,
                                    a,
                                ) by {}
                            }
                        }
                    }
                    Err(e)
                },
            }
        }
    }

    /// Mint new issuance into `who`'s free balance in `c` and emit `Minted`;
    /// `deposit` under the name the supply-management interface uses.
    pub fn mint(&mut self, c: CurrencyId, who: AccountId, amount: Balance) -> (r: Result<
        (),
        Error,
    >)
        requires
            old(self).wf(),
        ensures
            final(self).wf(),
            frame_same(*old(self), *final(self)),
            r is Ok <==> (amount == 0 || old(self).issuance_of(c) + amount <= u64::MAX),
            r is Err ==> r == Err::<(), Error>(Error::SupplyOverflow),
            !(r is Ok && amount > 0) ==> ledger_same(*old(self), *final(self)) && final(self).events@ == old(self).events@,
            (r is Ok && amount > 0) ==> final(self).free_balance_of(c, who) == old(self).free_balance_of(c, who) + amount && final(self).reserved_balance_of(c, who) == old(self).reserved_balance_of(c, who) && final(self).locks_seq_of(c, who) == old(self).locks_seq_of(c, who) && final(self).issuance_of(c) == old(self).issuance_of(c)
                + amount && other_accounts_same_in(*old(self), *final(self), c, who)
                && other_currencies_same(*old(self), *final(self), c) && final(self).events@ == old(self).events@.push(Event::Minted(c, who, amount)),
    {
        if amount == 0 {
            proof {
                lemma_ledger_same_trivial(*old(self), *self);
            }
            return Ok(());
        }
        if c == self.config.native_currency_id {
            let ghost pre = *self;
            let r = self.native.mint(who, amount);
            match r {
                Ok(_) => {
                    self.events.push(Event::Minted(c, who, amount));
                    proof {
                        lemma_native_book_update(pre, *self, self.native);
                        assert forall|a: AccountId| a != who implies #[trigger] account_same_in(
                            pre,
                            *self,
                            c,
                            a,
                        ) by {
                            assert(entry_same(pre.native, self.native, a));
                        }
                    }
                    Ok(())
                },
                Err(e) => {
                    proof {
                        lemma_ledger_same_trivial(pre, *self);
                    }
                    Err(e)
                },
            }
        } else {
            let bi = self.ensure_asset(c);
            let ghost pre = *old(self);
            let ghost mid = *self;
            let (cid, mut b) = self.assets.remove(bi);
            let ghost b0 = b;
            let r = b.mint(who, amount);
            self.assets.insert(bi, (cid, b));
            match r {
                Ok(_) => {
                    self.events.push(Event::Minted(c, who, amount));
                    proof {
                        assert(self.assets@ =~= mid.assets@.update(
                            bi as int,
                            self.assets@[bi as int],
                        ));
                        let b1 = self.assets@[bi as int].1;
                        lemma_router_asset_op(pre, mid, *self, c, bi as int, b0, b1);
                        assert forall|a: AccountId| a != who implies #[trigger] account_same_in(
                            pre,
                            *self,
                            c,
                            a,
                        ) by {
                            assert(entry_same(b0, b1, a));
                        }
                    }
                    Ok(())
                },
                Err(e) => {
                    proof {
                        assert(self.assets@ =~= mid.assets@.update(
                            bi as int,
                            self.assets@[bi as int],
                        ));
                        let b1 = self.assets@[bi as int].1;
                        lemma_router_asset_op(pre, mid, *self, c, bi as int, b0, b1);
                        assert(b1 == b0);
                        assert forall|c2: CurrencyId| #[trigger] currency_same(pre, *self, c2) by {
                            if c2 == c {
                                assert forall|a: AccountId| #[trigger] account_same_in(
                                    pre,
                                    *self,
                                    c2,
                                    a,
                                ) by {}
                            }
                        }
                    }
                    Err(e)
                },
            }
        }
    }

    /// Burn issuance out of `who`'s free balance in `c` and emit `Burned`;
    /// `withdraw` under the name the supply-management interface uses.
    pub fn burn(&mut self, c: CurrencyId, who: AccountId, amount: Balance) -> (r: Result<
        (),
        Error,
    >)
        requires
            old(self).wf(),
        ensures
            final(self).wf(),
            frame_same(*old(self), *final(self)),
            r is Ok <==> (amount == 0 || old(self).can_withdraw_c(c, who, amount as int)),
            r is Err ==> r == Err::<(), Error>(Error::BalanceTooLow),
            !(r is Ok && amount > 0) ==> ledger_same(*old(self), *final(self)) && final(self).events@ == old(self).events@,
            (r is Ok && amount > 0) ==> final(self).free_balance_of(c, who) == old(self).free_balance_of(c, who) - amount && final(self).reserved_balance_of(c, who) == old(self).reserved_balance_of(c, who) && final(self).locks_seq_of(c, who) == old(self).locks_seq_of(c, who) && final(self).issuance_of(c) == old(self).issuance_of(c)
                - amount && other_accounts_same_in(*old(self), *final(self), c, who)
                && other_currencies_same(*old(self), *final(self), c) && final(self).events@ == old(self).events@.push(Event::Burned(c, who, amount)),
    {
        if amount == 0 {
            proof {
                lemma_ledger_same_trivial(*old(self), *self);
            }
            return Ok(());
        }
        if c == self.config.native_currency_id {
            let ghost pre = *self;
            let r = self.native.burn(who, amount);
            match r {
                Ok(_) => {
                    self.events.push(Event::Burned(c, who, amount));
                    proof {
                        lemma_native_book_update(pre, *self, self.native);
                        assert forall|a: AccountId| a != who implies #[trigger] account_same_in(
                            pre,
                            *self,
                            c,
                            a,
                        ) by {
                            assert(entry_same(pre.native, self.native, a));
                        }
                    }
                    Ok(())
                },
                Err(e) => {
                    proof {
                        lemma_ledger_same_trivial(pre, *self);
                    }
                    Err(e)
                },
            }
        } else {
            let bi = self.ensure_asset(c);
            let ghost pre = *old(self);
            let ghost mid = *self;
            let (cid, mut b) = self.assets.remove(bi);
            let ghost b0 = b;
            let r = b.burn(who, amount);
            self.assets.insert(bi, (cid, b));
            match r {
                Ok(_) => {
                    self.events.push(Event::Burned(c, who, amount));
                    proof {
                        assert(self.assets@ =~= mid.assets@.update(
                            bi as int,
                            self.assets@[bi as int],
                        ));
                        let b1 = self.assets@[bi as int].1;
                        lemma_router_asset_op(pre, mid, *self, c, bi as int, b0, b1);
                        assert forall|a: AccountId| a != who implies #[trigger] account_same_in(
                            pre,
                            *self,
                            c,
                            a,
                        ) by {
                            assert(entry_same(b0, b1, a));
                        }
                    }
                    Ok(())
                },
                Err(e) => {
                    proof {
                        assert(self.assets@ =~= mid.assets@.update(
                            bi as int,
                            self.assets@[bi as int],
                        ));
                        let b1 = self.assets@[bi as int].1;
                        lemma_router_asset_op(pre, mid, *self, c, bi as int, b0, b1);
                        assert(b1 == b0);
                        assert forall|c2: CurrencyId| #[trigger] currency_same(pre, *self, c2) by {
                            if c2 == c {
                                assert forall|a: AccountId| #[trigger] account_same_in(
                                    pre,
                                    *self,
                                    c2,
                                    a,
                                ) by {}
                            }
                        }
                    }
                    Err(e)
                },
            }
        }
    }
    /// Move `amount` from `from` to `to` in currency `c` and emit
    /// `Transferred`. A zero amount or a self-transfer is a no-op with no
    /// event; otherwise both sides change together or the call fails with
    /// `BalanceTooLow` and nothing changes.
    pub fn do_transfer(
        &mut self,
        c: CurrencyId,
        from: AccountId,
        to: AccountId,
        amount: Balance,
    ) -> (r: Result<(), Error>)
        requires
            old(self).wf(),
        ensures
            final(self).wf(),
            frame_same(*old(self), *final(self)),
            (amount == 0 || from == to) ==> r is Ok,
            r is Err ==> r == Err::<(), Error>(Error::BalanceTooLow),
            (amount > 0 && from != to) ==> (r is Ok <==> old(self).can_withdraw_c(
                c,
                from,
                amount as int,
            )),
            !(r is Ok && amount > 0 && from != to) ==> ledger_same(*old(self), *final(self))
                && final(self).events@ == old(self).events@,
            (r is Ok && amount > 0 && from != to) ==> final(self).free_balance_of(c, from) == old(self).free_balance_of(c, from) - amount && final(self).free_balance_of(c, to) == old(self).free_balance_of(c, to) + amount && final(self).reserved_balance_of(c, from) == old(self).reserved_balance_of(c, from) && final(self).reserved_balance_of(c, to) == old(self).reserved_balance_of(c, to) && final(self).locks_seq_of(c, from) == old(self).locks_seq_of(c, from) && final(self).locks_seq_of(c, to) == old(self).locks_seq_of(c, to) && final(self).issuance_of(c) == old(self).issuance_of(c)
                && other_accounts_same_in2(*old(self), *final(self), c, from, to)
                && other_currencies_same(*old(self), *final(self), c) && final(self).events@ == old(self).events@.push(Event::Transferred(c, from, to, amount)),
    {
        if amount == 0 || from == to {
            proof {
                lemma_ledger_same_trivial(*old(self), *self);
            }
            return Ok(());
        }
        if c == self.config.native_currency_id {
            let ghost pre = *self;
            let r = self.native.transfer(from, to, amount);
            match r {
                Ok(_) => {
                    self.events.push(Event::Transferred(c, from, to, amount));
                    proof {
                        lemma_native_book_update(pre, *self, self.native);
                        assert forall|a: AccountId|
                            a != from && a != to implies #[trigger] account_same_in(
                            pre,
                            *self,
                            c,
                            a,
                        ) by {
                            assert(entry_same(pre.native, self.native, a));
                        }
                    }
                    Ok(())
                },
                Err(e) => {
                    proof {
                        lemma_ledger_same_trivial(pre, *self);
                    }
                    Err(e)
                },
            }
        } else {
            let bi = self.ensure_asset(c);
            let ghost pre = *old(self);
            let ghost mid = *self;
            let (cid, mut b) = self.assets.remove(bi);
            let ghost b0 = b;
            let r = b.transfer(from, to, amount);
            self.assets.insert(bi, (cid, b));
            match r {
                Ok(_) => {
                    self.events.push(Event::Transferred(c, from, to, amount));
                    proof {
                        assert(self.assets@ =~= mid.assets@.update(
                            bi as int,
                            self.assets@[bi as int],
                        ));
                        let b1 = self.assets@[bi as int].1;
                        lemma_router_asset_op(pre, mid, *self, c, bi as int, b0, b1);
                        assert forall|a: AccountId|
                            a != from && a != to implies #[trigger] account_same_in(
                            pre,
                            *self,
                            c,
                            a,
                        ) by {
                            assert(entry_same(b0, b1, a));
                        }
                    }
                    Ok(())
                },
                Err(e) => {
                    proof {
                        assert(self.assets@ =~= mid.assets@.update(
                            bi as int,
                            self.assets@[bi as int],
                        ));
                        let b1 = self.assets@[bi as int].1;
                        lemma_router_asset_op(pre, mid, *self, c, bi as int, b0, b1);
                        assert(b1 == b0);
                        assert forall|c2: CurrencyId| #[trigger] currency_same(pre, *self, c2) by {
                            if c2 == c {
                                assert forall|a: AccountId| #[trigger] account_same_in(
                                    pre,
                                    *self,
                                    c2,
                                    a,
                                ) by {}
                            }
                        }
                    }
                    Err(e)
                },
            }
        }
    }

    /// Adjust `who`'s free balance in `c` by a signed delta and emit
    /// `BalanceUpdated`: positive deltas deposit, negative deltas withdraw
    /// the magnitude. Fails with `AmountConversionFailed` exactly when the
    /// magnitude is not representable as a balance; a failed call changes
    /// nothing.
    pub fn do_update_balance(&mut self, c: CurrencyId, who: AccountId, by_amount: Amount) -> (r:
        Result<(), Error>)
        requires
            old(self).wf(),
        ensures
            final(self).wf(),
            frame_same(*old(self), *final(self)),
            r is Ok <==> (by_amount != i64::MIN && (by_amount >= 0 ==> old(self).issuance_of(c)
                + by_amount <= u64::MAX) && (by_amount < 0 ==> by_amount == i64::MIN || old(self).can_withdraw_c(c, who, -(by_amount as int)))),
            by_amount == i64::MIN ==> r == Err::<(), Error>(Error::AmountConversionFailed),
            (by_amount != i64::MIN && by_amount > 0 && old(self).issuance_of(c) + by_amount
                > u64::MAX) ==> r == Err::<(), Error>(Error::SupplyOverflow),
            (by_amount != i64::MIN && by_amount < 0 && !old(self).can_withdraw_c(
                c,
                who,
                -(by_amount as int),
            )) ==> r == Err::<(), Error>(Error::BalanceTooLow),
            r is Err ==> ledger_same(*old(self), *final(self)) && final(self).events@ == old(self).events@,
            r is Ok ==> final(self).free_balance_of(c, who) == old(self).free_balance_of(c, who)
                + by_amount && final(self).reserved_balance_of(c, who) == old(self).reserved_balance_of(c, who) && final(self).locks_seq_of(c, who) == old(self).locks_seq_of(c, who) && final(self).issuance_of(c) == old(self).issuance_of(c) + by_amount
                && other_accounts_same_in(*old(self), *final(self), c, who)
                && other_currencies_same(*old(self), *final(self), c) && final(self).events@ == old(self).events@.push(Event::BalanceUpdated(c, who, by_amount)),
    {
        if by_amount == i64::MIN {
            proof {
                lemma_ledger_same_trivial(*old(self), *self);
            }
            return Err(Error::AmountConversionFailed);
        }
        if c == self.config.native_currency_id {
            let ghost pre = *self;
            let r = self.native.update_balance(who, by_amount);
            match r {
                Ok(_) => {
                    self.events.push(Event::BalanceUpdated(c, who, by_amount));
                    proof {
                        lemma_native_book_update(pre, *self, self.native);
                        assert forall|a: AccountId| a != who implies #[trigger] account_same_in(
                            pre,
                            *self,
                            c,
                            a,
                        ) by {
                            assert(entry_same(pre.native, self.native, a));
                        }
                    }
                    Ok(())
                },
                Err(e) => {
                    proof {
                        lemma_ledger_same_trivial(pre, *self);
                    }
                    Err(e)
                },
            }
        } else {
            let bi = self.ensure_asset(c);
            let ghost pre = *old(self);
            let ghost mid = *self;
            let (cid, mut b) = self.assets.remove(bi);
            let ghost b0 = b;
            let r = b.update_balance(who, by_amount);
            self.assets.insert(bi, (cid, b));
            match r {
                Ok(_) => {
                    self.events.push(Event::BalanceUpdated(c, who, by_amount));
                    proof {
                        assert(self.assets@ =~= mid.assets@.update(
                            bi as int,
                            self.assets@[bi as int],
                        ));
                        let b1 = self.assets@[bi as int].1;
                        lemma_router_asset_op(pre, mid, *self, c, bi as int, b0, b1);
                        assert forall|a: AccountId| a != who implies #[trigger] account_same_in(
                            pre,
                            *self,
                            c,
                            a,
                        ) by {
                            assert(entry_same(b0, b1, a));
                        }
                    }
                    Ok(())
                },
                Err(e) => {
                    proof {
                        assert(self.assets@ =~= mid.assets@.update(
                            bi as int,
                            self.assets@[bi as int],
                        ));
                        let b1 = self.assets@[bi as int].1;
                        lemma_router_asset_op(pre, mid, *self, c, bi as int, b0, b1);
                        assert(b1 == b0);
                        assert forall|c2: CurrencyId| #[trigger] currency_same(pre, *self, c2) by {
                            if c2 == c {
                                assert forall|a: AccountId| #[trigger] account_same_in(
                                    pre,
                                    *self,
                                    c2,
                                    a,
                                ) by {}
                            }
                        }
                    }
                    Err(e)
                },
            }
        }
    }
    /// Forcibly remove up to `amount` of issuance from `who` in `c`, free
    /// balance first and reserved balance for the rest, and return the
    /// shortfall. Never fails and emits no event.
    pub fn slash(&mut self, c: CurrencyId, who: AccountId, amount: Balance) -> (r: Balance)
        requires
            old(self).wf(),
        ensures
            final(self).wf(),
            frame_same(*old(self), *final(self)),
            final(self).events@ == old(self).events@,
            final(self).free_balance_of(c, who) == old(self).free_balance_of(c, who) - min_int(
                amount as int,
                old(self).free_balance_of(c, who),
            ),
            final(self).reserved_balance_of(c, who) == old(self).reserved_balance_of(c, who)
                - min_int(
                amount - min_int(amount as int, old(self).free_balance_of(c, who)),
                old(self).reserved_balance_of(c, who),
            ),
            final(self).locks_seq_of(c, who) == old(self).locks_seq_of(c, who),
            final(self).issuance_of(c) == old(self).issuance_of(c) - (old(self).total_balance_of(
                c,
                who,
            ) - final(self).total_balance_of(c, who)),
            r == amount - (old(self).total_balance_of(c, who) - final(self).total_balance_of(
                c,
                who,
            )),
            other_accounts_same_in(*old(self), *final(self), c, who),
            other_currencies_same(*old(self), *final(self), c),
    {
        if c == self.config.native_currency_id {
            let ghost pre = *self;
            let r = self.native.slash(who, amount);
            proof {
                lemma_native_book_update(pre, *self, self.native);
                assert forall|a: AccountId| a != who implies #[trigger] account_same_in(
                    pre,
                    *self,
                    c,
                    a,
                ) by {
                    assert(entry_same(pre.native, self.native, a));
                }
            }
            r
        } else {
            let bi = self.ensure_asset(c);
            let ghost pre = *old(self);
            let ghost mid = *self;
            let (cid, mut b) = self.assets.remove(bi);
            let ghost b0 = b;
            let r = b.slash(who, amount);
            self.assets.insert(bi, (cid, b));
            proof {
                assert(self.assets@ =~= mid.assets@.update(bi as int, self.assets@[bi as int]));
                let b1 = self.assets@[bi as int].1;
                lemma_router_asset_op(pre, mid, *self, c, bi as int, b0, b1);
                assert forall|a: AccountId| a != who implies #[trigger] account_same_in(
                    pre,
                    *self,
                    c,
                    a,
                ) by {
                    assert(entry_same(b0, b1, a));
                }
            }
            r
        }
    }

    /// Forcibly remove up to `value` of issuance from `who`'s reserve in `c`
    /// and return the shortfall. Never fails and emits no event.
    pub fn slash_reserved(&mut self, c: CurrencyId, who: AccountId, value: Balance) -> (r: Balance)
        requires
            old(self).wf(),
        ensures
            final(self).wf(),
            frame_same(*old(self), *final(self)),
            final(self).events@ == old(self).events@,
            final(self).free_balance_of(c, who) == old(self).free_balance_of(c, who),
            final(self).reserved_balance_of(c, who) == old(self).reserved_balance_of(c, who)
                - min_int(value as int, old(self).reserved_balance_of(c, who)),
            final(self).locks_seq_of(c, who) == old(self).locks_seq_of(c, who),
            final(self).issuance_of(c) == old(self).issuance_of(c) - min_int(
                value as int,
                old(self).reserved_balance_of(c, who),
            ),
            r == value - min_int(value as int, old(self).reserved_balance_of(c, who)),
            other_accounts_same_in(*old(self), *final(self), c, who),
            other_currencies_same(*old(self), *final(self), c),
    {
        if c == self.config.native_currency_id {
            let ghost pre = *self;
            let r = self.native.slash_reserved(who, value);
            proof {
                lemma_native_book_update(pre, *self, self.native);
                assert forall|a: AccountId| a != who implies #[trigger] account_same_in(
                    pre,
                    *self,
                    c,
                    a,
                ) by {
                    assert(entry_same(pre.native, self.native, a));
                }
            }
            r
        } else {
            let bi = self.ensure_asset(c);
            let ghost pre = *old(self);
            let ghost mid = *self;
            let (cid, mut b) = self.assets.remove(bi);
            let ghost b0 = b;
            let r = b.slash_reserved(who, value);
            self.assets.insert(bi, (cid, b));
            proof {
                assert(self.assets@ =~= mid.assets@.update(bi as int, self.assets@[bi as int]));
                let b1 = self.assets@[bi as int].1;
                lemma_router_asset_op(pre, mid, *self, c, bi as int, b0, b1);
                assert forall|a: AccountId| a != who implies #[trigger] account_same_in(
                    pre,
                    *self,
                    c,
                    a,
                ) by {
                    assert(entry_same(b0, b1, a));
                }
            }
            r
        }
    }

    /// Move `value` from `who`'s free balance in `c` into reserve and emit
    /// `Reserved`. A zero value is a no-op without an event; fails with
    /// `BalanceTooLow` exactly when the free balance cannot give up the
    /// value, changing nothing.
    pub fn reserve(&mut self, c: CurrencyId, who: AccountId, value: Balance) -> (r: Result<
        (),
        Error,
    >)
        requires
            old(self).wf(),
        ensures
            final(self).wf(),
            frame_same(*old(self), *final(self)),
            r is Ok <==> (value == 0 || old(self).can_withdraw_c(c, who, value as int)),
            r is Err ==> r == Err::<(), Error>(Error::BalanceTooLow),
            !(r is Ok && value > 0) ==> ledger_same(*old(self), *final(self)) && final(self).events@ == old(self).events@,
            (r is Ok && value > 0) ==> final(self).free_balance_of(c, who) == old(self).free_balance_of(c, who) - value && final(self).reserved_balance_of(c, who) == old(self).reserved_balance_of(c, who) + value && final(self).locks_seq_of(c, who) == old(self).locks_seq_of(c, who) && final(self).issuance_of(c) == old(self).issuance_of(c)
                && other_accounts_same_in(*old(self), *final(self), c, who)
                && other_currencies_same(*old(self), *final(self), c) && final(self).events@ == old(self).events@.push(Event::Reserved(c, who, value)),
    {
        if value == 0 {
            proof {
                lemma_ledger_same_trivial(*old(self), *self);
            }
            return Ok(());
        }
        if c == self.config.native_currency_id {
            let ghost pre = *self;
            let r = self.native.reserve(who, value);
            match r {
                Ok(_) => {
                    self.events.push(Event::Reserved(c, who, value));
                    proof {
                        lemma_native_book_update(pre, *self, self.native);
                        assert forall|a: AccountId| a != who implies #[trigger] account_same_in(
                            pre,
                            *self,
                            c,
                            a,
                        ) by {
                            assert(entry_same(pre.native, self.native, a));
                        }
                    }
                    Ok(())
                },
                Err(e) => {
                    proof {
                        lemma_ledger_same_trivial(pre, *self);
                    }
                    Err(e)
                },
            }
        } else {
            let bi = self.ensure_asset(c);
            let ghost pre = *old(self);
            let ghost mid = *self;
            let (cid, mut b) = self.assets.remove(bi);
            let ghost b0 = b;
            let r = b.reserve(who, value);
            self.assets.insert(bi, (cid, b));
            match r {
                Ok(_) => {
                    self.events.push(Event::Reserved(c, who, value));
                    proof {
                        assert(self.assets@ =~= mid.assets@.update(
                            bi as int,
                            self.assets@[bi as int],
                        ));
                        let b1 = self.assets@[bi as int].1;
                        lemma_router_asset_op(pre, mid, *self, c, bi as int, b0, b1);
                        assert forall|a: AccountId| a != who implies #[trigger] account_same_in(
                            pre,
                            *self,
                            c,
                            a,
                        ) by {
                            assert(entry_same(b0, b1, a));
                        }
                    }
                    Ok(())
                },
                Err(e) => {
                    proof {
                        assert(self.assets@ =~= mid.assets@.update(
                            bi as int,
                            self.assets@[bi as int],
                        ));
                        let b1 = self.assets@[bi as int].1;
                        lemma_router_asset_op(pre, mid, *self, c, bi as int, b0, b1);
                        assert(b1 == b0);
                        assert forall|c2: CurrencyId| #[trigger] currency_same(pre, *self, c2) by {
                            if c2 == c {
                                assert forall|a: AccountId| #[trigger] account_same_in(
                                    pre,
                                    *self,
                                    c2,
                                    a,
                                ) by {}
                            }
                        }
                    }
                    Err(e)
                },
            }
        }
    }

    /// Move up to `value` from `who`'s reserve in `c` back to free balance,
    /// emit `Unreserved` for the amount actually moved, and return the part
    /// of the request the reserve did not cover. Never fails.
    pub fn unreserve(&mut self, c: CurrencyId, who: AccountId, value: Balance) -> (r: Balance)
        requires
            old(self).wf(),
        ensures
            final(self).wf(),
            frame_same(*old(self), *final(self)),
            final(self).free_balance_of(c, who) == old(self).free_balance_of(c, who) + min_int(
                value as int,
                old(self).reserved_balance_of(c, who),
            ),
            final(self).reserved_balance_of(c, who) == old(self).reserved_balance_of(c, who)
                - min_int(value as int, old(self).reserved_balance_of(c, who)),
            final(self).locks_seq_of(c, who) == old(self).locks_seq_of(c, who),
            final(self).issuance_of(c) == old(self).issuance_of(c),
            r == value - min_int(value as int, old(self).reserved_balance_of(c, who)),
            other_accounts_same_in(*old(self), *final(self), c, who),
            other_currencies_same(*old(self), *final(self), c),
            min_int(value as int, old(self).reserved_balance_of(c, who)) == 0 ==> final(self).events@ == old(self).events@,
            min_int(value as int, old(self).reserved_balance_of(c, who)) > 0 ==> final(self).events@ == old(self).events@.push(
                Event::Unreserved(
                    c,
                    who,
                    (min_int(value as int, old(self).reserved_balance_of(c, who))) as u64,
                ),
            ),
    {
        if c == self.config.native_currency_id {
            let ghost pre = *self;
            let rem = self.native.unreserve(who, value);
            let moved = value - rem;
            if moved > 0 {
                self.events.push(Event::Unreserved(c, who, moved));
            }
            proof {
                lemma_native_book_update(pre, *self, self.native);
                assert forall|a: AccountId| a != who implies #[trigger] account_same_in(
                    pre,
                    *self,
                    c,
                    a,
                ) by {
                    assert(entry_same(pre.native, self.native, a));
                }
            }
            rem
        } else {
            let bi = self.ensure_asset(c);
            let ghost pre = *old(self);
            let ghost mid = *self;
            let (cid, mut b) = self.assets.remove(bi);
            let ghost b0 = b;
            let rem = b.unreserve(who, value);
            self.assets.insert(bi, (cid, b));
            let moved = value - rem;
            if moved > 0 {
                self.events.push(Event::Unreserved(c, who, moved));
            }
            proof {
                assert(self.assets@ =~= mid.assets@.update(bi as int, self.assets@[bi as int]));
                let b1 = self.assets@[bi as int].1;
                lemma_router_asset_op(pre, mid, *self, c, bi as int, b0, b1);
                assert forall|a: AccountId| a != who implies #[trigger] account_same_in(
                    pre,
                    *self,
                    c,
                    a,
                ) by {
                    assert(entry_same(b0, b1, a));
                }
            }
            rem
        }
    }
    /// Move up to `value` from `slashed`'s reserve in `c` into `beneficiary`'s
    /// free or reserved balance as `status` says, emit `ReserveRepatriated`
    /// for a move between distinct accounts, and return the part of the
    /// request the reserve did not cover. Never fails; a partial move is a
    /// valid outcome.
    pub fn repatriate_reserved(
        &mut self,
        c: CurrencyId,
        slashed: AccountId,
        beneficiary: AccountId,
        value: Balance,
        status: BalanceStatus,
    ) -> (r: Result<Balance, Error>)
        requires
            old(self).wf(),
        ensures
            final(self).wf(),
            frame_same(*old(self), *final(self)),
            r == Ok::<Balance, Error>(
                (value - min_int(value as int, old(self).reserved_balance_of(c, slashed))) as u64,
            ),
            (slashed == beneficiary && status is Reserved) ==> ledger_same(*old(self), *final(self)),
            (slashed == beneficiary && status is Free) ==> final(self).free_balance_of(c, slashed)
                == old(self).free_balance_of(c, slashed) + min_int(
                value as int,
                old(self).reserved_balance_of(c, slashed),
            ) && final(self).reserved_balance_of(c, slashed) == old(self).reserved_balance_of(
                c,
                slashed,
            ) - min_int(value as int, old(self).reserved_balance_of(c, slashed)) && final(self).locks_seq_of(c, slashed) == old(self).locks_seq_of(c, slashed) && other_accounts_same_in(
                *old(self),
                *final(self),
                c,
                slashed,
            ),
            slashed != beneficiary ==> final(self).reserved_balance_of(c, slashed) == old(self).reserved_balance_of(c, slashed) - min_int(
                value as int,
                old(self).reserved_balance_of(c, slashed),
            ) && final(self).free_balance_of(c, slashed) == old(self).free_balance_of(c, slashed)
                && final(self).locks_seq_of(c, slashed) == old(self).locks_seq_of(c, slashed)
                && final(self).locks_seq_of(c, beneficiary) == old(self).locks_seq_of(
                c,
                beneficiary,
            ) && other_accounts_same_in2(*old(self), *final(self), c, slashed, beneficiary),
            (slashed != beneficiary && status is Free) ==> final(self).free_balance_of(
                c,
                beneficiary,
            ) == old(self).free_balance_of(c, beneficiary) + min_int(
                value as int,
                old(self).reserved_balance_of(c, slashed),
            ) && final(self).reserved_balance_of(c, beneficiary) == old(self).reserved_balance_of(
                c,
                beneficiary,
            ),
            (slashed != beneficiary && status is Reserved) ==> final(self).reserved_balance_of(
                c,
                beneficiary,
            ) == old(self).reserved_balance_of(c, beneficiary) + min_int(
                value as int,
                old(self).reserved_balance_of(c, slashed),
            ) && final(self).free_balance_of(c, beneficiary) == old(self).free_balance_of(
                c,
                beneficiary,
            ),
            final(self).issuance_of(c) == old(self).issuance_of(c),
            other_currencies_same(*old(self), *final(self), c),
            (slashed == beneficiary || min_int(
                value as int,
                old(self).reserved_balance_of(c, slashed),
            ) == 0) ==> final(self).events@ == old(self).events@,
            (slashed != beneficiary && min_int(
                value as int,
                old(self).reserved_balance_of(c, slashed),
            ) > 0) ==> final(self).events@ == old(self).events@.push(
                Event::ReserveRepatriated(
                    c,
                    slashed,
                    beneficiary,
                    (min_int(value as int, old(self).reserved_balance_of(c, slashed))) as u64,
                    status,
                ),
            ),
    {
        if c == self.config.native_currency_id {
            let ghost pre = *self;
            let rem = self.native.repatriate_reserved(slashed, beneficiary, value, status);
            let moved = value - rem;
            if slashed != beneficiary && moved > 0 {
                self.events.push(
                    Event::ReserveRepatriated(c, slashed, beneficiary, moved, status),
                );
            }
            proof {
                lemma_native_book_update(pre, *self, self.native);
                if slashed == beneficiary && status is Reserved {
                    lemma_ledger_same_trivial(pre, *self);
                } else if slashed == beneficiary {
                    assert forall|a: AccountId| a != slashed implies #[trigger] account_same_in(
                        pre,
                        *self,
                        c,
                        a,
                    ) by {
                        assert(entry_same(pre.native, self.native, a));
                    }
                } else {
                    assert forall|a: AccountId|
                        a != slashed && a != beneficiary implies #[trigger] account_same_in(
                        pre,
                        *self,
                        c,
                        a,
                    ) by {
                        assert(entry_same(pre.native, self.native, a));
                    }
                }
            }
            Ok(rem)
        } else {
            let bi = self.ensure_asset(c);
            let ghost pre = *old(self);
            let ghost mid = *self;
            let (cid, mut b) = self.assets.remove(bi);
            let ghost b0 = b;
            let rem = b.repatriate_reserved(slashed, beneficiary, value, status);
            self.assets.insert(bi, (cid, b));
            let moved = value - rem;
            if slashed != beneficiary && moved > 0 {
                self.events.push(
                    Event::ReserveRepatriated(c, slashed, beneficiary, moved, status),
                );
            }
            proof {
                assert(self.assets@ =~= mid.assets@.update(bi as int, self.assets@[bi as int]));
                let b1 = self.assets@[bi as int].1;
                lemma_router_asset_op(pre, mid, *self, c, bi as int, b0, b1);
                if slashed == beneficiary && status is Reserved {
                    assert(b1 == b0);
                    assert forall|c2: CurrencyId| #[trigger] currency_same(pre, *self, c2) by {
                        if c2 == c {
                            assert forall|a: AccountId| #[trigger] account_same_in(
                                pre,
                                *self,
                                c2,
                                a,
                            ) by {}
                        }
                    }
                } else if slashed == beneficiary {
                    assert forall|a: AccountId| a != slashed implies #[trigger] account_same_in(
                        pre,
                        *self,
                        c,
                        a,
                    ) by {
                        assert(entry_same(b0, b1, a));
                    }
                } else {
                    assert forall|a: AccountId|
                        a != slashed && a != beneficiary implies #[trigger] account_same_in(
                        pre,
                        *self,
                        c,
                        a,
                    ) by {
                        assert(entry_same(b0, b1, a));
                    }
                }
            }
            Ok(rem)
        }
    }

    /// Place or replace the lock named `lock_id` on `who`'s free balance in
    /// `c`, holding `amount`. Balances and issuance stay as they are; no
    /// event is emitted.
    pub fn set_lock(
        &mut self,
        lock_id: LockIdentifier,
        c: CurrencyId,
        who: AccountId,
        amount: Balance,
    ) -> (r: Result<(), Error>)
        requires
            old(self).wf(),
        ensures
            final(self).wf(),
            r is Ok,
            frame_same(*old(self), *final(self)),
            final(self).events@ == old(self).events@,
            final(self).free_balance_of(c, who) == old(self).free_balance_of(c, who),
            final(self).reserved_balance_of(c, who) == old(self).reserved_balance_of(c, who),
            final(self).issuance_of(c) == old(self).issuance_of(c),
            final(self).locks_seq_of(c, who) == ({
                let ols = old(self).locks_seq_of(c, who);
                if has_lock(ols, lock_id@) {
                    ols.update(find_lock(ols, lock_id@), (Lock { id: lock_id, amount }))
                } else {
                    ols.push((Lock { id: lock_id, amount }))
                }
            }),
            other_accounts_same_in(*old(self), *final(self), c, who),
            other_currencies_same(*old(self), *final(self), c),
    {
        if c == self.config.native_currency_id {
            let ghost pre = *self;
            let r = self.native.set_lock(lock_id, who, amount);
            proof {
                lemma_native_book_update(pre, *self, self.native);
                assert forall|a: AccountId| a != who implies #[trigger] account_same_in(
                    pre,
                    *self,
                    c,
                    a,
                ) by {
                    assert(entry_same(pre.native, self.native, a));
                }
            }
            r
        } else {
            let bi = self.ensure_asset(c);
            let ghost pre = *old(self);
            let ghost mid = *self;
            let (cid, mut b) = self.assets.remove(bi);
            let ghost b0 = b;
            let r = b.set_lock(lock_id, who, amount);
            self.assets.insert(bi, (cid, b));
            proof {
                assert(self.assets@ =~= mid.assets@.update(bi as int, self.assets@[bi as int]));
                let b1 = self.assets@[bi as int].1;
                lemma_router_asset_op(pre, mid, *self, c, bi as int, b0, b1);
                assert forall|a: AccountId| a != who implies #[trigger] account_same_in(
                    pre,
                    *self,
                    c,
                    a,
                ) by {
                    assert(entry_same(b0, b1, a));
                }
            }
            r
        }
    }

    /// Raise the lock named `lock_id` on `who` in `c` to at least `amount`;
    /// an existing larger hold is kept, a missing lock is created. Never
    /// lowers a hold and emits no event.
    pub fn extend_lock(
        &mut self,
        lock_id: LockIdentifier,
        c: CurrencyId,
        who: AccountId,
        amount: Balance,
    ) -> (r: Result<(), Error>)
        requires
            old(self).wf(),
        ensures
            final(self).wf(),
            r is Ok,
            frame_same(*old(self), *final(self)),
            final(self).events@ == old(self).events@,
            final(self).free_balance_of(c, who) == old(self).free_balance_of(c, who),
            final(self).reserved_balance_of(c, who) == old(self).reserved_balance_of(c, who),
            final(self).issuance_of(c) == old(self).issuance_of(c),
            final(self).locks_seq_of(c, who) == ({
                let ols = old(self).locks_seq_of(c, who);
                if has_lock(ols, lock_id@) {
                    ols.update(
                        find_lock(ols, lock_id@),
                        (Lock {
                            id: lock_id,
                            amount: (if amount as int >= ols[find_lock(ols, lock_id@)].amount
                                as int {
                                amount
                            } else {
                                ols[find_lock(ols, lock_id@)].amount
                            }),
                        }),
                    )
                } else {
                    ols.push((Lock { id: lock_id, amount }))
                }
            }),
            other_accounts_same_in(*old(self), *final(self), c, who),
            other_currencies_same(*old(self), *final(self), c),
    {
        if c == self.config.native_currency_id {
            let ghost pre = *self;
            let r = self.native.extend_lock(lock_id, who, amount);
            proof {
                lemma_native_book_update(pre, *self, self.native);
                assert forall|a: AccountId| a != who implies #[trigger] account_same_in(
                    pre,
                    *self,
                    c,
                    a,
                ) by {
                    assert(entry_same(pre.native, self.native, a));
                }
            }
            r
        } else {
            let bi = self.ensure_asset(c);
            let ghost pre = *old(self);
            let ghost mid = *self;
            let (cid, mut b) = self.assets.remove(bi);
            let ghost b0 = b;
            let r = b.extend_lock(lock_id, who, amount);
            self.assets.insert(bi, (cid, b));
            proof {
                assert(self.assets@ =~= mid.assets@.update(bi as int, self.assets@[bi as int]));
                let b1 = self.assets@[bi as int].1;
                lemma_router_asset_op(pre, mid, *self, c, bi as int, b0, b1);
                assert forall|a: AccountId| a != who implies #[trigger] account_same_in(
                    pre,
                    *self,
                    c,
                    a,
                ) by {
                    assert(entry_same(b0, b1, a));
                }
            }
            r
        }
    }

    /// Drop the lock named `lock_id` from `who` in `c`, if it is there.
    /// Balances and issuance stay as they are; no event is emitted.
    pub fn remove_lock(&mut self, lock_id: LockIdentifier, c: CurrencyId, who: AccountId) -> (r:
        Result<(), Error>)
        requires
            old(self).wf(),
        ensures
            final(self).wf(),
            r is Ok,
            frame_same(*old(self), *final(self)),
            final(self).events@ == old(self).events@,
            final(self).free_balance_of(c, who) == old(self).free_balance_of(c, who),
            final(self).reserved_balance_of(c, who) == old(self).reserved_balance_of(c, who),
            final(self).issuance_of(c) == old(self).issuance_of(c),
            final(self).locks_seq_of(c, who) == ({
                let ols = old(self).locks_seq_of(c, who);
                if has_lock(ols, lock_id@) {
                    ols.remove(find_lock(ols, lock_id@))
                } else {
                    ols
                }
            }),
            other_accounts_same_in(*old(self), *final(self), c, who),
            other_currencies_same(*old(self), *final(self), c),
    {
        if c == self.config.native_currency_id {
            let ghost pre = *self;
            let r = self.native.remove_lock(lock_id, who);
            proof {
                lemma_native_book_update(pre, *self, self.native);
                assert forall|a: AccountId| a != who implies #[trigger] account_same_in(
                    pre,
                    *self,
                    c,
                    a,
                ) by {
                    assert(entry_same(pre.native, self.native, a));
                }
            }
            r
        } else {
            let bi = self.ensure_asset(c);
            let ghost pre = *old(self);
            let ghost mid = *self;
            let (cid, mut b) = self.assets.remove(bi);
            let ghost b0 = b;
            let r = b.remove_lock(lock_id, who);
            self.assets.insert(bi, (cid, b));
            proof {
                assert(self.assets@ =~= mid.assets@.update(bi as int, self.assets@[bi as int]));
                let b1 = self.assets@[bi as int].1;
                lemma_router_asset_op(pre, mid, *self, c, bi as int, b0, b1);
                assert forall|a: AccountId| a != who implies #[trigger] account_same_in(
                    pre,
                    *self,
                    c,
                    a,
                ) by {
                    assert(entry_same(b0, b1, a));
                }
            }
            r
        }
    }

    /// Check that `who` may give up `amount` of free balance in `c`;
    /// side-effect free. Fails with `BalanceTooLow` exactly when the
    /// withdrawal would leave less than the minimum balance or break a lock.
    pub fn ensure_can_withdraw(&self, c: CurrencyId, who: AccountId, amount: Balance) -> (r:
        Result<(), Error>)
        requires
            self.wf(),
        ensures
            r is Ok <==> self.can_withdraw_c(c, who, amount as int),
            r is Err ==> r == Err::<(), Error>(Error::BalanceTooLow),
    {
        if c == self.config.native_currency_id {
            self.native.ensure_can_withdraw(who, amount)
        } else {
            match self.find_asset(c) {
                Some(i) => {
                    proof {
                        crate::alist::lemma_find_key_props(self.assets@, c);
                        assert(self.assets@[i as int].1.wf());
                    }
                    self.assets[i].1.ensure_can_withdraw(who, amount)
                },
                None => {
                    if amount == 0 && self.minimum_balance(c) == 0 {
                        Ok(())
                    } else {
                        Err(Error::BalanceTooLow)
                    }
                },
            }
        }
    }

    /// Whether a slash of `amount` would be fully covered by `who`'s free
    /// balance in `c`.
    pub fn can_slash(&self, c: CurrencyId, who: AccountId, amount: Balance) -> (r: bool)
        ensures
            r <==> amount <= self.free_balance_of(c, who),
    {
        amount <= self.free_balance(c, who)
    }

    /// Whether `reserve` of `value` in `c` would succeed for `who`.
    pub fn can_reserve(&self, c: CurrencyId, who: AccountId, value: Balance) -> (r: bool)
        requires
            self.wf(),
        ensures
            r <==> (value == 0 || self.can_withdraw_c(c, who, value as int)),
    {
        if value == 0 {
            true
        } else {
            match self.ensure_can_withdraw(c, who, value) {
                Ok(_) => true,
                Err(_) => false,
            }
        }
    }
}

} // verus!
