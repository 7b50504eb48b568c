//! A per-currency handle over the router: the same operations with the
//! currency id fixed once. A handle bound to the native id reaches the native
//! book; any other handle reaches that currency's asset book. Operations the
//! handle does not carry are reached through the router directly.

use vstd::prelude::*;

use crate::book::{find_lock, has_lock, min_int};
use crate::pallet::{frame_same, ledger_same, other_accounts_same_in, other_accounts_same_in2,
    other_currencies_same, Pallet};
use crate::types::{AccountId, Amount, Balance, BalanceStatus, CurrencyId, Error, Event, Lock,
    LockIdentifier};

verus! {

/// A currency id held once, so callers need not repeat it on every call.
#[derive(Clone, Copy, PartialEq, Eq, Structural, Debug)]
pub struct SettCurrency {
    /// The currency every operation of this handle works in.
    pub currency_id: CurrencyId,
}

impl SettCurrency {
    /// A handle over `currency_id`.
    pub fn new(currency_id: CurrencyId) -> (r: Self)
        ensures
            r.currency_id == currency_id,
    {
        SettCurrency { currency_id }
    }

    /// The configured minimum balance of this currency.
    pub fn minimum_balance(&self, p: &Pallet) -> (r: Balance)
        ensures
            r == p.min_balance_cfg(self.currency_id),
    {
        p.minimum_balance(self.currency_id)
    }

    /// Total issuance of this currency.
    pub fn total_issuance(&self, p: &Pallet) -> (r: Balance)
        ensures
            r == p.issuance_of(self.currency_id),
    {
        p.total_issuance(self.currency_id)
    }

    /// Free plus reserved balance of `who` in this currency.
    pub fn total_balance(&self, p: &Pallet, who: AccountId) -> (r: Balance)
        requires
            p.wf(),
        ensures
            r == p.total_balance_of(self.currency_id, who),
    {
        p.total_balance(self.currency_id, who)
    }

    /// Free balance of `who` in this currency.
    pub fn free_balance(&self, p: &Pallet, who: AccountId) -> (r: Balance)
        ensures
            r == p.free_balance_of(self.currency_id, who),
    {
        p.free_balance(self.currency_id, who)
    }

    /// Reserved balance of `who` in this currency.
    pub fn reserved_balance(&self, p: &Pallet, who: AccountId) -> (r: Balance)
        ensures
            r == p.reserved_balance_of(self.currency_id, who),
    {
        p.reserved_balance(self.currency_id, who)
    }

    /// Check that `who` may give up `amount` of free balance; side-effect
    /// free.
    pub fn ensure_can_withdraw(&self, p: &Pallet, who: AccountId, amount: Balance) -> (r: Result<
        (),
        Error,
    >)
        requires
            p.wf(),
        ensures
            r is Ok <==> p.can_withdraw_c(self.currency_id, who, amount as int),
            r is Err ==> r == Err::<(), Error>(Error::BalanceTooLow),
    {
        p.ensure_can_withdraw(self.currency_id, who, amount)
    }

    /// Whether a slash of `amount` would be fully covered by free balance.
    pub fn can_slash(&self, p: &Pallet, who: AccountId, amount: Balance) -> (r: bool)
        ensures
            r <==> amount <= p.free_balance_of(self.currency_id, who),
    {
        p.can_slash(self.currency_id, who, amount)
    }

    /// Whether `reserve` of `value` would succeed for `who`.
    pub fn can_reserve(&self, p: &Pallet, who: AccountId, value: Balance) -> (r: bool)
        requires
            p.wf(),
        ensures
            r <==> (value == 0 || p.can_withdraw_c(self.currency_id, who, value as int)),
    {
        p.can_reserve(self.currency_id, who, value)
    }

    /// Move `amount` from `from` to `to` in this currency; see
    /// `Pallet::do_transfer`.
    pub fn transfer(&self, p: &mut Pallet, from: AccountId, to: AccountId, amount: Balance) -> (r:
        Result<(), Error>)
        requires
            old(p).wf(),
        ensures
            final(p).wf(),
            frame_same(*old(p), *final(p)),
            (amount == 0 || from == to) ==> r is Ok,
            r is Err ==> r == Err::<(), Error>(Error::BalanceTooLow),
            (amount > 0 && from != to) ==> (r is Ok <==> old(p).can_withdraw_c(
                self.currency_id,
                from,
                amount as int,
            )),
            !(r is Ok && amount > 0 && from != to) ==> ledger_same(*old(p), *final(p)) && final(p).events@ == old(p).events@,
            (r is Ok && amount > 0 && from != to) ==> final(p).free_balance_of(
                self.currency_id,
                from,
            ) == old(p).free_balance_of(self.currency_id, from) - amount && final(p).free_balance_of(self.currency_id, to) == old(p).free_balance_of(self.currency_id, to)
                + amount && final(p).issuance_of(self.currency_id) == old(p).issuance_of(
                self.currency_id,
            ) && other_accounts_same_in2(*old(p), *final(p), self.currency_id, from, to)
                && other_currencies_same(*old(p), *final(p), self.currency_id) && final(p).events@
                == old(p).events@.push(Event::Transferred(self.currency_id, from, to, amount)),
    {
        p.do_transfer(self.currency_id, from, to, amount)
    }

    /// Credit `amount` of new issuance to `who`; see `Pallet::deposit`.
    pub fn deposit(&self, p: &mut Pallet, who: AccountId, amount: Balance) -> (r: Result<
        (),
        Error,
    >)
        requires
            old(p).wf(),
        ensures
            final(p).wf(),
            frame_same(*old(p), *final(p)),
            r is Ok <==> (amount == 0 || old(p).issuance_of(self.currency_id) + amount
                <= u64::MAX),
            r is Err ==> r == Err::<(), Error>(Error::SupplyOverflow),
            !(r is Ok && amount > 0) ==> ledger_same(*old(p), *final(p)) && final(p).events@ == old(p).events@,
            (r is Ok && amount > 0) ==> final(p).free_balance_of(self.currency_id, who) == old(p).free_balance_of(self.currency_id, who) + amount && final(p).issuance_of(
                self.currency_id,
            ) == old(p).issuance_of(self.currency_id) + amount && other_accounts_same_in(
                *old(p),
                *final(p),
                self.currency_id,
                who,
            ) && other_currencies_same(*old(p), *final(p), self.currency_id) && final(p).events@
                == old(p).events@.push(Event::Deposited(self.currency_id, who, amount)),
    {
        p.deposit(self.currency_id, who, amount)
    }

    /// Remove `amount` of issuance from `who`; see `Pallet::withdraw`.
    pub fn withdraw(&self, p: &mut Pallet, who: AccountId, amount: Balance) -> (r: Result<
        (),
        Error,
    >)
        requires
            old(p).wf(),
        ensures
            final(p).wf(),
            frame_same(*old(p), *final(p)),
            r is Ok <==> (amount == 0 || old(p).can_withdraw_c(
                self.currency_id,
                who,
                amount as int,
            )),
            r is Err ==> r == Err::<(), Error>(Error::BalanceTooLow),
            !(r is Ok && amount > 0) ==> ledger_same(*old(p), *final(p)) && final(p).events@ == old(p).events@,
            (r is Ok && amount > 0) ==> final(p).free_balance_of(self.currency_id, who) == old(p).free_balance_of(self.currency_id, who) - amount && final(p).issuance_of(
                self.currency_id,
            ) == old(p).issuance_of(self.currency_id) - amount && other_accounts_same_in(
                *old(p),
                *final(p),
                self.currency_id,
                who,
            ) && other_currencies_same(*old(p), *final(p), self.currency_id) && final(p).events@
                == old(p).events@.push(Event::Withdrawn(self.currency_id, who, amount)),
    {
        p.withdraw(self.currency_id, who, amount)
    }

    /// Adjust `who`'s free balance by a signed delta; see
    /// `Pallet::do_update_balance`.
    pub fn update_balance(&self, p: &mut Pallet, who: AccountId, by_amount: Amount) -> (r: Result<
        (),
        Error,
    >)
        requires
            old(p).wf(),
        ensures
            final(p).wf(),
            frame_same(*old(p), *final(p)),
            r is Ok <==> (by_amount != i64::MIN && (by_amount >= 0 ==> old(p).issuance_of(
                self.currency_id,
            ) + by_amount <= u64::MAX) && (by_amount < 0 ==> by_amount == i64::MIN || old(p).can_withdraw_c(self.currency_id, who, -(by_amount as int)))),
            r is Err ==> ledger_same(*old(p), *final(p)) && final(p).events@ == old(p).events@,
            r is Ok ==> final(p).free_balance_of(self.currency_id, who) == old(p).free_balance_of(
                self.currency_id,
                who,
            ) + by_amount && final(p).issuance_of(self.currency_id) == old(p).issuance_of(
                self.currency_id,
            ) + by_amount && other_accounts_same_in(*old(p), *final(p), self.currency_id, who)
                && other_currencies_same(*old(p), *final(p), self.currency_id) && final(p).events@
                == old(p).events@.push(Event::BalanceUpdated(self.currency_id, who, by_amount)),
    {
        p.do_update_balance(self.currency_id, who, by_amount)
    }

    /// Move `value` from `who`'s free balance into reserve; see
    /// `Pallet::reserve`.
    pub fn reserve(&self, p: &mut Pallet, who: AccountId, value: Balance) -> (r: Result<
        (),
        Error,
    >)
        requires
            old(p).wf(),
        ensures
            final(p).wf(),
            frame_same(*old(p), *final(p)),
            r is Ok <==> (value == 0 || old(p).can_withdraw_c(self.currency_id, who, value as int)),
            r is Err ==> r == Err::<(), Error>(Error::BalanceTooLow),
            !(r is Ok && value > 0) ==> ledger_same(*old(p), *final(p)) && final(p).events@ == old(p).events@,
            (r is Ok && value > 0) ==> final(p).free_balance_of(self.currency_id, who) == old(p).free_balance_of(self.currency_id, who) - value && final(p).reserved_balance_of(
                self.currency_id,
                who,
            ) == old(p).reserved_balance_of(self.currency_id, who) + value && final(p).issuance_of(
                self.currency_id,
            ) == old(p).issuance_of(self.currency_id) && other_accounts_same_in(
                *old(p),
                *final(p),
                self.currency_id,
                who,
            ) && other_currencies_same(*old(p), *final(p), self.currency_id) && final(p).events@
                == old(p).events@.push(Event::Reserved(self.currency_id, who, value)),
    {
        p.reserve(self.currency_id, who, value)
    }

    /// Move up to `value` from `who`'s reserve back to free balance and
    /// return the uncovered part; see `Pallet::unreserve`.
    pub fn unreserve(&self, p: &mut Pallet, who: AccountId, value: Balance) -> (r: Balance)
        requires
            old(p).wf(),
        ensures
            final(p).wf(),
            frame_same(*old(p), *final(p)),
            final(p).free_balance_of(self.currency_id, who) == old(p).free_balance_of(
                self.currency_id,
                who,
            ) + min_int(value as int, old(p).reserved_balance_of(self.currency_id, who)),
            final(p).reserved_balance_of(self.currency_id, who) == old(p).reserved_balance_of(
                self.currency_id,
                who,
            ) - min_int(value as int, old(p).reserved_balance_of(self.currency_id, who)),
            final(p).issuance_of(self.currency_id) == old(p).issuance_of(self.currency_id),
            r == value - min_int(value as int, old(p).reserved_balance_of(self.currency_id, who)),
            other_accounts_same_in(*old(p), *final(p), self.currency_id, who),
            other_currencies_same(*old(p), *final(p), self.currency_id),
    {
        p.unreserve(self.currency_id, who, value)
    }

    /// Move up to `value` from `slashed`'s reserve into `beneficiary` and
    /// return the uncovered part; see `Pallet::repatriate_reserved`.
    pub fn repatriate_reserved(
        &self,
        p: &mut Pallet,
        slashed: AccountId,
        beneficiary: AccountId,
        value: Balance,
        status: BalanceStatus,
    ) -> (r: Result<Balance, Error>)
        requires
            old(p).wf(),
        ensures
            final(p).wf(),
            frame_same(*old(p), *final(p)),
            r == Ok::<Balance, Error>(
                (value - min_int(
                    value as int,
                    old(p).reserved_balance_of(self.currency_id, slashed),
                )) as u64,
            ),
            slashed != beneficiary ==> final(p).reserved_balance_of(self.currency_id, slashed)
                == old(p).reserved_balance_of(self.currency_id, slashed) - min_int(
                value as int,
                old(p).reserved_balance_of(self.currency_id, slashed),
            ) && final(p).free_balance_of(self.currency_id, slashed) == old(p).free_balance_of(
                self.currency_id,
                slashed,
            ) && other_accounts_same_in2(*old(p), *final(p), self.currency_id, slashed, beneficiary),
            (slashed != beneficiary && status is Free) ==> final(p).free_balance_of(
                self.currency_id,
                beneficiary,
            ) == old(p).free_balance_of(self.currency_id, beneficiary) + min_int(
                value as int,
                old(p).reserved_balance_of(self.currency_id, slashed),
            ),
            (slashed != beneficiary && status is Reserved) ==> final(p).reserved_balance_of(
                self.currency_id,
                beneficiary,
            ) == old(p).reserved_balance_of(self.currency_id, beneficiary) + min_int(
                value as int,
                old(p).reserved_balance_of(self.currency_id, slashed),
            ),
            final(p).issuance_of(self.currency_id) == old(p).issuance_of(self.currency_id),
            other_currencies_same(*old(p), *final(p), self.currency_id),
    {
        p.repatriate_reserved(self.currency_id, slashed, beneficiary, value, status)
    }

    /// Place or replace the lock named `lock_id` on `who`; see
    /// `Pallet::set_lock`.
    pub fn set_lock(&self, p: &mut Pallet, lock_id: LockIdentifier, who: AccountId, amount: Balance) -> (r: Result<(), Error>)
        requires
            old(p).wf(),
        ensures
            final(p).wf(),
            r is Ok,
            frame_same(*old(p), *final(p)),
            final(p).events@ == old(p).events@,
            final(p).free_balance_of(self.currency_id, who) == old(p).free_balance_of(
                self.currency_id,
                who,
            ),
            final(p).reserved_balance_of(self.currency_id, who) == old(p).reserved_balance_of(
                self.currency_id,
                who,
            ),
            final(p).locks_seq_of(self.currency_id, who) == ({
                let ols = old(p).locks_seq_of(self.currency_id, who);
                if has_lock(ols, lock_id@) {
                    ols.update(find_lock(ols, lock_id@), (Lock { id: lock_id, amount }))
                } else {
                    ols.push((Lock { id: lock_id, amount }))
                }
            }),
            other_accounts_same_in(*old(p), *final(p), self.currency_id, who),
            other_currencies_same(*old(p), *final(p), self.currency_id),
    {
        p.set_lock(lock_id, self.currency_id, who, amount)
    }

    /// Drop the lock named `lock_id` from `who`; see `Pallet::remove_lock`.
    pub fn remove_lock(&self, p: &mut Pallet, lock_id: LockIdentifier, who: AccountId) -> (r:
        Result<(), Error>)
        requires
            old(p).wf(),
        ensures
            final(p).wf(),
            r is Ok,
            frame_same(*old(p), *final(p)),
            final(p).events@ == old(p).events@,
            final(p).free_balance_of(self.currency_id, who) == old(p).free_balance_of(
                self.currency_id,
                who,
            ),
            final(p).reserved_balance_of(self.currency_id, who) == old(p).reserved_balance_of(
                self.currency_id,
                who,
            ),
            final(p).locks_seq_of(self.currency_id, who) == ({
                let ols = old(p).locks_seq_of(self.currency_id, who);
                if has_lock(ols, lock_id@) {
                    ols.remove(find_lock(ols, lock_id@))
                } else {
                    ols
                }
            }),
            other_accounts_same_in(*old(p), *final(p), self.currency_id, who),
            other_currencies_same(*old(p), *final(p), self.currency_id),
    {
        p.remove_lock(lock_id, self.currency_id, who)
    }
}

} // verus!
