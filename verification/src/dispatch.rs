//! The caller-facing operations: origin-checked transfers and balance
//! updates, and the manually-set price store with its basket variant.

use vstd::prelude::*;

use crate::alist::{find_key, has_key, lemma_alist_push, lemma_alist_update,
    lemma_find_key_is_first, lemma_find_key_props, value_of};
use crate::pallet::{account_same_in, currency_same, frame_same, ledger_same,
    lemma_ledger_same_trivial, other_accounts_same_in, other_accounts_same_in2,
    other_currencies_same, Pallet};
use crate::types::{AccountId, Amount, Balance, CurrencyId, Error, Event, Origin, DEFAULT_PRICE};

verus! {

/// Index of the price entry for `c`, if one exists.
fn find_price(list: &Vec<(CurrencyId, u32)>, c: CurrencyId) -> (r: Option<usize>)
    ensures
        match r {
            Some(i) => find_key(list@, c) == i && i < list@.len(),
            None => find_key(list@, c) == -1,
        },
{
    let n = list.len();
    let mut i: usize = 0;
    while i < n
        invariant
            i <= n,
            n == list@.len(),
            forall|j: int| 0 <= j < i ==> list@[j].0 != c,
        decreases n - i,
    {
        if list[i].0 == c {
            proof {
                lemma_find_key_is_first(list@, c, i as int);
            }
            return Some(i);
        }
        i = i + 1;
    }
    proof {
        lemma_find_key_props(list@, c);
    }
    None
}

impl Pallet {
    /// Transfer `amount` of `currency_id` from the signed caller to `dest`;
    /// the dispatch entry over `do_transfer`.
    pub fn transfer(
        &mut self,
        origin: Origin,
        dest: AccountId,
        currency_id: CurrencyId,
        amount: Balance,
    ) -> (r: Result<(), Error>)
        requires
            old(self).wf(),
        ensures
            final(self).wf(),
            frame_same(*old(self), *final(self)),
            !(origin is Signed) ==> r == Err::<(), Error>(Error::Unauthorized) && ledger_same(
                *old(self),
                *final(self),
            ) && final(self).events@ == old(self).events@,
            origin is Signed ==> ({
                let from = origin->0;
                &&& ((amount == 0 || from == dest) ==> r is Ok)
                &&& (r is Err ==> r == Err::<(), Error>(Error::BalanceTooLow))
                &&& ((amount > 0 && from != dest) ==> (r is Ok <==> old(self).can_withdraw_c(
                    currency_id,
                    from,
                    amount as int,
                )))
                &&& (!(r is Ok && amount > 0 && from != dest) ==> ledger_same(
                    *old(self),
                    *final(self),
                ) && final(self).events@ == old(self).events@)
                &&& ((r is Ok && amount > 0 && from != dest) ==> final(self).free_balance_of(
                    currency_id,
                    from,
                ) == old(self).free_balance_of(currency_id, from) - amount && final(self).free_balance_of(currency_id, dest) == old(self).free_balance_of(currency_id, dest)
                    + amount && final(self).issuance_of(currency_id) == old(self).issuance_of(
                    currency_id,
                ) && other_accounts_same_in2(*old(self), *final(self), currency_id, from, dest)
                    && other_currencies_same(*old(self), *final(self), currency_id) && final(self).events@ == old(self).events@.push(
                    Event::Transferred(currency_id, from, dest, amount),
                ))
            }),
    {
        match origin {
            Origin::Signed(from) => self.do_transfer(currency_id, from, dest, amount),
            Origin::Root => {
                proof {
                    lemma_ledger_same_trivial(*old(self), *self);
                }
                Err(Error::Unauthorized)
            },
        }
    }

    /// Transfer `amount` of the native currency from the signed caller to
    /// `dest`.
    pub fn transfer_native_currency(&mut self, origin: Origin, dest: AccountId, amount: Balance) -> (r: Result<(), Error>)
        requires
            old(self).wf(),
        ensures
            final(self).wf(),
            frame_same(*old(self), *final(self)),
            !(origin is Signed) ==> r == Err::<(), Error>(Error::Unauthorized) && ledger_same(
                *old(self),
                *final(self),
            ) && final(self).events@ == old(self).events@,
            origin is Signed ==> ({
                let from = origin->0;
                let c = old(self).config.native_currency_id;
                &&& ((amount == 0 || from == dest) ==> r is Ok)
                &&& (r is Err ==> r == Err::<(), Error>(Error::BalanceTooLow))
                &&& ((amount > 0 && from != dest) ==> (r is Ok <==> old(self).can_withdraw_c(
                    c,
                    from,
                    amount as int,
                )))
                &&& (!(r is Ok && amount > 0 && from != dest) ==> ledger_same(
                    *old(self),
                    *final(self),
                ) && final(self).events@ == old(self).events@)
                &&& ((r is Ok && amount > 0 && from != dest) ==> final(self).free_balance_of(
                    c,
                    from,
                ) == old(self).free_balance_of(c, from) - amount && final(self).free_balance_of(
                    c,
                    dest,
                ) == old(self).free_balance_of(c, dest) + amount && final(self).issuance_of(c)
                    == old(self).issuance_of(c) && other_accounts_same_in2(
                    *old(self),
                    *final(self),
                    c,
                    from,
                    dest,
                ) && other_currencies_same(*old(self), *final(self), c) && final(self).events@
                    == old(self).events@.push(Event::Transferred(c, from, dest, amount)))
            }),
    {
        let c = self.config.native_currency_id;
        match origin {
            Origin::Signed(from) => self.do_transfer(c, from, dest, amount),
            Origin::Root => {
                proof {
                    lemma_ledger_same_trivial(*old(self), *self);
                }
                Err(Error::Unauthorized)
            },
        }
    }

    /// Adjust `who`'s balance in `currency_id` by a signed delta; requires
    /// the privileged origin, and dispatches to `do_update_balance`.
    pub fn update_balance(
        &mut self,
        origin: Origin,
        who: AccountId,
        currency_id: CurrencyId,
        amount: Amount,
    ) -> (r: Result<(), Error>)
        requires
            old(self).wf(),
        ensures
            final(self).wf(),
            frame_same(*old(self), *final(self)),
            !(origin is Root) ==> r == Err::<(), Error>(Error::Unauthorized) && ledger_same(
                *old(self),
                *final(self),
            ) && final(self).events@ == old(self).events@,
            origin is Root ==> ({
                &&& (r is Ok <==> (amount != i64::MIN && (amount >= 0 ==> old(self).issuance_of(
                    currency_id,
                ) + amount <= u64::MAX) && (amount < 0 ==> amount == i64::MIN || old(self).can_withdraw_c(currency_id, who, -(amount as int)))))
                &&& (amount == i64::MIN ==> r == Err::<(), Error>(Error::AmountConversionFailed))
                &&& (r is Err ==> ledger_same(*old(self), *final(self)) && final(self).events@
                    == old(self).events@)
                &&& (r is Ok ==> final(self).free_balance_of(currency_id, who) == old(self).free_balance_of(currency_id, who) + amount && final(self).reserved_balance_of(
                    currency_id,
                    who,
                ) == old(self).reserved_balance_of(currency_id, who) && final(self).locks_seq_of(
                    currency_id,
                    who,
                ) == old(self).locks_seq_of(currency_id, who) && final(self).issuance_of(currency_id)
                    == old(self).issuance_of(currency_id) + amount && other_accounts_same_in(
                    *old(self),
                    *final(self),
                    currency_id,
                    who,
                ) && other_currencies_same(*old(self), *final(self), currency_id) && final(self).events@ == old(self).events@.push(
                    Event::BalanceUpdated(currency_id, who, amount),
                ))
            }),
    {
        match origin {
            Origin::Root => self.do_update_balance(currency_id, who, amount),
            Origin::Signed(_) => {
                proof {
                    lemma_ledger_same_trivial(*old(self), *self);
                }
                Err(Error::Unauthorized)
            },
        }
    }

    /// The manually set price of `c`, or the default price when none was set.
    pub fn fetch_price(&self, c: CurrencyId) -> (r: u32)
        ensures
            r == value_of(self.prices@, c, DEFAULT_PRICE),
    {
        match find_price(&self.prices, c) {
            Some(i) => self.prices[i].1,
            None => DEFAULT_PRICE,
        }
    }

    /// The basket price of `c`, or the default price when none was set.
    pub fn basket_price(&self, c: CurrencyId) -> (r: u32)
        ensures
            r == value_of(self.basket_prices@, c, DEFAULT_PRICE),
    {
        match find_price(&self.basket_prices, c) {
            Some(i) => self.basket_prices[i].1,
            None => DEFAULT_PRICE,
        }
    }

    /// Manually set the price of `currency_id` and emit `NewPrice`. Requires
    /// a signed caller; fails with `ZeroPrice` exactly when the new price is
    /// zero, changing nothing.
    pub fn set_price(&mut self, origin: Origin, currency_id: CurrencyId, new_price: u32) -> (r:
        Result<(), Error>)
        requires
            old(self).wf(),
        ensures
            final(self).wf(),
            final(self).native == old(self).native,
            final(self).assets@ == old(self).assets@,
            final(self).swaps@ == old(self).swaps@,
            final(self).basket_prices@ == old(self).basket_prices@,
            final(self).config == old(self).config,
            final(self).block_number == old(self).block_number,
            r is Ok <==> (origin is Signed && new_price > 0),
            !(origin is Signed) ==> r == Err::<(), Error>(Error::Unauthorized),
            (origin is Signed && new_price == 0) ==> r == Err::<(), Error>(Error::ZeroPrice),
            r is Err ==> final(self).prices@ == old(self).prices@ && final(self).events@ == old(self).events@,
            r is Ok ==> final(self).prices@ == (if has_key(old(self).prices@, currency_id) {
                old(self).prices@.update(
                    find_key(old(self).prices@, currency_id),
                    (currency_id, new_price),
                )
            } else {
                old(self).prices@.push((currency_id, new_price))
            }) && final(self).events@ == old(self).events@.push(
                Event::NewPrice(currency_id, new_price),
            ),
    {
        match origin {
            Origin::Signed(_) => {},
            _ => {
                return Err(Error::Unauthorized);
            },
        }
        if new_price == 0 {
            return Err(Error::ZeroPrice);
        }
        let ghost pre_prices = self.prices@;
        match find_price(&self.prices, currency_id) {
            Some(i) => {
                proof {
                    lemma_find_key_props(pre_prices, currency_id);
                    lemma_alist_update(pre_prices, i as int, (currency_id, new_price));
                }
                self.prices.remove(i);
                self.prices.insert(i, (currency_id, new_price));
                proof {
                    assert(self.prices@ =~= pre_prices.update(
                        i as int,
                        (currency_id, new_price),
                    ));
                }
            },
            None => {
                proof {
                    lemma_alist_push(pre_prices, (currency_id, new_price));
                }
                self.prices.push((currency_id, new_price));
            },
        }
        self.events.push(Event::NewPrice(currency_id, new_price));
        Ok(())
    }

    /// Set the basket price of `currency_id` to the arithmetic mean of four
    /// component prices and emit `NewPrice`. Requires a signed caller; the
    /// native currency can never be basket-backed, so it fails with
    /// `UnsupportedBasketCurrency`, and a zero mean fails with `ZeroPrice`;
    /// a failed call changes nothing.
    pub fn set_basket_price(
        &mut self,
        origin: Origin,
        currency_id: CurrencyId,
        new_price1: u32,
        new_price2: u32,
        new_price3: u32,
        new_price4: u32,
    ) -> (r: Result<(), Error>)
        requires
            old(self).wf(),
        ensures
            final(self).wf(),
            final(self).native == old(self).native,
            final(self).assets@ == old(self).assets@,
            final(self).swaps@ == old(self).swaps@,
            final(self).prices@ == old(self).prices@,
            final(self).config == old(self).config,
            final(self).block_number == old(self).block_number,
            r is Ok <==> (origin is Signed && currency_id != old(self).config.native_currency_id
                && (new_price1 + new_price2 + new_price3 + new_price4) / 4 > 0),
            !(origin is Signed) ==> r == Err::<(), Error>(Error::Unauthorized),
            (origin is Signed && currency_id == old(self).config.native_currency_id) ==> r
                == Err::<(), Error>(Error::UnsupportedBasketCurrency),
            (origin is Signed && currency_id != old(self).config.native_currency_id && (new_price1
                + new_price2 + new_price3 + new_price4) / 4 == 0) ==> r == Err::<(), Error>(
                Error::ZeroPrice,
            ),
            r is Err ==> final(self).basket_prices@ == old(self).basket_prices@ && final(self).events@ == old(self).events@,
            r is Ok ==> ({
                let mean = (((new_price1 + new_price2 + new_price3 + new_price4) / 4) as u32);
                &&& final(self).basket_prices@ == (if has_key(
                    old(self).basket_prices@,
                    currency_id,
                ) {
                    old(self).basket_prices@.update(
                        find_key(old(self).basket_prices@, currency_id),
                        (currency_id, mean),
                    )
                } else {
                    old(self).basket_prices@.push((currency_id, mean))
                })
                &&& final(self).events@ == old(self).events@.push(
                    Event::NewPrice(currency_id, mean),
                )
            }),
    {
        match origin {
            Origin::Signed(_) => {},
            _ => {
                return Err(Error::Unauthorized);
            },
        }
        if currency_id == self.config.native_currency_id {
            return Err(Error::UnsupportedBasketCurrency);
        }
        let sum: u64 = new_price1 as u64 + new_price2 as u64 + new_price3 as u64
            + new_price4 as u64;
        let mean: u32 = (sum / 4) as u32;
        if mean == 0 {
            return Err(Error::ZeroPrice);
        }
        let ghost pre_prices = self.basket_prices@;
        match find_price(&self.basket_prices, currency_id) {
            Some(i) => {
                proof {
                    lemma_find_key_props(pre_prices, currency_id);
                    lemma_alist_update(pre_prices, i as int, (currency_id, mean));
                }
                self.basket_prices.remove(i);
                self.basket_prices.insert(i, (currency_id, mean));
                proof {
                    assert(self.basket_prices@ =~= pre_prices.update(
                        i as int,
                        (currency_id, mean),
                    ));
                }
            },
            None => {
                proof {
                    lemma_alist_push(pre_prices, (currency_id, mean));
                }
                self.basket_prices.push((currency_id, mean));
            },
        }
        self.events.push(Event::NewPrice(currency_id, mean));
        Ok(())
    }

    /// The least supply a non-native currency may circulate; the native
    /// currency has no minimum supply.
    pub fn minimum_supply(&self, c: CurrencyId) -> (r: Option<Balance>)
        ensures
            c == self.config.native_currency_id ==> r is None,
            c != self.config.native_currency_id ==> r == Some(self.config.minimum_supply),
    {
        if c == self.config.native_currency_id {
            None
        } else {
            Some(self.config.minimum_supply)
        }
    }

    /// The supply a non-native currency starts from; the native currency has
    /// no configured initial supply.
    pub fn initial_supply(&self, c: CurrencyId) -> (r: Option<Balance>)
        ensures
            c == self.config.native_currency_id ==> r is None,
            c != self.config.native_currency_id ==> r == Some(self.config.initial_supply),
    {
        if c == self.config.native_currency_id {
            None
        } else {
            Some(self.config.initial_supply)
        }
    }
}

} // verus!
