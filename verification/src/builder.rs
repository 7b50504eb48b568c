//! A builder for a freshly wired router with endowed accounts, and the fixed
//! identifiers its well-known configuration uses.

use vstd::prelude::*;

use crate::pallet::{account_same_in, currency_same, Pallet};
use crate::types::{AccountId, Balance, Config, CurrencyId, Event, Lock, LockIdentifier,
    PendingSwap};

verus! {

/// The native currency of the well-known wiring.
pub const DNAR: CurrencyId = 1;

/// A non-native currency of the well-known wiring.
pub const SETT: CurrencyId = 2;

/// Another non-native currency of the well-known wiring.
pub const JUSD: CurrencyId = 3;

/// A balance holder of the well-known wiring.
pub const ALICE: AccountId = 0;

/// A balance holder of the well-known wiring.
pub const BOB: AccountId = 1;

/// A balance holder of the well-known wiring.
pub const SERPER: AccountId = 3;

/// A balance holder of the well-known wiring.
pub const SETTPAY: AccountId = 4;

/// A lock name used by callers of the lock family: the byte string of one
/// digit followed by seven spaces.
pub fn lock_id_one() -> (r: LockIdentifier)
    ensures
        r@ == seq![49u8, 32u8, 32u8, 32u8, 32u8, 32u8, 32u8, 32u8],
{
    let r: LockIdentifier = [49u8, 32u8, 32u8, 32u8, 32u8, 32u8, 32u8, 32u8];
    proof {
        assert(r@ =~= seq![49u8, 32u8, 32u8, 32u8, 32u8, 32u8, 32u8, 32u8]);
    }
    r
}

/// Longest revealed proof the well-known wiring accepts.
pub const PROOF_LIMIT: usize = 1024;

/// Sum of the endowed amounts of currency `c`.
pub open spec fn endowed_sum(s: Seq<(AccountId, CurrencyId, Balance)>, c: CurrencyId) -> int
    decreases s.len(),
{
    if s.len() == 0 {
        0
    } else {
        (if s[0].1 == c {
            s[0].2 as int
        } else {
            0
        }) + endowed_sum(s.skip(1), c)
    }
}

/// Sum of the endowed amounts of currency `c` held by account `a`.
pub open spec fn endowed_amount(
    s: Seq<(AccountId, CurrencyId, Balance)>,
    a: AccountId,
    c: CurrencyId,
) -> int
    decreases s.len(),
{
    if s.len() == 0 {
        0
    } else {
        (if s[0].0 == a && s[0].1 == c {
            s[0].2 as int
        } else {
            0
        }) + endowed_amount(s.skip(1), a, c)
    }
}

/// An endowment sum is never negative.
pub proof fn lemma_endowed_sum_nonneg(s: Seq<(AccountId, CurrencyId, Balance)>, c: CurrencyId)
    ensures
        endowed_sum(s, c) >= 0,
    decreases s.len(),
{
    if s.len() > 0 {
        lemma_endowed_sum_nonneg(s.skip(1), c);
    }
}

/// Appending an endowment raises the sums by its contribution.
pub proof fn lemma_endowed_push(
    s: Seq<(AccountId, CurrencyId, Balance)>,
    x: (AccountId, CurrencyId, Balance),
    a: AccountId,
    c: CurrencyId,
)
    ensures
        endowed_sum(s.push(x), c) == endowed_sum(s, c) + (if x.1 == c {
            x.2 as int
        } else {
            0
        }),
        endowed_amount(s.push(x), a, c) == endowed_amount(s, a, c) + (if x.0 == a && x.1 == c {
            x.2 as int
        } else {
            0
        }),
    decreases s.len(),
{
    if s.len() == 0 {
        assert(s.push(x)[0] == x);
        assert(s.push(x).skip(1) =~= Seq::<(AccountId, CurrencyId, Balance)>::empty());
        assert(endowed_sum(s.push(x).skip(1), c) == 0);
        assert(endowed_amount(s.push(x).skip(1), a, c) == 0);
    } else {
        assert(s.push(x)[0] == s[0]);
        assert(s.push(x).skip(1) =~= s.skip(1).push(x));
        lemma_endowed_push(s.skip(1), x, a, c);
        assert(endowed_sum(s.push(x).skip(1), c) == endowed_sum(s.skip(1).push(x), c));
        assert(endowed_amount(s.push(x).skip(1), a, c) == endowed_amount(s.skip(1).push(x), a, c));
    }
}

/// A prefix and the rest of an endowment list sum to the whole.
pub proof fn lemma_endowed_sum_split(
    s: Seq<(AccountId, CurrencyId, Balance)>,
    i: int,
    c: CurrencyId,
)
    requires
        0 <= i <= s.len(),
    ensures
        endowed_sum(s, c) == endowed_sum(s.take(i), c) + endowed_sum(s.skip(i), c),
    decreases i,
{
    if i == 0 {
        assert(s.take(0) =~= Seq::<(AccountId, CurrencyId, Balance)>::empty());
        assert(s.skip(0) =~= s);
    } else {
        lemma_endowed_sum_split(s, i - 1, c);
        assert(s.take(i) =~= s.take(i - 1).push(s[i - 1]));
        lemma_endowed_push(s.take(i - 1), s[i - 1], 0, c);
        assert(s.skip(i - 1)[0] == s[i - 1]);
        assert(s.skip(i - 1).skip(1) =~= s.skip(i));
    }
}

/// Builds a router over the well-known wiring: `DNAR` is the native currency,
/// no account must retain a minimum balance, and the listed accounts start
/// with the listed free balances.
pub struct ExtBuilder {
    /// Accounts, currencies and the free balances they start with.
    pub endowed_accounts: Vec<(AccountId, CurrencyId, Balance)>,
}

impl Default for ExtBuilder {
    /// A builder that endows nobody.
    fn default() -> (r: Self)
        ensures
            r.endowed_accounts@ == Seq::<(AccountId, CurrencyId, Balance)>::empty(),
    {
        ExtBuilder { endowed_accounts: Vec::new() }
    }
}

impl ExtBuilder {
    /// Replace the endowment list.
    pub fn balances(self, endowed_accounts: Vec<(AccountId, CurrencyId, Balance)>) -> (r: Self)
        ensures
            r.endowed_accounts@ == endowed_accounts@,
    {
        ExtBuilder { endowed_accounts }
    }

    /// The customary endowment: a hundred units of the native currency and a
    /// hundred base units of each other currency, for each well-known account.
    pub fn one_hundred_for_alice_n_bob_n_serper_n_settpay(self) -> (r: Self)
        ensures
            r.endowed_accounts@ == seq![
                (ALICE, DNAR, 100u64),
                (BOB, DNAR, 100u64),
                (SERPER, DNAR, 100u64),
                (SETTPAY, DNAR, 100u64),
                (ALICE, SETT, 1_000_000u64),
                (BOB, SETT, 1_000_000u64),
                (SERPER, SETT, 1_000_000u64),
                (SETTPAY, SETT, 1_000_000u64),
                (ALICE, JUSD, 100_000u64),
                (BOB, JUSD, 100_000u64),
                (SERPER, JUSD, 100_000u64),
                (SETTPAY, JUSD, 100_000u64),
            ],
    {
        self.balances(
            vec![
                (ALICE, DNAR, 100u64),
                (BOB, DNAR, 100u64),
                (SERPER, DNAR, 100u64),
                (SETTPAY, DNAR, 100u64),
                (ALICE, SETT, 1_000_000u64),
                (BOB, SETT, 1_000_000u64),
                (SERPER, SETT, 1_000_000u64),
                (SETTPAY, SETT, 1_000_000u64),
                (ALICE, JUSD, 100_000u64),
                (BOB, JUSD, 100_000u64),
                (SERPER, JUSD, 100_000u64),
                (SETTPAY, JUSD, 100_000u64),
            ],
        )
    }

    /// A fresh router holding exactly the endowed balances, with no pending
    /// swaps, no prices, no events and the clock at zero.
    pub fn build(self) -> (p: Pallet)
        requires
            forall|c: CurrencyId| #[trigger] endowed_sum(self.endowed_accounts@, c) <= u64::MAX,
        ensures
            p.wf(),
            p.config.native_currency_id == DNAR,
            p.config.min_balances@ == Seq::<(CurrencyId, Balance)>::empty(),
            p.config.proof_limit == PROOF_LIMIT,
            p.swaps@ == Seq::<PendingSwap>::empty(),
            p.prices@ == Seq::<(CurrencyId, u32)>::empty(),
            p.basket_prices@ == Seq::<(CurrencyId, u32)>::empty(),
            p.events@ == Seq::<Event>::empty(),
            p.block_number == 0,
            forall|c: CurrencyId, a: AccountId| #![all_triggers]
                p.free_balance_of(c, a) == endowed_amount(self.endowed_accounts@, a, c)
                    && p.reserved_balance_of(c, a) == 0 && p.locks_seq_of(c, a) == Seq::<
                    Lock,
                >::empty(),
            forall|c: CurrencyId| #[trigger] p.issuance_of(c) == endowed_sum(
                self.endowed_accounts@,
                c,
            ),
    {
        let config = Config {
            native_currency_id: DNAR,
            min_balances: Vec::new(),
            proof_limit: PROOF_LIMIT,
            initial_supply: 0,
            minimum_supply: 0,
        };
        let mut p = Pallet::new(config);
        let ghost s = self.endowed_accounts@;
        let n = self.endowed_accounts.len();
        let mut i: usize = 0;
        proof {
            assert forall|c: CurrencyId, a: AccountId| #![all_triggers]
                endowed_amount(s.take(0), a, c) == 0 && endowed_sum(s.take(0), c) == 0 by {
                assert(s.take(0) =~= Seq::<(AccountId, CurrencyId, Balance)>::empty());
            }
        }
        while i < n
            invariant
                i <= n,
                n == s.len(),
                self.endowed_accounts@ == s,
                forall|c: CurrencyId| #[trigger] endowed_sum(s, c) <= u64::MAX,
                p.wf(),
                p.config.native_currency_id == DNAR,
                p.config.min_balances@ == Seq::<(CurrencyId, Balance)>::empty(),
                p.config.proof_limit == PROOF_LIMIT,
                p.swaps@ == Seq::<PendingSwap>::empty(),
                p.prices@ == Seq::<(CurrencyId, u32)>::empty(),
                p.basket_prices@ == Seq::<(CurrencyId, u32)>::empty(),
                p.block_number == 0,
                forall|c: CurrencyId, a: AccountId| #![all_triggers]
                    p.free_balance_of(c, a) == endowed_amount(s.take(i as int), a, c)
                        && p.reserved_balance_of(c, a) == 0 && p.locks_seq_of(c, a) == Seq::<
                        Lock,
                    >::empty(),
                forall|c: CurrencyId| #[trigger] p.issuance_of(c) == endowed_sum(
                    s.take(i as int),
                    c,
                ),
            decreases n - i,
        {
            let (a, c, v) = self.endowed_accounts[i];
            let ghost mid = p;
            proof {
                assert(s[i as int] == (a, c, v));
                lemma_endowed_sum_split(s, i as int, c);
                lemma_endowed_sum_nonneg(s.skip(i as int).skip(1), c);
                assert(s.skip(i as int)[0] == s[i as int]);
                assert(endowed_sum(s.skip(i as int), c) == v + endowed_sum(
                    s.skip(i as int).skip(1),
                    c,
                ));
            }
            let r = p.deposit(c, a, v);
            proof {
                assert(r is Ok);
                assert(s.take(i + 1) =~= s.take(i as int).push(s[i as int]));
                assert forall|c2: CurrencyId, a2: AccountId| #![all_triggers]
                    p.free_balance_of(c2, a2) == endowed_amount(s.take(i + 1), a2, c2)
                        && p.reserved_balance_of(c2, a2) == 0 && p.locks_seq_of(c2, a2) == Seq::<
                        Lock,
                    >::empty() by {
                    lemma_endowed_push(s.take(i as int), s[i as int], a2, c2);
                    if v == 0 {
                        assert(currency_same(mid, p, c2));
                        assert(account_same_in(mid, p, c2, a2));
                    } else if c2 == c && a2 == a {
                    } else if c2 == c {
                        assert(account_same_in(mid, p, c2, a2));
                    } else {
                        assert(currency_same(mid, p, c2));
                        assert(account_same_in(mid, p, c2, a2));
                    }
                }
                assert forall|c2: CurrencyId| #[trigger] p.issuance_of(c2) == endowed_sum(
                    s.take(i + 1),
                    c2,
                ) by {
                    lemma_endowed_push(s.take(i as int), s[i as int], a, c2);
                    if v == 0 || c2 != c {
                        assert(currency_same(mid, p, c2));
                    }
                }
            }
            i = i + 1;
        }
        proof {
            assert(s.take(n as int) =~= s);
        }
        let ghost q = p;
        p.events = Vec::new();
        proof {
            assert forall|c: CurrencyId| #[trigger] p.issuance_of(c) == endowed_sum(s, c) by {
                assert(q.issuance_of(c) == endowed_sum(s.take(n as int), c));
            }
            assert forall|c: CurrencyId, a: AccountId| #![all_triggers]
                p.free_balance_of(c, a) == endowed_amount(s, a, c) && p.reserved_balance_of(c, a)
                == 0 && p.locks_seq_of(c, a) == Seq::<Lock>::empty() by {
                assert(q.free_balance_of(c, a) == endowed_amount(s.take(n as int), a, c));
                assert(q.reserved_balance_of(c, a) == 0);
                assert(q.locks_seq_of(c, a) == Seq::<Lock>::empty());
            }
        }
        p
    }
}

} // verus!
