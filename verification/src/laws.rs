//! Laws of the ledger that relate several operations or states, stated once
//! over the same specification functions the operations' contracts use, and
//! proved for every input.

use vstd::prelude::*;

use crate::alist::{find_key, has_key, lemma_find_key_props};
use crate::book::{lock_max, sum_totals};
use crate::pallet::{has_swap, Pallet};
use crate::types::{AccountId, Amount, CurrencyId, PendingSwap};

verus! {

/// The accounting law: at every observation point, a currency's reported
/// total issuance equals the sum over all accounts of free plus reserved
/// balance in that currency's book — and is zero for a currency no operation
/// has touched. Every operation of this crate preserves `wf`, so this holds
/// at every observation point.
pub proof fn lemma_issuance_is_sum_of_balances(p: Pallet, c: CurrencyId)
    requires
        p.wf(),
    ensures
        p.is_native(c) ==> p.issuance_of(c) == sum_totals(p.native.accounts@),
        !p.is_native(c) && has_key(p.assets@, c) ==> p.issuance_of(c) == sum_totals(
            p.assets@[find_key(p.assets@, c)].1.accounts@,
        ),
        !p.is_native(c) && !has_key(p.assets@, c) ==> p.issuance_of(c) == 0,
{
    if !p.is_native(c) && has_key(p.assets@, c) {
        lemma_find_key_props(p.assets@, c);
        assert(p.assets@[find_key(p.assets@, c)].1.wf());
    }
}

/// Round trip: adjusting a balance up by `n` and then down by `n` restores
/// the original free balance exactly, and the downward adjustment is always
/// accepted. The hypotheses are what `do_update_balance`'s contract gives for
/// the upward call, plus that the original free balance was itself at or
/// above the minimum balance and the frozen bound — an account already below
/// the minimum could not take the downward leg.
pub proof fn lemma_update_balance_round_trip(
    s0: Pallet,
    s1: Pallet,
    c: CurrencyId,
    who: AccountId,
    n: Amount,
)
    requires
        0 < n,
        s1.free_balance_of(c, who) == s0.free_balance_of(c, who) + n,
        s1.locks_seq_of(c, who) == s0.locks_seq_of(c, who),
        s1.config == s0.config,
        s0.free_balance_of(c, who) >= s0.min_balance_cfg(c),
        s0.free_balance_of(c, who) >= lock_max(s0.locks_seq_of(c, who)),
    ensures
        s1.can_withdraw_c(c, who, n as int),
        s1.free_balance_of(c, who) - n == s0.free_balance_of(c, who),
{
}

/// A key pushed into the registry is found there.
pub proof fn lemma_has_swap_push(s: Seq<PendingSwap>, x: PendingSwap)
    ensures
        has_swap(s.push(x), x.target, x.hashed_proof@),
    decreases s.len(),
{
    if s.len() == 0 {
        assert(s.push(x)[0] == x);
    } else {
        assert(s.push(x)[0] == s[0]);
        if !(s[0].target == x.target && s[0].hashed_proof@ == x.hashed_proof@) {
            assert(s.push(x).skip(1) =~= s.skip(1).push(x));
            lemma_has_swap_push(s.skip(1), x);
        }
    }
}

/// No duplicate swaps: a successful `create_swap` leaves its key occupied, so
/// by `create_swap`'s contract a second creation under the same target and
/// hashed proof is refused with `AlreadyExists` until the first swap is
/// claimed or cancelled, and the registry retains the first record.
pub proof fn lemma_create_swap_excludes_duplicate(s0: Pallet, s1: Pallet, sw: PendingSwap)
    requires
        s1.swaps@ == s0.swaps@.push(sw),
    ensures
        has_swap(s1.swaps@, sw.target, sw.hashed_proof@),
{
    lemma_has_swap_push(s0.swaps@, sw);
}

} // verus!
