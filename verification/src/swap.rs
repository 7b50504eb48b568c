//! The atomic swap engine: register a swap by reserving the offered value
//! against a published proof digest, release it to the target when the secret
//! proof is revealed, or return it to the source once the agreed duration has
//! passed. A swap is created once and destroyed exactly once, by claim or by
//! cancel; the registry never holds two swaps under one target and digest.

use vstd::prelude::*;

use crate::pallet::{account_same_in, currency_same, find_swap, has_swap, ledger_same,
    lemma_find_swap_is_first, lemma_find_swap_props, lemma_ledger_same_trivial,
    lemma_swaps_uniq_remove, other_accounts_same_in, other_accounts_same_in2,
    other_currencies_same, Pallet};
use crate::book::min_int;
use crate::types::{AccountId, Balance, BlockNumber, CurrencyId, Error, Event, HashedProof,
    Origin, PendingSwap, SwapAction};

verus! {

/// The 256-bit Blake2b digest of a byte string, as the outside hash function
/// computes it; a function of the bytes alone.
pub uninterp spec fn blake2_256_of(data: Seq<u8>) -> Seq<u8>;

/// Relies on `sp_core_hashing::blake2_256`: the 256-bit Blake2b digest of the
/// input bytes, depending on the bytes alone.
#[verifier::external_body]
fn blake2_256(data: &[u8]) -> (r: HashedProof)
    ensures
        r@ == blake2_256_of(data@),
{
    sp_core_hashing::blake2_256(data)
}

/// The digest under which a secret proof must be registered for `claim_swap`
/// to accept it.
pub fn compute_hashed_proof(proof_bytes: &Vec<u8>) -> (r: HashedProof)
    ensures
        r@ == blake2_256_of(proof_bytes@),
{
    blake2_256(proof_bytes.as_slice())
}

/// Whether two proof digests are the same.
fn hash_eq(a: &HashedProof, b: &HashedProof) -> (r: bool)
    ensures
        r <==> a@ == b@,
{
    let mut i: usize = 0;
    while i < 32
        invariant
            i <= 32,
            forall|j: int| 0 <= j < i ==> a@[j] == b@[j],
        decreases 32 - i,
    {
        if a[i] != b[i] {
            return false;
        }
        i = i + 1;
    }
    proof {
        assert(a@ =~= b@);
    }
    true
}

impl Pallet {
    /// Index of the pending swap keyed by `target` and digest `h`, if any.
    fn find_pending_swap(&self, target: AccountId, h: &HashedProof) -> (r: Option<usize>)
        ensures
            match r {
                Some(i) => find_swap(self.swaps@, target, h@) == i && i < self.swaps@.len(),
                None => find_swap(self.swaps@, target, h@) == -1,
            },
    {
        let n = self.swaps.len();
        let mut i: usize = 0;
        while i < n
            invariant
                i <= n,
                n == self.swaps@.len(),
                forall|j: int|
                    0 <= j < i ==> !(self.swaps@[j].target == target && self.swaps@[j].hashed_proof@
                        == h@),
            decreases n - i,
        {
            let same_target = self.swaps[i].target == target;
            if same_target {
                let sw_hash = self.swaps[i].hashed_proof;
                if hash_eq(&sw_hash, h) {
                    proof {
                        lemma_find_swap_is_first(self.swaps@, target, h@, i as int);
                    }
                    return Some(i);
                }
            }
            i = i + 1;
        }
        proof {
            lemma_find_swap_props(self.swaps@, target, h@);
        }
        None
    }

    /// The pending swap registered under `target` and `hashed_proof`, if any.
    pub fn pending_swap(&self, target: AccountId, hashed_proof: &HashedProof) -> (r: Option<
        PendingSwap,
    >)
        ensures
            match r {
                Some(sw) => has_swap(self.swaps@, target, hashed_proof@) && sw == self.swaps@[
                    find_swap(self.swaps@, target, hashed_proof@)],
                None => !has_swap(self.swaps@, target, hashed_proof@),
            },
    {
        match self.find_pending_swap(target, hashed_proof) {
            Some(i) => Some(self.swaps[i]),
            None => None,
        }
    }

    /// Register an atomic swap: the signed source reserves `value` of
    /// `currency_id` for `target` to claim against the published digest, and
    /// `NewSwap` is emitted after the reservation's `Reserved`. Fails with
    /// `AlreadyExists` while a swap under the same target and digest is
    /// pending, and with the reservation's error when the source cannot cover
    /// the value; a failed call changes nothing.
    pub fn create_swap(
        &mut self,
        origin: Origin,
        target: AccountId,
        currency_id: CurrencyId,
        value: Balance,
        hashed_proof: HashedProof,
        action: SwapAction,
        duration: BlockNumber,
    ) -> (r: Result<(), Error>)
        requires
            old(self).wf(),
        ensures
            final(self).wf(),
            final(self).config == old(self).config,
            final(self).prices@ == old(self).prices@,
            final(self).basket_prices@ == old(self).basket_prices@,
            final(self).block_number == old(self).block_number,
            r is Ok <==> (origin matches Origin::Signed(source) && !has_swap(
                old(self).swaps@,
                target,
                hashed_proof@,
            ) && (value == 0 || old(self).can_withdraw_c(currency_id, source, value as int))),
            !(origin is Signed) ==> r == Err::<(), Error>(Error::Unauthorized),
            r is Err ==> final(self).swaps@ == old(self).swaps@ && final(self).events@ == old(self).events@ && ledger_same(*old(self), *final(self)),
            (origin matches Origin::Signed(source) && has_swap(
                old(self).swaps@,
                target,
                hashed_proof@,
            )) ==> r == Err::<(), Error>(Error::AlreadyExists),
            (origin matches Origin::Signed(source) && !has_swap(
                old(self).swaps@,
                target,
                hashed_proof@,
            ) && !(value == 0 || old(self).can_withdraw_c(currency_id, source, value as int)))
                ==> r == Err::<(), Error>(Error::BalanceTooLow),
            (origin is Signed && r is Ok) ==> ({
                let source = origin->0;
                let end_block = if old(self).block_number + duration <= u64::MAX {
                    (old(self).block_number + duration) as u64
                } else {
                    u64::MAX
                };
                let swap = (PendingSwap {
                    source,
                    target,
                    currency_id,
                    value,
                    hashed_proof,
                    action,
                    end_block,
                });
                &&& final(self).swaps@ == old(self).swaps@.push(swap)
                &&& final(self).free_balance_of(currency_id, source) == old(self).free_balance_of(
                    currency_id,
                    source,
                ) - value
                &&& final(self).reserved_balance_of(currency_id, source) == old(self).reserved_balance_of(currency_id, source) + value
                &&& final(self).locks_seq_of(currency_id, source) == old(self).locks_seq_of(
                    currency_id,
                    source,
                )
                &&& final(self).issuance_of(currency_id) == old(self).issuance_of(currency_id)
                &&& other_accounts_same_in(*old(self), *final(self), currency_id, source)
                &&& other_currencies_same(*old(self), *final(self), currency_id)
                &&& (value > 0 ==> final(self).events@ == old(self).events@.push(
                    Event::Reserved(currency_id, source, value),
                ).push(Event::NewSwap(target, hashed_proof, swap)))
                &&& (value == 0 ==> final(self).events@ == old(self).events@.push(
                    Event::NewSwap(target, hashed_proof, swap),
                ))
            }),
    {
        let source = match origin {
            Origin::Signed(s) => s,
            _ => {
                proof {
                    lemma_ledger_same_trivial(*old(self), *self);
                }
                return Err(Error::Unauthorized);
            },
        };
        if self.find_pending_swap(target, &hashed_proof).is_some() {
            proof {
                lemma_ledger_same_trivial(*old(self), *self);
            }
            return Err(Error::AlreadyExists);
        }
        match self.reserve(currency_id, source, value) {
            Ok(_) => {},
            Err(e) => {
                return Err(e);
            },
        }
        let ghost mid = *self;
        let end_block = if duration > u64::MAX - self.block_number {
            u64::MAX
        } else {
            self.block_number + duration
        };
        let swap = PendingSwap { source, target, currency_id, value, hashed_proof, action, end_block };
        self.swaps.push(swap);
        self.events.push(Event::NewSwap(target, hashed_proof, swap));
        proof {
            lemma_find_swap_props(old(self).swaps@, target, hashed_proof@);
            assert forall|p: int, q: int|
                0 <= p < q < self.swaps@.len() implies !(self.swaps@[p].target == self.swaps@[
                q].target && self.swaps@[p].hashed_proof@ == self.swaps@[q].hashed_proof@) by {
                if q < old(self).swaps@.len() {
                    assert(self.swaps@[p] == old(self).swaps@[p]);
                    assert(self.swaps@[q] == old(self).swaps@[q]);
                } else {
                    assert(self.swaps@[q] == swap);
                    assert(self.swaps@[p] == old(self).swaps@[p]);
                }
            }
            if value == 0 {
                assert(currency_same(*old(self), mid, currency_id));
                assert(account_same_in(*old(self), mid, currency_id, source));
            }
            assert forall|a: AccountId| a != source implies #[trigger] account_same_in(
                *old(self),
                *self,
                currency_id,
                a,
            ) by {
                if value == 0 {
                    assert(currency_same(*old(self), mid, currency_id));
                }
                assert(account_same_in(*old(self), mid, currency_id, a));
            }
            assert forall|c2: CurrencyId|
                c2 != currency_id implies #[trigger] currency_same(*old(self), *self, c2) by {
                assert(currency_same(*old(self), mid, c2));
                assert forall|a: AccountId| #[trigger] account_same_in(
                    *old(self),
                    *self,
                    c2,
                    a,
                ) by {
                    assert(account_same_in(*old(self), mid, c2, a));
                }
            }
        }
        Ok(())
    }

    /// Claim an atomic swap: the signed target reveals the secret proof,
    /// whose digest selects the pending swap; the reserved value moves from
    /// the source to the target's free balance and `SwapClaimed` reports the
    /// outcome. The registry entry is removed exactly when a matching swap is
    /// found with the agreed action. Fails with `ProofTooLarge` when the
    /// proof exceeds the configured bound, `SwapNotFound` when no swap
    /// matches the digest, and `ClaimActionMismatch` when the presented
    /// action differs; a failed call changes nothing.
    pub fn claim_swap(&mut self, origin: Origin, proof_bytes: &Vec<u8>, action: SwapAction) -> (r:
        Result<(), Error>)
        requires
            old(self).wf(),
        ensures
            final(self).wf(),
            final(self).config == old(self).config,
            final(self).prices@ == old(self).prices@,
            final(self).basket_prices@ == old(self).basket_prices@,
            final(self).block_number == old(self).block_number,
            !(origin is Signed) ==> r == Err::<(), Error>(Error::Unauthorized),
            r is Err ==> final(self).swaps@ == old(self).swaps@ && final(self).events@ == old(self).events@ && ledger_same(*old(self), *final(self)),
            r is Ok <==> (origin matches Origin::Signed(target) && proof_bytes@.len() <= old(self).config.proof_limit && has_swap(
                old(self).swaps@,
                target,
                blake2_256_of(proof_bytes@),
            ) && old(self).swaps@[find_swap(
                old(self).swaps@,
                target,
                blake2_256_of(proof_bytes@),
            )].action == action),
            (origin matches Origin::Signed(target) && proof_bytes@.len() > old(self).config.proof_limit) ==> r == Err::<(), Error>(Error::ProofTooLarge),
            (origin matches Origin::Signed(target) && proof_bytes@.len() <= old(self).config.proof_limit && !has_swap(
                old(self).swaps@,
                target,
                blake2_256_of(proof_bytes@),
            )) ==> r == Err::<(), Error>(Error::SwapNotFound),
            (origin matches Origin::Signed(target) && proof_bytes@.len() <= old(self).config.proof_limit && has_swap(
                old(self).swaps@,
                target,
                blake2_256_of(proof_bytes@),
            ) && old(self).swaps@[find_swap(
                old(self).swaps@,
                target,
                blake2_256_of(proof_bytes@),
            )].action != action) ==> r == Err::<(), Error>(Error::ClaimActionMismatch),
            (origin is Signed && r is Ok) ==> ({
                let target = origin->0;
                let h = blake2_256_of(proof_bytes@);
                let i = find_swap(old(self).swaps@, target, h);
                let sw = old(self).swaps@[i];
                let moved = min_int(
                    sw.value as int,
                    old(self).reserved_balance_of(sw.currency_id, sw.source),
                );
                &&& final(self).swaps@ == old(self).swaps@.remove(i)
                &&& (sw.source != target ==> final(self).reserved_balance_of(
                    sw.currency_id,
                    sw.source,
                ) == old(self).reserved_balance_of(sw.currency_id, sw.source) - moved && final(self).free_balance_of(sw.currency_id, sw.source) == old(self).free_balance_of(
                    sw.currency_id,
                    sw.source,
                ) && final(self).free_balance_of(sw.currency_id, target) == old(self).free_balance_of(sw.currency_id, target) + moved && final(self).reserved_balance_of(
                    sw.currency_id,
                    target,
                ) == old(self).reserved_balance_of(sw.currency_id, target)
                    && other_accounts_same_in2(
                    *old(self),
                    *final(self),
                    sw.currency_id,
                    sw.source,
                    target,
                ))
                &&& (sw.source == target ==> final(self).free_balance_of(sw.currency_id, sw.source)
                    == old(self).free_balance_of(sw.currency_id, sw.source) + moved && final(self).reserved_balance_of(sw.currency_id, sw.source) == old(self).reserved_balance_of(
                    sw.currency_id,
                    sw.source,
                ) - moved && other_accounts_same_in(
                    *old(self),
                    *final(self),
                    sw.currency_id,
                    sw.source,
                ))
                &&& final(self).issuance_of(sw.currency_id) == old(self).issuance_of(
                    sw.currency_id,
                )
                &&& final(self).locks_seq_of(sw.currency_id, sw.source) == old(self).locks_seq_of(
                    sw.currency_id,
                    sw.source,
                )
                &&& final(self).locks_seq_of(sw.currency_id, target) == old(self).locks_seq_of(
                    sw.currency_id,
                    target,
                )
                &&& other_currencies_same(*old(self), *final(self), sw.currency_id)
                &&& ((sw.source != target && moved > 0) ==> final(self).events@ == old(self).events@.push(
                    Event::ReserveRepatriated(
                        sw.currency_id,
                        sw.source,
                        target,
                        moved as u64,
                        crate::types::BalanceStatus::Free,
                    ),
                ).push(Event::SwapClaimed(target, sw.hashed_proof, true)))
                &&& (!(sw.source != target && moved > 0) ==> final(self).events@ == old(self).events@.push(Event::SwapClaimed(target, sw.hashed_proof, true)))
            }),
    {
        let target = match origin {
            Origin::Signed(t) => t,
            _ => {
                proof {
                    lemma_ledger_same_trivial(*old(self), *self);
                }
                return Err(Error::Unauthorized);
            },
        };
        if proof_bytes.len() > self.config.proof_limit {
            proof {
                lemma_ledger_same_trivial(*old(self), *self);
            }
            return Err(Error::ProofTooLarge);
        }
        let hashed = blake2_256(proof_bytes.as_slice());
        let i = match self.find_pending_swap(target, &hashed) {
            Some(i) => i,
            None => {
                proof {
                    lemma_ledger_same_trivial(*old(self), *self);
                }
                return Err(Error::SwapNotFound);
            },
        };
        let sw = self.swaps[i];
        if !(sw.action == action) {
            proof {
                lemma_ledger_same_trivial(*old(self), *self);
            }
            return Err(Error::ClaimActionMismatch);
        }
        let rem = match self.repatriate_reserved(
            sw.currency_id,
            sw.source,
            target,
            sw.value,
            crate::types::BalanceStatus::Free,
        ) {
            Ok(rem) => rem,
            Err(_) => 0,
        };
        let ghost mid = *self;
        self.swaps.remove(i);
        self.events.push(Event::SwapClaimed(target, sw.hashed_proof, true));
        proof {
            lemma_swaps_uniq_remove(mid.swaps@, i as int);
            assert forall|c2: CurrencyId|
                c2 != sw.currency_id implies #[trigger] currency_same(*old(self), *self, c2) by {
                assert(currency_same(*old(self), mid, c2));
                assert forall|a: AccountId| #[trigger] account_same_in(
                    *old(self),
                    *self,
                    c2,
                    a,
                ) by {
                    assert(account_same_in(*old(self), mid, c2, a));
                }
            }
            if sw.source != target {
                assert forall|a: AccountId|
                    a != sw.source && a != target implies #[trigger] account_same_in(
                    *old(self),
                    *self,
                    sw.currency_id,
                    a,
                ) by {
                    assert(account_same_in(*old(self), mid, sw.currency_id, a));
                }
            } else {
                assert forall|a: AccountId| a != sw.source implies #[trigger] account_same_in(
                    *old(self),
                    *self,
                    sw.currency_id,
                    a,
                ) by {
                    assert(account_same_in(*old(self), mid, sw.currency_id, a));
                }
            }
        }
        Ok(())
    }

    /// Cancel an atomic swap: after the agreed duration has passed, the
    /// original source takes the reserved value back and `SwapCancelled` is
    /// emitted. Fails with `SwapNotFound` when no swap matches, with
    /// `SourceMismatch` when the caller did not create it, and with
    /// `DurationNotPassed` while the current tick is before the swap's end
    /// block; a failed call changes nothing.
    pub fn cancel_swap(&mut self, origin: Origin, target: AccountId, hashed_proof: HashedProof) -> (r: Result<(), Error>)
        requires
            old(self).wf(),
        ensures
            final(self).wf(),
            final(self).config == old(self).config,
            final(self).prices@ == old(self).prices@,
            final(self).basket_prices@ == old(self).basket_prices@,
            final(self).block_number == old(self).block_number,
            !(origin is Signed) ==> r == Err::<(), Error>(Error::Unauthorized),
            r is Err ==> final(self).swaps@ == old(self).swaps@ && final(self).events@ == old(self).events@ && ledger_same(*old(self), *final(self)),
            r is Ok <==> (origin matches Origin::Signed(source) && has_swap(
                old(self).swaps@,
                target,
                hashed_proof@,
            ) && old(self).swaps@[find_swap(old(self).swaps@, target, hashed_proof@)].source
                == source && old(self).block_number >= old(self).swaps@[find_swap(
                old(self).swaps@,
                target,
                hashed_proof@,
            )].end_block),
            (origin matches Origin::Signed(source) && !has_swap(
                old(self).swaps@,
                target,
                hashed_proof@,
            )) ==> r == Err::<(), Error>(Error::SwapNotFound),
            (origin matches Origin::Signed(source) && has_swap(
                old(self).swaps@,
                target,
                hashed_proof@,
            ) && old(self).swaps@[find_swap(old(self).swaps@, target, hashed_proof@)].source
                != source) ==> r == Err::<(), Error>(Error::SourceMismatch),
            (origin matches Origin::Signed(source) && has_swap(
                old(self).swaps@,
                target,
                hashed_proof@,
            ) && old(self).swaps@[find_swap(old(self).swaps@, target, hashed_proof@)].source
                == source && old(self).block_number < old(self).swaps@[find_swap(
                old(self).swaps@,
                target,
                hashed_proof@,
            )].end_block) ==> r == Err::<(), Error>(Error::DurationNotPassed),
            (origin is Signed && r is Ok) ==> ({
                let source = origin->0;
                let i = find_swap(old(self).swaps@, target, hashed_proof@);
                let sw = old(self).swaps@[i];
                let moved = min_int(
                    sw.value as int,
                    old(self).reserved_balance_of(sw.currency_id, source),
                );
                &&& final(self).swaps@ == old(self).swaps@.remove(i)
                &&& final(self).free_balance_of(sw.currency_id, source) == old(self).free_balance_of(sw.currency_id, source) + moved
                &&& final(self).reserved_balance_of(sw.currency_id, source) == old(self).reserved_balance_of(sw.currency_id, source) - moved
                &&& final(self).issuance_of(sw.currency_id) == old(self).issuance_of(
                    sw.currency_id,
                )
                &&& final(self).locks_seq_of(sw.currency_id, source) == old(self).locks_seq_of(
                    sw.currency_id,
                    source,
                )
                &&& other_accounts_same_in(*old(self), *final(self), sw.currency_id, source)
                &&& other_currencies_same(*old(self), *final(self), sw.currency_id)
                &&& (moved > 0 ==> final(self).events@ == old(self).events@.push(
                    Event::Unreserved(sw.currency_id, source, moved as u64),
                ).push(Event::SwapCancelled(target, sw.hashed_proof)))
                &&& (moved == 0 ==> final(self).events@ == old(self).events@.push(
                    Event::SwapCancelled(target, sw.hashed_proof),
                ))
            }),
    {
        let source = match origin {
            Origin::Signed(s) => s,
            _ => {
                proof {
                    lemma_ledger_same_trivial(*old(self), *self);
                }
                return Err(Error::Unauthorized);
            },
        };
        let i = match self.find_pending_swap(target, &hashed_proof) {
            Some(i) => i,
            None => {
                proof {
                    lemma_ledger_same_trivial(*old(self), *self);
                }
                return Err(Error::SwapNotFound);
            },
        };
        let sw = self.swaps[i];
        if sw.source != source {
            proof {
                lemma_ledger_same_trivial(*old(self), *self);
            }
            return Err(Error::SourceMismatch);
        }
        if self.block_number < sw.end_block {
            proof {
                lemma_ledger_same_trivial(*old(self), *self);
            }
            return Err(Error::DurationNotPassed);
        }
        let _rem = self.unreserve(sw.currency_id, source, sw.value);
        let ghost mid = *self;
        self.swaps.remove(i);
        self.events.push(Event::SwapCancelled(target, sw.hashed_proof));
        proof {
            lemma_swaps_uniq_remove(mid.swaps@, i as int);
            assert forall|c2: CurrencyId|
                c2 != sw.currency_id implies #[trigger] currency_same(*old(self), *self, c2) by {
                assert(currency_same(*old(self), mid, c2));
                assert forall|a: AccountId| #[trigger] account_same_in(
                    *old(self),
                    *self,
                    c2,
                    a,
                ) by {
                    assert(account_same_in(*old(self), mid, c2, a));
                }
            }
            assert forall|a: AccountId| a != source implies #[trigger] account_same_in(
                *old(self),
                *self,
                sw.currency_id,
                a,
            ) by {
                assert(account_same_in(*old(self), mid, sw.currency_id, a));
            }
        }
        Ok(())
    }
}

} // verus!
