//! Identifiers, configuration, errors, events and the swap record.

use vstd::prelude::*;

verus! {

/// Identifies a currency; one distinguished value is the native currency.
pub type CurrencyId = u32;

/// Identifies a balance holder.
pub type AccountId = u64;

/// A non-negative balance; never goes negative under any operation.
pub type Balance = u64;

/// Signed delta used for balance adjustments.
pub type Amount = i64;

/// A block count used as the ledger's clock.
pub type BlockNumber = u64;

/// Names a lock on an account's free balance.
pub type LockIdentifier = [u8; 8];

/// Fixed-size digest of a swap's secret proof.
pub type HashedProof = [u8; 32];

/// Price reported for a currency nobody has set a price for.
pub const DEFAULT_PRICE: u32 = 1_000_000;

/// Caller identity presented to a dispatchable operation.
#[derive(Clone, Copy, PartialEq, Eq, Structural, Debug)]
pub enum Origin {
    /// The privileged authority.
    Root,
    /// A transaction signed by the given account.
    Signed(AccountId),
}

/// Destination side for a repatriation of reserved balance.
#[derive(Clone, Copy, PartialEq, Eq, Structural, Debug)]
pub enum BalanceStatus {
    /// Moved into the beneficiary's free balance.
    Free,
    /// Moved into the beneficiary's reserved balance.
    Reserved,
}

/// Everything a failed operation can report. Failed calls leave all state
/// unchanged and return one of these.
#[derive(Clone, Copy, PartialEq, Eq, Structural, Debug)]
pub enum Error {
    /// A signed delta's magnitude cannot be represented as a balance.
    AmountConversionFailed,
    /// The account's withdrawable free balance does not cover the request.
    BalanceTooLow,
    /// Crediting an account would overflow its balance. The accounting
    /// invariant keeps every credit within the issuance bound, so the router
    /// reports an overflowing credit as `SupplyOverflow`.
    BalanceOverflow,
    /// Debiting an account would underflow its balance. The router reports
    /// an uncovered debit as `BalanceTooLow`.
    BalanceUnderflow,
    /// Raising a currency's issuance would overflow the supply counter.
    SupplyOverflow,
    /// Lowering a currency's issuance would underflow the supply counter.
    /// The accounting invariant keeps every debit within the issuance bound.
    SupplyUnderflow,
    /// A price of zero was supplied where a positive price is required.
    ZeroPrice,
    /// The origin does not carry the authority the call demands.
    Unauthorized,
    /// A pending swap under the same target and hashed proof already exists.
    AlreadyExists,
    /// The revealed proof does not identify a pending swap; the engine
    /// reports a claim against an absent entry as `SwapNotFound`.
    InvalidProof,
    /// The revealed proof exceeds the configured length bound.
    ProofTooLarge,
    /// The caller is not the source that created the swap.
    SourceMismatch,
    /// The presented action differs from the one stored with the swap.
    ClaimActionMismatch,
    /// No pending swap matches the given key.
    SwapNotFound,
    /// The swap's locked duration has not yet passed.
    DurationNotPassed,
    /// The native currency cannot be backed by a basket price.
    UnsupportedBasketCurrency,
}

/// Identifies the claim behaviour agreed when a swap is created; a claim must
/// present an equal action or fail with `ClaimActionMismatch`.
#[derive(Clone, Copy, PartialEq, Eq, Structural, Debug)]
pub struct SwapAction {
    /// Tag distinguishing one agreed behaviour from another.
    pub kind: u64,
}

/// A registered atomic swap, owned by the registry from creation until it is
/// claimed or cancelled, and never mutated in place.
#[derive(Clone, Copy, PartialEq, Eq, Debug)]
pub struct PendingSwap {
    /// Account whose funds are reserved for the swap.
    pub source: AccountId,
    /// Account that may claim the funds by revealing the proof.
    pub target: AccountId,
    /// Currency the reserved value is held in.
    pub currency_id: CurrencyId,
    /// Amount reserved from the source.
    pub value: Balance,
    /// Digest of the secret proof published at creation time.
    pub hashed_proof: HashedProof,
    /// Behaviour the claimer must match.
    pub action: SwapAction,
    /// First block at which the source may cancel the swap.
    pub end_block: BlockNumber,
}

/// A named hold on free balance; it prevents spending without moving funds
/// into the reserved balance.
#[derive(Clone, Copy, PartialEq, Eq, Debug)]
pub struct Lock {
    /// Name under which the hold was placed.
    pub id: LockIdentifier,
    /// Amount of free balance the hold covers.
    pub amount: Balance,
}

/// Domain events, one per successful mutating operation.
#[derive(Clone, Copy, PartialEq, Eq, Debug)]
pub enum Event {
    /// Balance moved between two accounts: currency, from, to, amount.
    Transferred(CurrencyId, AccountId, AccountId, Balance),
    /// Balance adjusted by a signed delta: currency, who, delta.
    BalanceUpdated(CurrencyId, AccountId, Amount),
    /// A price was set: currency, price.
    NewPrice(CurrencyId, u32),
    /// Balance created in an account: currency, who, amount.
    Deposited(CurrencyId, AccountId, Balance),
    /// Issuance minted into an account: currency, who, amount.
    Minted(CurrencyId, AccountId, Balance),
    /// Balance removed from an account: currency, who, amount.
    Withdrawn(CurrencyId, AccountId, Balance),
    /// Issuance burned from an account: currency, who, amount.
    Burned(CurrencyId, AccountId, Balance),
    /// Free balance moved to reserved: currency, who, amount.
    Reserved(CurrencyId, AccountId, Balance),
    /// Reserved balance moved back to free: currency, who, amount.
    Unreserved(CurrencyId, AccountId, Balance),
    /// Reserved balance moved to another account: currency, from, to,
    /// amount actually moved, destination side.
    ReserveRepatriated(CurrencyId, AccountId, AccountId, Balance, BalanceStatus),
    /// A swap was registered: target, hashed proof, record.
    NewSwap(AccountId, HashedProof, PendingSwap),
    /// A swap was claimed: target, hashed proof, whether the transfer of the
    /// reserved funds succeeded.
    SwapClaimed(AccountId, HashedProof, bool),
    /// A swap was cancelled: target, hashed proof.
    SwapCancelled(AccountId, HashedProof),
}

/// Fixed wiring chosen by the host: which currency the native book backs,
/// per-currency minimum balances, supply parameters and the proof bound.
#[derive(Debug)]
pub struct Config {
    /// The currency id served by the native book.
    pub native_currency_id: CurrencyId,
    /// Minimum balance an account must retain per currency; absent means zero.
    pub min_balances: Vec<(CurrencyId, Balance)>,
    /// Longest revealed proof `claim_swap` accepts.
    pub proof_limit: usize,
    /// Supply a non-native currency starts from, read by `initial_supply`.
    pub initial_supply: Balance,
    /// Least supply a non-native currency may circulate, read by
    /// `minimum_supply`.
    pub minimum_supply: Balance,
}

/// Cost estimates for the dispatchable operations; resource accounting is the
/// host's concern and pluggable, so it is only declared here.
pub trait WeightInfo {
    /// Cost of `transfer` on a non-native currency.
    fn transfer_non_native_currency() -> u64;
    /// Cost of `transfer_native_currency`.
    fn transfer_native_currency() -> u64;
    /// Cost of `update_balance` on a non-native currency.
    fn update_balance_non_native_currency() -> u64;
    /// Cost of `update_balance` when it creates a native account.
    fn update_balance_native_currency_creating() -> u64;
    /// Cost of `update_balance` when it empties a native account.
    fn update_balance_native_currency_killing() -> u64;
}

} // verus!
