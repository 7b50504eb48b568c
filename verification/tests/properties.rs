//! The ledger-wide properties on concrete values: the accounting invariant,
//! the no-op transfers, the round trip and the account merge.

use stp258_standard::builder::{lock_id_one, ExtBuilder, ALICE, BOB, DNAR, JUSD, SETT, SETTPAY};
use stp258_standard::types::{Error, Origin};

/// Sum of free plus reserved over the well-known accounts.
fn held_total(p: &stp258_standard::pallet::Pallet, c: u32) -> u64 {
    let mut sum: u64 = 0;
    for a in [ALICE, BOB, stp258_standard::builder::SERPER, SETTPAY] {
        sum += p.free_balance(c, a) + p.reserved_balance(c, a);
    }
    sum
}

#[test]
fn total_issuance_equals_sum_of_balances_at_every_point() {
    let mut p = ExtBuilder::default()
        .one_hundred_for_alice_n_bob_n_serper_n_settpay()
        .build();
    for c in [DNAR, SETT, JUSD] {
        assert_eq!(p.total_issuance(c), held_total(&p, c));
    }
    assert!(p.do_transfer(SETT, ALICE, BOB, 12_345).is_ok());
    assert!(p.reserve(DNAR, ALICE, 40).is_ok());
    assert!(p.deposit(JUSD, BOB, 777).is_ok());
    assert_eq!(p.slash(DNAR, BOB, 30), 0);
    assert_eq!(p.unreserve(DNAR, ALICE, 10), 0);
    for c in [DNAR, SETT, JUSD] {
        assert_eq!(p.total_issuance(c), held_total(&p, c));
    }
}

#[test]
fn zero_and_self_transfers_change_nothing_and_emit_nothing() {
    let mut p = ExtBuilder::default()
        .one_hundred_for_alice_n_bob_n_serper_n_settpay()
        .build();
    let events_before = p.events().len();
    assert!(p.do_transfer(SETT, ALICE, BOB, 0).is_ok());
    assert!(p.do_transfer(SETT, ALICE, ALICE, 55).is_ok());
    assert_eq!(p.events().len(), events_before);
    assert_eq!(p.free_balance(SETT, ALICE), 100 * 10_000);
    assert_eq!(p.free_balance(SETT, BOB), 100 * 10_000);
}

#[test]
fn update_balance_round_trip_restores_the_free_balance() {
    let mut p = ExtBuilder::default()
        .one_hundred_for_alice_n_bob_n_serper_n_settpay()
        .build();
    assert!(p.do_update_balance(SETT, ALICE, 7_654_321).is_ok());
    assert!(p.do_update_balance(SETT, ALICE, -7_654_321).is_ok());
    assert_eq!(p.free_balance(SETT, ALICE), 100 * 10_000);
}

#[test]
fn merge_account_empties_the_source_and_fills_the_dest() {
    let mut p = ExtBuilder::default()
        .one_hundred_for_alice_n_bob_n_serper_n_settpay()
        .build();
    assert!(p.reserve(DNAR, ALICE, 25).is_ok());
    assert!(p.merge_account(ALICE, BOB).is_ok());
    for c in [DNAR, SETT, JUSD] {
        assert_eq!(p.free_balance(c, ALICE), 0);
        assert_eq!(p.reserved_balance(c, ALICE), 0);
    }
    assert_eq!(p.free_balance(DNAR, BOB), 200);
    assert_eq!(p.free_balance(SETT, BOB), 200 * 10_000);
    assert_eq!(p.free_balance(JUSD, BOB), 200 * 1_000);
    for c in [DNAR, SETT, JUSD] {
        assert_eq!(p.total_issuance(c), held_total(&p, c));
    }
}

#[test]
fn merge_account_fails_whole_and_changes_nothing() {
    let mut p = ExtBuilder::default()
        .one_hundred_for_alice_n_bob_n_serper_n_settpay()
        .build();
    // a reserve outside the native currency blocks the merge
    assert!(p.reserve(SETT, ALICE, 10).is_ok());
    let events_before = p.events().len();
    assert_eq!(p.merge_account(ALICE, BOB), Err(Error::BalanceTooLow));
    assert_eq!(p.events().len(), events_before);
    for c in [DNAR, SETT, JUSD] {
        assert_eq!(p.free_balance(c, BOB), p.total_issuance(c) / 4);
    }
    assert_eq!(p.free_balance(SETT, ALICE), 100 * 10_000 - 10);
    assert_eq!(p.reserved_balance(SETT, ALICE), 10);

    // a lock on the source blocks it too
    let mut q = ExtBuilder::default()
        .one_hundred_for_alice_n_bob_n_serper_n_settpay()
        .build();
    assert!(q.set_lock(lock_id_one(), JUSD, ALICE, 5).is_ok());
    assert_eq!(q.merge_account(ALICE, BOB), Err(Error::BalanceTooLow));
    assert_eq!(q.free_balance(JUSD, ALICE), 100_000);
    assert_eq!(q.free_balance(JUSD, BOB), 100_000);
}

#[test]
fn update_balance_needs_the_privileged_origin() {
    let mut p = ExtBuilder::default()
        .one_hundred_for_alice_n_bob_n_serper_n_settpay()
        .build();
    assert_eq!(
        p.update_balance(Origin::Signed(BOB), ALICE, DNAR, 10),
        Err(Error::Unauthorized)
    );
    assert!(p.update_balance(Origin::Root, ALICE, DNAR, 10).is_ok());
    assert_eq!(p.free_balance(DNAR, ALICE), 110);
}
