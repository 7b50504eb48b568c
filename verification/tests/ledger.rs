//! The ledger and router operations on the well-known wiring.

use stp258_standard::builder::{lock_id_one, ExtBuilder, ALICE, BOB, DNAR, JUSD, SERPER, SETT};
use stp258_standard::currency::SettCurrency;
use stp258_standard::types::Error;

#[test]
fn stp258_currency_lockable_should_work() {
    let mut p = ExtBuilder::default()
        .one_hundred_for_alice_n_bob_n_serper_n_settpay()
        .build();
    assert!(p.set_lock(lock_id_one(), SETT, ALICE, 50 * 10_000).is_ok());
    assert_eq!(p.locks(SETT, ALICE).len(), 1);
    assert!(p.set_lock(lock_id_one(), DNAR, ALICE, 50).is_ok());
    assert_eq!(p.locks(DNAR, ALICE).len(), 1);
}

#[test]
fn stp258_currency_reservable_should_work() {
    let mut p = ExtBuilder::default()
        .one_hundred_for_alice_n_bob_n_serper_n_settpay()
        .build();
    let native = SettCurrency::new(DNAR);
    assert_eq!(p.total_issuance(DNAR), 400);
    assert_eq!(p.total_issuance(SETT), 400 * 10_000);
    assert_eq!(p.free_balance(SETT, ALICE), 100 * 10_000);
    assert_eq!(native.free_balance(&p, ALICE), 100);

    assert!(p.reserve(SETT, ALICE, 30 * 10_000).is_ok());
    assert!(p.reserve(DNAR, ALICE, 40).is_ok());
    assert_eq!(p.reserved_balance(SETT, ALICE), 30 * 10_000);
    assert_eq!(p.reserved_balance(DNAR, ALICE), 40);
}

#[test]
fn stp258_native_lockable_should_work() {
    let mut p = ExtBuilder::default()
        .one_hundred_for_alice_n_bob_n_serper_n_settpay()
        .build();
    let native = SettCurrency::new(DNAR);
    assert!(native.set_lock(&mut p, lock_id_one(), ALICE, 10).is_ok());
    assert_eq!(p.locks(DNAR, ALICE).len(), 1);
    assert!(native.remove_lock(&mut p, lock_id_one(), ALICE).is_ok());
    assert_eq!(p.locks(DNAR, ALICE).len(), 0);
}

#[test]
fn stp258_native_reservable_should_work() {
    let mut p = ExtBuilder::default()
        .one_hundred_for_alice_n_bob_n_serper_n_settpay()
        .build();
    let native = SettCurrency::new(DNAR);
    assert!(native.reserve(&mut p, ALICE, 50).is_ok());
    assert_eq!(native.reserved_balance(&p, ALICE), 50);
}

#[test]
fn stp258_asset_adapting_pallet_balances_lockable() {
    let mut p = ExtBuilder::default()
        .one_hundred_for_alice_n_bob_n_serper_n_settpay()
        .build();
    assert!(p.set_lock(lock_id_one(), DNAR, ALICE, 10).is_ok());
    assert_eq!(p.locks(DNAR, ALICE).len(), 1);
    assert!(p.remove_lock(lock_id_one(), DNAR, ALICE).is_ok());
    assert_eq!(p.locks(DNAR, ALICE).len(), 0);
}

#[test]
fn stp258_asset_adapting_pallet_balances_reservable() {
    let mut p = ExtBuilder::default()
        .one_hundred_for_alice_n_bob_n_serper_n_settpay()
        .build();
    assert!(p.reserve(DNAR, ALICE, 50).is_ok());
    assert_eq!(p.reserved_balance(DNAR, ALICE), 50);
}

#[test]
fn stp258_asset_adapting_pallet_balances_transfer() {
    let mut p = ExtBuilder::default()
        .one_hundred_for_alice_n_bob_n_serper_n_settpay()
        .build();
    assert!(p.do_transfer(DNAR, ALICE, BOB, 50).is_ok());
    assert_eq!(p.total_balance(DNAR, ALICE), 50);
    assert_eq!(p.total_balance(DNAR, BOB), 150);
    assert!(p.do_transfer(DNAR, ALICE, SERPER, 10).is_ok());
    assert_eq!(p.total_balance(DNAR, ALICE), 40);
    assert_eq!(p.total_balance(DNAR, SERPER), 110);
}

#[test]
fn stp258_asset_adapting_pallet_balances_deposit() {
    let mut p = ExtBuilder::default()
        .one_hundred_for_alice_n_bob_n_serper_n_settpay()
        .build();
    assert!(p.deposit(DNAR, SERPER, 50).is_ok());
    assert_eq!(p.total_balance(DNAR, SERPER), 150);
    assert_eq!(p.total_issuance(DNAR), 450);
}

#[test]
fn stp258_asset_adapting_pallet_balances_withdraw() {
    let mut p = ExtBuilder::default()
        .one_hundred_for_alice_n_bob_n_serper_n_settpay()
        .build();
    assert!(p.withdraw(DNAR, ALICE, 100).is_ok());
    assert_eq!(p.total_balance(DNAR, ALICE), 0);
    assert_eq!(p.total_issuance(DNAR), 300);
}

#[test]
fn stp258_asset_adapting_pallet_balances_slash() {
    let mut p = ExtBuilder::default()
        .one_hundred_for_alice_n_bob_n_serper_n_settpay()
        .build();
    assert_eq!(p.slash(DNAR, ALICE, 101), 1);
    assert_eq!(p.total_balance(DNAR, ALICE), 0);
    assert_eq!(p.total_issuance(DNAR), 300);
}

#[test]
fn stp258_asset_adapting_pallet_balances_update_balance() {
    let mut p = ExtBuilder::default()
        .one_hundred_for_alice_n_bob_n_serper_n_settpay()
        .build();
    assert!(p.do_update_balance(DNAR, ALICE, -10).is_ok());
    assert_eq!(p.total_balance(DNAR, ALICE), 90);
    assert_eq!(p.total_issuance(DNAR), 390);
}

#[test]
fn withdraw_fails_with_balance_too_low() {
    let mut p = ExtBuilder::default()
        .one_hundred_for_alice_n_bob_n_serper_n_settpay()
        .build();
    assert_eq!(p.withdraw(DNAR, ALICE, 101), Err(Error::BalanceTooLow));
    assert_eq!(p.free_balance(DNAR, ALICE), 100);
}

#[test]
fn deposit_fails_with_supply_overflow() {
    let mut p = ExtBuilder::default()
        .one_hundred_for_alice_n_bob_n_serper_n_settpay()
        .build();
    assert_eq!(p.deposit(DNAR, ALICE, u64::MAX), Err(Error::SupplyOverflow));
    assert_eq!(p.free_balance(DNAR, ALICE), 100);
    assert_eq!(p.total_issuance(DNAR), 400);
}

#[test]
fn update_balance_fails_with_amount_conversion_failed() {
    let mut p = ExtBuilder::default()
        .one_hundred_for_alice_n_bob_n_serper_n_settpay()
        .build();
    assert_eq!(
        p.do_update_balance(JUSD, ALICE, i64::MIN),
        Err(Error::AmountConversionFailed)
    );
    assert_eq!(p.free_balance(JUSD, ALICE), 100_000);
}

#[test]
fn locks_freeze_free_balance() {
    let mut p = ExtBuilder::default()
        .one_hundred_for_alice_n_bob_n_serper_n_settpay()
        .build();
    assert!(p.set_lock(lock_id_one(), DNAR, ALICE, 60).is_ok());
    assert_eq!(p.withdraw(DNAR, ALICE, 50), Err(Error::BalanceTooLow));
    assert!(p.withdraw(DNAR, ALICE, 40).is_ok());
    assert_eq!(p.free_balance(DNAR, ALICE), 60);
}

#[test]
fn extend_lock_never_lowers_a_hold() {
    let mut p = ExtBuilder::default()
        .one_hundred_for_alice_n_bob_n_serper_n_settpay()
        .build();
    assert!(p.set_lock(lock_id_one(), DNAR, ALICE, 50).is_ok());
    assert!(p.extend_lock(lock_id_one(), DNAR, ALICE, 30).is_ok());
    assert_eq!(p.locks(DNAR, ALICE)[0].amount, 50);
    assert!(p.extend_lock(lock_id_one(), DNAR, ALICE, 80).is_ok());
    assert_eq!(p.locks(DNAR, ALICE)[0].amount, 80);
    assert_eq!(p.locks(DNAR, ALICE).len(), 1);
}

#[test]
fn unreserve_returns_the_uncovered_remainder() {
    let mut p = ExtBuilder::default()
        .one_hundred_for_alice_n_bob_n_serper_n_settpay()
        .build();
    assert!(p.reserve(DNAR, ALICE, 40).is_ok());
    assert_eq!(p.unreserve(DNAR, ALICE, 70), 30);
    assert_eq!(p.free_balance(DNAR, ALICE), 100);
    assert_eq!(p.reserved_balance(DNAR, ALICE), 0);
}

#[test]
fn repatriate_reserved_moves_into_free_or_reserved() {
    let mut p = ExtBuilder::default()
        .one_hundred_for_alice_n_bob_n_serper_n_settpay()
        .build();
    assert!(p.reserve(DNAR, ALICE, 60).is_ok());
    assert_eq!(
        p.repatriate_reserved(DNAR, ALICE, BOB, 40, stp258_standard::types::BalanceStatus::Free),
        Ok(0)
    );
    assert_eq!(p.free_balance(DNAR, BOB), 140);
    assert_eq!(
        p.repatriate_reserved(
            DNAR,
            ALICE,
            BOB,
            50,
            stp258_standard::types::BalanceStatus::Reserved
        ),
        Ok(30)
    );
    assert_eq!(p.reserved_balance(DNAR, BOB), 20);
    assert_eq!(p.reserved_balance(DNAR, ALICE), 0);
}
