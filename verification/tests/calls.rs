//! The origin-checked dispatch entries, the event log and the price store.

use stp258_standard::builder::{ExtBuilder, ALICE, BOB, DNAR, JUSD, SETT};
use stp258_standard::currency::SettCurrency;
use stp258_standard::types::{Error, Event, Origin, DEFAULT_PRICE};

#[test]
fn stp258_currency_should_work() {
    let mut p = ExtBuilder::default()
        .one_hundred_for_alice_n_bob_n_serper_n_settpay()
        .build();
    assert!(p.transfer(Origin::Signed(ALICE), BOB, SETT, 50 * 10_000).is_ok());
    assert_eq!(p.free_balance(SETT, ALICE), 50 * 10_000);
    assert_eq!(p.free_balance(SETT, BOB), 150 * 10_000);
}

#[test]
fn stp258_currency_extended_should_work() {
    let mut p = ExtBuilder::default()
        .one_hundred_for_alice_n_bob_n_serper_n_settpay()
        .build();
    assert!(p.do_update_balance(SETT, ALICE, 50 * 10_000).is_ok());
    assert_eq!(p.free_balance(SETT, ALICE), 150 * 10_000);
}

#[test]
fn stp258_native_should_work() {
    let mut p = ExtBuilder::default()
        .one_hundred_for_alice_n_bob_n_serper_n_settpay()
        .build();
    let native = SettCurrency::new(DNAR);
    assert!(p.transfer_native_currency(Origin::Signed(ALICE), BOB, 50).is_ok());
    assert_eq!(native.free_balance(&p, ALICE), 50);
    assert_eq!(native.free_balance(&p, BOB), 150);

    assert!(native.transfer(&mut p, ALICE, BOB, 10).is_ok());
    assert_eq!(native.free_balance(&p, ALICE), 40);
    assert_eq!(native.free_balance(&p, BOB), 160);

    assert_eq!(p.slash(DNAR, ALICE, 10), 0);
    assert_eq!(native.free_balance(&p, ALICE), 30);
    assert_eq!(native.total_issuance(&p), 390);
}

#[test]
fn stp258_native_extended_should_work() {
    let mut p = ExtBuilder::default()
        .one_hundred_for_alice_n_bob_n_serper_n_settpay()
        .build();
    let native = SettCurrency::new(DNAR);
    assert!(native.update_balance(&mut p, ALICE, 10).is_ok());
    assert_eq!(native.free_balance(&p, ALICE), 110);

    assert!(p.do_update_balance(DNAR, ALICE, 10).is_ok());
    assert_eq!(native.free_balance(&p, ALICE), 120);
}

#[test]
fn update_balance_call_should_work() {
    let mut p = ExtBuilder::default()
        .one_hundred_for_alice_n_bob_n_serper_n_settpay()
        .build();
    let native = SettCurrency::new(DNAR);
    assert!(p.update_balance(Origin::Root, ALICE, DNAR, -10).is_ok());
    assert_eq!(native.free_balance(&p, ALICE), 90);
    assert_eq!(p.free_balance(SETT, ALICE), 100 * 10_000);
    assert!(p.update_balance(Origin::Root, ALICE, SETT, 10 * 10_000).is_ok());
    assert_eq!(p.free_balance(SETT, ALICE), 110 * 10_000);
}

#[test]
fn update_balance_call_fails_if_not_root_origin() {
    let mut p = ExtBuilder::default().build();
    assert_eq!(
        p.update_balance(Origin::Signed(ALICE), ALICE, SETT, 100 * 10_000),
        Err(Error::Unauthorized)
    );
    assert_eq!(p.free_balance(SETT, ALICE), 0);
}

#[test]
fn call_event_should_work() {
    let mut p = ExtBuilder::default()
        .one_hundred_for_alice_n_bob_n_serper_n_settpay()
        .build();
    p.set_block_number(1);

    assert!(p.transfer(Origin::Signed(ALICE), BOB, SETT, 50 * 10_000).is_ok());
    assert_eq!(p.free_balance(SETT, ALICE), 50 * 10_000);
    assert_eq!(p.free_balance(SETT, BOB), 150 * 10_000);
    let transferred_event = Event::Transferred(SETT, ALICE, BOB, 50 * 10_000);
    assert!(p.events().iter().any(|e| *e == transferred_event));

    assert!(p.do_transfer(SETT, ALICE, BOB, 10 * 10_000).is_ok());
    assert_eq!(p.free_balance(SETT, ALICE), 40 * 10_000);
    assert_eq!(p.free_balance(SETT, BOB), 160 * 10_000);
    let transferred_event = Event::Transferred(SETT, ALICE, BOB, 10 * 10_000);
    assert!(p.events().iter().any(|e| *e == transferred_event));

    assert!(p.deposit(SETT, ALICE, 100 * 10_000).is_ok());
    assert_eq!(p.free_balance(SETT, ALICE), 140 * 10_000);
    let deposited_event = Event::Deposited(SETT, ALICE, 100 * 10_000);
    assert!(p.events().iter().any(|e| *e == deposited_event));

    assert!(p.withdraw(SETT, ALICE, 20 * 10_000).is_ok());
    assert_eq!(p.free_balance(SETT, ALICE), 120 * 10_000);
    let withdrawn_event = Event::Withdrawn(SETT, ALICE, 20 * 10_000);
    assert!(p.events().iter().any(|e| *e == withdrawn_event));
}

#[test]
fn transfer_fails_without_a_signed_origin() {
    let mut p = ExtBuilder::default()
        .one_hundred_for_alice_n_bob_n_serper_n_settpay()
        .build();
    assert_eq!(
        p.transfer(Origin::Root, BOB, SETT, 10),
        Err(Error::Unauthorized)
    );
    assert_eq!(p.free_balance(SETT, BOB), 100 * 10_000);
}

#[test]
fn set_price_stores_and_reports_prices() {
    let mut p = ExtBuilder::default().build();
    assert_eq!(p.fetch_price(SETT), DEFAULT_PRICE);
    assert!(p.set_price(Origin::Signed(ALICE), SETT, 42).is_ok());
    assert_eq!(p.fetch_price(SETT), 42);
    assert!(p.events().iter().any(|e| *e == Event::NewPrice(SETT, 42)));
}

#[test]
fn set_price_rejects_a_zero_price() {
    let mut p = ExtBuilder::default().build();
    assert_eq!(p.set_price(Origin::Signed(ALICE), SETT, 0), Err(Error::ZeroPrice));
    assert_eq!(p.fetch_price(SETT), DEFAULT_PRICE);
}

#[test]
fn set_basket_price_takes_the_mean_of_four() {
    let mut p = ExtBuilder::default().build();
    assert_eq!(p.basket_price(JUSD), DEFAULT_PRICE);
    assert!(p.set_basket_price(Origin::Signed(ALICE), JUSD, 10, 20, 30, 40).is_ok());
    assert_eq!(p.basket_price(JUSD), 25);
    assert!(p.events().iter().any(|e| *e == Event::NewPrice(JUSD, 25)));
}

#[test]
fn set_basket_price_rejects_the_native_currency() {
    let mut p = ExtBuilder::default().build();
    assert_eq!(
        p.set_basket_price(Origin::Signed(ALICE), DNAR, 10, 20, 30, 40),
        Err(Error::UnsupportedBasketCurrency)
    );
    assert_eq!(p.basket_price(DNAR), DEFAULT_PRICE);
}

#[test]
fn supply_parameters_are_config_reads() {
    let p = ExtBuilder::default().build();
    assert_eq!(p.minimum_supply(DNAR), None);
    assert_eq!(p.minimum_supply(SETT), Some(0));
    assert_eq!(p.initial_supply(DNAR), None);
    assert_eq!(p.initial_supply(SETT), Some(0));
    assert_eq!(p.minimum_balance(SETT), 0);
}
