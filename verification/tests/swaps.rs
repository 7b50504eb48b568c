//! The atomic swap engine: create, claim and cancel, with the hash lock and
//! the timeout.

use stp258_standard::builder::{ExtBuilder, ALICE, BOB, DNAR, SERPER};
use stp258_standard::swap::compute_hashed_proof;
use stp258_standard::types::{Error, Origin, SwapAction};

#[test]
fn create_swap_reserves_the_offered_value() {
    let mut p = ExtBuilder::default()
        .one_hundred_for_alice_n_bob_n_serper_n_settpay()
        .build();
    let hashed = compute_hashed_proof(&vec![4, 2]);
    let action = SwapAction { kind: 0 };
    assert!(p.create_swap(Origin::Signed(ALICE), BOB, DNAR, 50, hashed, action, 1000).is_ok());
    assert_eq!(p.free_balance(DNAR, ALICE), 50);
    assert_eq!(p.reserved_balance(DNAR, ALICE), 50);
    let sw = p.pending_swap(BOB, &hashed).unwrap();
    assert_eq!(sw.source, ALICE);
    assert_eq!(sw.value, 50);
    assert_eq!(sw.end_block, 1000);
}

#[test]
fn create_swap_twice_with_same_key_fails_with_already_exists() {
    let mut p = ExtBuilder::default()
        .one_hundred_for_alice_n_bob_n_serper_n_settpay()
        .build();
    let hashed = compute_hashed_proof(&vec![4, 2]);
    let action = SwapAction { kind: 0 };
    assert!(p.create_swap(Origin::Signed(ALICE), BOB, DNAR, 50, hashed, action, 1000).is_ok());
    assert_eq!(
        p.create_swap(Origin::Signed(SERPER), BOB, DNAR, 7, hashed, action, 5),
        Err(Error::AlreadyExists)
    );
    // the registry retains only the first record
    let sw = p.pending_swap(BOB, &hashed).unwrap();
    assert_eq!(sw.source, ALICE);
    assert_eq!(sw.value, 50);
    assert_eq!(p.free_balance(DNAR, SERPER), 100);
}

#[test]
fn claim_swap_moves_the_reserve_and_removes_the_entry() {
    let mut p = ExtBuilder::default()
        .one_hundred_for_alice_n_bob_n_serper_n_settpay()
        .build();
    let hashed = compute_hashed_proof(&vec![4, 2]);
    let action = SwapAction { kind: 0 };
    assert!(p.create_swap(Origin::Signed(ALICE), BOB, DNAR, 50, hashed, action, 1000).is_ok());
    assert_eq!(p.free_balance(DNAR, ALICE), 50);
    assert_eq!(p.reserved_balance(DNAR, ALICE), 50);

    assert!(p.claim_swap(Origin::Signed(BOB), &vec![4, 2], action).is_ok());
    assert_eq!(p.reserved_balance(DNAR, ALICE), 0);
    assert_eq!(p.free_balance(DNAR, BOB), 150);
    assert!(p.pending_swap(BOB, &hashed).is_none());

    // replaying the claim finds nothing
    assert_eq!(
        p.claim_swap(Origin::Signed(BOB), &vec![4, 2], action),
        Err(Error::SwapNotFound)
    );
}

#[test]
fn claim_swap_rejects_a_mismatched_action() {
    let mut p = ExtBuilder::default()
        .one_hundred_for_alice_n_bob_n_serper_n_settpay()
        .build();
    let hashed = compute_hashed_proof(&vec![4, 2]);
    assert!(p.create_swap(
        Origin::Signed(ALICE),
        BOB,
        DNAR,
        50,
        hashed,
        SwapAction { kind: 0 },
        1000
    ).is_ok());
    assert_eq!(
        p.claim_swap(Origin::Signed(BOB), &vec![4, 2], SwapAction { kind: 9 }),
        Err(Error::ClaimActionMismatch)
    );
    // the swap is still pending and the reserve untouched
    assert!(p.pending_swap(BOB, &hashed).is_some());
    assert_eq!(p.reserved_balance(DNAR, ALICE), 50);
}

#[test]
fn claim_swap_rejects_an_oversized_proof() {
    let mut p = ExtBuilder::default()
        .one_hundred_for_alice_n_bob_n_serper_n_settpay()
        .build();
    let long_proof = vec![7u8; 1025];
    assert_eq!(
        p.claim_swap(Origin::Signed(BOB), &long_proof, SwapAction { kind: 0 }),
        Err(Error::ProofTooLarge)
    );
}

#[test]
fn cancel_swap_respects_the_duration() {
    let mut p = ExtBuilder::default()
        .one_hundred_for_alice_n_bob_n_serper_n_settpay()
        .build();
    let hashed = compute_hashed_proof(&vec![4, 2]);
    let action = SwapAction { kind: 0 };
    assert!(p.create_swap(Origin::Signed(ALICE), BOB, DNAR, 50, hashed, action, 1000).is_ok());

    // before the end block the source cannot take the funds back
    assert_eq!(
        p.cancel_swap(Origin::Signed(ALICE), BOB, hashed),
        Err(Error::DurationNotPassed)
    );
    p.set_block_number(999);
    assert_eq!(
        p.cancel_swap(Origin::Signed(ALICE), BOB, hashed),
        Err(Error::DurationNotPassed)
    );

    // at the end block the swap is cancelled and the reserve restored
    p.set_block_number(1000);
    assert!(p.cancel_swap(Origin::Signed(ALICE), BOB, hashed).is_ok());
    assert_eq!(p.free_balance(DNAR, ALICE), 100);
    assert_eq!(p.reserved_balance(DNAR, ALICE), 0);
    assert!(p.pending_swap(BOB, &hashed).is_none());
}

#[test]
fn cancel_swap_rejects_a_stranger_and_an_unknown_key() {
    let mut p = ExtBuilder::default()
        .one_hundred_for_alice_n_bob_n_serper_n_settpay()
        .build();
    let hashed = compute_hashed_proof(&vec![4, 2]);
    let action = SwapAction { kind: 0 };
    assert!(p.create_swap(Origin::Signed(ALICE), BOB, DNAR, 50, hashed, action, 0).is_ok());
    assert_eq!(
        p.cancel_swap(Origin::Signed(SERPER), BOB, hashed),
        Err(Error::SourceMismatch)
    );
    let other = compute_hashed_proof(&vec![9, 9]);
    assert_eq!(
        p.cancel_swap(Origin::Signed(ALICE), BOB, other),
        Err(Error::SwapNotFound)
    );
}

#[test]
fn hashed_proof_is_a_real_digest() {
    // the well-known 256-bit Blake2b digest of the empty byte string
    let expected: [u8; 32] = [
        0x0e, 0x57, 0x51, 0xc0, 0x26, 0xe5, 0x43, 0xb2, 0xe8, 0xab, 0x2e, 0xb0, 0x60, 0x99,
        0xda, 0xa1, 0xd1, 0xe5, 0xdf, 0x47, 0x77, 0x8f, 0x77, 0x87, 0xfa, 0xab, 0x45, 0xcd,
        0xf1, 0x2f, 0xe3, 0xa8,
    ];
    assert_eq!(compute_hashed_proof(&Vec::new()), expected);
    // different secrets give different digests
    assert_ne!(
        compute_hashed_proof(&vec![4, 2]),
        compute_hashed_proof(&vec![4, 3])
    );
}

#[test]
fn create_swap_fails_when_the_reserve_does_not_cover() {
    let mut p = ExtBuilder::default()
        .one_hundred_for_alice_n_bob_n_serper_n_settpay()
        .build();
    let hashed = compute_hashed_proof(&vec![4, 2]);
    assert_eq!(
        p.create_swap(Origin::Signed(ALICE), BOB, DNAR, 101, hashed, SwapAction { kind: 0 }, 10),
        Err(Error::BalanceTooLow)
    );
    assert!(p.pending_swap(BOB, &hashed).is_none());
    assert_eq!(p.free_balance(DNAR, ALICE), 100);
    assert_eq!(p.reserved_balance(DNAR, ALICE), 0);
}
