use nft_payout::payout::{Contract, PayoutError, Payouts};
use nft_payout::types::{apply_basis_point, FULL_BASIS_POINT};

/// One whole unit of the ledger's currency, in its smallest denomination.
const ONE_NEAR: u128 = 1_000_000_000_000_000_000_000_000;

fn accounts(id: usize) -> String {
    ["alice", "bob", "charlie", "danny", "eugene", "fargo"][id].to_string()
}

#[test]
fn test_no_creator_royalty() {
    let alice = accounts(2);
    let mut contract = Contract::new(None, None);
    let token_id = "0".to_string();
    contract.set_owner(&token_id, alice.clone());

    let balance = ONE_NEAR;
    let payout = contract.nft_payout(token_id, balance, Some(10)).unwrap();

    // alice should get all payment
    assert_eq!(payout.len(), 1);
    assert_eq!(payout.get(&alice).unwrap(), balance);
}

#[test]
fn test_creator_royalty() {
    let creator = accounts(1);
    let alice = accounts(2);
    let mut contract = Contract::new(Some(creator.clone()), Some(FULL_BASIS_POINT / 10));
    let token_id = "0".to_string();
    contract.set_owner(&token_id, alice.clone());

    let balance = ONE_NEAR;
    let payout = contract.nft_payout(token_id, balance, Some(10)).unwrap();

    // alice should get 90% and creator get 10%
    assert_eq!(payout.len(), 2);
    assert_eq!(payout.get(&alice).unwrap(), balance * 9 / 10);
    assert_eq!(payout.get(&creator).unwrap(), balance / 10);
}

#[test]
fn payout_without_creator_pays_owner_in_full() {
    let mut contract = Contract::new(None, None);
    let token_id = "token".to_string();
    contract.set_owner(&token_id, "alice".to_string());

    let payout = contract.nft_payout(token_id, 1_000_000, None).unwrap();

    assert_eq!(payout.len(), 1);
    assert_eq!(payout.get(&"alice".to_string()), Some(1_000_000));
}

#[test]
fn payout_with_creator_splits_ten_percent() {
    let mut contract = Contract::new(Some("bob".to_string()), Some(1_000));
    let token_id = "token".to_string();
    contract.set_owner(&token_id, "alice".to_string());

    let payout = contract.nft_payout(token_id, 1_000_000, None).unwrap();

    assert_eq!(payout.len(), 2);
    assert_eq!(payout.get(&"bob".to_string()), Some(100_000));
    assert_eq!(payout.get(&"alice".to_string()), Some(900_000));

    // the order of entries is stable: the creator's share comes first
    let entries = payout.entries();
    assert_eq!(entries[0], ("bob".to_string(), 100_000));
    assert_eq!(entries[1], ("alice".to_string(), 900_000));
}

#[test]
fn payout_conserves_balance_on_uneven_split() {
    let mut contract = Contract::new(Some("bob".to_string()), Some(3_333));
    let token_id = "token".to_string();
    contract.set_owner(&token_id, "alice".to_string());

    let payout = contract.nft_payout(token_id, 999, None).unwrap();

    let creator_share = payout.get(&"bob".to_string()).unwrap();
    let owner_share = payout.get(&"alice".to_string()).unwrap();
    assert_eq!(creator_share, 999 * 3_333 / 10_000);
    assert_eq!(creator_share + owner_share, 999);
}

#[test]
fn payout_creator_same_as_owner_collapses_to_full_balance() {
    let mut contract = Contract::new(Some("alice".to_string()), Some(2_500));
    let token_id = "token".to_string();
    contract.set_owner(&token_id, "alice".to_string());

    let payout = contract.nft_payout(token_id, 1_000_000, None).unwrap();

    assert_eq!(payout.len(), 1);
    assert_eq!(payout.get(&"alice".to_string()), Some(1_000_000));
}

#[test]
fn payout_zero_max_len_is_invalid_argument() {
    let mut contract = Contract::new(None, None);
    let token_id = "token".to_string();
    contract.set_owner(&token_id, "alice".to_string());

    assert!(matches!(
        contract.nft_payout(token_id.clone(), 1_000_000, Some(0)),
        Err(PayoutError::InvalidArgument)
    ));

    // the same cap is rejected even when the token does not exist
    assert!(matches!(
        contract.nft_payout("missing".to_string(), 5, Some(0)),
        Err(PayoutError::InvalidArgument)
    ));
}

#[test]
fn payout_unknown_token_is_not_found() {
    let contract = Contract::new(None, None);

    assert!(matches!(
        contract.nft_payout("missing".to_string(), 1_000_000, Some(10)),
        Err(PayoutError::NotFound)
    ));
}

#[test]
fn payout_cap_below_entry_count_is_limit_exceeded() {
    let mut contract = Contract::new(Some("bob".to_string()), Some(1_000));
    let token_id = "token".to_string();
    contract.set_owner(&token_id, "alice".to_string());

    assert!(matches!(
        contract.nft_payout(token_id.clone(), 1_000_000, Some(1)),
        Err(PayoutError::LimitExceeded)
    ));

    // a cap of two admits the two entries
    assert!(contract.nft_payout(token_id, 1_000_000, Some(2)).is_ok());
}

#[test]
fn payout_is_idempotent_for_identical_inputs() {
    let mut contract = Contract::new(Some("bob".to_string()), Some(1_000));
    let token_id = "token".to_string();
    contract.set_owner(&token_id, "alice".to_string());

    let first = contract.nft_payout(token_id.clone(), 1_000_000, Some(10)).unwrap();
    let second = contract.nft_payout(token_id, 1_000_000, Some(10)).unwrap();

    assert_eq!(first.len(), second.len());
    assert_eq!(first.get(&"alice".to_string()), second.get(&"alice".to_string()));
    assert_eq!(first.get(&"bob".to_string()), second.get(&"bob".to_string()));
}

#[test]
fn transfer_payout_without_attachment_is_unauthorized() {
    let mut contract = Contract::new(None, None);
    let token_id = "token".to_string();
    contract.set_owner(&token_id, "alice".to_string());

    let result = contract.nft_transfer_payout(
        "bob".to_string(),
        token_id.clone(),
        None,
        None,
        1_000_000,
        Some(10),
        0,
        true,
    );

    assert!(matches!(result, Err(PayoutError::Unauthorized)));
    // ownership is unchanged
    assert_eq!(contract.lookup_owner(&token_id), Some("alice".to_string()));
}

#[test]
fn transfer_payout_with_oversized_attachment_is_unauthorized() {
    let mut contract = Contract::new(None, None);
    let token_id = "token".to_string();
    contract.set_owner(&token_id, "alice".to_string());

    let result = contract.nft_transfer_payout(
        "bob".to_string(),
        token_id.clone(),
        None,
        None,
        1_000_000,
        Some(10),
        2,
        true,
    );

    assert!(matches!(result, Err(PayoutError::Unauthorized)));
    assert_eq!(contract.lookup_owner(&token_id), Some("alice".to_string()));
}

#[test]
fn transfer_payout_rejected_transfer_returns_no_payout() {
    let mut contract = Contract::new(Some("bob".to_string()), Some(1_000));
    let token_id = "token".to_string();
    contract.set_owner(&token_id, "alice".to_string());

    // the payout is computable, yet a refused transfer discards it
    let result = contract.nft_transfer_payout(
        "carol".to_string(),
        token_id.clone(),
        Some(7),
        None,
        1_000_000,
        Some(10),
        1,
        false,
    );

    assert!(matches!(result, Err(PayoutError::TransferRejected)));
    assert_eq!(contract.lookup_owner(&token_id), Some("alice".to_string()));
}

#[test]
fn transfer_payout_failing_query_precedes_transfer() {
    let mut contract = Contract::new(None, None);
    let token_id = "token".to_string();
    contract.set_owner(&token_id, "alice".to_string());

    // the query's own failure comes through, and nothing moves
    let result = contract.nft_transfer_payout(
        "bob".to_string(),
        token_id.clone(),
        None,
        None,
        1_000_000,
        Some(0),
        1,
        true,
    );

    assert!(matches!(result, Err(PayoutError::InvalidArgument)));
    assert_eq!(contract.lookup_owner(&token_id), Some("alice".to_string()));
}

#[test]
fn transfer_payout_success_moves_token_and_pays_previous_owner() {
    let mut contract = Contract::new(Some("bob".to_string()), Some(1_000));
    let token_id = "token".to_string();
    contract.set_owner(&token_id, "alice".to_string());
    contract.set_owner(&"other".to_string(), "danny".to_string());

    let payout = contract
        .nft_transfer_payout(
            "carol".to_string(),
            token_id.clone(),
            Some(1),
            Some("sale".to_string()),
            1_000_000,
            Some(10),
            1,
            true,
        )
        .unwrap();

    // the payout was computed from the pre-transfer owner
    assert_eq!(payout.len(), 2);
    assert_eq!(payout.get(&"alice".to_string()), Some(900_000));
    assert_eq!(payout.get(&"bob".to_string()), Some(100_000));

    // the token changed hands, and no other record moved
    assert_eq!(contract.lookup_owner(&token_id), Some("carol".to_string()));
    assert_eq!(contract.lookup_owner(&"other".to_string()), Some("danny".to_string()));
}

#[test]
fn set_owner_replaces_an_existing_record() {
    let mut contract = Contract::new(None, None);
    let token_id = "token".to_string();
    contract.set_owner(&token_id, "alice".to_string());
    contract.set_owner(&token_id, "bob".to_string());

    assert_eq!(contract.lookup_owner(&token_id), Some("bob".to_string()));

    let payout = contract.nft_payout(token_id, 42, None).unwrap();
    assert_eq!(payout.len(), 1);
    assert_eq!(payout.get(&"bob".to_string()), Some(42));
}

#[test]
fn apply_basis_point_exact_values() {
    assert_eq!(apply_basis_point(1_000_000, 1_000), 100_000);
    assert_eq!(apply_basis_point(1_000_000, FULL_BASIS_POINT), 1_000_000);
    assert_eq!(apply_basis_point(1_000_000, 0), 0);
    // rounding is toward zero
    assert_eq!(apply_basis_point(999, 1), 0);
    assert_eq!(apply_basis_point(10_001, 9_999), 9_999);
}

#[test]
fn apply_basis_point_does_not_overflow_at_the_maximum_balance() {
    assert_eq!(apply_basis_point(u128::MAX, FULL_BASIS_POINT), u128::MAX);
    assert_eq!(apply_basis_point(u128::MAX, 5_000), u128::MAX / 2);
    assert_eq!(apply_basis_point(u128::MAX, 0), 0);
}
