use nft_ledger::account_identifier::ShikuAccountIdentifier;
use nft_ledger::dip721::dip721_allowance;
use nft_ledger::dip721::dip721_approve;
use nft_ledger::dip721::dip721_balance_of;
use nft_ledger::dip721::dip721_burn;
use nft_ledger::dip721::dip721_mint;
use nft_ledger::dip721::dip721_owner_counts;
use nft_ledger::dip721::dip721_owner_of;
use nft_ledger::dip721::dip721_owner_token_identifiers;
use nft_ledger::dip721::dip721_operator_token_identifiers;
use nft_ledger::dip721::dip721_token_identitfier_operator;
use nft_ledger::dip721::dip721_token_metadata;
use nft_ledger::dip721::dip721_total_supply;
use nft_ledger::dip721::dip721_transfer_from;
use nft_ledger::ledger::Ledger;
use nft_ledger::types::CommonError;
use nft_ledger::types::NftError;

fn acct(n: u8) -> ShikuAccountIdentifier {
    ShikuAccountIdentifier([n; 32])
}

#[test]
fn mint_then_query() {
    let mut ledger = Ledger::default();
    let a = acct(1);
    let r = dip721_mint(&mut ledger, a, &7, 1000);
    assert_eq!(r, Ok(0));
    assert_eq!(dip721_owner_of(&ledger, 7), Ok(Some(a)));
    assert_eq!(dip721_balance_of(&ledger, a), Ok(1));
    assert_eq!(dip721_total_supply(&ledger), 1);
    assert_eq!(ledger.tx_count, 1);
    let m = dip721_token_metadata(&ledger, 7).unwrap();
    assert_eq!(m.token_identifier, 7);
    assert_eq!(m.owner, Some(a));
    assert_eq!(m.operator, Some(a));
    assert!(!m.is_burned);
    assert_eq!(m.minted_at, 1000);
    assert_eq!(m.minted_by, a);
    assert_eq!(m.status, 1);
}

#[test]
fn mint_existing_id_fails_and_leaves_state() {
    let mut ledger = Ledger::default();
    let a = acct(1);
    let b = acct(2);
    assert_eq!(dip721_mint(&mut ledger, a, &7, 1000), Ok(0));
    let r = dip721_mint(&mut ledger, b, &7, 2000);
    assert_eq!(r, Err(NftError::ExistedNFT));
    assert_eq!(ledger.tx_count, 1);
    assert_eq!(dip721_owner_of(&ledger, 7), Ok(Some(a)));
    assert_eq!(dip721_total_supply(&ledger), 1);
    assert!(dip721_balance_of(&ledger, b).is_err());
}

#[test]
fn transfer_requires_owner_and_operator() {
    let mut ledger = Ledger::default();
    let a = acct(1);
    let b = acct(2);
    assert_eq!(dip721_mint(&mut ledger, a, &7, 1000), Ok(0));
    let r = dip721_transfer_from(&mut ledger, a, b, 7, 2000);
    assert_eq!(r, Ok(1));
    assert_eq!(dip721_owner_of(&ledger, 7), Ok(Some(b)));
    assert_eq!(dip721_operator_token_identifiers(&ledger, 7), Ok(Some(b)));
    assert_eq!(dip721_balance_of(&ledger, a), Err(NftError::OwnerNotFound));
    assert_eq!(dip721_balance_of(&ledger, b), Ok(1));
    assert_eq!(ledger.tx_count, 2);
    let m = dip721_token_metadata(&ledger, 7).unwrap();
    assert_eq!(m.transferred_at, Some(2000));
    assert_eq!(m.transferred_by, Some(a));
}

#[test]
fn self_transfer_rejected() {
    let mut ledger = Ledger::default();
    let a = acct(1);
    assert_eq!(dip721_mint(&mut ledger, a, &7, 1000), Ok(0));
    let r = dip721_transfer_from(&mut ledger, a, a, 7, 2000);
    assert_eq!(r, Err(NftError::UnauthorizedOwner));
    assert_eq!(ledger.tx_count, 1);
    assert_eq!(dip721_owner_of(&ledger, 7), Ok(Some(a)));
    assert_eq!(dip721_balance_of(&ledger, a), Ok(1));
}

#[test]
fn transfer_by_non_owner_rejected() {
    let mut ledger = Ledger::default();
    let a = acct(1);
    let b = acct(2);
    let c = acct(3);
    assert_eq!(dip721_mint(&mut ledger, a, &7, 1000), Ok(0));
    assert_eq!(
        dip721_transfer_from(&mut ledger, b, c, 7, 2000),
        Err(NftError::UnauthorizedOwner)
    );
    assert_eq!(ledger.tx_count, 1);
}

#[test]
fn transfer_by_owner_without_operator_role_rejected() {
    let mut ledger = Ledger::default();
    let a = acct(1);
    let b = acct(2);
    let c = acct(3);
    assert_eq!(dip721_mint(&mut ledger, a, &7, 1000), Ok(0));
    // Delegate the token away: the owner is no longer its operator.
    assert_eq!(dip721_approve(&mut ledger, a, c, 7, 1500), Ok(1));
    assert_eq!(
        dip721_transfer_from(&mut ledger, a, b, 7, 2000),
        Err(NftError::UnauthorizedOperator)
    );
    assert_eq!(ledger.tx_count, 2);
    assert_eq!(dip721_owner_of(&ledger, 7), Ok(Some(a)));
}

#[test]
fn transfer_missing_token_rejected() {
    let mut ledger = Ledger::default();
    let a = acct(1);
    let b = acct(2);
    assert_eq!(
        dip721_transfer_from(&mut ledger, a, b, 7, 2000),
        Err(NftError::OwnerNotFound)
    );
    assert_eq!(ledger.tx_count, 0);
}

#[test]
fn approve_then_allowance() {
    let mut ledger = Ledger::default();
    let a = acct(1);
    let c = acct(3);
    let d = acct(4);
    assert_eq!(dip721_mint(&mut ledger, a, &7, 1000), Ok(0));
    let r = dip721_approve(&mut ledger, a, c, 7, 2000);
    assert_eq!(r, Ok(1));
    assert_eq!(dip721_operator_token_identifiers(&ledger, 7), Ok(Some(c)));
    assert_eq!(dip721_allowance(&ledger, &a, &c, &7), Ok(1));
    assert_eq!(dip721_allowance(&ledger, &a, &d, &7), Ok(0));
    let m = dip721_token_metadata(&ledger, 7).unwrap();
    assert_eq!(m.approved_at, Some(2000));
    assert_eq!(m.approved_by, Some(a));
    // The operator index moved the token from a's bucket to c's.
    assert_eq!(dip721_token_identitfier_operator(&ledger, &c).unwrap(), &vec![7]);
    assert!(dip721_token_identitfier_operator(&ledger, &a).is_err());
}

#[test]
fn allowance_wrong_owner_rejected() {
    let mut ledger = Ledger::default();
    let a = acct(1);
    let b = acct(2);
    let c = acct(3);
    assert_eq!(dip721_mint(&mut ledger, a, &7, 1000), Ok(0));
    assert_eq!(
        dip721_allowance(&ledger, &b, &c, &7),
        Err(CommonError::Other("Invalid Owner".to_string()))
    );
}

#[test]
fn self_approve_rejected() {
    let mut ledger = Ledger::default();
    let a = acct(1);
    assert_eq!(dip721_mint(&mut ledger, a, &7, 1000), Ok(0));
    assert_eq!(
        dip721_approve(&mut ledger, a, a, 7, 2000),
        Err(NftError::SelfApprove)
    );
    assert_eq!(ledger.tx_count, 1);
}

#[test]
fn approve_by_non_owner_rejected() {
    let mut ledger = Ledger::default();
    let a = acct(1);
    let b = acct(2);
    let c = acct(3);
    assert_eq!(dip721_mint(&mut ledger, a, &7, 1000), Ok(0));
    assert_eq!(
        dip721_approve(&mut ledger, b, c, 7, 2000),
        Err(NftError::UnauthorizedOwner)
    );
    assert_eq!(
        dip721_approve(&mut ledger, b, c, 9, 2000),
        Err(NftError::OwnerNotFound)
    );
    assert_eq!(ledger.tx_count, 1);
}

#[test]
fn burn_then_requery() {
    let mut ledger = Ledger::default();
    let a = acct(1);
    let b = acct(2);
    assert_eq!(dip721_mint(&mut ledger, a, &7, 1000), Ok(0));
    assert_eq!(dip721_transfer_from(&mut ledger, a, b, 7, 2000), Ok(1));
    let r = dip721_burn(&mut ledger, b, 7, 3000);
    assert_eq!(r, Ok(2));
    assert_eq!(dip721_owner_of(&ledger, 7), Ok(None));
    assert_eq!(dip721_operator_token_identifiers(&ledger, 7), Ok(None));
    let m = dip721_token_metadata(&ledger, 7).unwrap();
    assert!(m.is_burned);
    assert_eq!(m.burned_at, Some(3000));
    assert_eq!(m.burned_by, Some(b));
    // The token is gone from every index bucket, but still counted.
    assert_eq!(dip721_balance_of(&ledger, b), Err(NftError::OwnerNotFound));
    assert!(dip721_owner_token_identifiers(&ledger, &b).is_err());
    assert!(dip721_token_identitfier_operator(&ledger, &b).is_err());
    assert_eq!(dip721_total_supply(&ledger), 1);
    assert_eq!(ledger.tx_count, 3);
}

#[test]
fn burn_is_terminal() {
    let mut ledger = Ledger::default();
    let a = acct(1);
    let b = acct(2);
    assert_eq!(dip721_mint(&mut ledger, a, &7, 1000), Ok(0));
    assert_eq!(dip721_burn(&mut ledger, a, 7, 2000), Ok(1));
    // No mutating operation touches the burned record again.
    assert_eq!(dip721_mint(&mut ledger, b, &7, 3000), Err(NftError::ExistedNFT));
    assert_eq!(
        dip721_transfer_from(&mut ledger, a, b, 7, 3000),
        Err(NftError::UnauthorizedOwner)
    );
    assert_eq!(
        dip721_approve(&mut ledger, a, b, 7, 3000),
        Err(NftError::UnauthorizedOwner)
    );
    assert_eq!(dip721_burn(&mut ledger, a, 7, 3000), Err(NftError::UnauthorizedOwner));
    let m = dip721_token_metadata(&ledger, 7).unwrap();
    assert!(m.is_burned);
    assert_eq!(m.owner, None);
    assert_eq!(m.operator, None);
    assert_eq!(m.burned_at, Some(2000));
    assert_eq!(ledger.tx_count, 2);
}

#[test]
fn burn_missing_or_foreign_token_rejected() {
    let mut ledger = Ledger::default();
    let a = acct(1);
    let b = acct(2);
    assert_eq!(dip721_burn(&mut ledger, a, 7, 1000), Err(NftError::OwnerNotFound));
    assert_eq!(dip721_mint(&mut ledger, a, &7, 1000), Ok(0));
    assert_eq!(dip721_burn(&mut ledger, b, 7, 2000), Err(NftError::UnauthorizedOwner));
    assert_eq!(ledger.tx_count, 1);
}

#[test]
fn counter_counts_only_successful_mutations() {
    let mut ledger = Ledger::default();
    let a = acct(1);
    let b = acct(2);
    assert_eq!(ledger.tx_count, 0);
    assert_eq!(dip721_mint(&mut ledger, a, &1, 10), Ok(0));
    assert_eq!(dip721_mint(&mut ledger, a, &1, 10), Err(NftError::ExistedNFT));
    assert_eq!(dip721_mint(&mut ledger, a, &2, 11), Ok(1));
    assert_eq!(dip721_transfer_from(&mut ledger, a, b, 1, 12), Ok(2));
    assert_eq!(dip721_transfer_from(&mut ledger, a, b, 1, 13), Err(NftError::UnauthorizedOwner));
    assert_eq!(dip721_burn(&mut ledger, b, 1, 14), Ok(3));
    // Queries leave the counter alone.
    let _ = dip721_total_supply(&ledger);
    let _ = dip721_balance_of(&ledger, a);
    let _ = dip721_owner_of(&ledger, 2);
    assert_eq!(ledger.tx_count, 4);
}

#[test]
fn owner_counts_tracks_distinct_owners() {
    let mut ledger = Ledger::default();
    let a = acct(1);
    let b = acct(2);
    assert_eq!(dip721_owner_counts(&ledger), 0);
    assert_eq!(dip721_mint(&mut ledger, a, &1, 10), Ok(0));
    assert_eq!(dip721_mint(&mut ledger, a, &2, 11), Ok(1));
    assert_eq!(dip721_mint(&mut ledger, b, &3, 12), Ok(2));
    assert_eq!(dip721_owner_counts(&ledger), 2);
    let owned = dip721_owner_token_identifiers(&ledger, &a).unwrap();
    let mut ids = owned.clone();
    ids.sort();
    assert_eq!(ids, vec![1, 2]);
}
