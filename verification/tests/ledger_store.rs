use nft_ledger::account_identifier::ShikuAccountIdentifier;
use nft_ledger::ledger::Ledger;
use nft_ledger::types::NftError;
use nft_ledger::types::TokenMetadata;

fn acct(n: u8) -> ShikuAccountIdentifier {
    ShikuAccountIdentifier([n; 32])
}

fn record(id: u64, owner: ShikuAccountIdentifier) -> TokenMetadata {
    TokenMetadata {
        token_identifier: id,
        owner: Some(owner),
        operator: Some(owner),
        is_burned: false,
        properties: None,
        minted_at: 0,
        minted_by: owner,
        transferred_at: None,
        transferred_by: None,
        approved_at: None,
        approved_by: None,
        burned_at: None,
        burned_by: None,
        status: 1,
    }
}

#[test]
fn store_insert_lookup_and_replace() {
    let mut ledger = Ledger::default();
    let a = acct(1);
    let b = acct(2);
    assert!(!ledger.is_token_existed(&7));
    assert_eq!(ledger.token_metadata(&7).unwrap_err(), NftError::TokenNotFound);
    assert_eq!(ledger.owner_of(&7).unwrap_err(), NftError::TokenNotFound);

    ledger.add_token_metadata(&7, record(7, a));
    assert!(ledger.is_token_existed(&7));
    assert_eq!(ledger.tokens_count(), 1);
    assert_eq!(ledger.token_metadata(&7).unwrap().owner, Some(a));
    assert_eq!(ledger.owner_of(&7).unwrap(), Some(a));
    assert_eq!(ledger.operator_of(&7).unwrap(), Some(a));

    // Re-inserting the same identifier replaces the record.
    ledger.add_token_metadata(&7, record(7, b));
    assert_eq!(ledger.tokens_count(), 1);
    assert_eq!(ledger.owner_of(&7).unwrap(), Some(b));
}

#[test]
fn reindex_moves_and_drops_buckets() {
    let mut ledger = Ledger::default();
    let a = acct(1);
    let b = acct(2);

    ledger.update_owner_cache(&7, None, Some(a));
    ledger.update_owner_cache(&8, None, Some(a));
    let mut ids = ledger.owner_token_identifiers(&a).unwrap().clone();
    ids.sort();
    assert_eq!(ids, vec![7, 8]);
    assert_eq!(ledger.owners_count(), 1);

    // Moving a token creates the target bucket and shrinks the source.
    ledger.update_owner_cache(&7, Some(a), Some(b));
    assert_eq!(ledger.owner_token_identifiers(&a).unwrap(), &vec![8]);
    assert_eq!(ledger.owner_token_identifiers(&b).unwrap(), &vec![7]);
    assert_eq!(ledger.owners_count(), 2);

    // Removing the last token drops the account's entry entirely.
    ledger.update_owner_cache(&8, Some(a), None);
    assert_eq!(
        ledger.owner_token_identifiers(&a).unwrap_err(),
        NftError::OwnerNotFound
    );
    assert_eq!(ledger.owners_count(), 1);

    // Re-indexing an already indexed token does not duplicate it.
    ledger.update_owner_cache(&7, Some(b), Some(b));
    assert_eq!(ledger.owner_token_identifiers(&b).unwrap(), &vec![7]);
}

#[test]
fn operator_index_mirrors_owner_index_behavior() {
    let mut ledger = Ledger::default();
    let a = acct(1);
    ledger.update_operator_cache(&3, None, Some(a));
    assert_eq!(ledger.operator_token_identifier(&a).unwrap(), &vec![3]);
    ledger.update_operator_cache(&3, Some(a), None);
    assert_eq!(
        ledger.operator_token_identifier(&a).unwrap_err(),
        NftError::OperatorNotFound
    );
}

#[test]
fn inc_tx_returns_new_value() {
    let mut ledger = Ledger::default();
    assert_eq!(ledger.inc_tx(), 1);
    assert_eq!(ledger.inc_tx(), 2);
    assert_eq!(ledger.tx_count, 2);
}

#[test]
fn registry_copy_reflects_rows() {
    let mut ledger = Ledger::default();
    ledger.idx2aid.push((4, String::from("row")));
    let rows = ledger.get_registry();
    assert_eq!(rows, vec![(4, String::from("row"))]);
    assert_eq!(ledger.metadata().created_at, 0);
}
