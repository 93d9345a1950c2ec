use nft_ledger::dip721::TidState;
use nft_ledger::dip721::dip721_add_aid_idx;
use nft_ledger::dip721::dip721_custodians;
use nft_ledger::dip721::dip721_get_registry;
use nft_ledger::dip721::dip721_minted_info;
use nft_ledger::dip721::dip721_set_minter;
use nft_ledger::dip721::get_minter;
use nft_ledger::dip721::new_token_id;
use nft_ledger::dip721::restore_minted_info;
use nft_ledger::dip721::restore_tid_info;
use nft_ledger::dip721::tid_info;
use nft_ledger::ledger::Ledger;
use nft_ledger::types::CommonError;
use nft_ledger::types::MetaData;
use nft_ledger::types::PrincipalId;

#[test]
fn token_index_counter_advances_and_wraps() {
    let mut tid = TidState { next: 1 };
    assert_eq!(tid_info(&tid), 1);
    assert_eq!(new_token_id(&mut tid), 1);
    assert_eq!(new_token_id(&mut tid), 2);
    assert_eq!(tid_info(&tid), 3);
    restore_tid_info(&mut tid, 7);
    assert_eq!(tid_info(&tid), 10);
    let mut edge = TidState { next: u32::MAX };
    assert_eq!(new_token_id(&mut edge), u32::MAX);
    assert_eq!(tid_info(&edge), 0);
}

#[test]
fn registry_rows_insert_and_overwrite() {
    let mut ledger = Ledger::default();
    assert!(dip721_get_registry(&ledger).is_empty());
    dip721_add_aid_idx(&mut ledger, &5, &String::from("alpha"));
    dip721_add_aid_idx(&mut ledger, &9, &String::from("beta"));
    let rows = dip721_get_registry(&ledger);
    assert_eq!(rows.len(), 2);
    assert!(rows.contains(&(5, String::from("alpha"))));
    assert!(rows.contains(&(9, String::from("beta"))));
    dip721_add_aid_idx(&mut ledger, &5, &String::from("gamma"));
    let rows = dip721_get_registry(&ledger);
    assert_eq!(rows.len(), 2);
    assert!(rows.contains(&(5, String::from("gamma"))));
    assert!(!rows.contains(&(5, String::from("alpha"))));
}

#[test]
fn set_minter_requires_custodian() {
    let mut ledger = Ledger::default();
    let custodian = PrincipalId(vec![1, 2, 3]);
    let outsider = PrincipalId(vec![9, 9]);
    let first_minter = PrincipalId(vec![5]);
    let new_minter = PrincipalId(vec![6]);
    ledger.set_metadata(MetaData {
        name: Some(String::from("gallery")),
        logo: None,
        symbol: Some(String::from("GLR")),
        custodians: vec![custodian.clone()],
        created_at: 1,
        upgraded_at: 1,
    });
    assert_eq!(dip721_custodians(&ledger), vec![custodian.clone()]);

    let mut minter = first_minter.clone();
    let denied = dip721_set_minter(&ledger, &mut minter, &outsider, new_minter.clone());
    assert_eq!(
        denied,
        Err(CommonError::Other(String::from(
            "Only the caller can set the minter"
        )))
    );
    assert_eq!(minter, first_minter);
    assert_eq!(get_minter(&minter), first_minter);

    let granted = dip721_set_minter(&ledger, &mut minter, &custodian, new_minter.clone());
    assert_eq!(granted, Ok(()));
    assert_eq!(minter, new_minter);
}

#[test]
fn minted_info_copies_and_restore_discards() {
    let minted: Vec<u64> = vec![3, 1, 4];
    assert_eq!(dip721_minted_info(&minted), vec![3, 1, 4]);
    restore_minted_info(&minted, &vec![1, 5]);
    // The rebuilt list is discarded: the stored state is untouched.
    assert_eq!(minted, vec![3, 1, 4]);
}
