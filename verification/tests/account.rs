use nft_ledger::account_identifier::AccountIdParseError;
use nft_ledger::account_identifier::ShikuAccountIdentifier;
use nft_ledger::types::PrincipalId;
use nft_ledger::types::User;
use nft_ledger::types::pid2aid;

use candid::Principal;
use ic_ledger_types::AccountIdentifier;
use ic_ledger_types::Subaccount;

fn reference_account(principal: &Principal) -> [u8; 32] {
    *AccountIdentifier::new(principal, &Subaccount([0u8; 32])).as_bytes()
}

#[test]
fn generate_checksum_matches_crc32() {
    let mut bytes = [0u8; 32];
    for (i, b) in bytes.iter_mut().enumerate() {
        *b = i as u8;
    }
    let account = ShikuAccountIdentifier(bytes);
    let expected = crc32fast::hash(&bytes[4..32]).to_be_bytes();
    assert_eq!(account.generate_checksum(), expected);
}

#[test]
fn to_hex_matches_hex_encode() {
    let bytes = [0xabu8; 32];
    let account = ShikuAccountIdentifier(bytes);
    assert_eq!(account.to_hex(), hex::encode(bytes));
}

#[test]
fn from_hex_accepts_valid_account() {
    let reference = reference_account(&Principal::anonymous());
    let text = hex::encode(reference);
    let parsed = ShikuAccountIdentifier::from_hex(&text).unwrap();
    assert_eq!(parsed.0, reference);
    // Uppercase digits decode too.
    let parsed_upper = ShikuAccountIdentifier::from_hex(&text.to_uppercase()).unwrap();
    assert_eq!(parsed_upper.0, reference);
}

#[test]
fn from_hex_rejects_bad_input() {
    // Not hex at all.
    assert!(ShikuAccountIdentifier::from_hex("zz").is_err());
    // Odd number of digits.
    assert!(ShikuAccountIdentifier::from_hex("abc").is_err());
    // Valid hex of the wrong length.
    assert!(ShikuAccountIdentifier::from_hex("abcd").is_err());
    // Right length, wrong checksum.
    let zeros = "00".repeat(32);
    assert!(ShikuAccountIdentifier::from_hex(&zeros).is_err());
}

#[test]
fn from_slice_checks_length_and_checksum() {
    let reference = reference_account(&Principal::anonymous());
    let parsed = ShikuAccountIdentifier::from_slice(&reference).unwrap();
    assert_eq!(parsed.0, reference);

    let short = [0u8; 31];
    assert!(matches!(
        ShikuAccountIdentifier::from_slice(&short),
        Err(AccountIdParseError::InvalidLength(_))
    ));

    let mut corrupted = reference;
    corrupted[0] ^= 0xff;
    assert!(matches!(
        ShikuAccountIdentifier::from_slice(&corrupted),
        Err(AccountIdParseError::InvalidChecksum(_))
    ));
}

#[test]
fn from_address_round_trips() {
    let reference = reference_account(&Principal::anonymous());
    let parsed = ShikuAccountIdentifier::from_address(reference).unwrap();
    assert_eq!(parsed.0, reference);

    let mut corrupted = reference;
    corrupted[3] ^= 1;
    let err = ShikuAccountIdentifier::from_address(corrupted).unwrap_err();
    assert!(err.to_text().starts_with("Checksum failed for "));
}

#[test]
fn to_address_is_checksum_then_hash() {
    let mut bytes = [7u8; 32];
    bytes[0] = 0;
    bytes[1] = 0;
    bytes[2] = 0;
    bytes[3] = 0;
    let account = ShikuAccountIdentifier(bytes);
    let address = account.to_address();
    let checksum = crc32fast::hash(&bytes[4..32]).to_be_bytes();
    assert_eq!(&address[0..4], &checksum);
    assert_eq!(&address[4..32], &bytes[4..32]);
    // A well-formed account is its own address.
    let reference = reference_account(&Principal::anonymous());
    assert_eq!(ShikuAccountIdentifier(reference).to_address(), reference);
}

#[test]
fn default_is_anonymous_account() {
    let expected = reference_account(&Principal::anonymous());
    assert_eq!(ShikuAccountIdentifier::default().0, expected);
}

#[test]
fn pid2aid_derives_the_account() {
    let principal = Principal::from_slice(&[1, 2, 3, 4]);
    let derived = pid2aid(&PrincipalId(principal.as_slice().to_vec()));
    assert_eq!(derived.0, reference_account(&principal));
}

#[test]
fn user_aid_resolves_both_variants() {
    let text = String::from("deadbeef");
    assert_eq!(User::aid(User::address(text.clone())), text);

    let principal = Principal::anonymous();
    let expected = AccountIdentifier::new(&principal, &Subaccount([0u8; 32])).to_hex();
    let resolved = User::aid(User::principal(PrincipalId(principal.as_slice().to_vec())));
    assert_eq!(resolved, expected);
}

#[test]
fn from_str_parses_hex() {
    let reference = reference_account(&Principal::anonymous());
    let parsed: ShikuAccountIdentifier = hex::encode(reference).parse().unwrap();
    assert_eq!(parsed.0, reference);
    assert!("not hex".parse::<ShikuAccountIdentifier>().is_err());
}

#[test]
fn parse_error_reports_are_nonempty() {
    let err = ShikuAccountIdentifier::from_slice(&[0u8; 3]).unwrap_err();
    assert!(err
        .to_text()
        .starts_with("Received an invalid AccountIdentifier with length 3 bytes"));
}
