//! Data model of the ledger: token records, registry metadata, the error
//! taxonomy, and the wire-facing value types that surround them.
//!
//! Externally supplied quantities are modelled as plain values: a token
//! identifier is a 64-bit number, a principal is its byte encoding (at most
//! 29 bytes), an account identifier is a validated 32-byte blob.

use vstd::prelude::*;

use crate::account_identifier::ShikuAccountIdentifier;
use crate::account_identifier::account_id_of;
use crate::account_identifier::spec_hex_encode;
use crate::account_identifier::derive_account_bytes;

verus! {

/// A principal: the byte encoding of a network-level identity, at most 29
/// bytes long.
#[derive(Debug, Clone, Hash, PartialEq, Eq)]
pub struct PrincipalId(pub Vec<u8>);

impl View for PrincipalId {
    type V = Seq<u8>;

    open spec fn view(&self) -> Seq<u8> {
        self.0@
    }
}

impl PrincipalId {
    /// An owned copy with the same bytes.
    pub fn dup(&self) -> (r: PrincipalId)
        ensures
            r@ == self@,
    {
        PrincipalId(copy_bytes(&self.0))
    }
}

/// Byte-wise equality of two principals.
pub fn principal_eq(a: &PrincipalId, b: &PrincipalId) -> (r: bool)
    ensures
        r == (a@ == b@),
{
    if a.0.len() != b.0.len() {
        return false;
    }
    let mut i: usize = 0;
    while i < a.0.len()
        invariant
            i <= a@.len(),
            a@.len() == b@.len(),
            forall|k: int| 0 <= k < i ==> a@[k] == b@[k],
        decreases a@.len() - i,
    {
        if a.0[i] != b.0[i] {
            return false;
        }
        i += 1;
    }
    proof {
        assert(a@ =~= b@);
    }
    true
}

/// Copies a byte vector.
pub fn copy_bytes(v: &Vec<u8>) -> (r: Vec<u8>)
    ensures
        r@ == v@,
{
    let mut r: Vec<u8> = Vec::new();
    let mut i: usize = 0;
    while i < v.len()
        invariant
            i <= v@.len(),
            r@ =~= v@.subrange(0, i as int),
        decreases v@.len() - i,
    {
        r.push(v[i]);
        i += 1;
    }
    proof {
        assert(r@ =~= v@);
    }
    r
}

/// Copies a vector of token identifiers.
pub fn copy_token_ids(v: &Vec<TokenId>) -> (r: Vec<TokenId>)
    ensures
        r@ == v@,
{
    let mut r: Vec<TokenId> = Vec::new();
    let mut i: usize = 0;
    while i < v.len()
        invariant
            i <= v@.len(),
            r@ =~= v@.subrange(0, i as int),
        decreases v@.len() - i,
    {
        r.push(v[i]);
        i += 1;
    }
    proof {
        assert(r@ =~= v@);
    }
    r
}

/// Arguments accepted when the registry is first set up.
pub struct InitArgs {
    pub name: Option<String>,
    pub logo: Option<String>,
    pub symbol: Option<String>,
    pub custodians: Option<Vec<PrincipalId>>,
    pub cap: Option<PrincipalId>,
}

/// Registry-wide settings: display data and the custodian set.
#[derive(Debug, Clone)]
pub struct MetaData {
    pub name: Option<String>,
    pub logo: Option<String>,
    pub symbol: Option<String>,
    pub custodians: Vec<PrincipalId>,
    pub created_at: u64,
    pub upgraded_at: u64,
}

impl Default for MetaData {
    /// Empty settings: no display data, no custodians, zero timestamps.
    fn default() -> (r: Self)
        ensures
            r.name is None,
            r.logo is None,
            r.symbol is None,
            r.custodians@.len() == 0,
            r.created_at == 0,
            r.upgraded_at == 0,
    {
        MetaData {
            name: None,
            logo: None,
            symbol: None,
            custodians: Vec::new(),
            created_at: 0,
            upgraded_at: 0,
        }
    }
}

/// Outcome of an attempt to change the designated minter.
#[derive(Debug)]
pub enum SetMinterResponse {
    #[allow(non_camel_case_types)]
    ok,
    #[allow(non_camel_case_types)]
    err(CommonError),
}

/// A snapshot of registry-wide counters.
#[derive(Debug, Clone)]
pub struct Status {
    pub total_transactions: u64,
    pub total_supply: u64,
    pub cycles: u64,
    pub total_unique_holders: u64,
}

/// A token identifier: a non-negative number, unique per minted token.
pub type TokenId = u64;

/// The authoritative per-token record.  `owner` and `operator` are `None`
/// exactly after a burn; the timestamp and actor fields record each
/// transition once.
#[derive(Debug, Clone)]
pub struct TokenMetadata {
    pub token_identifier: TokenId,
    pub owner: Option<ShikuAccountIdentifier>,
    pub operator: Option<ShikuAccountIdentifier>,
    pub is_burned: bool,
    pub properties: Option<MetaData>,
    pub minted_at: u64,
    pub minted_by: ShikuAccountIdentifier,
    pub transferred_at: Option<u64>,
    pub transferred_by: Option<ShikuAccountIdentifier>,
    pub approved_at: Option<u64>,
    pub approved_by: Option<ShikuAccountIdentifier>,
    pub burned_at: Option<u64>,
    pub burned_by: Option<ShikuAccountIdentifier>,
    pub status: u32,
}

/// The error taxonomy of the ledger: every precondition violation maps to
/// exactly one of these.
#[derive(Debug, PartialEq, Eq)]
pub enum NftError {
    UnauthorizedOwner,
    UnauthorizedOperator,
    OwnerNotFound,
    OperatorNotFound,
    TokenNotFound,
    ExistedNFT,
    SelfApprove,
}

pub type Time = i64;

pub type TokenIndex = u32;

#[allow(non_camel_case_types)]
pub type TokenIndexU32 = u32;

pub type TokenIdentifier = String;

/// A ledger subaccount: an uninterpreted byte blob.
#[derive(Debug, Clone)]
pub struct SubAccount(pub Vec<u8>);

/// A caller-supplied identity: either a textual account identifier or a
/// principal.
#[derive(Debug, Clone)]
pub enum User {
    #[allow(non_camel_case_types)]
    address(AccountIdentifier),
    #[allow(non_camel_case_types)]
    principal(PrincipalId),
}

impl User {
    /// The textual account identifier this user denotes: an address is used
    /// as given, a principal is resolved through its derived account.
    pub fn aid(user: User) -> (r: AccountIdentifier)
        requires
            user matches User::principal(p) ==> p@.len() <= 29,
        ensures
            match user {
                User::address(a) => r@ == a@,
                User::principal(p) => r@ == spec_hex_encode(account_id_of(p@)),
            },
    {
        match user {
            User::address(aid) => aid,
            User::principal(pid) => pid2aid(&pid).to_hex(),
        }
    }
}

/// A query for whether `spender` may act on `token` under `owner`.
#[derive(Debug, Clone)]
pub struct AllowanceRequest {
    pub owner: User,
    pub spender: PrincipalId,
    pub token: TokenIdentifier__1,
}

/// A request to delegate a token to `spender`.
#[derive(Debug, Clone)]
pub struct ApproveRequest {
    pub allowance: Balance,
    pub spender: PrincipalId,
    pub subaccount: Option<SubAccount>,
    pub token: TokenIdentifier,
}

#[derive(Debug, Clone)]
#[allow(non_camel_case_types)]
pub enum Result__1_1 {
    #[allow(non_camel_case_types)]
    err(CommonError),
    #[allow(non_camel_case_types)]
    ok(AccountIdentifier__1),
}

#[allow(non_camel_case_types)]
pub type AccountIdentifier__1 = String;

pub type AccountIdentifier = String;

#[allow(non_camel_case_types)]
pub type TokenIdentifier__1 = String;

#[allow(non_camel_case_types)]
pub type Balance = u64;

#[allow(non_camel_case_types)]
pub type AccountIdentifier_shiku = ShikuAccountIdentifier;

#[derive(Debug, Clone)]
#[allow(non_camel_case_types)]
pub enum CommonError__1 {
    InvalidToken(String),
    Other(String),
}

/// An error reported through the wire-facing result types.
#[derive(Debug, Clone, PartialEq, Eq)]
pub enum CommonError {
    InvalidToken(String),
    Other(String),
}

#[derive(Debug, Clone)]
pub struct MetaDataFungibleDetails {
    decimals: u8,
    metadata: Option<Vec<u8>>,
    name: String,
    symbol: String,
}

#[derive(Debug, Clone)]
pub struct MetaDataNonFungibleDetails {
    pub metadata: Option<Vec<u8>>,
}

#[derive(Debug, Clone)]
pub enum TokenMetaDataExt {
    #[allow(non_camel_case_types)]
    fungible(MetaDataFungibleDetails),
    #[allow(non_camel_case_types)]
    nonfungible(MetaDataNonFungibleDetails),
}

/// A marketplace listing of a token.
#[derive(Debug, Clone)]
pub struct Listing {
    locked: Option<Time>,
    price: u64,
    seller: PrincipalId,
}

/// One registry row: a token index and the textual account that holds it.
#[derive(Debug, Clone)]
pub struct Registry(pub TokenIndex, pub AccountIdentifier__1);

#[derive(Debug, Clone)]
pub enum TransferResponse {
    #[allow(non_camel_case_types)]
    err(TransferResponseDetails),
    #[allow(non_camel_case_types)]
    ok(Balance),
}

#[derive(Debug, Clone)]
pub enum TransferResponseDetails {
    CannotNotify(AccountIdentifier),
    InsufficientBalance,
    InvalidToken(String),
    Other(String),
    Rejected,
    Unauthorized(AccountIdentifier),
}

/// A wire-facing transfer request.
#[derive(Debug, Clone)]
pub struct TransferRequest {
    pub amount: Balance,
    pub from: User,
    pub memo: Memo,
    pub notify: bool,
    pub subaccount: Option<SubAccount>,
    pub to: User,
    pub token: TokenIdentifier,
}

pub type Memo = Vec<u8>;

#[derive(Debug, Clone)]
#[allow(non_camel_case_types)]
pub enum Result__1_2 {
    #[allow(non_camel_case_types)]
    err(CommonError),
    #[allow(non_camel_case_types)]
    ok(Balance__1),
}

#[derive(Debug, Clone)]
#[allow(non_camel_case_types)]
pub enum Result__1 {
    #[allow(non_camel_case_types)]
    err(CommonError),
    #[allow(non_camel_case_types)]
    ok(TokenMetaDataExt),
}

#[derive(Debug, Clone)]
#[allow(non_camel_case_types)]
pub enum Result_2 {
    #[allow(non_camel_case_types)]
    err(CommonError),
    #[allow(non_camel_case_types)]
    ok(Balance__1),
}

#[derive(Debug, Clone)]
#[allow(non_camel_case_types)]
pub enum Result_1 {
    #[allow(non_camel_case_types)]
    err(CommonError),
    #[allow(non_camel_case_types)]
    ok(Vec<TokenIndex>),
}

#[derive(Debug, Clone)]
pub struct ResultDetail(pub TokenIndex, pub Option<Listing>, pub Option<Vec<Vec<u8>>>);

#[derive(Debug, Clone)]
pub enum NFTResult {
    #[allow(non_camel_case_types)]
    err(CommonError),
    #[allow(non_camel_case_types)]
    ok(Vec<ResultDetail>),
}

#[allow(non_camel_case_types)]
pub type Balance__1 = u64;

#[derive(Debug, Clone)]
pub enum BalanceResponse {
    #[allow(non_camel_case_types)]
    err(CommonError__1),
    #[allow(non_camel_case_types)]
    ok(Balance),
}

/// A wire-facing balance query.
#[derive(Debug, Clone)]
pub struct BalanceRequest {
    token: u64,
    user: User,
}

/// The account identifier a principal resolves to; falls back to the default
/// account if the derived bytes fail checksum validation (the derivation
/// guarantees they do not).
pub fn pid2aid(pid: &PrincipalId) -> (r: AccountIdentifier_shiku)
    requires
        pid@.len() <= 29,
    ensures
        r@ == account_id_of(pid@),
{
    let account_id = derive_account_bytes(&pid.0);
    match ShikuAccountIdentifier::from_address(account_id) {
        Ok(shiku) => shiku,
        Err(_) => ShikuAccountIdentifier::default(),
    }
}

} // verus!
