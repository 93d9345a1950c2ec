//! The ledger's state-transition operations — mint, transfer, approve and
//! burn — together with its queries and the registry-side counters.
//!
//! Every mutating operation validates all its preconditions before writing
//! anything, performs the record write and both index updates as one unit,
//! and advances the transaction counter exactly once on success.  Each
//! operation's contract also re-establishes the ledger invariant: both
//! indices stay consistent with the record store, and a burned token is
//! never altered again.

use vstd::prelude::*;

use crate::account_identifier::ShikuAccountIdentifier;
use crate::account_identifier::account_eq;
use crate::account_identifier::account_id_of;
use crate::ledger::Ledger;
use crate::ledger::find_registry;
use crate::ledger::lemma_record_update_same_holder;
use crate::ledger::lemma_registry_map_push;
use crate::ledger::lemma_registry_map_update;
use crate::ledger::lemma_reindex_consistent;
use crate::ledger::lemma_seq_remove_insert;
use crate::ledger::copy_string;
use crate::ledger::registry_unique;
use crate::ledger::spec_reindex;
use crate::ledger::stored_holder;
use crate::ledger::transfer_record;
use crate::ledger::approve_record;
use crate::ledger::burn_record;
use crate::ledger::view_opt;
use crate::types::AccountIdentifier__1;
use crate::types::CommonError;
use crate::types::NftError;
use crate::types::PrincipalId;
use crate::types::SetMinterResponse;
use crate::types::TokenId;
use crate::types::TokenIndexU32;
use crate::types::TokenMetadata;
use crate::types::copy_token_ids;
use crate::types::principal_eq;

verus! {

/// The record created for a freshly minted token: owned and operated by the
/// recipient, unburned, stamped with the minting time.
pub open spec fn mint_record(to: ShikuAccountIdentifier, token_identifier: TokenId, now: u64) -> TokenMetadata {
    TokenMetadata {
        token_identifier: token_identifier,
        owner: Some(to),
        operator: Some(to),
        is_burned: false,
        properties: None,
        minted_at: now,
        minted_by: to,
        transferred_at: None,
        transferred_by: None,
        approved_at: None,
        approved_by: None,
        burned_at: None,
        burned_by: None,
        status: 1,
    }
}

/// Mints token `token_identifier` to `to`: fails with `ExistedNFT` when the
/// identifier is taken, otherwise records the new token, indexes `to` as its
/// owner and operator, and returns the transaction sequence number.
pub fn dip721_mint(ledger: &mut Ledger, to: ShikuAccountIdentifier, token_identifier: &TokenId, now: u64) -> (r: Result<u64, NftError>)
    requires
        old(ledger).wf(),
        old(ledger).consistent(),
        old(ledger).tx_count < u64::MAX,
    ensures
        final(ledger).wf(),
        final(ledger).consistent(),
        old(ledger).records().contains_key(*token_identifier) ==> r == Err::<u64, NftError>(
            NftError::ExistedNFT,
        ) && *final(ledger) == *old(ledger),
        !old(ledger).records().contains_key(*token_identifier) ==> {
            &&& r == Ok::<u64, NftError>(old(ledger).tx_count)
            &&& final(ledger).records() == old(ledger).records().insert(
                *token_identifier,
                mint_record(to, *token_identifier, now),
            )
            &&& final(ledger).owner_index() == spec_reindex(
                old(ledger).owner_index(),
                *token_identifier,
                None,
                Some(to@),
            )
            &&& final(ledger).operator_index() == spec_reindex(
                old(ledger).operator_index(),
                *token_identifier,
                None,
                Some(to@),
            )
            &&& final(ledger).tx_count == old(ledger).tx_count + 1
            &&& final(ledger).metadata == old(ledger).metadata
            &&& final(ledger).custodians == old(ledger).custodians
            &&& final(ledger).idx2aid == old(ledger).idx2aid
        },
        forall|t: TokenId| old(ledger).records().dom().contains(t)
            && (#[trigger] old(ledger).records()[t]).is_burned
            ==> final(ledger).records().dom().contains(t)
                && final(ledger).records()[t] == old(ledger).records()[t],
{
    if ledger.is_token_existed(token_identifier) {
        return Err(NftError::ExistedNFT);
    }
    let record = TokenMetadata {
        token_identifier: *token_identifier,
        owner: Some(to),
        operator: Some(to),
        is_burned: false,
        properties: None,
        minted_at: now,
        minted_by: to,
        transferred_at: None,
        transferred_by: None,
        approved_at: None,
        approved_by: None,
        burned_at: None,
        burned_by: None,
        status: 1,
    };
    proof {
        assert(record == mint_record(to, *token_identifier, now));
    }
    ledger.add_token_metadata(token_identifier, record);
    ledger.update_owner_cache(token_identifier, None, Some(to));
    ledger.update_operator_cache(token_identifier, None, Some(to));
    proof {
        let recs = old(ledger).records();
        let m2 = mint_record(to, *token_identifier, now);
        assert(stored_holder(recs, *token_identifier, false) == view_opt(None::<ShikuAccountIdentifier>));
        assert(stored_holder(recs, *token_identifier, true) == view_opt(None::<ShikuAccountIdentifier>));
        lemma_reindex_consistent(recs, old(ledger).owner_index(), *token_identifier, m2, false);
        lemma_reindex_consistent(recs, old(ledger).operator_index(), *token_identifier, m2, true);
        assert forall|t: TokenId| #[trigger] ledger.records().dom().contains(t)
            && ledger.records()[t].is_burned implies ledger.records()[t].owner is None
            && ledger.records()[t].operator is None by {
            if t != *token_identifier {
                assert(recs.dom().contains(t));
            }
        }
    }
    let tx = ledger.inc_tx();
    Ok(tx - 1)
}

/// Transfers token `token_identifier` from `owner` to `to`.  The transfer
/// requires `owner` to be simultaneously the stored owner and the stored
/// operator of the token, and rejects self-transfers; `owner` is taken as
/// asserted, with no separate authentication of the calling identity.
pub fn dip721_transfer_from(
    ledger: &mut Ledger,
    owner: ShikuAccountIdentifier,
    to: ShikuAccountIdentifier,
    token_identifier: TokenId,
    now: u64,
) -> (r: Result<u64, NftError>)
    requires
        old(ledger).wf(),
        old(ledger).consistent(),
        old(ledger).tx_count < u64::MAX,
    ensures
        final(ledger).wf(),
        final(ledger).consistent(),
        owner@ == to@ ==> r == Err::<u64, NftError>(NftError::UnauthorizedOwner) && *final(ledger)
            == *old(ledger),
        owner@ != to@ && !old(ledger).records().contains_key(token_identifier) ==> r == Err::<
            u64,
            NftError,
        >(NftError::OwnerNotFound) && *final(ledger) == *old(ledger),
        owner@ != to@ && old(ledger).records().contains_key(token_identifier) && view_opt(
            old(ledger).records()[token_identifier].owner,
        ) != Some(owner@) ==> r == Err::<u64, NftError>(NftError::UnauthorizedOwner) && *final(ledger) == *old(ledger),
        owner@ != to@ && old(ledger).records().contains_key(token_identifier) && view_opt(
            old(ledger).records()[token_identifier].owner,
        ) == Some(owner@) && view_opt(old(ledger).records()[token_identifier].operator) != Some(
            owner@,
        ) ==> r == Err::<u64, NftError>(NftError::UnauthorizedOperator) && *final(ledger) == *old(ledger),
        owner@ != to@ && old(ledger).records().contains_key(token_identifier) && view_opt(
            old(ledger).records()[token_identifier].owner,
        ) == Some(owner@) && view_opt(old(ledger).records()[token_identifier].operator) == Some(
            owner@,
        ) ==> {
            &&& r == Ok::<u64, NftError>(old(ledger).tx_count)
            &&& final(ledger).records() == old(ledger).records().insert(
                token_identifier,
                transfer_record(old(ledger).records()[token_identifier], Some(to), owner, now),
            )
            &&& final(ledger).owner_index() == spec_reindex(
                old(ledger).owner_index(),
                token_identifier,
                view_opt(old(ledger).records()[token_identifier].owner),
                Some(to@),
            )
            &&& final(ledger).operator_index() == spec_reindex(
                old(ledger).operator_index(),
                token_identifier,
                view_opt(old(ledger).records()[token_identifier].operator),
                Some(to@),
            )
            &&& final(ledger).tx_count == old(ledger).tx_count + 1
            &&& final(ledger).metadata == old(ledger).metadata
            &&& final(ledger).custodians == old(ledger).custodians
            &&& final(ledger).idx2aid == old(ledger).idx2aid
        },
        forall|t: TokenId| old(ledger).records().dom().contains(t)
            && (#[trigger] old(ledger).records()[t]).is_burned
            ==> final(ledger).records().dom().contains(t)
                && final(ledger).records()[t] == old(ledger).records()[t],
{
    if account_eq(&owner, &to) {
        return Err(NftError::UnauthorizedOwner);
    }
    let old_owner = match ledger.owner_of(&token_identifier) {
        Ok(o) => o,
        Err(_) => {
            return Err(NftError::OwnerNotFound);
        },
    };
    let old_operator = match ledger.operator_of(&token_identifier) {
        Ok(o) => o,
        Err(_) => {
            return Err(NftError::OperatorNotFound);
        },
    };
    let owner_ok = match &old_owner {
        Some(o) => account_eq(o, &owner),
        None => false,
    };
    if !owner_ok {
        return Err(NftError::UnauthorizedOwner);
    }
    let operator_ok = match &old_operator {
        Some(o) => account_eq(o, &owner),
        None => false,
    };
    if !operator_ok {
        return Err(NftError::UnauthorizedOperator);
    }
    proof {
        assert(old(ledger).records().dom().contains(token_identifier));
        assert(!old(ledger).records()[token_identifier].is_burned);
    }
    ledger.update_owner_cache(&token_identifier, old_owner, Some(to));
    ledger.update_operator_cache(&token_identifier, old_operator, Some(to));
    ledger.transfer(owner, &token_identifier, Some(to), now);
    proof {
        let recs = old(ledger).records();
        let m2 = transfer_record(recs[token_identifier], Some(to), owner, now);
        assert(stored_holder(recs, token_identifier, false) == view_opt(old_owner));
        assert(stored_holder(recs, token_identifier, true) == view_opt(old_operator));
        lemma_reindex_consistent(recs, old(ledger).owner_index(), token_identifier, m2, false);
        lemma_reindex_consistent(recs, old(ledger).operator_index(), token_identifier, m2, true);
        assert forall|t: TokenId| #[trigger] ledger.records().dom().contains(t)
            && ledger.records()[t].is_burned implies ledger.records()[t].owner is None
            && ledger.records()[t].operator is None by {
            if t != token_identifier {
                assert(recs.dom().contains(t));
            }
        }
    }
    let tx = ledger.inc_tx();
    Ok(tx - 1)
}

/// Delegates token `token_identifier` to `operator` on behalf of `caller`,
/// who must be the stored owner; self-delegation is rejected.
pub fn dip721_approve(
    ledger: &mut Ledger,
    caller: ShikuAccountIdentifier,
    operator: ShikuAccountIdentifier,
    token_identifier: TokenId,
    now: u64,
) -> (r: Result<u64, NftError>)
    requires
        old(ledger).wf(),
        old(ledger).consistent(),
        old(ledger).tx_count < u64::MAX,
    ensures
        final(ledger).wf(),
        final(ledger).consistent(),
        operator@ == caller@ ==> r == Err::<u64, NftError>(NftError::SelfApprove) && *final(ledger)
            == *old(ledger),
        operator@ != caller@ && !old(ledger).records().contains_key(token_identifier) ==> r == Err::<
            u64,
            NftError,
        >(NftError::OwnerNotFound) && *final(ledger) == *old(ledger),
        operator@ != caller@ && old(ledger).records().contains_key(token_identifier) && view_opt(
            old(ledger).records()[token_identifier].owner,
        ) != Some(caller@) ==> r == Err::<u64, NftError>(NftError::UnauthorizedOwner) && *final(ledger) == *old(ledger),
        operator@ != caller@ && old(ledger).records().contains_key(token_identifier) && view_opt(
            old(ledger).records()[token_identifier].owner,
        ) == Some(caller@) ==> {
            &&& r == Ok::<u64, NftError>(old(ledger).tx_count)
            &&& final(ledger).records() == old(ledger).records().insert(
                token_identifier,
                approve_record(old(ledger).records()[token_identifier], Some(operator), caller, now),
            )
            &&& final(ledger).owner_index() == old(ledger).owner_index()
            &&& final(ledger).operator_index() == spec_reindex(
                old(ledger).operator_index(),
                token_identifier,
                view_opt(old(ledger).records()[token_identifier].operator),
                Some(operator@),
            )
            &&& final(ledger).tx_count == old(ledger).tx_count + 1
            &&& final(ledger).metadata == old(ledger).metadata
            &&& final(ledger).custodians == old(ledger).custodians
            &&& final(ledger).idx2aid == old(ledger).idx2aid
        },
        forall|t: TokenId| old(ledger).records().dom().contains(t)
            && (#[trigger] old(ledger).records()[t]).is_burned
            ==> final(ledger).records().dom().contains(t)
                && final(ledger).records()[t] == old(ledger).records()[t],
{
    if account_eq(&operator, &caller) {
        return Err(NftError::SelfApprove);
    }
    let owner_opt = match ledger.owner_of(&token_identifier) {
        Ok(o) => o,
        Err(_) => {
            return Err(NftError::OwnerNotFound);
        },
    };
    let owner_ok = match &owner_opt {
        Some(o) => account_eq(o, &caller),
        None => false,
    };
    if !owner_ok {
        return Err(NftError::UnauthorizedOwner);
    }
    let old_operator = match ledger.operator_of(&token_identifier) {
        Ok(o) => o,
        Err(e) => {
            return Err(e);
        },
    };
    proof {
        assert(old(ledger).records().dom().contains(token_identifier));
        assert(!old(ledger).records()[token_identifier].is_burned);
    }
    ledger.update_operator_cache(&token_identifier, old_operator, Some(operator));
    ledger.approve(caller, &token_identifier, Some(operator), now);
    proof {
        let recs = old(ledger).records();
        let m2 = approve_record(recs[token_identifier], Some(operator), caller, now);
        assert(stored_holder(recs, token_identifier, true) == view_opt(old_operator));
        lemma_reindex_consistent(recs, old(ledger).operator_index(), token_identifier, m2, true);
        lemma_record_update_same_holder(recs, old(ledger).owner_index(), token_identifier, m2, false);
        assert forall|t: TokenId| #[trigger] ledger.records().dom().contains(t)
            && ledger.records()[t].is_burned implies ledger.records()[t].owner is None
            && ledger.records()[t].operator is None by {
            if t != token_identifier {
                assert(recs.dom().contains(t));
            }
        }
    }
    let tx = ledger.inc_tx();
    Ok(tx - 1)
}

/// Burns token `token_identifier` on behalf of `caller`, who must be its
/// stored owner: the record becomes holderless and terminally marked, and
/// the token leaves both indices.  The record itself is never deleted.
pub fn dip721_burn(ledger: &mut Ledger, caller: ShikuAccountIdentifier, token_identifier: TokenId, now: u64) -> (r: Result<u64, NftError>)
    requires
        old(ledger).wf(),
        old(ledger).consistent(),
        old(ledger).tx_count < u64::MAX,
    ensures
        final(ledger).wf(),
        final(ledger).consistent(),
        !old(ledger).records().contains_key(token_identifier) ==> r == Err::<u64, NftError>(
            NftError::OwnerNotFound,
        ) && *final(ledger) == *old(ledger),
        old(ledger).records().contains_key(token_identifier) && view_opt(
            old(ledger).records()[token_identifier].owner,
        ) != Some(caller@) ==> r == Err::<u64, NftError>(NftError::UnauthorizedOwner) && *final(ledger) == *old(ledger),
        old(ledger).records().contains_key(token_identifier) && view_opt(
            old(ledger).records()[token_identifier].owner,
        ) == Some(caller@) ==> {
            &&& r == Ok::<u64, NftError>(old(ledger).tx_count)
            &&& final(ledger).records() == old(ledger).records().insert(
                token_identifier,
                burn_record(old(ledger).records()[token_identifier], caller, now),
            )
            &&& final(ledger).owner_index() == spec_reindex(
                old(ledger).owner_index(),
                token_identifier,
                view_opt(old(ledger).records()[token_identifier].owner),
                None,
            )
            &&& final(ledger).operator_index() == spec_reindex(
                old(ledger).operator_index(),
                token_identifier,
                view_opt(old(ledger).records()[token_identifier].operator),
                None,
            )
            &&& final(ledger).tx_count == old(ledger).tx_count + 1
            &&& final(ledger).metadata == old(ledger).metadata
            &&& final(ledger).custodians == old(ledger).custodians
            &&& final(ledger).idx2aid == old(ledger).idx2aid
        },
        forall|t: TokenId| old(ledger).records().dom().contains(t)
            && (#[trigger] old(ledger).records()[t]).is_burned
            ==> final(ledger).records().dom().contains(t)
                && final(ledger).records()[t] == old(ledger).records()[t],
{
    let old_owner = match ledger.owner_of(&token_identifier) {
        Ok(o) => o,
        Err(_) => {
            return Err(NftError::OwnerNotFound);
        },
    };
    let owner_ok = match &old_owner {
        Some(o) => account_eq(o, &caller),
        None => false,
    };
    if !owner_ok {
        return Err(NftError::UnauthorizedOwner);
    }
    let old_operator = match ledger.operator_of(&token_identifier) {
        Ok(o) => o,
        Err(_) => {
            return Err(NftError::OperatorNotFound);
        },
    };
    proof {
        assert(old(ledger).records().dom().contains(token_identifier));
        assert(!old(ledger).records()[token_identifier].is_burned);
    }
    ledger.update_owner_cache(&token_identifier, old_owner, None);
    ledger.update_operator_cache(&token_identifier, old_operator, None);
    ledger.burn(caller, &token_identifier, now);
    proof {
        let recs = old(ledger).records();
        let m2 = burn_record(recs[token_identifier], caller, now);
        assert(stored_holder(recs, token_identifier, false) == view_opt(old_owner));
        assert(stored_holder(recs, token_identifier, true) == view_opt(old_operator));
        lemma_reindex_consistent(recs, old(ledger).owner_index(), token_identifier, m2, false);
        lemma_reindex_consistent(recs, old(ledger).operator_index(), token_identifier, m2, true);
        assert forall|t: TokenId| #[trigger] ledger.records().dom().contains(t)
            && ledger.records()[t].is_burned implies ledger.records()[t].owner is None
            && ledger.records()[t].operator is None by {
            if t != token_identifier {
                assert(recs.dom().contains(t));
            }
        }
    }
    let tx = ledger.inc_tx();
    Ok(tx - 1)
}

/// The number of minted tokens, burned ones included.
pub fn dip721_total_supply(ledger: &Ledger) -> (r: u64)
    requires
        ledger.wf(),
    ensures
        r == ledger.records().dom().len(),
{
    ledger.tokens_count() as u64
}

/// The number of tokens currently owned by `owner`; an account that owns
/// nothing has no index entry and reports `OwnerNotFound`.
pub fn dip721_balance_of(ledger: &Ledger, owner: ShikuAccountIdentifier) -> (r: Result<u64, NftError>)
    requires
        ledger.wf(),
    ensures
        match r {
            Ok(n) => ledger.owner_index().contains_key(owner@) && n == ledger.owner_index()[owner@].len(),
            Err(e) => e == NftError::OwnerNotFound && !ledger.owner_index().contains_key(owner@),
        },
{
    match ledger.owner_token_identifiers(&owner) {
        Ok(v) => {
            proof {
                v@.unique_seq_to_set();
            }
            Ok(v.len() as u64)
        },
        Err(e) => Err(e),
    }
}

/// The custodian principals from the registry metadata.
pub fn dip721_custodians(ledger: &Ledger) -> (r: Vec<PrincipalId>)
    ensures
        r@.len() == ledger.metadata.custodians@.len(),
        forall|i: int| 0 <= i < r@.len() ==> (#[trigger] r@[i])@ == (ledger.metadata.custodians@[i])@,
{
    let mut r: Vec<PrincipalId> = Vec::new();
    let mut i: usize = 0;
    while i < ledger.metadata.custodians.len()
        invariant
            i <= ledger.metadata.custodians@.len(),
            r@.len() == i,
            forall|k: int| 0 <= k < i ==> (#[trigger] r@[k])@ == (ledger.metadata.custodians@[k])@,
        decreases ledger.metadata.custodians@.len() - i,
    {
        r.push(ledger.metadata.custodians[i].dup());
        i += 1;
    }
    r
}

/// An owned copy of the registry rows.
pub fn dip721_get_registry(ledger: &Ledger) -> (r: Vec<(TokenIndexU32, AccountIdentifier__1)>)
    ensures
        r@.len() == ledger.idx2aid@.len(),
        forall|i: int| 0 <= i < r@.len() ==> (#[trigger] r@[i]).0 == (ledger.idx2aid@[i]).0
            && (r@[i]).1@ == (ledger.idx2aid@[i]).1@,
{
    ledger.get_registry()
}

/// Stores (or replaces) the registry row for token index `k`.
pub fn dip721_add_aid_idx(ledger: &mut Ledger, k: &TokenIndexU32, v: &AccountIdentifier__1)
    requires
        registry_unique(old(ledger).idx2aid@),
    ensures
        registry_unique(final(ledger).idx2aid@),
        final(ledger).registry() == old(ledger).registry().insert(*k, v@),
        final(ledger).tokens == old(ledger).tokens,
        final(ledger).owners == old(ledger).owners,
        final(ledger).operators == old(ledger).operators,
        final(ledger).metadata == old(ledger).metadata,
        final(ledger).custodians == old(ledger).custodians,
        final(ledger).tx_count == old(ledger).tx_count,
{
    let ghost s0 = ledger.idx2aid@;
    let text = copy_string(v);
    let ghost tv = text;
    match find_registry(&ledger.idx2aid, *k) {
        Some(i) => {
            let _previous = ledger.idx2aid.remove(i);
            ledger.idx2aid.insert(i, (*k, text));
            proof {
                lemma_seq_remove_insert(s0, i as int, ((s0[i as int]).0, tv));
                assert(ledger.idx2aid@ == s0.update(i as int, ((s0[i as int]).0, tv)));
                lemma_registry_map_update(s0, i as int, tv);
            }
        },
        None => {
            ledger.idx2aid.push((*k, text));
            proof {
                lemma_registry_map_push(s0, *k, tv);
            }
        },
    }
}

/// The record of the given token.
pub fn dip721_token_metadata<'a>(ledger: &'a Ledger, token_identifier: TokenId) -> (r: Result<&'a TokenMetadata, NftError>)
    requires
        ledger.wf(),
    ensures
        match r {
            Ok(m) => ledger.records().contains_key(token_identifier) && *m == ledger.records()[token_identifier],
            Err(e) => e == NftError::TokenNotFound && !ledger.records().contains_key(token_identifier),
        },
{
    ledger.token_metadata(&token_identifier)
}

/// The identifiers of the tokens currently owned by `owner`.
pub fn dip721_owner_token_identifiers<'a>(ledger: &'a Ledger, owner: &ShikuAccountIdentifier) -> (r: Result<&'a Vec<TokenId>, NftError>)
    requires
        ledger.wf(),
    ensures
        match r {
            Ok(v) => ledger.owner_index().contains_key(owner@) && v@.to_set() == ledger.owner_index()[owner@]
                && v@.no_duplicates() && v@.len() > 0,
            Err(e) => e == NftError::OwnerNotFound && !ledger.owner_index().contains_key(owner@),
        },
{
    ledger.owner_token_identifiers(owner)
}

/// The stored operator of the given token.
pub fn dip721_operator_token_identifiers(ledger: &Ledger, token: TokenId) -> (r: Result<Option<ShikuAccountIdentifier>, NftError>)
    requires
        ledger.wf(),
    ensures
        match r {
            Ok(o) => ledger.records().contains_key(token) && o == ledger.records()[token].operator,
            Err(e) => e == NftError::TokenNotFound && !ledger.records().contains_key(token),
        },
{
    ledger.operator_of(&token)
}

/// The stored owner of the given token.
pub fn dip721_owner_of(ledger: &Ledger, token: TokenId) -> (r: Result<Option<ShikuAccountIdentifier>, NftError>)
    requires
        ledger.wf(),
    ensures
        match r {
            Ok(o) => ledger.records().contains_key(token) && o == ledger.records()[token].owner,
            Err(e) => e == NftError::TokenNotFound && !ledger.records().contains_key(token),
        },
{
    ledger.owner_of(&token)
}

/// Whether `spender` is the current operator of `token` under the claimed
/// `owner`: 1 when it is, 0 when it is not, and an error when the claimed
/// owner does not match the token's stored owner.  A missing token or holder
/// is read as the default account before comparing.
pub fn dip721_allowance(ledger: &Ledger, owner: &ShikuAccountIdentifier, spender: &ShikuAccountIdentifier, token: &TokenId) -> (r: Result<u64, CommonError>)
    requires
        ledger.wf(),
    ensures
        ({
            let town = if ledger.records().contains_key(*token) && ledger.records()[*token].owner is Some {
                (ledger.records()[*token].owner.unwrap())@
            } else {
                account_id_of(seq![4u8])
            };
            if town != owner@ {
                r matches Err(e) && e matches CommonError::Other(m) && m@ == "Invalid Owner"@
            } else {
                let sp = if ledger.records().contains_key(*token) {
                    view_opt(ledger.records()[*token].operator)
                } else {
                    Some(account_id_of(seq![4u8]))
                };
                r == Ok::<u64, CommonError>(if sp == Some(spender@) { 1u64 } else { 0u64 })
            }
        }),
{
    let token_owner = match ledger.owner_of(token) {
        Ok(Some(internal_owner)) => internal_owner,
        Ok(None) => ShikuAccountIdentifier::default(),
        Err(_) => ShikuAccountIdentifier::default(),
    };
    if !account_eq(&token_owner, owner) {
        return Err(CommonError::Other("Invalid Owner".to_string()));
    }
    let pid = match ledger.operator_of(token) {
        Ok(principal) => principal,
        Err(_) => Some(ShikuAccountIdentifier::default()),
    };
    if let Some(principal) = pid {
        if account_eq(&principal, spender) {
            Ok(1)
        } else {
            Ok(0)
        }
    } else {
        Ok(0)
    }
}

/// The identifiers of the tokens currently delegated to `operator`.
pub fn dip721_token_identitfier_operator<'a>(ledger: &'a Ledger, operator: &ShikuAccountIdentifier) -> (r: Result<&'a Vec<TokenId>, NftError>)
    requires
        ledger.wf(),
    ensures
        match r {
            Ok(v) => ledger.operator_index().contains_key(operator@)
                && v@.to_set() == ledger.operator_index()[operator@]
                && v@.no_duplicates() && v@.len() > 0,
            Err(e) => e == NftError::OperatorNotFound && !ledger.operator_index().contains_key(operator@),
        },
{
    ledger.operator_token_identifier(operator)
}

/// The number of accounts that currently own at least one token.
pub fn dip721_owner_counts(ledger: &Ledger) -> (r: usize)
    requires
        ledger.wf(),
    ensures
        r == ledger.owner_index().dom().len(),
{
    ledger.owners_count()
}

/// The token-index allocator: a wrapping 32-bit counter.
pub struct TidState {
    pub next: u32,
}

/// A value reduced into the 32-bit range.
pub open spec fn wrap32(v: int) -> u32 {
    (v % 0x1_0000_0000) as u32
}

/// Draws the next token index: returns the current counter value and
/// advances the counter by one, wrapping on overflow.
pub fn new_token_id(tid: &mut TidState) -> (r: u32)
    ensures
        r == old(tid).next,
        final(tid).next == wrap32(old(tid).next + 1),
{
    let current = tid.next;
    tid.next = tid.next.wrapping_add(1);
    current
}

/// The counter's current value, without advancing it.
pub fn tid_info(tid: &TidState) -> (r: u32)
    ensures
        r == tid.next,
{
    tid.next
}

/// Advances the counter by `token_index`, wrapping on overflow.
pub fn restore_tid_info(tid: &mut TidState, token_index: u32)
    ensures
        final(tid).next == wrap32(old(tid).next + token_index),
{
    tid.next = tid.next.wrapping_add(token_index);
}

/// Rebuilds the minted list with the given identifiers appended; the rebuilt
/// list is local to the call, so the stored state is left untouched.
pub fn restore_minted_info(minted: &Vec<TokenId>, minted_id: &Vec<TokenId>) {
    let mut mint = copy_token_ids(minted);
    let mut i: usize = 0;
    while i < minted_id.len()
        invariant
            i <= minted_id@.len(),
        decreases minted_id@.len() - i,
    {
        mint.push(minted_id[i]);
        i += 1;
    }
}

/// An owned copy of the minted-token list.
pub fn dip721_minted_info(minted: &Vec<TokenId>) -> (r: Vec<TokenId>)
    ensures
        r@ == minted@,
{
    copy_token_ids(minted)
}

/// An owned copy of the designated minter.
pub fn get_minter(minter: &PrincipalId) -> (r: PrincipalId)
    ensures
        r@ == minter@,
{
    minter.dup()
}

/// Whether a principal occurs in a list, by byte equality.
pub open spec fn spec_has_principal(s: Seq<PrincipalId>, p: Seq<u8>) -> bool {
    exists|i: int| 0 <= i < s.len() && (#[trigger] s[i])@ == p
}

/// A caller may change the minter exactly when it is one of the custodians.
fn valid_minter(caller: &PrincipalId, owner: &Vec<PrincipalId>) -> (r: SetMinterResponse)
    ensures
        spec_has_principal(owner@, caller@) ==> r is ok,
        !spec_has_principal(owner@, caller@) ==> (r matches SetMinterResponse::err(e)
            && e matches CommonError::Other(m) && m@ == "Only the caller can set the minter"@),
{
    let mut i: usize = 0;
    while i < owner.len()
        invariant
            i <= owner@.len(),
            forall|k: int| 0 <= k < i ==> (#[trigger] owner@[k])@ != caller@,
        decreases owner@.len() - i,
    {
        if principal_eq(&owner[i], caller) {
            return SetMinterResponse::ok;
        }
        i += 1;
    }
    SetMinterResponse::err(CommonError::Other("Only the caller can set the minter".to_string()))
}

/// Designates a new minter: allowed exactly for custodian callers; a
/// non-custodian caller leaves the minter unchanged and gets the error.
pub fn dip721_set_minter(ledger: &Ledger, minter: &mut PrincipalId, caller: &PrincipalId, new_minter: PrincipalId) -> (r: Result<(), CommonError>)
    ensures
        spec_has_principal(ledger.metadata.custodians@, caller@) ==> r is Ok && final(minter)@ == new_minter@,
        !spec_has_principal(ledger.metadata.custodians@, caller@) ==> (r matches Err(e)
            && e matches CommonError::Other(m) && m@ == "Only the caller can set the minter"@)
            && final(minter)@ == old(minter)@,
{
    let owner = dip721_custodians(ledger);
    proof {
        if spec_has_principal(ledger.metadata.custodians@, caller@) {
            let i = choose|i: int| 0 <= i < ledger.metadata.custodians@.len()
                && (#[trigger] ledger.metadata.custodians@[i])@ == caller@;
            assert((owner@[i])@ == caller@);
        }
        if spec_has_principal(owner@, caller@) {
            let i = choose|i: int| 0 <= i < owner@.len() && (#[trigger] owner@[i])@ == caller@;
            assert((ledger.metadata.custodians@[i])@ == caller@);
        }
    }
    match valid_minter(caller, &owner) {
        SetMinterResponse::ok => {
            *minter = new_minter;
            Ok(())
        },
        SetMinterResponse::err(e) => Err(e),
    }
}

} // verus!

