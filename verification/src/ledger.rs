//! The ledger aggregate: the authoritative token-record store, the two
//! derived holder indices, the registry rows and the transaction counter.
//!
//! Each store is a vector of key/value pairs with pairwise-distinct keys; its
//! mathematical model is the finite map it spells out.  The holder indices
//! additionally keep every bucket non-empty and duplicate-free, so no account
//! key ever maps to an empty token set.

use vstd::prelude::*;
use vstd::seq_lib::*;
use vstd::set_lib::*;

use crate::account_identifier::ShikuAccountIdentifier;
use crate::types::AccountIdentifier__1;
use crate::types::MetaData;
use crate::types::NftError;
use crate::types::TokenId;
use crate::types::TokenIndexU32;
use crate::types::TokenMetadata;

verus! {

/// The map spelled out by a sequence of token-record entries; later entries
/// shadow earlier ones with the same key.
pub open spec fn tokens_map(s: Seq<(TokenId, TokenMetadata)>) -> Map<TokenId, TokenMetadata>
    decreases s.len(),
{
    if s.len() == 0 {
        Map::empty()
    } else {
        tokens_map(s.drop_last()).insert(s.last().0, s.last().1)
    }
}

/// Entry keys are pairwise distinct.
pub open spec fn tokens_unique(s: Seq<(TokenId, TokenMetadata)>) -> bool {
    forall|i: int, j: int| 0 <= i < j < s.len() ==> (#[trigger] s[i]).0 != (#[trigger] s[j]).0
}

proof fn lemma_tokens_map_contains(s: Seq<(TokenId, TokenMetadata)>, k: TokenId)
    ensures
        tokens_map(s).contains_key(k) <==> exists|i: int| 0 <= i < s.len() && (#[trigger] s[i]).0 == k,
    decreases s.len(),
{
    if s.len() > 0 {
        lemma_tokens_map_contains(s.drop_last(), k);
        if tokens_map(s).contains_key(k) {
            if s.last().0 == k {
                assert((s[s.len() - 1]).0 == k);
            } else {
                let i = choose|i: int| 0 <= i < s.drop_last().len() && (#[trigger] s.drop_last()[i]).0 == k;
                assert((s[i]).0 == k);
            }
        }
        if exists|i: int| 0 <= i < s.len() && (#[trigger] s[i]).0 == k {
            let i = choose|i: int| 0 <= i < s.len() && (#[trigger] s[i]).0 == k;
            if i < s.len() - 1 {
                assert((s.drop_last()[i]).0 == k);
            }
        }
    }
}

proof fn lemma_tokens_map_index(s: Seq<(TokenId, TokenMetadata)>, i: int)
    requires
        tokens_unique(s),
        0 <= i < s.len(),
    ensures
        tokens_map(s).contains_key((s[i]).0),
        tokens_map(s)[(s[i]).0] == (s[i]).1,
    decreases s.len(),
{
    if i < s.len() - 1 {
        lemma_tokens_map_index(s.drop_last(), i);
        assert(s.drop_last()[i] == s[i]);
        assert((s[i]).0 != (s[s.len() - 1]).0);
    }
}

proof fn lemma_tokens_map_update(s: Seq<(TokenId, TokenMetadata)>, i: int, v: TokenMetadata)
    requires
        tokens_unique(s),
        0 <= i < s.len(),
    ensures
        tokens_unique(s.update(i, ((s[i]).0, v))),
        tokens_map(s.update(i, ((s[i]).0, v))) == tokens_map(s).insert((s[i]).0, v),
    decreases s.len(),
{
    let k = (s[i]).0;
    let s2 = s.update(i, (k, v));
    assert forall|i2: int, j2: int| 0 <= i2 < j2 < s2.len() implies (#[trigger] s2[i2]).0 != (#[trigger] s2[j2]).0 by {
        assert((s2[i2]).0 == (s[i2]).0);
        assert((s2[j2]).0 == (s[j2]).0);
    }
    if i == s.len() - 1 {
        assert(s2.drop_last() =~= s.drop_last());
        assert(s2.last() == (k, v));
        assert(tokens_map(s2) =~= tokens_map(s).insert(k, v));
    } else {
        assert(s2.drop_last() =~= s.drop_last().update(i, (k, v)));
        assert(s.drop_last()[i] == s[i]);
        lemma_tokens_map_update(s.drop_last(), i, v);
        assert(s2.last() == s.last());
        assert((s.last()).0 != k);
        assert(tokens_map(s2) =~= tokens_map(s).insert(k, v));
    }
}

proof fn lemma_tokens_map_push(s: Seq<(TokenId, TokenMetadata)>, k: TokenId, v: TokenMetadata)
    requires
        tokens_unique(s),
        !tokens_map(s).contains_key(k),
    ensures
        tokens_unique(s.push((k, v))),
        tokens_map(s.push((k, v))) == tokens_map(s).insert(k, v),
{
    lemma_tokens_map_contains(s, k);
    let s2 = s.push((k, v));
    assert(s2.drop_last() =~= s);
    assert(s2.last() == (k, v));
    assert forall|i2: int, j2: int| 0 <= i2 < j2 < s2.len() implies (#[trigger] s2[i2]).0 != (#[trigger] s2[j2]).0 by {
        if j2 == s.len() {
            assert((s2[i2]).0 == (s[i2]).0);
            assert((s[i2]).0 != k);
        } else {
            assert((s2[i2]).0 == (s[i2]).0);
            assert((s2[j2]).0 == (s[j2]).0);
        }
    }
    assert(tokens_map(s2) == tokens_map(s).insert(k, v));
}

proof fn lemma_tokens_map_dom_len(s: Seq<(TokenId, TokenMetadata)>)
    requires
        tokens_unique(s),
    ensures
        tokens_map(s).dom().finite(),
        tokens_map(s).dom().len() == s.len(),
    decreases s.len(),
{
    if s.len() > 0 {
        lemma_tokens_map_dom_len(s.drop_last());
        lemma_tokens_map_contains(s.drop_last(), (s.last()).0);
        assert forall|i: int| 0 <= i < s.drop_last().len() implies (#[trigger] s.drop_last()[i]).0 != (s.last()).0 by {
            assert(s.drop_last()[i] == s[i]);
        }
        assert(!tokens_map(s.drop_last()).contains_key((s.last()).0));
        assert(tokens_map(s).dom() =~= tokens_map(s.drop_last()).dom().insert((s.last()).0));
    }
}

/// The map spelled out by a sequence of holder-index entries: each account's
/// bucket, read as a set of token identifiers.
pub open spec fn holders_map(s: Seq<(ShikuAccountIdentifier, Vec<TokenId>)>) -> Map<Seq<u8>, Set<TokenId>>
    decreases s.len(),
{
    if s.len() == 0 {
        Map::empty()
    } else {
        holders_map(s.drop_last()).insert((s.last().0)@, s.last().1@.to_set())
    }
}

/// Account keys are pairwise distinct, and every bucket is non-empty with no
/// duplicate token identifiers.
pub open spec fn holders_wf(s: Seq<(ShikuAccountIdentifier, Vec<TokenId>)>) -> bool {
    &&& forall|i: int, j: int| 0 <= i < j < s.len() ==> ((#[trigger] s[i]).0)@ != ((#[trigger] s[j]).0)@
    &&& forall|i: int| 0 <= i < s.len() ==> ((#[trigger] s[i]).1)@.len() > 0 && (s[i]).1@.no_duplicates()
}

proof fn lemma_holders_map_contains(s: Seq<(ShikuAccountIdentifier, Vec<TokenId>)>, k: Seq<u8>)
    ensures
        holders_map(s).contains_key(k) <==> exists|i: int| 0 <= i < s.len() && ((#[trigger] s[i]).0)@ == k,
    decreases s.len(),
{
    if s.len() > 0 {
        lemma_holders_map_contains(s.drop_last(), k);
        if holders_map(s).contains_key(k) {
            if (s.last().0)@ == k {
                assert(((s[s.len() - 1]).0)@ == k);
            } else {
                let i = choose|i: int| 0 <= i < s.drop_last().len() && ((#[trigger] s.drop_last()[i]).0)@ == k;
                assert(((s[i]).0)@ == k);
            }
        }
        if exists|i: int| 0 <= i < s.len() && ((#[trigger] s[i]).0)@ == k {
            let i = choose|i: int| 0 <= i < s.len() && ((#[trigger] s[i]).0)@ == k;
            if i < s.len() - 1 {
                assert(((s.drop_last()[i]).0)@ == k);
            }
        }
    }
}

proof fn lemma_holders_map_index(s: Seq<(ShikuAccountIdentifier, Vec<TokenId>)>, i: int)
    requires
        holders_wf(s),
        0 <= i < s.len(),
    ensures
        holders_map(s).contains_key(((s[i]).0)@),
        holders_map(s)[((s[i]).0)@] == (s[i]).1@.to_set(),
    decreases s.len(),
{
    if i < s.len() - 1 {
        lemma_holders_map_index(s.drop_last(), i);
        assert(s.drop_last()[i] == s[i]);
        assert(((s[i]).0)@ != ((s[s.len() - 1]).0)@);
    }
}

proof fn lemma_holders_map_update(s: Seq<(ShikuAccountIdentifier, Vec<TokenId>)>, i: int, v: Vec<TokenId>)
    requires
        holders_wf(s),
        0 <= i < s.len(),
        v@.len() > 0,
        v@.no_duplicates(),
    ensures
        holders_wf(s.update(i, ((s[i]).0, v))),
        holders_map(s.update(i, ((s[i]).0, v))) == holders_map(s).insert(((s[i]).0)@, v@.to_set()),
    decreases s.len(),
{
    let k = ((s[i]).0)@;
    let s2 = s.update(i, ((s[i]).0, v));
    assert forall|i2: int, j2: int| 0 <= i2 < j2 < s2.len() implies ((#[trigger] s2[i2]).0)@ != ((#[trigger] s2[j2]).0)@ by {
        assert(((s2[i2]).0)@ == ((s[i2]).0)@);
        assert(((s2[j2]).0)@ == ((s[j2]).0)@);
    }
    assert forall|i2: int| 0 <= i2 < s2.len() implies ((#[trigger] s2[i2]).1)@.len() > 0 && (s2[i2]).1@.no_duplicates() by {
        if i2 != i {
            assert(s2[i2] == s[i2]);
        }
    }
    if i == s.len() - 1 {
        assert(s2.drop_last() =~= s.drop_last());
        assert(s2.last() == ((s[i]).0, v));
        assert(holders_map(s2) =~= holders_map(s).insert(k, v@.to_set()));
    } else {
        assert(s2.drop_last() =~= s.drop_last().update(i, ((s[i]).0, v)));
        assert(s.drop_last()[i] == s[i]);
        lemma_holders_map_update(s.drop_last(), i, v);
        assert(s2.last() == s.last());
        assert(((s.last()).0)@ != k);
        assert(holders_map(s2) =~= holders_map(s).insert(k, v@.to_set()));
    }
}

proof fn lemma_holders_map_push(s: Seq<(ShikuAccountIdentifier, Vec<TokenId>)>, a: ShikuAccountIdentifier, v: Vec<TokenId>)
    requires
        holders_wf(s),
        !holders_map(s).contains_key(a@),
        v@.len() > 0,
        v@.no_duplicates(),
    ensures
        holders_wf(s.push((a, v))),
        holders_map(s.push((a, v))) == holders_map(s).insert(a@, v@.to_set()),
{
    lemma_holders_map_contains(s, a@);
    let s2 = s.push((a, v));
    assert(s2.drop_last() =~= s);
    assert(s2.last() == (a, v));
    assert forall|i2: int, j2: int| 0 <= i2 < j2 < s2.len() implies ((#[trigger] s2[i2]).0)@ != ((#[trigger] s2[j2]).0)@ by {
        if j2 == s.len() {
            assert(((s2[i2]).0)@ == ((s[i2]).0)@);
            assert(((s[i2]).0)@ != a@);
        } else {
            assert(((s2[i2]).0)@ == ((s[i2]).0)@);
            assert(((s2[j2]).0)@ == ((s[j2]).0)@);
        }
    }
    assert forall|i2: int| 0 <= i2 < s2.len() implies ((#[trigger] s2[i2]).1)@.len() > 0 && (s2[i2]).1@.no_duplicates() by {
        if i2 < s.len() {
            assert(s2[i2] == s[i2]);
        }
    }
    assert(holders_map(s2) == holders_map(s).insert(a@, v@.to_set()));
}

proof fn lemma_holders_map_remove(s: Seq<(ShikuAccountIdentifier, Vec<TokenId>)>, i: int)
    requires
        holders_wf(s),
        0 <= i < s.len(),
    ensures
        holders_wf(s.remove(i)),
        holders_map(s.remove(i)) == holders_map(s).remove(((s[i]).0)@),
    decreases s.len(),
{
    let k = ((s[i]).0)@;
    let s2 = s.remove(i);
    assert forall|i2: int, j2: int| 0 <= i2 < j2 < s2.len() implies ((#[trigger] s2[i2]).0)@ != ((#[trigger] s2[j2]).0)@ by {
        let oi = if i2 < i { i2 } else { i2 + 1 };
        let oj = if j2 < i { j2 } else { j2 + 1 };
        assert(s2[i2] == s[oi]);
        assert(s2[j2] == s[oj]);
    }
    assert forall|i2: int| 0 <= i2 < s2.len() implies ((#[trigger] s2[i2]).1)@.len() > 0 && (s2[i2]).1@.no_duplicates() by {
        let oi = if i2 < i { i2 } else { i2 + 1 };
        assert(s2[i2] == s[oi]);
    }
    if i == s.len() - 1 {
        assert(s2 =~= s.drop_last());
        lemma_holders_map_contains(s.drop_last(), k);
        assert forall|i2: int| 0 <= i2 < s.drop_last().len() implies ((#[trigger] s.drop_last()[i2]).0)@ != k by {
            assert(s.drop_last()[i2] == s[i2]);
        }
        assert(!holders_map(s.drop_last()).contains_key(k));
        assert(holders_map(s2) =~= holders_map(s).remove(k));
    } else {
        assert(s2.drop_last() =~= s.drop_last().remove(i));
        assert(s.drop_last()[i] == s[i]);
        lemma_holders_map_remove(s.drop_last(), i);
        assert(s2.last() == s.last());
        assert(((s.last()).0)@ != k);
        assert(holders_map(s2) =~= holders_map(s).remove(k));
    }
}

proof fn lemma_holders_map_dom_len(s: Seq<(ShikuAccountIdentifier, Vec<TokenId>)>)
    requires
        holders_wf(s),
    ensures
        holders_map(s).dom().finite(),
        holders_map(s).dom().len() == s.len(),
    decreases s.len(),
{
    if s.len() > 0 {
        lemma_holders_map_dom_len(s.drop_last());
        lemma_holders_map_contains(s.drop_last(), ((s.last()).0)@);
        assert forall|i: int| 0 <= i < s.drop_last().len() implies ((#[trigger] s.drop_last()[i]).0)@ != ((s.last()).0)@ by {
            assert(s.drop_last()[i] == s[i]);
        }
        assert(!holders_map(s.drop_last()).contains_key(((s.last()).0)@));
        assert(holders_map(s).dom() =~= holders_map(s.drop_last()).dom().insert(((s.last()).0)@));
    }
}

/// The map spelled out by the registry rows: token index to textual account.
pub open spec fn registry_map(s: Seq<(TokenIndexU32, AccountIdentifier__1)>) -> Map<TokenIndexU32, Seq<char>>
    decreases s.len(),
{
    if s.len() == 0 {
        Map::empty()
    } else {
        registry_map(s.drop_last()).insert(s.last().0, (s.last().1)@)
    }
}

/// Registry keys are pairwise distinct.
pub open spec fn registry_unique(s: Seq<(TokenIndexU32, AccountIdentifier__1)>) -> bool {
    forall|i: int, j: int| 0 <= i < j < s.len() ==> (#[trigger] s[i]).0 != (#[trigger] s[j]).0
}

pub(crate) proof fn lemma_registry_map_contains(s: Seq<(TokenIndexU32, AccountIdentifier__1)>, k: TokenIndexU32)
    ensures
        registry_map(s).contains_key(k) <==> exists|i: int| 0 <= i < s.len() && (#[trigger] s[i]).0 == k,
    decreases s.len(),
{
    if s.len() > 0 {
        lemma_registry_map_contains(s.drop_last(), k);
        if registry_map(s).contains_key(k) {
            if s.last().0 == k {
                assert((s[s.len() - 1]).0 == k);
            } else {
                let i = choose|i: int| 0 <= i < s.drop_last().len() && (#[trigger] s.drop_last()[i]).0 == k;
                assert((s[i]).0 == k);
            }
        }
        if exists|i: int| 0 <= i < s.len() && (#[trigger] s[i]).0 == k {
            let i = choose|i: int| 0 <= i < s.len() && (#[trigger] s[i]).0 == k;
            if i < s.len() - 1 {
                assert((s.drop_last()[i]).0 == k);
            }
        }
    }
}

pub(crate) proof fn lemma_registry_map_update(s: Seq<(TokenIndexU32, AccountIdentifier__1)>, i: int, v: AccountIdentifier__1)
    requires
        registry_unique(s),
        0 <= i < s.len(),
    ensures
        registry_unique(s.update(i, ((s[i]).0, v))),
        registry_map(s.update(i, ((s[i]).0, v))) == registry_map(s).insert((s[i]).0, v@),
    decreases s.len(),
{
    let k = (s[i]).0;
    let s2 = s.update(i, (k, v));
    assert forall|i2: int, j2: int| 0 <= i2 < j2 < s2.len() implies (#[trigger] s2[i2]).0 != (#[trigger] s2[j2]).0 by {
        assert((s2[i2]).0 == (s[i2]).0);
        assert((s2[j2]).0 == (s[j2]).0);
    }
    if i == s.len() - 1 {
        assert(s2.drop_last() =~= s.drop_last());
        assert(s2.last() == (k, v));
        assert(registry_map(s2) =~= registry_map(s).insert(k, v@));
    } else {
        assert(s2.drop_last() =~= s.drop_last().update(i, (k, v)));
        assert(s.drop_last()[i] == s[i]);
        lemma_registry_map_update(s.drop_last(), i, v);
        assert(s2.last() == s.last());
        assert((s.last()).0 != k);
        assert(registry_map(s2) =~= registry_map(s).insert(k, v@));
    }
}

pub(crate) proof fn lemma_registry_map_push(s: Seq<(TokenIndexU32, AccountIdentifier__1)>, k: TokenIndexU32, v: AccountIdentifier__1)
    requires
        registry_unique(s),
        !registry_map(s).contains_key(k),
    ensures
        registry_unique(s.push((k, v))),
        registry_map(s.push((k, v))) == registry_map(s).insert(k, v@),
{
    lemma_registry_map_contains(s, k);
    let s2 = s.push((k, v));
    assert(s2.drop_last() =~= s);
    assert(s2.last() == (k, v));
    assert forall|i2: int, j2: int| 0 <= i2 < j2 < s2.len() implies (#[trigger] s2[i2]).0 != (#[trigger] s2[j2]).0 by {
        if j2 == s.len() {
            assert((s2[i2]).0 == (s[i2]).0);
            assert((s[i2]).0 != k);
        } else {
            assert((s2[i2]).0 == (s[i2]).0);
            assert((s2[j2]).0 == (s[j2]).0);
        }
    }
    assert(registry_map(s2) == registry_map(s).insert(k, v@));
}

/// `update(i, v)` is the same sequence as `remove(i)` followed by
/// `insert(i, v)`.
pub(crate) proof fn lemma_seq_remove_insert<T>(s: Seq<T>, i: int, v: T)
    requires
        0 <= i < s.len(),
    ensures
        s.remove(i).insert(i, v) =~= s.update(i, v),
{
}

/// The view of an optional account identifier as optional bytes.
pub open spec fn view_opt(o: Option<ShikuAccountIdentifier>) -> Option<Seq<u8>> {
    match o {
        Some(a) => Some(a@),
        None => None,
    }
}

/// The holder a given index tracks for a record: the operator when `op` is
/// set, the owner otherwise.
pub open spec fn holder_of(m: TokenMetadata, op: bool) -> Option<ShikuAccountIdentifier> {
    if op {
        m.operator
    } else {
        m.owner
    }
}

/// The holder currently stored for token `t`, if any.
pub open spec fn stored_holder(recs: Map<TokenId, TokenMetadata>, t: TokenId, op: bool) -> Option<Seq<u8>> {
    if recs.dom().contains(t) {
        view_opt(holder_of(recs[t], op))
    } else {
        None
    }
}

/// One reindexing step: if `old_h` names an account, token `t` leaves that
/// account's set, and the account's entry disappears when the set becomes
/// empty; if `new_h` names an account, `t` joins that account's set,
/// creating the entry when absent.
pub open spec fn spec_reindex(m: Map<Seq<u8>, Set<TokenId>>, t: TokenId, old_h: Option<Seq<u8>>, new_h: Option<Seq<u8>>) -> Map<Seq<u8>, Set<TokenId>> {
    let m1 = match old_h {
        Some(a) => if m.contains_key(a) {
            let s2 = m[a].remove(t);
            if s2 =~= Set::<TokenId>::empty() {
                m.remove(a)
            } else {
                m.insert(a, s2)
            }
        } else {
            m
        },
        None => m,
    };
    match new_h {
        Some(b) => m1.insert(b, if m1.contains_key(b) {
            m1[b].insert(t)
        } else {
            Set::empty().insert(t)
        }),
        None => m1,
    }
}

/// An index agrees with the record store: a token sits in an account's set
/// exactly when that account is the stored holder of the token.
pub open spec fn holder_consistent(recs: Map<TokenId, TokenMetadata>, idx: Map<Seq<u8>, Set<TokenId>>, op: bool) -> bool {
    &&& forall|a: Seq<u8>, t: TokenId| #![trigger idx[a].contains(t)]
        idx.contains_key(a) && idx[a].contains(t) ==> recs.dom().contains(t) && view_opt(
            holder_of(recs[t], op),
        ) == Some(a)
    &&& forall|t: TokenId| #![trigger recs.dom().contains(t)]
        recs.dom().contains(t) && holder_of(recs[t], op) is Some ==> {
            let a = (holder_of(recs[t], op).unwrap())@;
            idx.contains_key(a) && idx[a].contains(t)
        }
}

/// Re-establishes index consistency after a record write combined with the
/// matching reindexing step.
pub(crate) proof fn lemma_reindex_consistent(
    recs: Map<TokenId, TokenMetadata>,
    idx: Map<Seq<u8>, Set<TokenId>>,
    t: TokenId,
    m2: TokenMetadata,
    op: bool,
)
    requires
        holder_consistent(recs, idx, op),
    ensures
        holder_consistent(
            recs.insert(t, m2),
            spec_reindex(idx, t, stored_holder(recs, t, op), view_opt(holder_of(m2, op))),
            op,
        ),
{
    let old_h = stored_holder(recs, t, op);
    let new_h = view_opt(holder_of(m2, op));
    let recs2 = recs.insert(t, m2);
    let m1 = match old_h {
        Some(a) => if idx.contains_key(a) {
            let s2 = idx[a].remove(t);
            if s2 =~= Set::<TokenId>::empty() {
                idx.remove(a)
            } else {
                idx.insert(a, s2)
            }
        } else {
            idx
        },
        None => idx,
    };
    let idx2 = spec_reindex(idx, t, old_h, new_h);

    // No account's set in the intermediate map contains `t`.
    assert forall|a: Seq<u8>| m1.contains_key(a) implies !m1[a].contains(t) by {
        if m1[a].contains(t) {
            if old_h matches Some(ah) && a == ah {
            } else {
                assert(idx.contains_key(a) && idx[a].contains(t));
                assert(view_opt(holder_of(recs[t], op)) == Some(a));
                assert(recs.dom().contains(t));
                assert(old_h == Some(a));
            }
        }
    }
    // Sets in the intermediate map only shrink.
    assert forall|a: Seq<u8>, t2: TokenId| m1.contains_key(a) && #[trigger] m1[a].contains(t2) implies idx.contains_key(a)
        && idx[a].contains(t2) by {}
    // Surviving membership of tokens other than `t`.
    assert forall|a: Seq<u8>, t2: TokenId| idx.contains_key(a) && #[trigger] idx[a].contains(t2) && t2 != t implies m1.contains_key(a)
        && m1[a].contains(t2) by {
        match old_h {
            Some(ah) => {
                if a == ah && idx.contains_key(ah) {
                    let s2 = idx[ah].remove(t);
                    assert(s2.contains(t2));
                    assert(!(s2 =~= Set::<TokenId>::empty()));
                }
            },
            None => {},
        }
    }

    // Index-to-records direction.
    assert forall|a: Seq<u8>, t2: TokenId| idx2.contains_key(a) && #[trigger] idx2[a].contains(t2) implies recs2.dom().contains(t2)
        && view_opt(holder_of(recs2[t2], op)) == Some(a) by {
        if t2 == t {
            match new_h {
                Some(b) => {
                    if a != b {
                        assert(m1.contains_key(a) && m1[a].contains(t));
                        assert(false);
                    }
                },
                None => {
                    assert(m1.contains_key(a) && m1[a].contains(t));
                    assert(false);
                },
            }
        } else {
            match new_h {
                Some(b) => {
                    if a == b {
                        if m1.contains_key(b) {
                            assert(m1[b].contains(t2));
                        } else {
                            assert(Set::<TokenId>::empty().insert(t).contains(t2));
                            assert(false);
                        }
                    } else {
                        assert(m1.contains_key(a) && m1[a].contains(t2));
                    }
                },
                None => {
                    assert(m1.contains_key(a) && m1[a].contains(t2));
                },
            }
            assert(idx.contains_key(a) && idx[a].contains(t2));
            assert(recs2[t2] == recs[t2]);
        }
    }

    // Records-to-index direction.
    assert forall|t2: TokenId| #[trigger] recs2.dom().contains(t2) && holder_of(recs2[t2], op) is Some implies {
        let a = (holder_of(recs2[t2], op).unwrap())@;
        idx2.contains_key(a) && idx2[a].contains(t2)
    } by {
        let a = (holder_of(recs2[t2], op).unwrap())@;
        if t2 == t {
            assert(new_h == Some(a));
            assert(idx2.contains_key(a) && idx2[a].contains(t));
        } else {
            assert(recs2[t2] == recs[t2]);
            assert(recs.dom().contains(t2));
            assert(idx.contains_key(a) && idx[a].contains(t2));
            assert(m1.contains_key(a) && m1[a].contains(t2));
            match new_h {
                Some(b) => {
                    if b == a {
                        assert(idx2[a] == m1[a].insert(t));
                        assert(idx2[a].contains(t2));
                    }
                },
                None => {},
            }
        }
    }
}

/// Removing the element at position `p` from a duplicate-free sequence
/// removes exactly that value from its set of elements.
proof fn lemma_bucket_remove(b: Seq<TokenId>, p: int)
    requires
        b.no_duplicates(),
        0 <= p < b.len(),
    ensures
        b.remove(p).no_duplicates(),
        b.remove(p).to_set() == b.to_set().remove(b[p]),
{
    let b2 = b.remove(p);
    assert forall|i: int, j: int|
        0 <= i < b2.len() && 0 <= j < b2.len() && i != j implies b2[i] != b2[j] by {
        let oi = if i < p { i } else { i + 1 };
        let oj = if j < p { j } else { j + 1 };
        assert(b2[i] == b[oi]);
        assert(b2[j] == b[oj]);
    }
    assert forall|x: TokenId| #[trigger] b2.contains(x) implies b.contains(x) && x != b[p] by {
        let i = choose|i: int| 0 <= i < b2.len() && b2[i] == x;
        let oi = if i < p { i } else { i + 1 };
        assert(b[oi] == x);
        if x == b[p] {
            assert(b[oi] == b[p] && oi != p);
            assert(false);
        }
    }
    assert forall|x: TokenId| b.contains(x) && x != b[p] implies #[trigger] b2.contains(x) by {
        let i = choose|i: int| 0 <= i < b.len() && b[i] == x;
        let ni = if i < p { i } else { i - 1 };
        assert(b2[ni] == x);
    }
    assert(b2.to_set() =~= b.to_set().remove(b[p]));
}

/// Appending a fresh value to a duplicate-free sequence adds exactly that
/// value to its set of elements.
proof fn lemma_bucket_push(b: Seq<TokenId>, t: TokenId)
    requires
        b.no_duplicates(),
        !b.contains(t),
    ensures
        b.push(t).no_duplicates(),
        b.push(t).to_set() == b.to_set().insert(t),
{
    let b2 = b.push(t);
    assert forall|i: int, j: int|
        0 <= i < b2.len() && 0 <= j < b2.len() && i != j implies b2[i] != b2[j] by {
        if i < b.len() && j < b.len() {
            assert(b2[i] == b[i]);
            assert(b2[j] == b[j]);
        } else if i < b.len() {
            assert(b2[i] == b[i]);
            assert(b2[j] == t);
            assert(b.contains(b[i]));
        } else {
            assert(b2[i] == t);
            assert(b2[j] == b[j]);
            assert(b.contains(b[j]));
        }
    }
    assert forall|x: TokenId| #[trigger] b2.contains(x) implies b.contains(x) || x == t by {
        let i = choose|i: int| 0 <= i < b2.len() && b2[i] == x;
        if i < b.len() {
            assert(b[i] == x);
        }
    }
    assert forall|x: TokenId| b.contains(x) || x == t implies #[trigger] b2.contains(x) by {
        if x == t {
            assert(b2[b.len() as int] == t);
        } else {
            let i = choose|i: int| 0 <= i < b.len() && b[i] == x;
            assert(b2[i] == x);
        }
    }
    assert(b2.to_set() =~= b.to_set().insert(t));
}

/// The position of `t` in a bucket, if any.
fn find_in_bucket(bucket: &Vec<TokenId>, t: TokenId) -> (r: Option<usize>)
    ensures
        match r {
            Some(p) => p < bucket@.len() && bucket@[p as int] == t,
            None => !bucket@.contains(t),
        },
{
    let mut i: usize = 0;
    while i < bucket.len()
        invariant
            i <= bucket@.len(),
            forall|k: int| 0 <= k < i ==> bucket@[k] != t,
        decreases bucket@.len() - i,
    {
        if bucket[i] == t {
            return Some(i);
        }
        i += 1;
    }
    None
}

/// The position of account `a`'s entry in a holder index, if any.
fn find_holder(entries: &Vec<(ShikuAccountIdentifier, Vec<TokenId>)>, a: &ShikuAccountIdentifier) -> (r: Option<usize>)
    requires
        holders_wf(entries@),
    ensures
        match r {
            Some(i) => i < entries@.len() && ((entries@[i as int]).0)@ == a@
                && holders_map(entries@).contains_key(a@)
                && holders_map(entries@)[a@] == ((entries@[i as int]).1)@.to_set(),
            None => !holders_map(entries@).contains_key(a@),
        },
{
    let mut i: usize = 0;
    while i < entries.len()
        invariant
            holders_wf(entries@),
            i <= entries@.len(),
            forall|k: int| 0 <= k < i ==> ((#[trigger] entries@[k]).0)@ != a@,
        decreases entries@.len() - i,
    {
        if crate::account_identifier::account_eq(&entries[i].0, a) {
            proof {
                lemma_holders_map_index(entries@, i as int);
            }
            return Some(i);
        }
        i += 1;
    }
    proof {
        lemma_holders_map_contains(entries@, a@);
    }
    None
}

/// Applies one reindexing step to a holder index, in place.
fn reindex_holder(
    entries: &mut Vec<(ShikuAccountIdentifier, Vec<TokenId>)>,
    t: TokenId,
    old_h: Option<ShikuAccountIdentifier>,
    new_h: Option<ShikuAccountIdentifier>,
)
    requires
        holders_wf(old(entries)@),
        old_h matches Some(a) ==> holders_map(old(entries)@).contains_key(a@),
    ensures
        holders_wf(final(entries)@),
        holders_map(final(entries)@) == spec_reindex(
            holders_map(old(entries)@),
            t,
            view_opt(old_h),
            view_opt(new_h),
        ),
{
    let ghost m0 = holders_map(old(entries)@);
    let ghost m1 = spec_reindex(m0, t, view_opt(old_h), None::<Seq<u8>>);

    if let Some(a) = old_h {
        let ridx = find_holder(entries, &a);
        let idx = ridx.unwrap();
        let ghost e0 = entries@;
        let mut entry = entries.remove(idx);
        let ghost key0 = entry.0;
        let ghost b0 = entry.1@;
        proof {
            lemma_holders_map_remove(e0, idx as int);
            assert(b0.no_duplicates() && b0.len() > 0);
        }
        match find_in_bucket(&entry.1, t) {
            Some(p) => {
                entry.1.remove(p);
                proof {
                    lemma_bucket_remove(b0, p as int);
                }
            },
            None => {
                proof {
                    assert(b0.to_set().remove(t) =~= b0.to_set());
                }
            },
        }
        proof {
            assert(entry.1@.to_set() == m0[a@].remove(t));
        }
        if entry.1.len() == 0 {
            proof {
                assert(entry.1@.to_set() =~= Set::<TokenId>::empty());
                assert(holders_map(entries@) == m0.remove(a@));
                assert(holders_map(entries@) == m1);
            }
        } else {
            let ghost nb = entry.1;
            proof {
                assert(nb@.contains(nb@[0]));
                assert(nb@.to_set().contains(nb@[0]));
                assert(!(nb@.to_set() =~= Set::<TokenId>::empty()));
            }
            entries.insert(idx, entry);
            proof {
                lemma_seq_remove_insert(e0, idx as int, (key0, nb));
                assert(entries@ == e0.update(idx as int, ((e0[idx as int]).0, nb)));
                lemma_holders_map_update(e0, idx as int, nb);
                assert(holders_map(entries@) == m0.insert(a@, nb@.to_set()));
                assert(holders_map(entries@) == m1);
            }
        }
    } else {
        proof {
            assert(holders_map(entries@) == m1);
        }
    }

    assert(holders_wf(entries@));
    assert(holders_map(entries@) == m1);

    if let Some(b) = new_h {
        match find_holder(entries, &b) {
            Some(idx2) => {
                let ghost e2 = entries@;
                let mut entry2 = entries.remove(idx2);
                let ghost key2 = entry2.0;
                let ghost b2 = entry2.1@;
                proof {
                    lemma_holders_map_remove(e2, idx2 as int);
                }
                match find_in_bucket(&entry2.1, t) {
                    Some(_) => {
                        proof {
                            assert(b2.to_set().contains(t));
                            assert(b2.to_set().insert(t) =~= b2.to_set());
                        }
                    },
                    None => {
                        entry2.1.push(t);
                        proof {
                            lemma_bucket_push(b2, t);
                        }
                    },
                }
                let ghost nb2 = entry2.1;
                proof {
                    assert(nb2@.to_set() == m1[b@].insert(t));
                    assert(nb2@.to_set().contains(t));
                    assert(nb2@.len() > 0) by {
                        if nb2@.len() == 0 {
                            assert(!nb2@.contains(t));
                        }
                    }
                }
                entries.insert(idx2, entry2);
                proof {
                    lemma_seq_remove_insert(e2, idx2 as int, (key2, nb2));
                    assert(entries@ == e2.update(idx2 as int, ((e2[idx2 as int]).0, nb2)));
                    lemma_holders_map_update(e2, idx2 as int, nb2);
                    assert(holders_map(entries@) == m1.insert(b@, m1[b@].insert(t)));
                }
            },
            None => {
                let mut bucket: Vec<TokenId> = Vec::new();
                bucket.push(t);
                let ghost bv = bucket;
                let ghost e3 = entries@;
                proof {
                    assert(bv@[0] == t);
                    assert(bv@.contains(t));
                    assert(bv@.len() == 1);
                    assert(bv@.no_duplicates());
                    assert(bv@.to_set() =~= Set::<TokenId>::empty().insert(t)) by {
                        assert(bv@.contains(t));
                        assert forall|x: TokenId| #[trigger] bv@.contains(x) implies x == t by {
                            let i = choose|i: int| 0 <= i < bv@.len() && bv@[i] == x;
                        }
                    }
                }
                entries.push((b, bucket));
                proof {
                    lemma_holders_map_push(e3, b, bv);
                    assert(holders_map(entries@) == m1.insert(b@, Set::empty().insert(t)));
                }
            },
        }
        proof {
            assert(holders_map(entries@) == spec_reindex(m0, t, view_opt(old_h), view_opt(new_h)));
        }
    } else {
        proof {
            assert(holders_map(entries@) == spec_reindex(m0, t, view_opt(old_h), view_opt(new_h)));
        }
    }
}

/// No account key maps to an empty token set in either index: every indexed
/// account holds at least one token.
pub proof fn lemma_no_empty_buckets(l: Ledger)
    requires
        l.wf(),
    ensures
        forall|a: Seq<u8>| #[trigger] l.owner_index().contains_key(a) ==> l.owner_index()[a].len() > 0,
        forall|a: Seq<u8>| #[trigger] l.operator_index().contains_key(a) ==> l.operator_index()[a].len() > 0,
{
    assert forall|a: Seq<u8>| #[trigger] l.owner_index().contains_key(a) implies l.owner_index()[a].len() > 0 by {
        lemma_holders_map_contains(l.owners@, a);
        let i = choose|i: int| 0 <= i < l.owners@.len() && ((#[trigger] l.owners@[i]).0)@ == a;
        lemma_holders_map_index(l.owners@, i);
        (l.owners@[i]).1@.unique_seq_to_set();
    }
    assert forall|a: Seq<u8>| #[trigger] l.operator_index().contains_key(a) implies l.operator_index()[a].len() > 0 by {
        lemma_holders_map_contains(l.operators@, a);
        let i = choose|i: int| 0 <= i < l.operators@.len() && ((#[trigger] l.operators@[i]).0)@ == a;
        lemma_holders_map_index(l.operators@, i);
        (l.operators@[i]).1@.unique_seq_to_set();
    }
}

/// A record rewrite that keeps the tracked holder leaves an index
/// consistent.
pub(crate) proof fn lemma_record_update_same_holder(
    recs: Map<TokenId, TokenMetadata>,
    idx: Map<Seq<u8>, Set<TokenId>>,
    t: TokenId,
    m2: TokenMetadata,
    op: bool,
)
    requires
        holder_consistent(recs, idx, op),
        recs.dom().contains(t),
        holder_of(m2, op) == holder_of(recs[t], op),
    ensures
        holder_consistent(recs.insert(t, m2), idx, op),
{
    let recs2 = recs.insert(t, m2);
    assert forall|a: Seq<u8>, t2: TokenId| idx.contains_key(a) && #[trigger] idx[a].contains(t2) implies recs2.dom().contains(t2)
        && view_opt(holder_of(recs2[t2], op)) == Some(a) by {
        assert(recs.dom().contains(t2) && view_opt(holder_of(recs[t2], op)) == Some(a));
        if t2 == t {
            assert(holder_of(recs2[t2], op) == holder_of(recs[t2], op));
        }
    }
    assert forall|t2: TokenId| #[trigger] recs2.dom().contains(t2) && holder_of(recs2[t2], op) is Some implies {
        let a = (holder_of(recs2[t2], op).unwrap())@;
        idx.contains_key(a) && idx[a].contains(t2)
    } by {
        if t2 == t {
            assert(recs.dom().contains(t2));
            assert(holder_of(recs2[t2], op) == holder_of(recs[t2], op));
        }
    }
}

/// The position of a registry row with the given index, if any.
pub(crate) fn find_registry(entries: &Vec<(TokenIndexU32, AccountIdentifier__1)>, k: TokenIndexU32) -> (r: Option<usize>)
    ensures
        match r {
            Some(i) => i < entries@.len() && (entries@[i as int]).0 == k,
            None => !registry_map(entries@).contains_key(k),
        },
{
    let mut i: usize = 0;
    while i < entries.len()
        invariant
            i <= entries@.len(),
            forall|j: int| 0 <= j < i ==> (#[trigger] entries@[j]).0 != k,
        decreases entries@.len() - i,
    {
        if entries[i].0 == k {
            return Some(i);
        }
        i += 1;
    }
    proof {
        lemma_registry_map_contains(entries@, k);
    }
    None
}

/// The ledger aggregate: record store, holder indices, registry rows,
/// custodian list and the transaction counter.
pub struct Ledger {
    pub metadata: MetaData,
    pub tokens: Vec<(TokenId, TokenMetadata)>,
    pub owners: Vec<(ShikuAccountIdentifier, Vec<TokenId>)>,
    pub operators: Vec<(ShikuAccountIdentifier, Vec<TokenId>)>,
    pub custodians: Vec<ShikuAccountIdentifier>,
    pub idx2aid: Vec<(TokenIndexU32, AccountIdentifier__1)>,
    pub tx_count: u64,
}

impl Ledger {
    /// The authoritative record store, as a finite map.
    pub open spec fn records(&self) -> Map<TokenId, TokenMetadata> {
        tokens_map(self.tokens@)
    }

    /// The ownership index, as a finite map of token-identifier sets.
    pub open spec fn owner_index(&self) -> Map<Seq<u8>, Set<TokenId>> {
        holders_map(self.owners@)
    }

    /// The delegation index, as a finite map of token-identifier sets.
    pub open spec fn operator_index(&self) -> Map<Seq<u8>, Set<TokenId>> {
        holders_map(self.operators@)
    }

    /// The registry rows, as a finite map.
    pub open spec fn registry(&self) -> Map<TokenIndexU32, Seq<char>> {
        registry_map(self.idx2aid@)
    }

    /// Representation invariant: distinct keys everywhere; non-empty,
    /// duplicate-free index buckets.
    pub open spec fn wf(&self) -> bool {
        &&& tokens_unique(self.tokens@)
        &&& holders_wf(self.owners@)
        &&& holders_wf(self.operators@)
        &&& registry_unique(self.idx2aid@)
    }

    /// Burned records hold neither owner nor operator.
    pub open spec fn records_wf(&self) -> bool {
        forall|t: TokenId| #![trigger self.records().dom().contains(t)]
            self.records().dom().contains(t) && self.records()[t].is_burned
                ==> self.records()[t].owner is None && self.records()[t].operator is None
    }

    /// Both derived indices agree with the record store, and burned records
    /// are holderless.
    pub open spec fn consistent(&self) -> bool {
        &&& holder_consistent(self.records(), self.owner_index(), false)
        &&& holder_consistent(self.records(), self.operator_index(), true)
        &&& self.records_wf()
    }
}

/// The record resulting from delegating a token.
pub open spec fn approve_record(m: TokenMetadata, new_operator: Option<ShikuAccountIdentifier>, approved_by: ShikuAccountIdentifier, now: u64) -> TokenMetadata {
    TokenMetadata {
        operator: new_operator,
        approved_by: Some(approved_by),
        approved_at: Some(now),
        ..m
    }
}

/// The record resulting from transferring a token: the new owner also
/// becomes the operator, clearing any third-party delegation.
pub open spec fn transfer_record(m: TokenMetadata, new_owner: Option<ShikuAccountIdentifier>, transferred_by: ShikuAccountIdentifier, now: u64) -> TokenMetadata {
    TokenMetadata {
        owner: new_owner,
        operator: new_owner,
        transferred_by: Some(transferred_by),
        transferred_at: Some(now),
        ..m
    }
}

/// The record resulting from burning a token: holderless, terminally marked.
pub open spec fn burn_record(m: TokenMetadata, burned_by: ShikuAccountIdentifier, now: u64) -> TokenMetadata {
    TokenMetadata {
        owner: None,
        operator: None,
        is_burned: true,
        burned_by: Some(burned_by),
        burned_at: Some(now),
        ..m
    }
}

/// An owned copy of a string.
pub fn copy_string(s: &String) -> (r: String)
    ensures
        r@ == s@,
{
    s.as_str().to_string()
}

impl Default for Ledger {
    /// The empty ledger: no records, no index entries, no registry rows, a
    /// zero transaction counter and empty metadata.
    fn default() -> (r: Self)
        ensures
            r.wf(),
            r.consistent(),
            r.records() == Map::<TokenId, TokenMetadata>::empty(),
            r.owner_index() == Map::<Seq<u8>, Set<TokenId>>::empty(),
            r.operator_index() == Map::<Seq<u8>, Set<TokenId>>::empty(),
            r.registry() == Map::<TokenIndexU32, Seq<char>>::empty(),
            r.custodians@.len() == 0,
            r.tx_count == 0,
            r.metadata.custodians@.len() == 0,
    {
        Ledger {
            metadata: MetaData::default(),
            tokens: Vec::new(),
            owners: Vec::new(),
            operators: Vec::new(),
            custodians: Vec::new(),
            idx2aid: Vec::new(),
            tx_count: 0,
        }
    }
}

impl Ledger {
    /// The position of a token's entry in the record store, if any.
    fn find_token(&self, token_identifier: TokenId) -> (r: Option<usize>)
        requires
            tokens_unique(self.tokens@),
        ensures
            match r {
                Some(i) => i < self.tokens@.len() && (self.tokens@[i as int]).0 == token_identifier
                    && self.records().contains_key(token_identifier)
                    && self.records()[token_identifier] == (self.tokens@[i as int]).1,
                None => !self.records().contains_key(token_identifier),
            },
    {
        let mut i: usize = 0;
        while i < self.tokens.len()
            invariant
                tokens_unique(self.tokens@),
                i <= self.tokens@.len(),
                forall|k: int| 0 <= k < i ==> (#[trigger] self.tokens@[k]).0 != token_identifier,
            decreases self.tokens@.len() - i,
        {
            if self.tokens[i].0 == token_identifier {
                proof {
                    lemma_tokens_map_index(self.tokens@, i as int);
                }
                return Some(i);
            }
            i += 1;
        }
        proof {
            lemma_tokens_map_contains(self.tokens@, token_identifier);
        }
        None
    }

    /// An owned copy of the registry rows.
    pub fn get_registry(&self) -> (r: Vec<(TokenIndexU32, AccountIdentifier__1)>)
        ensures
            r@.len() == self.idx2aid@.len(),
            forall|i: int| 0 <= i < r@.len() ==> (#[trigger] r@[i]).0 == (self.idx2aid@[i]).0
                && (r@[i]).1@ == (self.idx2aid@[i]).1@,
    {
        let mut r: Vec<(TokenIndexU32, AccountIdentifier__1)> = Vec::new();
        let mut i: usize = 0;
        while i < self.idx2aid.len()
            invariant
                i <= self.idx2aid@.len(),
                r@.len() == i,
                forall|k: int| 0 <= k < i ==> (#[trigger] r@[k]).0 == (self.idx2aid@[k]).0
                    && (r@[k]).1@ == (self.idx2aid@[k]).1@,
            decreases self.idx2aid@.len() - i,
        {
            let row = (self.idx2aid[i].0, copy_string(&self.idx2aid[i].1));
            r.push(row);
            i += 1;
        }
        r
    }

    /// The registry-wide settings.
    pub fn metadata(&self) -> (r: &MetaData)
        ensures
            r == &self.metadata,
    {
        &self.metadata
    }

    /// The number of records in the store, burned tokens included.
    pub fn tokens_count(&self) -> (r: usize)
        requires
            self.wf(),
        ensures
            r == self.tokens@.len(),
            r == self.records().dom().len(),
    {
        proof {
            lemma_tokens_map_dom_len(self.tokens@);
        }
        self.tokens.len()
    }

    /// Whether a record exists for the given token.
    pub fn is_token_existed(&self, token_identifier: &TokenId) -> (r: bool)
        requires
            self.wf(),
        ensures
            r == self.records().contains_key(*token_identifier),
    {
        self.find_token(*token_identifier).is_some()
    }

    /// The identifiers of the tokens currently owned by `owner`.
    pub fn owner_token_identifiers(&self, owner: &ShikuAccountIdentifier) -> (r: Result<&Vec<TokenId>, NftError>)
        requires
            self.wf(),
        ensures
            match r {
                Ok(v) => self.owner_index().contains_key(owner@)
                    && v@.to_set() == self.owner_index()[owner@]
                    && v@.no_duplicates()
                    && v@.len() > 0,
                Err(e) => e == NftError::OwnerNotFound && !self.owner_index().contains_key(owner@),
            },
    {
        match find_holder(&self.owners, owner) {
            Some(i) => Ok(&self.owners[i].1),
            None => Err(NftError::OwnerNotFound),
        }
    }

    /// The record of the given token.
    pub fn token_metadata(&self, token_identifier: &TokenId) -> (r: Result<&TokenMetadata, NftError>)
        requires
            self.wf(),
        ensures
            match r {
                Ok(m) => self.records().contains_key(*token_identifier)
                    && *m == self.records()[*token_identifier],
                Err(e) => e == NftError::TokenNotFound
                    && !self.records().contains_key(*token_identifier),
            },
    {
        match self.find_token(*token_identifier) {
            Some(i) => Ok(&self.tokens[i].1),
            None => Err(NftError::TokenNotFound),
        }
    }

    /// Stores (or replaces) the record of the given token.
    pub fn add_token_metadata(&mut self, token_identifier: &TokenId, token_metadata: TokenMetadata)
        requires
            tokens_unique(old(self).tokens@),
        ensures
            tokens_unique(final(self).tokens@),
            final(self).records() == old(self).records().insert(*token_identifier, token_metadata),
            final(self).owners == old(self).owners,
            final(self).operators == old(self).operators,
            final(self).metadata == old(self).metadata,
            final(self).custodians == old(self).custodians,
            final(self).idx2aid == old(self).idx2aid,
            final(self).tx_count == old(self).tx_count,
    {
        let ghost s0 = self.tokens@;
        let ghost tm = token_metadata;
        match self.find_token(*token_identifier) {
            Some(i) => {
                let _previous = self.tokens.remove(i);
                self.tokens.insert(i, (*token_identifier, token_metadata));
                proof {
                    lemma_seq_remove_insert(s0, i as int, ((s0[i as int]).0, tm));
                    assert(self.tokens@ == s0.update(i as int, ((s0[i as int]).0, tm)));
                    lemma_tokens_map_update(s0, i as int, tm);
                }
            },
            None => {
                self.tokens.push((*token_identifier, token_metadata));
                proof {
                    lemma_tokens_map_push(s0, *token_identifier, tm);
                }
            },
        }
    }

    /// The number of accounts that currently own at least one token.
    pub fn owners_count(&self) -> (r: usize)
        requires
            self.wf(),
        ensures
            r == self.owners@.len(),
            r == self.owner_index().dom().len(),
    {
        proof {
            lemma_holders_map_dom_len(self.owners@);
        }
        self.owners.len()
    }

    /// The stored owner of the given token.
    pub fn owner_of(&self, token_identifier: &TokenId) -> (r: Result<Option<ShikuAccountIdentifier>, NftError>)
        requires
            self.wf(),
        ensures
            match r {
                Ok(o) => self.records().contains_key(*token_identifier)
                    && o == self.records()[*token_identifier].owner,
                Err(e) => e == NftError::TokenNotFound
                    && !self.records().contains_key(*token_identifier),
            },
    {
        match self.token_metadata(token_identifier) {
            Ok(m) => Ok(m.owner),
            Err(e) => Err(e),
        }
    }

    /// Applies one reindexing step to the ownership index.
    pub fn update_owner_cache(
        &mut self,
        token_identifier: &TokenId,
        old_owner: Option<ShikuAccountIdentifier>,
        new_owner: Option<ShikuAccountIdentifier>,
    )
        requires
            holders_wf(old(self).owners@),
            old_owner matches Some(a) ==> holders_map(old(self).owners@).contains_key(a@),
        ensures
            holders_wf(final(self).owners@),
            final(self).owner_index() == spec_reindex(
                old(self).owner_index(),
                *token_identifier,
                view_opt(old_owner),
                view_opt(new_owner),
            ),
            final(self).tokens == old(self).tokens,
            final(self).operators == old(self).operators,
            final(self).metadata == old(self).metadata,
            final(self).custodians == old(self).custodians,
            final(self).idx2aid == old(self).idx2aid,
            final(self).tx_count == old(self).tx_count,
    {
        reindex_holder(&mut self.owners, *token_identifier, old_owner, new_owner);
    }

    /// The identifiers of the tokens currently delegated to `operator`.
    pub fn operator_token_identifier(&self, operator: &ShikuAccountIdentifier) -> (r: Result<&Vec<TokenId>, NftError>)
        requires
            self.wf(),
        ensures
            match r {
                Ok(v) => self.operator_index().contains_key(operator@)
                    && v@.to_set() == self.operator_index()[operator@]
                    && v@.no_duplicates()
                    && v@.len() > 0,
                Err(e) => e == NftError::OperatorNotFound
                    && !self.operator_index().contains_key(operator@),
            },
    {
        match find_holder(&self.operators, operator) {
            Some(i) => Ok(&self.operators[i].1),
            None => Err(NftError::OperatorNotFound),
        }
    }

    /// The stored operator of the given token.
    pub fn operator_of(&self, token_identifier: &TokenId) -> (r: Result<Option<ShikuAccountIdentifier>, NftError>)
        requires
            self.wf(),
        ensures
            match r {
                Ok(o) => self.records().contains_key(*token_identifier)
                    && o == self.records()[*token_identifier].operator,
                Err(e) => e == NftError::TokenNotFound
                    && !self.records().contains_key(*token_identifier),
            },
    {
        match self.token_metadata(token_identifier) {
            Ok(m) => Ok(m.operator),
            Err(e) => Err(e),
        }
    }

    /// Applies one reindexing step to the delegation index.
    pub fn update_operator_cache(
        &mut self,
        token_identifier: &TokenId,
        old_operator: Option<ShikuAccountIdentifier>,
        new_operator: Option<ShikuAccountIdentifier>,
    )
        requires
            holders_wf(old(self).operators@),
            old_operator matches Some(a) ==> holders_map(old(self).operators@).contains_key(a@),
        ensures
            holders_wf(final(self).operators@),
            final(self).operator_index() == spec_reindex(
                old(self).operator_index(),
                *token_identifier,
                view_opt(old_operator),
                view_opt(new_operator),
            ),
            final(self).tokens == old(self).tokens,
            final(self).owners == old(self).owners,
            final(self).metadata == old(self).metadata,
            final(self).custodians == old(self).custodians,
            final(self).idx2aid == old(self).idx2aid,
            final(self).tx_count == old(self).tx_count,
    {
        reindex_holder(&mut self.operators, *token_identifier, old_operator, new_operator);
    }

    /// Rewrites the record of an existing token with the given delegation.
    pub fn approve(
        &mut self,
        approved_by: ShikuAccountIdentifier,
        token_identifier: &TokenId,
        new_operator: Option<ShikuAccountIdentifier>,
        now: u64,
    )
        requires
            tokens_unique(old(self).tokens@),
            old(self).records().contains_key(*token_identifier),
        ensures
            tokens_unique(final(self).tokens@),
            final(self).records() == old(self).records().insert(
                *token_identifier,
                approve_record(old(self).records()[*token_identifier], new_operator, approved_by, now),
            ),
            final(self).owners == old(self).owners,
            final(self).operators == old(self).operators,
            final(self).metadata == old(self).metadata,
            final(self).custodians == old(self).custodians,
            final(self).idx2aid == old(self).idx2aid,
            final(self).tx_count == old(self).tx_count,
    {
        let ghost s0 = self.tokens@;
        let ridx = self.find_token(*token_identifier);
        let i = ridx.unwrap();
        let (tid, previous) = self.tokens.remove(i);
        let updated = TokenMetadata {
            operator: new_operator,
            approved_by: Some(approved_by),
            approved_at: Some(now),
            ..previous
        };
        let ghost nm = updated;
        self.tokens.insert(i, (tid, updated));
        proof {
            lemma_seq_remove_insert(s0, i as int, ((s0[i as int]).0, nm));
            assert(self.tokens@ == s0.update(i as int, ((s0[i as int]).0, nm)));
            lemma_tokens_map_update(s0, i as int, nm);
        }
    }

    /// Rewrites the record of an existing token with the given new owner,
    /// which also becomes the operator.
    pub fn transfer(
        &mut self,
        transferred_by: ShikuAccountIdentifier,
        token_identifier: &TokenId,
        new_owner: Option<ShikuAccountIdentifier>,
        now: u64,
    )
        requires
            tokens_unique(old(self).tokens@),
            old(self).records().contains_key(*token_identifier),
        ensures
            tokens_unique(final(self).tokens@),
            final(self).records() == old(self).records().insert(
                *token_identifier,
                transfer_record(old(self).records()[*token_identifier], new_owner, transferred_by, now),
            ),
            final(self).owners == old(self).owners,
            final(self).operators == old(self).operators,
            final(self).metadata == old(self).metadata,
            final(self).custodians == old(self).custodians,
            final(self).idx2aid == old(self).idx2aid,
            final(self).tx_count == old(self).tx_count,
    {
        let ghost s0 = self.tokens@;
        let ridx = self.find_token(*token_identifier);
        let i = ridx.unwrap();
        let (tid, previous) = self.tokens.remove(i);
        let updated = TokenMetadata {
            owner: new_owner,
            operator: new_owner,
            transferred_by: Some(transferred_by),
            transferred_at: Some(now),
            ..previous
        };
        let ghost nm = updated;
        self.tokens.insert(i, (tid, updated));
        proof {
            lemma_seq_remove_insert(s0, i as int, ((s0[i as int]).0, nm));
            assert(self.tokens@ == s0.update(i as int, ((s0[i as int]).0, nm)));
            lemma_tokens_map_update(s0, i as int, nm);
        }
    }

    /// Rewrites the record of an existing token as burned: holderless and
    /// terminally marked.
    pub fn burn(&mut self, burned_by: ShikuAccountIdentifier, token_identifier: &TokenId, now: u64)
        requires
            tokens_unique(old(self).tokens@),
            old(self).records().contains_key(*token_identifier),
        ensures
            tokens_unique(final(self).tokens@),
            final(self).records() == old(self).records().insert(
                *token_identifier,
                burn_record(old(self).records()[*token_identifier], burned_by, now),
            ),
            final(self).owners == old(self).owners,
            final(self).operators == old(self).operators,
            final(self).metadata == old(self).metadata,
            final(self).custodians == old(self).custodians,
            final(self).idx2aid == old(self).idx2aid,
            final(self).tx_count == old(self).tx_count,
    {
        let ghost s0 = self.tokens@;
        let ridx = self.find_token(*token_identifier);
        let i = ridx.unwrap();
        let (tid, previous) = self.tokens.remove(i);
        let updated = TokenMetadata {
            owner: None,
            operator: None,
            is_burned: true,
            burned_by: Some(burned_by),
            burned_at: Some(now),
            ..previous
        };
        let ghost nm = updated;
        self.tokens.insert(i, (tid, updated));
        proof {
            lemma_seq_remove_insert(s0, i as int, ((s0[i as int]).0, nm));
            assert(self.tokens@ == s0.update(i as int, ((s0[i as int]).0, nm)));
            lemma_tokens_map_update(s0, i as int, nm);
        }
    }

    /// Replaces the registry-wide settings.
    pub fn set_metadata(&mut self, metadata: MetaData)
        ensures
            final(self).metadata == metadata,
            final(self).tokens == old(self).tokens,
            final(self).owners == old(self).owners,
            final(self).operators == old(self).operators,
            final(self).custodians == old(self).custodians,
            final(self).idx2aid == old(self).idx2aid,
            final(self).tx_count == old(self).tx_count,
    {
        self.metadata = metadata;
    }

    /// Advances the transaction counter and returns its new value.
    pub fn inc_tx(&mut self) -> (r: u64)
        requires
            old(self).tx_count < u64::MAX,
        ensures
            final(self).tx_count == old(self).tx_count + 1,
            r == final(self).tx_count,
            final(self).tokens == old(self).tokens,
            final(self).owners == old(self).owners,
            final(self).operators == old(self).operators,
            final(self).metadata == old(self).metadata,
            final(self).custodians == old(self).custodians,
            final(self).idx2aid == old(self).idx2aid,
    {
        self.tx_count = self.tx_count + 1;
        self.tx_count
    }
}

} // verus!
