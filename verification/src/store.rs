//! Seq-level model of the record store.
//!
//! Each record family lives in one vector whose well-formedness demands
//! exclusivity per key. The spec functions here say what a key lookup
//! sees, and the lemmas say how lookups and per-mint balance sums move
//! when one entry is updated, added or removed.

use vstd::prelude::*;
use crate::records::{AccountRef, FreezeFlag, HolderAccount, MintId, MintRecord, TokenMetadata};

verus! {

// ------------------------------------------------------------------
// Holder accounts, keyed by (owner, mint)
// ------------------------------------------------------------------

pub open spec fn acct_matches(a: HolderAccount, r: AccountRef) -> bool {
    a.owner == r.owner && a.mint == r.mint
}

pub open spec fn acct_has(s: Seq<HolderAccount>, r: AccountRef) -> bool {
    exists|i: int| 0 <= i < s.len() && acct_matches(#[trigger] s[i], r)
}

pub open spec fn acct_ix(s: Seq<HolderAccount>, r: AccountRef) -> int {
    choose|i: int| 0 <= i < s.len() && acct_matches(#[trigger] s[i], r)
}

pub open spec fn acct_balance(s: Seq<HolderAccount>, r: AccountRef) -> u64
    recommends
        acct_has(s, r),
{
    s[acct_ix(s, r)].balance
}

/// Exclusivity per key: no two entries share (owner, mint).
pub open spec fn acct_unique(s: Seq<HolderAccount>) -> bool {
    forall|i: int, j: int|
        0 <= i < s.len() && 0 <= j < s.len() && i != j ==> (#[trigger] s[i]).key() != (
        #[trigger] s[j]).key()
}

/// What one entry adds to the balance sum of mint `m`.
pub open spec fn share_of(a: HolderAccount, m: MintId) -> int {
    if a.mint == m {
        a.balance as int
    } else {
        0
    }
}

/// The sum of all balances held in accounts of mint `m`.
pub open spec fn sum_for(s: Seq<HolderAccount>, m: MintId) -> int
    decreases s.len(),
{
    if s.len() == 0 {
        0
    } else {
        sum_for(s.drop_last(), m) + share_of(s.last(), m)
    }
}

/// The entry at index `i` is exactly what lookup by its own key sees.
pub proof fn lemma_acct_at(s: Seq<HolderAccount>, i: int)
    requires
        acct_unique(s),
        0 <= i < s.len(),
    ensures
        acct_has(s, s[i].key()),
        acct_ix(s, s[i].key()) == i,
        acct_balance(s, s[i].key()) == s[i].balance,
{
    assert(acct_matches(s[i], s[i].key()));
    let j: int = acct_ix(s, s[i].key());
    assert(0 <= j < s.len() && acct_matches(s[j], s[i].key()));
    assert(s[j].key() == s[i].key());
    assert(j == i);
}

/// Replacing the entry at `i` with one of the same key: lookups move only
/// at that key, and each mint's sum moves by the entry's own change.
pub proof fn lemma_acct_update(s: Seq<HolderAccount>, i: int, v: HolderAccount)
    requires
        acct_unique(s),
        0 <= i < s.len(),
        v.key() == s[i].key(),
    ensures
        acct_unique(s.update(i, v)),
        forall|r: AccountRef| #[trigger] acct_has(s.update(i, v), r) == acct_has(s, r),
        acct_has(s.update(i, v), v.key()),
        acct_balance(s.update(i, v), v.key()) == v.balance,
        forall|r: AccountRef|
            r != v.key() && acct_has(s, r) ==> #[trigger] acct_balance(s.update(i, v), r)
                == acct_balance(s, r),
{
    let t = s.update(i, v);
    assert forall|a: int, b: int|
        0 <= a < t.len() && 0 <= b < t.len() && a != b implies (#[trigger] t[a]).key() != (
    #[trigger] t[b]).key() by {
        assert(t[a].key() == s[a].key());
        assert(t[b].key() == s[b].key());
    }
    assert forall|r: AccountRef| #[trigger] acct_has(t, r) == acct_has(s, r) by {
        if acct_has(s, r) {
            let j: int = acct_ix(s, r);
            assert(acct_matches(t[j], r));
        }
        if acct_has(t, r) {
            let j: int = acct_ix(t, r);
            assert(acct_matches(s[j], r));
        }
    }
    assert(acct_matches(t[i], v.key()));
    lemma_acct_at(t, i);
    assert forall|r: AccountRef|
        r != v.key() && acct_has(s, r) implies #[trigger] acct_balance(t, r) == acct_balance(
        s,
        r,
    ) by {
        let j: int = acct_ix(s, r);
        assert(0 <= j < s.len() && acct_matches(s[j], r));
        lemma_acct_at(s, j);
        assert(j != i);
        assert(t[j] == s[j]);
        lemma_acct_at(t, j);
    }
}

/// Adding an entry under a fresh key: every other lookup is untouched.
pub proof fn lemma_acct_push(s: Seq<HolderAccount>, v: HolderAccount)
    requires
        acct_unique(s),
        !acct_has(s, v.key()),
    ensures
        acct_unique(s.push(v)),
        acct_has(s.push(v), v.key()),
        acct_balance(s.push(v), v.key()) == v.balance,
        forall|r: AccountRef|
            r != v.key() ==> #[trigger] acct_has(s.push(v), r) == acct_has(s, r),
        forall|r: AccountRef|
            r != v.key() && acct_has(s, r) ==> #[trigger] acct_balance(s.push(v), r)
                == acct_balance(s, r),
{
    let t = s.push(v);
    let n: int = s.len() as int;
    assert forall|a: int, b: int|
        0 <= a < t.len() && 0 <= b < t.len() && a != b implies (#[trigger] t[a]).key() != (
    #[trigger] t[b]).key() by {
        if a < n && b < n {
            assert(t[a] == s[a]);
            assert(t[b] == s[b]);
        } else if a < n {
            assert(t[b] == v);
            assert(t[a] == s[a]);
            if t[a].key() == v.key() {
                assert(acct_matches(s[a], v.key()));
            }
        } else {
            assert(t[a] == v);
            assert(t[b] == s[b]);
            if t[b].key() == v.key() {
                assert(acct_matches(s[b], v.key()));
            }
        }
    }
    assert(t[n] == v);
    lemma_acct_at(t, n);
    assert forall|r: AccountRef|
        r != v.key() implies #[trigger] acct_has(t, r) == acct_has(s, r) by {
        if acct_has(s, r) {
            let j: int = acct_ix(s, r);
            assert(acct_matches(t[j], r));
        }
        if acct_has(t, r) {
            let j: int = acct_ix(t, r);
            assert(0 <= j < t.len() && acct_matches(t[j], r));
            assert(j != n);
            assert(acct_matches(s[j], r));
        }
    }
    assert forall|r: AccountRef|
        r != v.key() && acct_has(s, r) implies #[trigger] acct_balance(t, r) == acct_balance(
        s,
        r,
    ) by {
        let j: int = acct_ix(s, r);
        assert(0 <= j < s.len() && acct_matches(s[j], r));
        lemma_acct_at(s, j);
        assert(t[j] == s[j]);
        lemma_acct_at(t, j);
    }
}

/// Removing the entry at `i`: its key stops resolving, others are untouched.
pub proof fn lemma_acct_remove(s: Seq<HolderAccount>, i: int)
    requires
        acct_unique(s),
        0 <= i < s.len(),
    ensures
        acct_unique(s.remove(i)),
        !acct_has(s.remove(i), s[i].key()),
        forall|r: AccountRef|
            r != s[i].key() ==> #[trigger] acct_has(s.remove(i), r) == acct_has(s, r),
        forall|r: AccountRef|
            r != s[i].key() && acct_has(s, r) ==> #[trigger] acct_balance(s.remove(i), r)
                == acct_balance(s, r),
{
    let t = s.remove(i);
    s.remove_ensures(i);
    assert forall|k: int| 0 <= k < t.len() implies #[trigger] t[k] == (if k < i {
        s[k]
    } else {
        s[k + 1]
    }) by {}
    assert forall|a: int, b: int|
        0 <= a < t.len() && 0 <= b < t.len() && a != b implies (#[trigger] t[a]).key() != (
    #[trigger] t[b]).key() by {
        let a0: int = if a < i { a } else { a + 1 };
        let b0: int = if b < i { b } else { b + 1 };
        assert(t[a] == s[a0]);
        assert(t[b] == s[b0]);
        assert(a0 != b0);
    }
    if acct_has(t, s[i].key()) {
        let j: int = acct_ix(t, s[i].key());
        assert(0 <= j < t.len() && acct_matches(t[j], s[i].key()));
        let j0: int = if j < i { j } else { j + 1 };
        assert(t[j] == s[j0]);
        assert(j0 != i);
        assert(s[j0].key() == s[i].key());
        assert(false);
    }
    assert forall|r: AccountRef|
        r != s[i].key() implies #[trigger] acct_has(t, r) == acct_has(s, r) by {
        if acct_has(s, r) {
            let j: int = acct_ix(s, r);
            assert(0 <= j < s.len() && acct_matches(s[j], r));
            assert(j != i);
            let jt: int = if j < i { j } else { j - 1 };
            assert(t[jt] == s[j]);
            assert(acct_matches(t[jt], r));
        }
        if acct_has(t, r) {
            let j: int = acct_ix(t, r);
            assert(0 <= j < t.len() && acct_matches(t[j], r));
            let j0: int = if j < i { j } else { j + 1 };
            assert(t[j] == s[j0]);
            assert(acct_matches(s[j0], r));
        }
    }
    assert forall|r: AccountRef|
        r != s[i].key() && acct_has(s, r) implies #[trigger] acct_balance(t, r) == acct_balance(
        s,
        r,
    ) by {
        let j: int = acct_ix(s, r);
        assert(0 <= j < s.len() && acct_matches(s[j], r));
        lemma_acct_at(s, j);
        assert(j != i);
        let jt: int = if j < i { j } else { j - 1 };
        assert(t[jt] == s[j]);
        lemma_acct_at(t, jt);
    }
}

/// Updating one entry shifts each mint's sum by that entry's own change.
pub proof fn lemma_sum_update(s: Seq<HolderAccount>, i: int, v: HolderAccount, m: MintId)
    requires
        0 <= i < s.len(),
    ensures
        sum_for(s.update(i, v), m) == sum_for(s, m) - share_of(s[i], m) + share_of(v, m),
    decreases s.len(),
{
    let t = s.update(i, v);
    if i == s.len() - 1 {
        assert(t.drop_last() =~= s.drop_last());
        assert(t.last() == v);
    } else {
        lemma_sum_update(s.drop_last(), i, v, m);
        assert(t.drop_last() =~= s.drop_last().update(i, v));
        assert(t.last() == s.last());
        assert(s.drop_last()[i] == s[i]);
    }
}

/// Appending an entry adds exactly its contribution to each mint's sum.
pub proof fn lemma_sum_push(s: Seq<HolderAccount>, v: HolderAccount, m: MintId)
    ensures
        sum_for(s.push(v), m) == sum_for(s, m) + share_of(v, m),
{
    assert(s.push(v).drop_last() =~= s);
    assert(s.push(v).last() == v);
}

/// Removing an entry subtracts exactly its contribution from each mint's sum.
pub proof fn lemma_sum_remove(s: Seq<HolderAccount>, i: int, m: MintId)
    requires
        0 <= i < s.len(),
    ensures
        sum_for(s.remove(i), m) == sum_for(s, m) - share_of(s[i], m),
    decreases s.len(),
{
    let t = s.remove(i);
    s.remove_ensures(i);
    if i == s.len() - 1 {
        assert(t =~= s.drop_last());
    } else {
        lemma_sum_remove(s.drop_last(), i, m);
        assert(t.drop_last() =~= s.drop_last().remove(i));
        assert(t.last() == s[s.len() - 1]);
        assert(s.drop_last()[i] == s[i]);
    }
}

/// Balance sums never go below zero.
pub proof fn lemma_sum_nonneg(s: Seq<HolderAccount>, m: MintId)
    ensures
        sum_for(s, m) >= 0,
    decreases s.len(),
{
    if s.len() > 0 {
        lemma_sum_nonneg(s.drop_last(), m);
    }
}

/// Each entry's balance is bounded by its mint's total sum.
pub proof fn lemma_sum_element_bound(s: Seq<HolderAccount>, i: int)
    requires
        0 <= i < s.len(),
    ensures
        sum_for(s, s[i].mint) >= s[i].balance,
    decreases s.len(),
{
    if i == s.len() - 1 {
        lemma_sum_nonneg(s.drop_last(), s[i].mint);
    } else {
        lemma_sum_element_bound(s.drop_last(), i);
        assert(s.drop_last()[i] == s[i]);
    }
}

// ------------------------------------------------------------------
// Freeze flags, keyed by the holder account they guard
// ------------------------------------------------------------------

pub open spec fn flag_has(s: Seq<FreezeFlag>, r: AccountRef) -> bool {
    exists|i: int| 0 <= i < s.len() && (#[trigger] s[i]).target == r
}

pub open spec fn flag_ix(s: Seq<FreezeFlag>, r: AccountRef) -> int {
    choose|i: int| 0 <= i < s.len() && (#[trigger] s[i]).target == r
}

/// The freeze state a transfer consults: an absent flag means not frozen.
pub open spec fn frozen_state(s: Seq<FreezeFlag>, r: AccountRef) -> bool {
    flag_has(s, r) && s[flag_ix(s, r)].is_frozen
}

/// Exclusivity per key: at most one flag per holder account.
pub open spec fn flag_unique(s: Seq<FreezeFlag>) -> bool {
    forall|i: int, j: int|
        0 <= i < s.len() && 0 <= j < s.len() && i != j ==> (#[trigger] s[i]).target != (
        #[trigger] s[j]).target
}

/// The flag at index `i` is exactly what lookup by its target sees.
pub proof fn lemma_flag_at(s: Seq<FreezeFlag>, i: int)
    requires
        flag_unique(s),
        0 <= i < s.len(),
    ensures
        flag_has(s, s[i].target),
        flag_ix(s, s[i].target) == i,
        frozen_state(s, s[i].target) == s[i].is_frozen,
{
    let j: int = flag_ix(s, s[i].target);
    assert(0 <= j < s.len() && s[j].target == s[i].target);
    assert(j == i);
}

/// Rewriting the flag at `i` with one for the same account: only that
/// account's freeze state moves.
pub proof fn lemma_flag_update(s: Seq<FreezeFlag>, i: int, v: FreezeFlag)
    requires
        flag_unique(s),
        0 <= i < s.len(),
        v.target == s[i].target,
    ensures
        flag_unique(s.update(i, v)),
        frozen_state(s.update(i, v), v.target) == v.is_frozen,
        forall|r: AccountRef|
            r != v.target ==> #[trigger] frozen_state(s.update(i, v), r) == frozen_state(s, r),
{
    let t = s.update(i, v);
    assert forall|a: int, b: int|
        0 <= a < t.len() && 0 <= b < t.len() && a != b implies (#[trigger] t[a]).target != (
    #[trigger] t[b]).target by {
        assert(t[a].target == s[a].target);
        assert(t[b].target == s[b].target);
    }
    assert(t[i] == v);
    lemma_flag_at(t, i);
    assert forall|r: AccountRef|
        r != v.target implies #[trigger] frozen_state(t, r) == frozen_state(s, r) by {
        if flag_has(s, r) {
            let j: int = flag_ix(s, r);
            assert(0 <= j < s.len() && s[j].target == r);
            lemma_flag_at(s, j);
            assert(j != i);
            assert(t[j] == s[j]);
            lemma_flag_at(t, j);
        }
        if flag_has(t, r) {
            let j: int = flag_ix(t, r);
            assert(0 <= j < t.len() && t[j].target == r);
            assert(s[j].target == r);
        }
    }
}

/// Adding a flag for an account that had none: only that account's
/// freeze state moves.
pub proof fn lemma_flag_push(s: Seq<FreezeFlag>, v: FreezeFlag)
    requires
        flag_unique(s),
        !flag_has(s, v.target),
    ensures
        flag_unique(s.push(v)),
        frozen_state(s.push(v), v.target) == v.is_frozen,
        forall|r: AccountRef|
            r != v.target ==> #[trigger] frozen_state(s.push(v), r) == frozen_state(s, r),
{
    let t = s.push(v);
    let n: int = s.len() as int;
    assert forall|a: int, b: int|
        0 <= a < t.len() && 0 <= b < t.len() && a != b implies (#[trigger] t[a]).target != (
    #[trigger] t[b]).target by {
        if a < n && b < n {
            assert(t[a] == s[a]);
            assert(t[b] == s[b]);
        } else if a < n {
            assert(t[b] == v);
            assert(t[a] == s[a]);
        } else {
            assert(t[a] == v);
            assert(t[b] == s[b]);
        }
    }
    assert(t[n] == v);
    lemma_flag_at(t, n);
    assert forall|r: AccountRef|
        r != v.target implies #[trigger] frozen_state(t, r) == frozen_state(s, r) by {
        if flag_has(s, r) {
            let j: int = flag_ix(s, r);
            assert(0 <= j < s.len() && s[j].target == r);
            lemma_flag_at(s, j);
            assert(t[j] == s[j]);
            lemma_flag_at(t, j);
        }
        if flag_has(t, r) {
            let j: int = flag_ix(t, r);
            assert(0 <= j < t.len() && t[j].target == r);
            assert(j != n);
            assert(s[j].target == r);
        }
    }
}

// ------------------------------------------------------------------
// Mint records, keyed by mint id
// ------------------------------------------------------------------

pub open spec fn mint_has(s: Seq<MintRecord>, m: MintId) -> bool {
    exists|i: int| 0 <= i < s.len() && (#[trigger] s[i]).mint == m
}

/// Exclusivity per key: one record per token type.
pub open spec fn mint_unique(s: Seq<MintRecord>) -> bool {
    forall|i: int, j: int|
        0 <= i < s.len() && 0 <= j < s.len() && i != j ==> (#[trigger] s[i]).mint != (
        #[trigger] s[j]).mint
}

/// Adding a record for a fresh token type: every other lookup is untouched.
pub proof fn lemma_mint_push(s: Seq<MintRecord>, v: MintRecord)
    requires
        mint_unique(s),
        !mint_has(s, v.mint),
    ensures
        mint_unique(s.push(v)),
        mint_has(s.push(v), v.mint),
        forall|m: MintId| m != v.mint ==> #[trigger] mint_has(s.push(v), m) == mint_has(s, m),
{
    let t = s.push(v);
    let n: int = s.len() as int;
    assert forall|a: int, b: int|
        0 <= a < t.len() && 0 <= b < t.len() && a != b implies (#[trigger] t[a]).mint != (
    #[trigger] t[b]).mint by {
        if a < n && b < n {
            assert(t[a] == s[a]);
            assert(t[b] == s[b]);
        } else if a < n {
            assert(t[b] == v);
            assert(t[a] == s[a]);
        } else {
            assert(t[a] == v);
            assert(t[b] == s[b]);
        }
    }
    assert(t[n].mint == v.mint);
    assert forall|m: MintId| m != v.mint implies #[trigger] mint_has(t, m) == mint_has(s, m) by {
        if mint_has(s, m) {
            let j: int = choose|j: int| 0 <= j < s.len() && (#[trigger] s[j]).mint == m;
            assert(t[j].mint == m);
        }
        if mint_has(t, m) {
            let j: int = choose|j: int| 0 <= j < t.len() && (#[trigger] t[j]).mint == m;
            assert(j != n);
            assert(s[j].mint == m);
        }
    }
}

// ------------------------------------------------------------------
// Token metadata, keyed by sequential id, looked up by mint as well
// ------------------------------------------------------------------

pub open spec fn meta_has_mint(s: Seq<TokenMetadata>, m: MintId) -> bool {
    exists|i: int| 0 <= i < s.len() && (#[trigger] s[i]).mint == m
}

pub open spec fn meta_ix_for_mint(s: Seq<TokenMetadata>, m: MintId) -> int {
    choose|i: int| 0 <= i < s.len() && (#[trigger] s[i]).mint == m
}

/// The metadata record of token type `m`.
pub open spec fn meta_for_mint(s: Seq<TokenMetadata>, m: MintId) -> TokenMetadata
    recommends
        meta_has_mint(s, m),
{
    s[meta_ix_for_mint(s, m)]
}

/// One metadata record per token type.
pub open spec fn meta_mints_unique(s: Seq<TokenMetadata>) -> bool {
    forall|i: int, j: int|
        0 <= i < s.len() && 0 <= j < s.len() && i != j ==> (#[trigger] s[i]).mint != (
        #[trigger] s[j]).mint
}

/// The record at index `i` is exactly what lookup by its mint sees.
pub proof fn lemma_meta_at(s: Seq<TokenMetadata>, i: int)
    requires
        meta_mints_unique(s),
        0 <= i < s.len(),
    ensures
        meta_has_mint(s, s[i].mint),
        meta_ix_for_mint(s, s[i].mint) == i,
        meta_for_mint(s, s[i].mint) == s[i],
{
    let j: int = meta_ix_for_mint(s, s[i].mint);
    assert(0 <= j < s.len() && s[j].mint == s[i].mint);
    assert(j == i);
}

/// Adding metadata for a fresh token type: every other lookup is untouched.
pub proof fn lemma_meta_push(s: Seq<TokenMetadata>, v: TokenMetadata)
    requires
        meta_mints_unique(s),
        !meta_has_mint(s, v.mint),
    ensures
        meta_mints_unique(s.push(v)),
        meta_has_mint(s.push(v), v.mint),
        meta_for_mint(s.push(v), v.mint) == v,
        forall|m: MintId|
            m != v.mint ==> #[trigger] meta_has_mint(s.push(v), m) == meta_has_mint(s, m),
        forall|m: MintId|
            m != v.mint && meta_has_mint(s, m) ==> #[trigger] meta_for_mint(s.push(v), m)
                == meta_for_mint(s, m),
{
    let t = s.push(v);
    let n: int = s.len() as int;
    assert forall|a: int, b: int|
        0 <= a < t.len() && 0 <= b < t.len() && a != b implies (#[trigger] t[a]).mint != (
    #[trigger] t[b]).mint by {
        if a < n && b < n {
            assert(t[a] == s[a]);
            assert(t[b] == s[b]);
        } else if a < n {
            assert(t[b] == v);
            assert(t[a] == s[a]);
        } else {
            assert(t[a] == v);
            assert(t[b] == s[b]);
        }
    }
    assert(t[n] == v);
    lemma_meta_at(t, n);
    assert forall|m: MintId|
        m != v.mint implies #[trigger] meta_has_mint(t, m) == meta_has_mint(s, m) by {
        if meta_has_mint(s, m) {
            let j: int = meta_ix_for_mint(s, m);
            assert(0 <= j < s.len() && s[j].mint == m);
            assert(t[j].mint == m);
        }
        if meta_has_mint(t, m) {
            let j: int = meta_ix_for_mint(t, m);
            assert(0 <= j < t.len() && t[j].mint == m);
            assert(j != n);
            assert(s[j].mint == m);
        }
    }
    assert forall|m: MintId|
        m != v.mint && meta_has_mint(s, m) implies #[trigger] meta_for_mint(t, m)
            == meta_for_mint(s, m) by {
        let j: int = meta_ix_for_mint(s, m);
        assert(0 <= j < s.len() && s[j].mint == m);
        lemma_meta_at(s, j);
        assert(t[j] == s[j]);
        lemma_meta_at(t, j);
    }
}

} // verus!
