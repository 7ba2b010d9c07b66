//! The ledger: the record store plus the mint, transfer and freeze
//! engines. Every public operation is one atomic transaction: all checks
//! run first, and an error leaves the ledger untouched.

use vstd::prelude::*;
use crate::errors::TokenError;
use crate::records::{
    AccountRef, FreezeFlag, HolderAccount, Identity, MintId, MintRecord, Registry, TokenMetadata,
    MAX_NAME_BYTES, MAX_SYMBOL_BYTES,
};
use crate::store::{
    acct_balance, acct_has, acct_matches, acct_unique, share_of, flag_has, flag_unique,
    frozen_state, lemma_acct_at, lemma_acct_push, lemma_acct_remove, lemma_acct_update,
    lemma_flag_at, lemma_flag_push, lemma_flag_update, lemma_meta_at, lemma_meta_push,
    lemma_mint_push, lemma_sum_element_bound, lemma_sum_nonneg, lemma_sum_push, lemma_sum_remove,
    lemma_sum_update, meta_for_mint, meta_has_mint, meta_mints_unique, mint_has, mint_unique,
    sum_for,
};

verus! {

/// The whole record store: one singleton registry, and one vector per
/// record family, each with exclusivity per key. `minted` tracks, per
/// token type, the amount ever issued; it is specification state only.
pub struct Ledger {
    pub registry: Registry,
    pub mints: Vec<MintRecord>,
    pub metas: Vec<TokenMetadata>,
    pub accounts: Vec<HolderAccount>,
    pub freezes: Vec<FreezeFlag>,
    pub minted: Ghost<Map<MintId, int>>,
}

/// Well-formedness carries over to a ledger whose per-mint balance sums,
/// mint records, metadata, registry and issuance record are unchanged.
proof fn lemma_wf_frame(a: Ledger, b: Ledger)
    requires
        a.wf(),
        acct_unique(b.accounts@),
        flag_unique(b.freezes@),
        b.mints@ == a.mints@,
        b.metas@ == a.metas@,
        b.registry == a.registry,
        b.minted@ == a.minted@,
        forall|m: MintId| #[trigger] sum_for(b.accounts@, m) == sum_for(a.accounts@, m),
    ensures
        b.wf(),
{
    assert forall|i: int| 0 <= i < b.metas@.len() implies (#[trigger] b.metas@[i]).id == i by {
        assert(a.metas@[i].id == i);
    }
    assert forall|i: int|
        0 <= i < b.metas@.len() implies (#[trigger] b.metas@[i]).name@.len() <= MAX_NAME_BYTES
            as nat && b.metas@[i].symbol@.len() <= MAX_SYMBOL_BYTES as nat by {
        assert(a.metas@[i].name@.len() <= MAX_NAME_BYTES as nat);
        assert(a.metas@[i].symbol@.len() <= MAX_SYMBOL_BYTES as nat);
    }
    assert forall|i: int|
        0 <= i < b.metas@.len() implies b.has_mint((#[trigger] b.metas@[i]).mint) by {
        assert(a.has_mint(a.metas@[i].mint));
    }
    assert forall|m: MintId| #[trigger] b.balance_sum(m) == b.minted_for(m) by {
        assert(a.balance_sum(m) == a.minted_for(m));
    }
    assert forall|m: MintId| !b.has_mint(m) implies #[trigger] b.minted_for(m) == 0 by {
        if !b.has_mint(m) {
            assert(!a.has_mint(m));
            assert(a.minted_for(m) == 0);
        }
    }
}

/// Well-formedness carries over to a ledger that issued `d` more of an
/// existing token type `m0` and recorded that issuance.
proof fn lemma_wf_issue(a: Ledger, b: Ledger, m0: MintId, d: int)
    requires
        a.wf(),
        acct_unique(b.accounts@),
        flag_unique(b.freezes@),
        b.mints@ == a.mints@,
        b.metas@ == a.metas@,
        b.registry == a.registry,
        b.minted@ == a.minted@.insert(m0, a.minted_for(m0) + d),
        a.has_mint(m0),
        forall|m: MintId|
            m != m0 ==> #[trigger] sum_for(b.accounts@, m) == sum_for(a.accounts@, m),
        sum_for(b.accounts@, m0) == sum_for(a.accounts@, m0) + d,
    ensures
        b.wf(),
{
    assert forall|i: int| 0 <= i < b.metas@.len() implies (#[trigger] b.metas@[i]).id == i by {
        assert(a.metas@[i].id == i);
    }
    assert forall|i: int|
        0 <= i < b.metas@.len() implies (#[trigger] b.metas@[i]).name@.len() <= MAX_NAME_BYTES
            as nat && b.metas@[i].symbol@.len() <= MAX_SYMBOL_BYTES as nat by {
        assert(a.metas@[i].name@.len() <= MAX_NAME_BYTES as nat);
        assert(a.metas@[i].symbol@.len() <= MAX_SYMBOL_BYTES as nat);
    }
    assert forall|i: int|
        0 <= i < b.metas@.len() implies b.has_mint((#[trigger] b.metas@[i]).mint) by {
        assert(a.has_mint(a.metas@[i].mint));
    }
    assert forall|m: MintId| #[trigger] b.balance_sum(m) == b.minted_for(m) by {
        assert(a.balance_sum(m) == a.minted_for(m));
        if m == m0 {
            assert(b.minted_for(m0) == a.minted_for(m0) + d);
        } else {
            assert(b.minted_for(m) == a.minted_for(m));
        }
    }
    assert forall|m: MintId| !b.has_mint(m) implies #[trigger] b.minted_for(m) == 0 by {
        if !b.has_mint(m) {
            assert(!a.has_mint(m));
            assert(a.minted_for(m) == 0);
            assert(m != m0);
        }
    }
}

impl Ledger {
    /// How many token types have been created.
    pub open spec fn token_count(self) -> u64 {
        self.registry.token_count
    }

    /// Whether a mint record exists for token type `m`.
    pub open spec fn has_mint(self, m: MintId) -> bool {
        mint_has(self.mints@, m)
    }

    /// Whether a holder account exists under key `r`.
    pub open spec fn has_account(self, r: AccountRef) -> bool {
        acct_has(self.accounts@, r)
    }

    /// The balance of the holder account under key `r`.
    pub open spec fn balance(self, r: AccountRef) -> u64
        recommends
            self.has_account(r),
    {
        acct_balance(self.accounts@, r)
    }

    /// Whether `r`'s freeze flag exists and is set; an absent flag means
    /// not frozen.
    pub open spec fn is_frozen(self, r: AccountRef) -> bool {
        frozen_state(self.freezes@, r)
    }

    /// The amount ever issued for token type `m`: the initial supply of
    /// its creation plus every later issuance.
    pub open spec fn minted_for(self, m: MintId) -> int {
        if self.minted@.dom().contains(m) {
            self.minted@[m]
        } else {
            0
        }
    }

    /// The sum of all holder balances of token type `m`.
    pub open spec fn balance_sum(self, m: MintId) -> int {
        sum_for(self.accounts@, m)
    }

    /// Whether token type `m` has a metadata record.
    pub open spec fn has_metadata_for(self, m: MintId) -> bool {
        meta_has_mint(self.metas@, m)
    }

    /// The metadata record of token type `m`.
    pub open spec fn metadata_for(self, m: MintId) -> TokenMetadata
        recommends
            self.has_metadata_for(m),
    {
        meta_for_mint(self.metas@, m)
    }

    /// Well-formedness: exclusivity per key in every record family;
    /// metadata identifiers are exactly `0 .. token_count`, in order,
    /// within the name and symbol bounds, and attached to existing
    /// mints; and conservation: for every token type the holder
    /// balances sum to exactly the amount ever issued.
    pub open spec fn wf(self) -> bool {
        &&& acct_unique(self.accounts@)
        &&& mint_unique(self.mints@)
        &&& flag_unique(self.freezes@)
        &&& meta_mints_unique(self.metas@)
        &&& self.metas@.len() == self.registry.token_count as int
        &&& forall|i: int| 0 <= i < self.metas@.len() ==> (#[trigger] self.metas@[i]).id == i
        &&& forall|i: int|
            0 <= i < self.metas@.len() ==> (#[trigger] self.metas@[i]).name@.len()
                <= MAX_NAME_BYTES as nat && self.metas@[i].symbol@.len() <= MAX_SYMBOL_BYTES as nat
        &&& forall|i: int|
            0 <= i < self.metas@.len() ==> self.has_mint((#[trigger] self.metas@[i]).mint)
        &&& forall|m: MintId| #[trigger] self.balance_sum(m) == self.minted_for(m)
        &&& forall|m: MintId| !self.has_mint(m) ==> #[trigger] self.minted_for(m) == 0
    }

    /// Create the singleton registry with a zero count and an empty store.
    pub fn initialize() -> (l: Ledger)
        ensures
            l.wf(),
            l.token_count() == 0,
            forall|r: AccountRef| !(#[trigger] l.has_account(r)),
            forall|r: AccountRef| !(#[trigger] l.is_frozen(r)),
            forall|m: MintId| !(#[trigger] l.has_mint(m)),
            forall|m: MintId| #[trigger] l.minted_for(m) == 0,
    {
        let l = Ledger {
            registry: Registry { token_count: 0 },
            mints: Vec::new(),
            metas: Vec::new(),
            accounts: Vec::new(),
            freezes: Vec::new(),
            minted: Ghost(Map::empty()),
        };
        proof {
            assert forall|m: MintId| #[trigger] l.balance_sum(m) == l.minted_for(m) by {
                assert(!Map::<MintId, int>::empty().dom().contains(m));
            }
            assert forall|m: MintId| #[trigger] l.minted_for(m) == 0 by {
                assert(!Map::<MintId, int>::empty().dom().contains(m));
            }
        }
        l
    }

    /// Idempotent creation: hand back the holder account under
    /// `(owner, mint)`, creating it with a zero balance only when absent.
    pub fn create_or_get_account(&mut self, owner: Identity, mint: MintId) -> (r: AccountRef)
        requires
            old(self).wf(),
        ensures
            final(self).wf(),
            r == (AccountRef { owner, mint }),
            creation_rel(*old(self), *final(self), owner, mint),
            old(self).has_account(r) ==> *final(self) == *old(self),
            !old(self).has_account(r) ==> final(self).accounts@ == old(self).accounts@.push(
                (HolderAccount { owner, mint, balance: 0 }),
            ) && final(self).registry == old(self).registry && final(self).mints@ == old(self).mints@ && final(self).metas@ == old(self).metas@ && final(self).freezes@ == old(self).freezes@ && final(self).minted@ == old(self).minted@,
            final(self).has_account(r),
            final(self).balance(r) == (if old(self).has_account(r) {
                old(self).balance(r)
            } else {
                0u64
            }),
            forall|x: AccountRef|
                x != r ==> #[trigger] final(self).has_account(x) == old(self).has_account(x),
            forall|x: AccountRef|
                x != r && old(self).has_account(x) ==> #[trigger] final(self).balance(x) == old(self).balance(x),
    {
        let r = AccountRef { owner, mint };
        let found = find_account(&self.accounts, r);
        match found {
            Some(i) => {
                proof {
                    lemma_acct_at(self.accounts@, i as int);
                    assert(self.accounts@[i as int].key() == r);
                }
                r
            },
            None => {
                let entry = HolderAccount { owner, mint, balance: 0 };
                proof {
                    assert(entry.key() == r);
                }
                self.accounts.push(entry);
                proof {
                    let s0 = old(self).accounts@;
                    lemma_acct_push(s0, entry);
                    assert forall|m: MintId| #[trigger]
                        sum_for(self.accounts@, m) == sum_for(old(self).accounts@, m) by {
                        lemma_sum_push(s0, entry, m);
                        assert(share_of(entry, m) == 0);
                    }
                    lemma_wf_frame(*old(self), *self);
                }
                r
            },
        }
    }

    /// Set the freeze gate of `account`: create the flag when absent,
    /// rewrite it otherwise. Only that account's freeze state moves.
    fn set_frozen(&mut self, account: AccountRef, value: bool)
        requires
            old(self).wf(),
        ensures
            final(self).wf(),
            final(self).is_frozen(account) == value,
            forall|x: AccountRef|
                x != account ==> #[trigger] final(self).is_frozen(x) == old(self).is_frozen(x),
            final(self).accounts@ == old(self).accounts@,
            final(self).metas@ == old(self).metas@,
            final(self).mints@ == old(self).mints@,
            final(self).registry == old(self).registry,
            final(self).minted@ == old(self).minted@,
    {
        let flag = FreezeFlag { target: account, is_frozen: value };
        let found = find_flag(&self.freezes, account);
        match found {
            Some(i) => {
                proof {
                    lemma_flag_at(old(self).freezes@, i as int);
                }
                self.freezes[i] = flag;
                proof {
                    lemma_flag_update(old(self).freezes@, i as int, flag);
                    lemma_wf_frame(*old(self), *self);
                }
            },
            None => {
                self.freezes.push(flag);
                proof {
                    lemma_flag_push(old(self).freezes@, flag);
                    lemma_wf_frame(*old(self), *self);
                }
            },
        }
    }

    /// Freeze `account`: later transfers out of it fail until it is
    /// unfrozen; transfers into it are untouched. Freezing an already
    /// frozen account is a no-op success. The host authenticates
    /// `authority` as a signer; which identities may freeze is the
    /// host's policy, and the core applies no further role check.
    #[allow(unused_variables)]
    pub fn freeze(&mut self, account: AccountRef, authority: Identity)
        requires
            old(self).wf(),
        ensures
            final(self).wf(),
            final(self).is_frozen(account),
            forall|x: AccountRef|
                x != account ==> #[trigger] final(self).is_frozen(x) == old(self).is_frozen(x),
            final(self).accounts@ == old(self).accounts@,
            final(self).metas@ == old(self).metas@,
            final(self).mints@ == old(self).mints@,
            final(self).registry == old(self).registry,
            final(self).minted@ == old(self).minted@,
    {
        self.set_frozen(account, true)
    }

    /// Clear the freeze gate of `account`. Unfreezing an account with no
    /// flag is a no-op success. Authorization mirrors `freeze`.
    #[allow(unused_variables)]
    pub fn unfreeze(&mut self, account: AccountRef, authority: Identity)
        requires
            old(self).wf(),
        ensures
            final(self).wf(),
            !final(self).is_frozen(account),
            forall|x: AccountRef|
                x != account ==> #[trigger] final(self).is_frozen(x) == old(self).is_frozen(x),
            final(self).accounts@ == old(self).accounts@,
            final(self).metas@ == old(self).metas@,
            final(self).mints@ == old(self).mints@,
            final(self).registry == old(self).registry,
            final(self).minted@ == old(self).minted@,
    {
        self.set_frozen(account, false)
    }

    /// The outcome `transfer` owes on a given pre-state, checks in order:
    /// both accounts loaded, sender authorization, matching token types,
    /// sufficient funds, sender not frozen, and no credit wraparound.
    /// The receiver's freeze flag is never consulted.
    pub open spec fn transfer_outcome(
        self,
        from: AccountRef,
        to: AccountRef,
        amount: u64,
        from_authority: Identity,
    ) -> Result<(), TokenError> {
        if !self.has_account(from) || !self.has_account(to) {
            Result::Err(TokenError::NotFound)
        } else if from_authority != from.owner {
            Result::Err(TokenError::Unauthorized)
        } else if from.mint != to.mint {
            Result::Err(TokenError::MintMismatch)
        } else if self.balance(from) < amount {
            Result::Err(TokenError::InsufficientFunds)
        } else if self.is_frozen(from) {
            Result::Err(TokenError::AccountFrozen)
        } else if from != to && self.balance(to) + amount > u64::MAX {
            Result::Err(TokenError::Overflow)
        } else {
            Result::Ok(())
        }
    }

    /// Move `amount` between two holder accounts of the same token type:
    /// debit the sender and credit the receiver in one atomic step, or
    /// fail with the first applicable error and change nothing.
    pub fn transfer(
        &mut self,
        from: AccountRef,
        to: AccountRef,
        amount: u64,
        from_authority: Identity,
    ) -> (r: Result<(), TokenError>)
        requires
            old(self).wf(),
        ensures
            final(self).wf(),
            r == old(self).transfer_outcome(from, to, amount, from_authority),
            r is Err ==> *final(self) == *old(self),
            r is Ok && from == to ==> *final(self) == *old(self),
            r is Ok ==> final(self).freezes@ == old(self).freezes@ && final(self).metas@ == old(self).metas@ && final(self).mints@ == old(self).mints@ && final(self).registry == old(self).registry && final(self).minted@ == old(self).minted@,
            r is Ok && from != to ==> final(self).balance(from) == old(self).balance(from) - amount
                && final(self).balance(to) == old(self).balance(to) + amount,
            r is Ok ==> forall|x: AccountRef| #[trigger]
                final(self).has_account(x) == old(self).has_account(x),
            r is Ok ==> forall|x: AccountRef|
                x != from && x != to && old(self).has_account(x) ==> #[trigger] final(self).balance(
                    x,
                ) == old(self).balance(x),
    {
        let fi: usize;
        let ti: usize;
        match (find_account(&self.accounts, from), find_account(&self.accounts, to)) {
            (Some(a), Some(b)) => {
                fi = a;
                ti = b;
            },
            _ => {
                return Err(TokenError::NotFound);
            },
        }
        proof {
            lemma_acct_at(self.accounts@, fi as int);
            lemma_acct_at(self.accounts@, ti as int);
            assert(self.accounts@[fi as int].key() == from);
            assert(self.accounts@[ti as int].key() == to);
        }
        match crate::authority::check_authority(from_authority, from.owner) {
            Err(e) => {
                return Err(e);
            },
            Ok(_) => {},
        }
        if from.mint != to.mint {
            return Err(TokenError::MintMismatch);
        }
        let from_balance = self.accounts[fi].balance;
        if from_balance < amount {
            return Err(TokenError::InsufficientFunds);
        }
        let mut frozen_now: bool = false;
        match find_flag(&self.freezes, from) {
            Some(k) => {
                proof {
                    lemma_flag_at(self.freezes@, k as int);
                }
                frozen_now = self.freezes[k].is_frozen;
            },
            None => {},
        }
        if frozen_now {
            return Err(TokenError::AccountFrozen);
        }
        if from.owner == to.owner && from.mint == to.mint {
            return Ok(());
        }
        let to_balance = self.accounts[ti].balance;
        if amount > u64::MAX - to_balance {
            return Err(TokenError::Overflow);
        }
        let new_from = HolderAccount {
            owner: from.owner,
            mint: from.mint,
            balance: from_balance - amount,
        };
        let new_to = HolderAccount { owner: to.owner, mint: to.mint, balance: to_balance + amount };
        proof {
            assert(fi != ti);
        }
        self.accounts[fi] = new_from;
        proof {
            let s0 = old(self).accounts@;
            let s1 = s0.update(fi as int, new_from);
            lemma_acct_update(s0, fi as int, new_from);
            assert(s1[ti as int] == s0[ti as int]);
        }
        self.accounts[ti] = new_to;
        proof {
            let s0 = old(self).accounts@;
            let s1 = s0.update(fi as int, new_from);
            let s2 = s1.update(ti as int, new_to);
            assert(self.accounts@ == s2);
            lemma_acct_at(s1, ti as int);
            lemma_acct_update(s1, ti as int, new_to);
            assert(acct_balance(s2, to) == new_to.balance);
            assert(acct_has(s1, from) && from != to);
            assert(acct_balance(s2, from) == acct_balance(s1, from));
            assert forall|x: AccountRef| #[trigger] acct_has(s2, x) == acct_has(s0, x) by {
                assert(acct_has(s2, x) == acct_has(s1, x));
                assert(acct_has(s1, x) == acct_has(s0, x));
            }
            assert forall|x: AccountRef|
                x != from && x != to && acct_has(s0, x) implies #[trigger] acct_balance(s2, x)
                    == acct_balance(s0, x) by {
                assert(acct_has(s1, x));
                assert(acct_balance(s1, x) == acct_balance(s0, x));
                assert(acct_balance(s2, x) == acct_balance(s1, x));
            }
            assert forall|m: MintId| #[trigger] sum_for(s2, m) == sum_for(s0, m) by {
                lemma_sum_update(s0, fi as int, new_from, m);
                lemma_sum_update(s1, ti as int, new_to, m);
                assert(s1[ti as int] == s0[ti as int]);
            }
            lemma_wf_frame(*old(self), *self);
        }
        Ok(())
    }

    /// The outcome `mint_to` owes on a given pre-state, checks in order:
    /// metadata and receiving account loaded, issuing authority equal to
    /// the recorded one, the receiving account of the issued token type,
    /// and no credit wraparound.
    pub open spec fn mint_to_outcome(
        self,
        mint: MintId,
        authority: Identity,
        to: AccountRef,
        amount: u64,
    ) -> Result<(), TokenError> {
        if !self.has_metadata_for(mint) || !self.has_account(to) {
            Result::Err(TokenError::NotFound)
        } else if authority != self.metadata_for(mint).authority {
            Result::Err(TokenError::Unauthorized)
        } else if to.mint != mint {
            Result::Err(TokenError::MintMismatch)
        } else if self.balance(to) + amount > u64::MAX {
            Result::Err(TokenError::Overflow)
        } else {
            Result::Ok(())
        }
    }

    /// Issue `amount` more of token type `mint` into `to`. Only the
    /// identity recorded in the token's metadata may issue; success
    /// credits the receiver and raises the issued total by the same
    /// amount, leaving every other record untouched.
    pub fn mint_to(
        &mut self,
        mint: MintId,
        authority: Identity,
        to: AccountRef,
        amount: u64,
    ) -> (r: Result<(), TokenError>)
        requires
            old(self).wf(),
        ensures
            final(self).wf(),
            r == old(self).mint_to_outcome(mint, authority, to, amount),
            r is Err ==> *final(self) == *old(self),
            r is Ok ==> final(self).balance(to) == old(self).balance(to) + amount && final(self).minted_for(mint) == old(self).minted_for(mint) + amount,
            r is Ok ==> forall|x: AccountRef| #[trigger]
                final(self).has_account(x) == old(self).has_account(x),
            r is Ok ==> forall|x: AccountRef|
                x != to && old(self).has_account(x) ==> #[trigger] final(self).balance(x) == old(self).balance(x),
            r is Ok ==> forall|m: MintId|
                m != mint ==> #[trigger] final(self).minted_for(m) == old(self).minted_for(m),
            r is Ok ==> final(self).freezes@ == old(self).freezes@ && final(self).metas@ == old(self).metas@ && final(self).mints@ == old(self).mints@ && final(self).registry == old(self).registry,
    {
        let mi: usize;
        match find_meta_by_mint(&self.metas, mint) {
            Some(i) => {
                mi = i;
            },
            None => {
                return Err(TokenError::NotFound);
            },
        }
        let ti: usize;
        match find_account(&self.accounts, to) {
            Some(i) => {
                ti = i;
            },
            None => {
                return Err(TokenError::NotFound);
            },
        }
        proof {
            lemma_meta_at(self.metas@, mi as int);
            lemma_acct_at(self.accounts@, ti as int);
            assert(self.accounts@[ti as int].key() == to);
        }
        match crate::authority::check_authority(authority, self.metas[mi].authority) {
            Err(e) => {
                return Err(e);
            },
            Ok(_) => {},
        }
        if to.mint != mint {
            return Err(TokenError::MintMismatch);
        }
        let to_balance = self.accounts[ti].balance;
        if amount > u64::MAX - to_balance {
            return Err(TokenError::Overflow);
        }
        let new_to = HolderAccount { owner: to.owner, mint: to.mint, balance: to_balance + amount };
        self.accounts[ti] = new_to;
        let ghost prev: int = self.minted_for(mint);
        proof {
            assert(prev == old(self).minted_for(mint));
        }
        self.minted = Ghost(self.minted@.insert(mint, prev + amount as int));
        proof {
            let s0 = old(self).accounts@;
            lemma_acct_update(s0, ti as int, new_to);
            assert forall|m: MintId|
                m != mint implies #[trigger] sum_for(self.accounts@, m) == sum_for(s0, m) by {
                lemma_sum_update(s0, ti as int, new_to, m);
            }
            lemma_sum_update(s0, ti as int, new_to, mint);
            assert(sum_for(self.accounts@, mint) == sum_for(s0, mint) + amount);
            assert(old(self).has_mint(old(self).metas@[mi as int].mint));
            lemma_wf_issue(*old(self), *self, mint, amount as int);
        }
        Ok(())
    }

    /// The outcome `close_account` owes on a given pre-state: the account
    /// loaded, closure requested by its owner, and a zero balance.
    pub open spec fn close_outcome(self, account: AccountRef, authority: Identity) -> Result<
        (),
        TokenError,
    > {
        if !self.has_account(account) {
            Result::Err(TokenError::NotFound)
        } else if authority != account.owner {
            Result::Err(TokenError::Unauthorized)
        } else if self.balance(account) != 0 {
            Result::Err(TokenError::NonZeroBalance)
        } else {
            Result::Ok(())
        }
    }

    /// Delete the holder account under `account`: only its owner may
    /// close it, and only once its balance is zero. The storage
    /// reservation the deletion releases goes to `rent_recipient`
    /// through the host's fee accounting, outside the token balances
    /// this ledger tracks.
    #[allow(unused_variables)]
    pub fn close_account(
        &mut self,
        account: AccountRef,
        authority: Identity,
        rent_recipient: Identity,
    ) -> (r: Result<(), TokenError>)
        requires
            old(self).wf(),
        ensures
            final(self).wf(),
            r == old(self).close_outcome(account, authority),
            r is Err ==> *final(self) == *old(self),
            r is Ok ==> !final(self).has_account(account),
            r is Ok ==> forall|x: AccountRef|
                x != account ==> #[trigger] final(self).has_account(x) == old(self).has_account(x),
            r is Ok ==> forall|x: AccountRef|
                x != account && old(self).has_account(x) ==> #[trigger] final(self).balance(x)
                    == old(self).balance(x),
            r is Ok ==> final(self).freezes@ == old(self).freezes@ && final(self).metas@ == old(self).metas@ && final(self).mints@ == old(self).mints@ && final(self).registry == old(self).registry && final(self).minted@ == old(self).minted@,
    {
        let i: usize;
        match find_account(&self.accounts, account) {
            Some(ix) => {
                i = ix;
            },
            None => {
                return Err(TokenError::NotFound);
            },
        }
        proof {
            lemma_acct_at(self.accounts@, i as int);
            assert(self.accounts@[i as int].key() == account);
        }
        match crate::authority::check_authority(authority, account.owner) {
            Err(e) => {
                return Err(e);
            },
            Ok(_) => {},
        }
        if self.accounts[i].balance != 0 {
            return Err(TokenError::NonZeroBalance);
        }
        self.accounts.remove(i);
        proof {
            let s0 = old(self).accounts@;
            lemma_acct_remove(s0, i as int);
            assert forall|m: MintId| #[trigger] sum_for(self.accounts@, m) == sum_for(s0, m) by {
                lemma_sum_remove(s0, i as int, m);
                assert(share_of(s0[i as int], m) == 0);
            }
            lemma_wf_frame(*old(self), *self);
        }
        Ok(())
    }

    /// The failure, if any, `create_mint` owes on a given pre-state:
    /// the name bound, then the symbol bound, then registry wraparound.
    pub open spec fn create_mint_outcome(self, name: Seq<u8>, symbol: Seq<u8>) -> Result<
        (),
        TokenError,
    > {
        if name.len() > MAX_NAME_BYTES as nat {
            Result::Err(TokenError::InvalidName)
        } else if symbol.len() > MAX_SYMBOL_BYTES as nat {
            Result::Err(TokenError::InvalidSymbol)
        } else if self.token_count() == u64::MAX {
            Result::Err(TokenError::Overflow)
        } else {
            Result::Ok(())
        }
    }

    /// Create a token type in one atomic unit: write its mint record
    /// with `caller` as authority, credit `initial_supply` to the
    /// caller's holder account (created when absent), write its
    /// metadata under the next sequential identifier, and increment the
    /// registry. The host hands in `mint` as a freshly derived address,
    /// so no record exists under that key yet. Returns the mint and the
    /// metadata identifier.
    pub fn create_mint(
        &mut self,
        mint: MintId,
        name: Vec<u8>,
        symbol: Vec<u8>,
        decimals: u8,
        initial_supply: u64,
        caller: Identity,
    ) -> (r: Result<(MintId, u64), TokenError>)
        requires
            old(self).wf(),
            !old(self).has_mint(mint),
        ensures
            final(self).wf(),
            (match r {
                Result::Ok(ids) => old(self).create_mint_outcome(name@, symbol@) is Ok && ids == (
                mint,
                old(self).token_count(),
                ),
                Result::Err(e) => old(self).create_mint_outcome(name@, symbol@) == Result::<
                    (),
                    TokenError,
                >::Err(e),
            }),
            r is Err ==> *final(self) == *old(self),
            r is Ok ==> final(self).token_count() == old(self).token_count() + 1,
            r is Ok ==> final(self).mints@ == old(self).mints@.push(
                (MintRecord { mint, decimals, mint_authority: caller }),
            ),
            r is Ok ==> final(self).metas@ == old(self).metas@.push(
                (TokenMetadata {
                    id: old(self).token_count(),
                    name,
                    symbol,
                    decimals,
                    mint,
                    authority: caller,
                }),
            ),
            r is Ok ==> final(self).has_metadata_for(mint) && final(self).metadata_for(mint) == (
            TokenMetadata {
                id: old(self).token_count(),
                name,
                symbol,
                decimals,
                mint,
                authority: caller,
            }),
            r is Ok ==> final(self).has_account((AccountRef { owner: caller, mint })) && final(self).balance((AccountRef { owner: caller, mint })) == initial_supply,
            r is Ok ==> forall|x: AccountRef|
                x != (AccountRef { owner: caller, mint }) ==> #[trigger] final(self).has_account(x)
                    == old(self).has_account(x),
            r is Ok ==> forall|x: AccountRef|
                x != (AccountRef { owner: caller, mint }) && old(self).has_account(x)
                    ==> #[trigger] final(self).balance(x) == old(self).balance(x),
            r is Ok ==> final(self).minted_for(mint) == initial_supply,
            r is Ok ==> forall|m: MintId|
                m != mint ==> #[trigger] final(self).minted_for(m) == old(self).minted_for(m),
            r is Ok ==> final(self).has_mint(mint),
            r is Ok ==> forall|m: MintId|
                m != mint ==> #[trigger] final(self).has_mint(m) == old(self).has_mint(m),
            r is Ok ==> final(self).freezes@ == old(self).freezes@,
    {
        if name.len() > MAX_NAME_BYTES {
            return Err(TokenError::InvalidName);
        }
        if symbol.len() > MAX_SYMBOL_BYTES {
            return Err(TokenError::InvalidSymbol);
        }
        if self.registry.token_count == u64::MAX {
            return Err(TokenError::Overflow);
        }
        let id = self.registry.token_count;
        let mrec = MintRecord { mint, decimals, mint_authority: caller };
        self.mints.push(mrec);
        proof {
            lemma_mint_push(old(self).mints@, mrec);
        }
        let holder = AccountRef { owner: caller, mint };
        match find_account(&self.accounts, holder) {
            Some(i) => {
                proof {
                    let s0 = old(self).accounts@;
                    lemma_acct_at(s0, i as int);
                    assert(s0[i as int].key() == holder);
                    assert(old(self).balance_sum(mint) == old(self).minted_for(mint));
                    assert(old(self).minted_for(mint) == 0);
                    lemma_sum_element_bound(s0, i as int);
                    lemma_sum_nonneg(s0, mint);
                    assert(s0[i as int].mint == mint);
                    assert(s0[i as int].balance == 0);
                }
                let nb = self.accounts[i].balance + initial_supply;
                let entry = HolderAccount { owner: caller, mint, balance: nb };
                self.accounts[i] = entry;
                proof {
                    let s0 = old(self).accounts@;
                    lemma_acct_update(s0, i as int, entry);
                    assert forall|m: MintId| #[trigger]
                        sum_for(self.accounts@, m) == sum_for(s0, m) + share_of(entry, m) by {
                        lemma_sum_update(s0, i as int, entry, m);
                        assert(share_of(s0[i as int], m) == 0);
                    }
                }
            },
            None => {
                let entry = HolderAccount { owner: caller, mint, balance: initial_supply };
                self.accounts.push(entry);
                proof {
                    let s0 = old(self).accounts@;
                    assert(entry.key() == holder);
                    lemma_acct_push(s0, entry);
                    assert forall|m: MintId| #[trigger]
                        sum_for(self.accounts@, m) == sum_for(s0, m) + share_of(entry, m) by {
                        lemma_sum_push(s0, entry, m);
                    }
                }
            },
        }
        let meta = TokenMetadata { id, name, symbol, decimals, mint, authority: caller };
        proof {
            if meta_has_mint(old(self).metas@, mint) {
                let j: int = crate::store::meta_ix_for_mint(old(self).metas@, mint);
                assert(0 <= j < old(self).metas@.len() && old(self).metas@[j].mint == mint);
                assert(old(self).has_mint(old(self).metas@[j].mint));
                assert(false);
            }
            lemma_meta_push(old(self).metas@, meta);
        }
        self.metas.push(meta);
        self.registry.token_count = id + 1;
        self.minted = Ghost(self.minted@.insert(mint, initial_supply as int));
        proof {
            let a = *old(self);
            let b = *self;
            assert(b.metas@ == a.metas@.push(meta));
            assert forall|i: int| 0 <= i < b.metas@.len() implies (#[trigger] b.metas@[i]).id
                == i by {
                if i < a.metas@.len() {
                    assert(b.metas@[i] == a.metas@[i]);
                    assert(a.metas@[i].id == i);
                } else {
                    assert(b.metas@[i] == meta);
                }
            }
            assert forall|i: int|
                0 <= i < b.metas@.len() implies (#[trigger] b.metas@[i]).name@.len()
                    <= MAX_NAME_BYTES as nat && b.metas@[i].symbol@.len() <= MAX_SYMBOL_BYTES
                    as nat by {
                if i < a.metas@.len() {
                    assert(b.metas@[i] == a.metas@[i]);
                    assert(a.metas@[i].name@.len() <= MAX_NAME_BYTES as nat);
                    assert(a.metas@[i].symbol@.len() <= MAX_SYMBOL_BYTES as nat);
                } else {
                    assert(b.metas@[i] == meta);
                }
            }
            assert forall|i: int|
                0 <= i < b.metas@.len() implies b.has_mint((#[trigger] b.metas@[i]).mint) by {
                if i < a.metas@.len() {
                    assert(b.metas@[i] == a.metas@[i]);
                    assert(a.has_mint(a.metas@[i].mint));
                    if a.metas@[i].mint != mint {
                        assert(mint_has(b.mints@, a.metas@[i].mint) == mint_has(
                            a.mints@,
                            a.metas@[i].mint,
                        ));
                    }
                } else {
                    assert(b.metas@[i] == meta);
                }
            }
            assert forall|m: MintId| #[trigger] b.balance_sum(m) == b.minted_for(m) by {
                assert(a.balance_sum(m) == a.minted_for(m));
                assert(sum_for(b.accounts@, m) == sum_for(a.accounts@, m) + share_of(entry_of(
                    caller,
                    mint,
                    initial_supply,
                ), m));
                if m == mint {
                    assert(a.minted_for(mint) == 0);
                    assert(b.minted_for(mint) == initial_supply as int);
                } else {
                    assert(b.minted_for(m) == a.minted_for(m));
                }
            }
            assert forall|m: MintId| !b.has_mint(m) implies #[trigger] b.minted_for(m) == 0 by {
                if !b.has_mint(m) {
                    assert(m != mint);
                    assert(mint_has(b.mints@, m) == mint_has(a.mints@, m));
                    assert(a.minted_for(m) == 0);
                    assert(b.minted_for(m) == a.minted_for(m));
                }
            }
        }
        Ok((mint, id))
    }

    /// Look up the metadata record with sequential identifier `id`, as a
    /// caller reaches it through the host's derived key.
    pub fn get_token_metadata(&self, id: u64) -> (r: Result<&TokenMetadata, TokenError>)
        requires
            self.wf(),
        ensures
            (match r {
                Result::Ok(m) => id < self.token_count() && *m == self.metas@[id as int] && m.id
                    == id,
                Result::Err(e) => e == TokenError::NotFound && id >= self.token_count(),
            }),
    {
        let n = self.metas.len();
        if id < n as u64 {
            let ix = id as usize;
            Ok(&self.metas[ix])
        } else {
            Err(TokenError::NotFound)
        }
    }

    /// The recorded balance of the holder account under `r`, when it
    /// exists.
    pub fn balance_of(&self, r: AccountRef) -> (b: Option<u64>)
        requires
            self.wf(),
        ensures
            b == (if self.has_account(r) {
                Option::Some(self.balance(r))
            } else {
                Option::<u64>::None
            }),
    {
        match find_account(&self.accounts, r) {
            Some(i) => {
                proof {
                    lemma_acct_at(self.accounts@, i as int);
                    assert(self.accounts@[i as int].key() == r);
                }
                Some(self.accounts[i].balance)
            },
            None => None,
        }
    }

    /// Whether the freeze gate of `r` is set.
    pub fn frozen(&self, r: AccountRef) -> (b: bool)
        requires
            self.wf(),
        ensures
            b == self.is_frozen(r),
    {
        match find_flag(&self.freezes, r) {
            Some(i) => {
                proof {
                    lemma_flag_at(self.freezes@, i as int);
                }
                self.freezes[i].is_frozen
            },
            None => false,
        }
    }

    /// Whether a mint record exists for token type `m`.
    pub fn mint_exists(&self, m: MintId) -> (b: bool)
        ensures
            b == self.has_mint(m),
    {
        match find_mint(&self.mints, m) {
            Some(_) => true,
            None => false,
        }
    }
}

/// The holder entry `create_mint` leaves for the caller.
spec fn entry_of(owner: Identity, mint: MintId, balance: u64) -> HolderAccount {
    HolderAccount { owner, mint, balance }
}

/// Exactly how `create_or_get_account` relates its post-state to its
/// pre-state: an existing entry leaves the ledger untouched, an absent
/// one is appended with a zero balance and nothing else moves.
pub open spec fn creation_rel(pre: Ledger, post: Ledger, owner: Identity, mint: MintId) -> bool {
    if pre.has_account((AccountRef { owner, mint })) {
        post == pre
    } else {
        post.accounts@ == pre.accounts@.push((HolderAccount { owner, mint, balance: 0 }))
            && post.registry == pre.registry && post.mints@ == pre.mints@ && post.metas@
            == pre.metas@ && post.freezes@ == pre.freezes@ && post.minted@ == pre.minted@
    }
}

/// Linear scan for the holder account keyed `r`.
fn find_account(accounts: &Vec<HolderAccount>, r: AccountRef) -> (res: Option<usize>)
    ensures
        match res {
            Some(i) => i < accounts@.len() && acct_matches(accounts@[i as int], r),
            None => !acct_has(accounts@, r),
        },
{
    let mut i: usize = 0;
    while i < accounts.len()
        invariant
            i <= accounts@.len(),
            forall|j: int| 0 <= j < i ==> !acct_matches(#[trigger] accounts@[j], r),
        decreases accounts@.len() - i,
    {
        if accounts[i].owner == r.owner && accounts[i].mint == r.mint {
            return Some(i);
        }
        i = i + 1;
    }
    None
}

/// Linear scan for the freeze flag guarding `r`.
fn find_flag(freezes: &Vec<FreezeFlag>, r: AccountRef) -> (res: Option<usize>)
    ensures
        match res {
            Some(i) => i < freezes@.len() && freezes@[i as int].target == r,
            None => !flag_has(freezes@, r),
        },
{
    let mut i: usize = 0;
    while i < freezes.len()
        invariant
            i <= freezes@.len(),
            forall|j: int| 0 <= j < i ==> (#[trigger] freezes@[j]).target != r,
        decreases freezes@.len() - i,
    {
        if freezes[i].target.owner == r.owner && freezes[i].target.mint == r.mint {
            return Some(i);
        }
        i = i + 1;
    }
    None
}

/// Linear scan for the metadata record of token type `m`.
fn find_meta_by_mint(metas: &Vec<TokenMetadata>, m: MintId) -> (res: Option<usize>)
    ensures
        match res {
            Some(i) => i < metas@.len() && metas@[i as int].mint == m,
            None => !meta_has_mint(metas@, m),
        },
{
    let mut i: usize = 0;
    while i < metas.len()
        invariant
            i <= metas@.len(),
            forall|j: int| 0 <= j < i ==> (#[trigger] metas@[j]).mint != m,
        decreases metas@.len() - i,
    {
        if metas[i].mint == m {
            return Some(i);
        }
        i = i + 1;
    }
    None
}

/// Linear scan for the mint record of token type `m`.
fn find_mint(mints: &Vec<MintRecord>, m: MintId) -> (res: Option<usize>)
    ensures
        match res {
            Some(i) => i < mints@.len() && mints@[i as int].mint == m,
            None => !mint_has(mints@, m),
        },
{
    let mut i: usize = 0;
    while i < mints.len()
        invariant
            i <= mints@.len(),
            forall|j: int| 0 <= j < i ==> (#[trigger] mints@[j]).mint != m,
        decreases mints@.len() - i,
    {
        if mints[i].mint == m {
            return Some(i);
        }
        i = i + 1;
    }
    None
}

} // verus!
