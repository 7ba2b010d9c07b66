//! The laws the library states of itself, proved once and for all over
//! the same spec functions the operations' contracts use.

use vstd::prelude::*;
use crate::errors::TokenError;
use crate::ledger::{creation_rel, Ledger};
use crate::records::{AccountRef, HolderAccount, Identity, MintId};
use crate::store::{acct_ix, acct_matches, lemma_sum_element_bound, lemma_sum_nonneg};

verus! {

/// Conservation of value: in every well-formed ledger, and for every
/// token type, the holder balances sum to exactly the amount ever
/// issued for it — the initial supply of `create_mint` plus every later
/// `mint_to`, with no burn. Each operation's contract states how both
/// sides move (`create_mint` raises both by the initial supply,
/// `mint_to` by the issued amount, every other operation leaves both as
/// they were), so the equality holds along any sequence of operations
/// from `initialize` on.
pub proof fn lemma_conservation(l: Ledger)
    requires
        l.wf(),
    ensures
        forall|m: MintId| #[trigger] l.balance_sum(m) == l.minted_for(m),
{
}

/// No negative balance: balances are unsigned, so no account ever holds
/// less than zero; in a well-formed ledger each balance is moreover at
/// most the amount issued for its token type, and each per-mint sum is
/// at least zero. A transfer that asks for more than the sender holds
/// fails with `InsufficientFunds` and, by `transfer`'s contract,
/// mutates nothing.
pub proof fn lemma_no_negative_balance(l: Ledger, r: AccountRef)
    requires
        l.wf(),
        l.has_account(r),
    ensures
        l.balance(r) >= 0,
        l.balance_sum(r.mint) >= 0,
        l.balance(r) <= l.minted_for(r.mint),
{
    let s = l.accounts@;
    let i: int = acct_ix(s, r);
    assert(0 <= i < s.len() && acct_matches(s[i], r));
    lemma_sum_element_bound(s, i);
    lemma_sum_nonneg(s, r.mint);
    assert(l.balance_sum(r.mint) == l.minted_for(r.mint));
}

/// Freezing blocks outgoing transfers: once both accounts are loaded,
/// the sender authorized, the token types matching and the funds
/// sufficient, a frozen sender makes the transfer outcome exactly
/// `AccountFrozen` — and, by `transfer`'s contract, an error changes
/// nothing.
pub proof fn lemma_frozen_sender_blocks(
    l: Ledger,
    from: AccountRef,
    to: AccountRef,
    amount: u64,
    from_authority: Identity,
)
    requires
        l.has_account(from),
        l.has_account(to),
        from_authority == from.owner,
        from.mint == to.mint,
        amount <= l.balance(from),
        l.is_frozen(from),
    ensures
        l.transfer_outcome(from, to, amount, from_authority) == Result::<
            (),
            TokenError,
        >::Err(TokenError::AccountFrozen),
{
}

/// Freezing does not block incoming transfers: a transfer's outcome
/// reads only the holder accounts and the sender's freeze flag. Two
/// ledgers that agree on those — however their other freeze flags
/// differ, the receiver's included — give every transfer the same
/// outcome. In particular, freezing an account leaves untouched the
/// outcome of every transfer in which it is the receiver.
pub proof fn lemma_frozen_receiver_does_not_block(
    a: Ledger,
    b: Ledger,
    from: AccountRef,
    to: AccountRef,
    amount: u64,
    from_authority: Identity,
)
    requires
        a.accounts@ == b.accounts@,
        a.is_frozen(from) == b.is_frozen(from),
    ensures
        a.transfer_outcome(from, to, amount, from_authority) == b.transfer_outcome(
            from,
            to,
            amount,
            from_authority,
        ),
{
    assert(a.has_account(from) == b.has_account(from));
    assert(a.has_account(to) == b.has_account(to));
    if a.has_account(from) {
        assert(a.balance(from) == b.balance(from));
    }
    if a.has_account(to) {
        assert(a.balance(to) == b.balance(to));
    }
}

/// Authority enforcement: issuing with any identity other than the one
/// recorded in the token's metadata has the outcome `Unauthorized`, and
/// by `mint_to`'s contract an error leaves every balance unchanged.
pub proof fn lemma_authority_enforcement(
    l: Ledger,
    mint: MintId,
    authority: Identity,
    to: AccountRef,
    amount: u64,
)
    requires
        l.has_metadata_for(mint),
        l.has_account(to),
        authority != l.metadata_for(mint).authority,
    ensures
        l.mint_to_outcome(mint, authority, to, amount) == Result::<
            (),
            TokenError,
        >::Err(TokenError::Unauthorized),
{
}

/// Idempotent account creation: `create_or_get_account`'s contract pins
/// each call to `creation_rel`, and applying that relation twice for
/// the same owner and mint is the same as applying it once — the second
/// call returns the same record and leaves the whole ledger, the
/// account's balance included, exactly as the first left it.
pub proof fn lemma_idempotent_creation(
    l0: Ledger,
    l1: Ledger,
    l2: Ledger,
    owner: Identity,
    mint: MintId,
)
    requires
        creation_rel(l0, l1, owner, mint),
        creation_rel(l1, l2, owner, mint),
    ensures
        l2 == l1,
{
    let r = AccountRef { owner, mint };
    if l0.has_account(r) {
        assert(l2 == l1);
    } else {
        let entry = HolderAccount { owner, mint, balance: 0 };
        assert(l1.accounts@[l0.accounts@.len() as int] == entry);
        assert(acct_matches(entry, r));
        assert(l1.has_account(r));
        assert(l2 == l1);
    }
}

} // verus!
