use vstd::prelude::*;

verus! {

/// An authenticated participant identity. The host runtime verifies
/// signatures before an operation runs; the core only compares values.
pub type Identity = u64;

/// The identifier of a mint (one token type), chosen fresh by the host's
/// address derivation when the token type is created.
pub type MintId = u64;

/// Longest metadata name, in bytes.
pub const MAX_NAME_BYTES: usize = 32;

/// Longest metadata symbol, in bytes.
pub const MAX_SYMBOL_BYTES: usize = 10;

/// Reference to a holder account. Holder accounts are keyed by the pair
/// (owner, mint): one balance entry per owner per token type.
#[derive(PartialEq, Eq, Structural, Clone, Copy, Debug)]
pub struct AccountRef {
    pub owner: Identity,
    pub mint: MintId,
}

/// The singleton registry: counts how many token types exist, and hands
/// out the next sequential metadata identifier.
#[derive(PartialEq, Eq, Structural, Clone, Copy, Debug)]
pub struct Registry {
    pub token_count: u64,
}

/// One token type: its precision and the identity allowed to issue more
/// supply.
#[derive(PartialEq, Eq, Structural, Clone, Copy, Debug)]
pub struct MintRecord {
    pub mint: MintId,
    pub decimals: u8,
    pub mint_authority: Identity,
}

/// Descriptive record attached to a mint, keyed by the sequential `id`
/// the registry assigned when the token type was created.
#[derive(Clone, Debug)]
pub struct TokenMetadata {
    pub id: u64,
    pub name: Vec<u8>,
    pub symbol: Vec<u8>,
    pub decimals: u8,
    pub mint: MintId,
    pub authority: Identity,
}

/// A balance ledger entry: one owner's holding of one token type.
#[derive(PartialEq, Eq, Structural, Clone, Copy, Debug)]
pub struct HolderAccount {
    pub owner: Identity,
    pub mint: MintId,
    pub balance: u64,
}

/// A freeze gate guarding one holder account. Absence of a flag means the
/// account is not frozen.
#[derive(PartialEq, Eq, Structural, Clone, Copy, Debug)]
pub struct FreezeFlag {
    pub target: AccountRef,
    pub is_frozen: bool,
}

impl HolderAccount {
    /// The store key of this entry.
    pub open spec fn key(self) -> AccountRef {
        AccountRef { owner: self.owner, mint: self.mint }
    }
}

} // verus!
