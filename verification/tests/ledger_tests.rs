use ztoken::authority::check_authority;
use ztoken::errors::TokenError;
use ztoken::ledger::Ledger;
use ztoken::records::AccountRef;

fn acct(owner: u64, mint: u64) -> AccountRef {
    AccountRef { owner, mint }
}

fn gold_ledger() -> (Ledger, u64, u64) {
    // One token type "Gold"/"GLD" with 1000 issued to the creator.
    let creator: u64 = 1;
    let mint: u64 = 100;
    let mut l = Ledger::initialize();
    let r = l
        .create_mint(
            mint,
            "Gold".as_bytes().to_vec(),
            "GLD".as_bytes().to_vec(),
            9,
            1000,
            creator,
        )
        .unwrap();
    assert_eq!(r, (mint, 0));
    (l, creator, mint)
}

#[test]
fn create_mint_credits_creator_and_registers_metadata() {
    let (l, creator, mint) = gold_ledger();
    assert_eq!(l.balance_of(acct(creator, mint)), Some(1000));
    assert_eq!(l.registry.token_count, 1);
    let meta = l.get_token_metadata(0).unwrap();
    assert_eq!(meta.id, 0);
    assert_eq!(meta.name, "Gold".as_bytes().to_vec());
    assert_eq!(meta.symbol, "GLD".as_bytes().to_vec());
    assert_eq!(meta.decimals, 9);
    assert_eq!(meta.mint, mint);
    assert_eq!(meta.authority, creator);
    assert!(l.mint_exists(mint));
}

#[test]
fn transfer_moves_balance() {
    let (mut l, creator, mint) = gold_ledger();
    let bob: u64 = 2;
    let to = l.create_or_get_account(bob, mint);
    let r = l.transfer(acct(creator, mint), to, 400, creator);
    assert_eq!(r, Ok(()));
    assert_eq!(l.balance_of(acct(creator, mint)), Some(600));
    assert_eq!(l.balance_of(acct(bob, mint)), Some(400));
}

#[test]
fn frozen_sender_cannot_transfer() {
    let (mut l, creator, mint) = gold_ledger();
    let bob: u64 = 2;
    l.create_or_get_account(bob, mint);
    l.freeze(acct(creator, mint), creator);
    assert!(l.frozen(acct(creator, mint)));
    let r = l.transfer(acct(creator, mint), acct(bob, mint), 1, creator);
    assert_eq!(r, Err(TokenError::AccountFrozen));
    assert_eq!(l.balance_of(acct(creator, mint)), Some(1000));
    assert_eq!(l.balance_of(acct(bob, mint)), Some(0));
}

#[test]
fn frozen_receiver_still_receives() {
    let (mut l, creator, mint) = gold_ledger();
    let bob: u64 = 2;
    l.create_or_get_account(bob, mint);
    l.freeze(acct(bob, mint), creator);
    let r = l.transfer(acct(creator, mint), acct(bob, mint), 250, creator);
    assert_eq!(r, Ok(()));
    assert_eq!(l.balance_of(acct(creator, mint)), Some(750));
    assert_eq!(l.balance_of(acct(bob, mint)), Some(250));
}

#[test]
fn unfreeze_restores_transfers() {
    let (mut l, creator, mint) = gold_ledger();
    let bob: u64 = 2;
    l.create_or_get_account(bob, mint);
    l.freeze(acct(creator, mint), creator);
    l.unfreeze(acct(creator, mint), creator);
    assert!(!l.frozen(acct(creator, mint)));
    let r = l.transfer(acct(creator, mint), acct(bob, mint), 10, creator);
    assert_eq!(r, Ok(()));
    assert_eq!(l.balance_of(acct(creator, mint)), Some(990));
}

#[test]
fn freeze_is_idempotent() {
    let (mut l, creator, mint) = gold_ledger();
    l.freeze(acct(creator, mint), creator);
    l.freeze(acct(creator, mint), creator);
    assert!(l.frozen(acct(creator, mint)));
    l.unfreeze(acct(creator, mint), creator);
    l.unfreeze(acct(creator, mint), creator);
    assert!(!l.frozen(acct(creator, mint)));
}

#[test]
fn insufficient_funds_leaves_balances_unchanged() {
    let (mut l, creator, mint) = gold_ledger();
    let bob: u64 = 2;
    let poor: u64 = 3;
    l.create_or_get_account(bob, mint);
    l.create_or_get_account(poor, mint);
    let r = l.transfer(acct(creator, mint), acct(poor, mint), 400, creator);
    assert_eq!(r, Ok(()));
    // Bring the sender to 600 with one more issuance.
    let r = l.mint_to(mint, creator, acct(poor, mint), 200);
    assert_eq!(r, Ok(()));
    assert_eq!(l.balance_of(acct(poor, mint)), Some(600));
    let r = l.transfer(acct(poor, mint), acct(bob, mint), 700, poor);
    assert_eq!(r, Err(TokenError::InsufficientFunds));
    assert_eq!(l.balance_of(acct(poor, mint)), Some(600));
    assert_eq!(l.balance_of(acct(bob, mint)), Some(0));
}

#[test]
fn transfer_requires_owner_authority() {
    let (mut l, creator, mint) = gold_ledger();
    let bob: u64 = 2;
    l.create_or_get_account(bob, mint);
    let r = l.transfer(acct(creator, mint), acct(bob, mint), 5, bob);
    assert_eq!(r, Err(TokenError::Unauthorized));
    assert_eq!(l.balance_of(acct(creator, mint)), Some(1000));
}

#[test]
fn transfer_across_token_types_is_a_mint_mismatch() {
    let (mut l, creator, mint) = gold_ledger();
    let silver: u64 = 101;
    l.create_mint(
        silver,
        "Silver".as_bytes().to_vec(),
        "SLV".as_bytes().to_vec(),
        6,
        500,
        creator,
    )
    .unwrap();
    let r = l.transfer(acct(creator, mint), acct(creator, silver), 10, creator);
    assert_eq!(r, Err(TokenError::MintMismatch));
    assert_eq!(l.balance_of(acct(creator, mint)), Some(1000));
    assert_eq!(l.balance_of(acct(creator, silver)), Some(500));
}

#[test]
fn transfer_to_missing_account_is_not_found() {
    let (mut l, creator, mint) = gold_ledger();
    let r = l.transfer(acct(creator, mint), acct(9, mint), 1, creator);
    assert_eq!(r, Err(TokenError::NotFound));
    let r = l.transfer(acct(9, mint), acct(creator, mint), 1, 9);
    assert_eq!(r, Err(TokenError::NotFound));
}

#[test]
fn transfer_to_self_changes_nothing() {
    let (mut l, creator, mint) = gold_ledger();
    let r = l.transfer(acct(creator, mint), acct(creator, mint), 700, creator);
    assert_eq!(r, Ok(()));
    assert_eq!(l.balance_of(acct(creator, mint)), Some(1000));
}

#[test]
fn transfer_credit_wraparound_is_an_overflow() {
    let (mut l, creator, mint) = gold_ledger();
    let rich: u64 = 2;
    l.create_or_get_account(rich, mint);
    let r = l.mint_to(mint, creator, acct(rich, mint), u64::MAX - 10);
    assert_eq!(r, Ok(()));
    let r = l.transfer(acct(creator, mint), acct(rich, mint), 11, creator);
    assert_eq!(r, Err(TokenError::Overflow));
    assert_eq!(l.balance_of(acct(rich, mint)), Some(u64::MAX - 10));
    assert_eq!(l.balance_of(acct(creator, mint)), Some(1000));
}

#[test]
fn mint_to_requires_recorded_authority() {
    let (mut l, creator, mint) = gold_ledger();
    let mallory: u64 = 66;
    let r = l.mint_to(mint, mallory, acct(creator, mint), 1);
    assert_eq!(r, Err(TokenError::Unauthorized));
    assert_eq!(l.balance_of(acct(creator, mint)), Some(1000));
}

#[test]
fn mint_to_raises_the_receiver_balance() {
    let (mut l, creator, mint) = gold_ledger();
    let bob: u64 = 2;
    l.create_or_get_account(bob, mint);
    let r = l.mint_to(mint, creator, acct(bob, mint), 77);
    assert_eq!(r, Ok(()));
    assert_eq!(l.balance_of(acct(bob, mint)), Some(77));
    assert_eq!(l.balance_of(acct(creator, mint)), Some(1000));
}

#[test]
fn mint_to_unknown_token_type_is_not_found() {
    let (mut l, creator, mint) = gold_ledger();
    let r = l.mint_to(777, creator, acct(creator, mint), 1);
    assert_eq!(r, Err(TokenError::NotFound));
}

#[test]
fn mint_to_wrong_mint_account_is_a_mint_mismatch() {
    let (mut l, creator, mint) = gold_ledger();
    let silver: u64 = 101;
    l.create_mint(
        silver,
        "Silver".as_bytes().to_vec(),
        "SLV".as_bytes().to_vec(),
        6,
        500,
        creator,
    )
    .unwrap();
    let r = l.mint_to(mint, creator, acct(creator, silver), 1);
    assert_eq!(r, Err(TokenError::MintMismatch));
    assert_eq!(l.balance_of(acct(creator, silver)), Some(500));
}

#[test]
fn mint_to_credit_wraparound_is_an_overflow() {
    let (mut l, creator, mint) = gold_ledger();
    let r = l.mint_to(mint, creator, acct(creator, mint), u64::MAX - 999);
    assert_eq!(r, Err(TokenError::Overflow));
    assert_eq!(l.balance_of(acct(creator, mint)), Some(1000));
    let r = l.mint_to(mint, creator, acct(creator, mint), u64::MAX - 1000);
    assert_eq!(r, Ok(()));
    assert_eq!(l.balance_of(acct(creator, mint)), Some(u64::MAX));
}

#[test]
fn account_creation_is_idempotent() {
    let (mut l, creator, mint) = gold_ledger();
    let bob: u64 = 2;
    let first = l.create_or_get_account(bob, mint);
    let r = l.transfer(acct(creator, mint), first, 40, creator);
    assert_eq!(r, Ok(()));
    let second = l.create_or_get_account(bob, mint);
    assert_eq!(first, second);
    assert_eq!(l.balance_of(second), Some(40));
    // The creator's account already exists too: creation hands it back
    // with its balance untouched.
    let again = l.create_or_get_account(creator, mint);
    assert_eq!(again, acct(creator, mint));
    assert_eq!(l.balance_of(again), Some(960));
}

#[test]
fn second_create_mint_gets_the_next_identifier() {
    let (mut l, creator, mint) = gold_ledger();
    let silver: u64 = 101;
    let r = l
        .create_mint(
            silver,
            "Silver".as_bytes().to_vec(),
            "SLV".as_bytes().to_vec(),
            6,
            500,
            creator,
        )
        .unwrap();
    assert_eq!(r, (silver, 1));
    assert_eq!(l.registry.token_count, 2);
    let meta = l.get_token_metadata(1).unwrap();
    assert_eq!(meta.id, 1);
    assert_eq!(meta.mint, silver);
    // Independent balance pools per token type.
    assert_eq!(l.balance_of(acct(creator, mint)), Some(1000));
    assert_eq!(l.balance_of(acct(creator, silver)), Some(500));
}

#[test]
fn metadata_name_and_symbol_bounds() {
    let mut l = Ledger::initialize();
    let creator: u64 = 1;
    let long_name = vec![b'a'; 33];
    let r = l.create_mint(5, long_name, "OK".as_bytes().to_vec(), 0, 1, creator);
    assert_eq!(r, Err(TokenError::InvalidName));
    assert_eq!(l.registry.token_count, 0);
    let long_symbol = vec![b's'; 11];
    let r = l.create_mint(5, "ok".as_bytes().to_vec(), long_symbol, 0, 1, creator);
    assert_eq!(r, Err(TokenError::InvalidSymbol));
    assert_eq!(l.registry.token_count, 0);
    // The bounds themselves are allowed, an empty name as well.
    let r = l.create_mint(5, vec![b'n'; 32], vec![b's'; 10], 0, 1, creator);
    assert_eq!(r, Ok((5, 0)));
    let r = l.create_mint(6, Vec::new(), Vec::new(), 0, 0, creator);
    assert_eq!(r, Ok((6, 1)));
    assert_eq!(l.balance_of(acct(creator, 6)), Some(0));
}

#[test]
fn metadata_lookup_out_of_range_is_not_found() {
    let (l, _creator, _mint) = gold_ledger();
    assert!(matches!(l.get_token_metadata(1), Err(TokenError::NotFound)));
    assert!(matches!(l.get_token_metadata(u64::MAX), Err(TokenError::NotFound)));
}

#[test]
fn close_account_requires_owner_and_zero_balance() {
    let (mut l, creator, mint) = gold_ledger();
    let bob: u64 = 2;
    let sink: u64 = 50;
    l.create_or_get_account(bob, mint);
    let r = l.close_account(acct(creator, mint), bob, sink);
    assert_eq!(r, Err(TokenError::Unauthorized));
    let r = l.close_account(acct(creator, mint), creator, sink);
    assert_eq!(r, Err(TokenError::NonZeroBalance));
    let r = l.close_account(acct(bob, mint), bob, sink);
    assert_eq!(r, Ok(()));
    assert_eq!(l.balance_of(acct(bob, mint)), None);
    let r = l.close_account(acct(bob, mint), bob, sink);
    assert_eq!(r, Err(TokenError::NotFound));
    // A closed account can be created again, empty.
    let again = l.create_or_get_account(bob, mint);
    assert_eq!(l.balance_of(again), Some(0));
}

#[test]
fn conservation_across_a_run_of_operations() {
    let (mut l, creator, mint) = gold_ledger();
    let bob: u64 = 2;
    let carol: u64 = 3;
    l.create_or_get_account(bob, mint);
    l.create_or_get_account(carol, mint);
    l.mint_to(mint, creator, acct(bob, mint), 500).unwrap();
    l.transfer(acct(creator, mint), acct(carol, mint), 300, creator).unwrap();
    l.transfer(acct(bob, mint), acct(carol, mint), 120, bob).unwrap();
    l.freeze(acct(bob, mint), creator);
    let total: u64 = l.balance_of(acct(creator, mint)).unwrap()
        + l.balance_of(acct(bob, mint)).unwrap()
        + l.balance_of(acct(carol, mint)).unwrap();
    // 1000 at creation plus 500 issued later, never burned.
    assert_eq!(total, 1500);
}

#[test]
fn check_authority_is_a_pure_gate() {
    assert_eq!(check_authority(4, 4), Ok(()));
    assert_eq!(check_authority(4, 5), Err(TokenError::Unauthorized));
}

#[test]
fn balances_of_missing_accounts_are_absent() {
    let l = Ledger::initialize();
    assert_eq!(l.balance_of(acct(1, 1)), None);
    assert!(!l.frozen(acct(1, 1)));
    assert!(!l.mint_exists(1));
    assert_eq!(l.registry.token_count, 0);
}
