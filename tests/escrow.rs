use swap::{Address, Ledger, MakeOffer, Offer, Swap, SwapError, TakeOffer};

const MAKER: Address = Address { hi: 0, lo: 1 };
const MAKER_B: Address = Address { hi: 0, lo: 2 };
const TAKER: Address = Address { hi: 0, lo: 3 };
const X: Address = Address { hi: 7, lo: 0 };
const Y: Address = Address { hi: 9, lo: u128::MAX };

fn make_ctx(maker: Address) -> MakeOffer {
    MakeOffer { maker, maker_signed: true, asset_offered: X, asset_wanted: Y }
}

fn take_ctx(taker: Address, maker: Address, id: u64) -> TakeOffer {
    TakeOffer { taker, taker_signed: true, maker, id }
}

/// A maker with 100 of X who escrowed all of it for 50 of Y, and a taker
/// holding `taker_y` of Y.
fn open_offer(taker_y: u64) -> Swap {
    let mut s = Swap::new();
    s.deposit(MAKER, X, 100).unwrap();
    if taker_y > 0 {
        s.deposit(TAKER, Y, taker_y).unwrap();
    }
    assert_eq!(s.make_offer(make_ctx(MAKER), 1, 100, 50), Ok(()));
    s
}

#[test]
fn make_offer_escrows_into_vault() {
    let s = open_offer(0);
    assert_eq!(s.vault_balance(MAKER, 1), Some(100));
    assert_eq!(s.balance_of(MAKER, X), 0);
    assert_eq!(
        s.offer(MAKER, 1),
        Some(Offer { id: 1, maker: MAKER, asset_offered: X, asset_wanted: Y, amount_wanted: 50 })
    );
}

#[test]
fn take_offer_settles_both_sides() {
    let mut s = open_offer(70);
    assert_eq!(s.take_offer(take_ctx(TAKER, MAKER, 1)), Ok(()));
    assert_eq!(s.balance_of(MAKER, Y), 50);
    assert_eq!(s.balance_of(TAKER, Y), 20);
    assert_eq!(s.balance_of(TAKER, X), 100);
    assert_eq!(s.vault_balance(MAKER, 1), None);
    assert_eq!(s.offer(MAKER, 1), None);
}

#[test]
fn take_offer_conserves_assets() {
    let mut s = open_offer(70);
    let y_before = s.balance_of(MAKER, Y) + s.balance_of(TAKER, Y);
    let x_before = s.vault_balance(MAKER, 1).unwrap() + s.balance_of(TAKER, X);
    s.take_offer(take_ctx(TAKER, MAKER, 1)).unwrap();
    assert_eq!(s.balance_of(MAKER, Y) + s.balance_of(TAKER, Y), y_before);
    assert_eq!(s.vault_balance(MAKER, 1).unwrap_or(0) + s.balance_of(TAKER, X), x_before);
}

#[test]
fn take_offer_with_too_little_fails_and_keeps_offer() {
    let mut s = open_offer(10);
    assert_eq!(s.take_offer(take_ctx(TAKER, MAKER, 1)), Err(SwapError::InsufficientFunds));
    assert_eq!(s.vault_balance(MAKER, 1), Some(100));
    assert!(s.offer(MAKER, 1).is_some());
    assert_eq!(s.balance_of(TAKER, Y), 10);
    assert_eq!(s.balance_of(MAKER, Y), 0);
}

#[test]
fn take_offer_twice_fails_the_second_time() {
    let mut s = open_offer(100);
    assert_eq!(s.take_offer(take_ctx(TAKER, MAKER, 1)), Ok(()));
    assert_eq!(s.take_offer(take_ctx(TAKER, MAKER, 1)), Err(SwapError::OfferNotFound));
    assert_eq!(s.balance_of(MAKER, Y), 50);
    assert_eq!(s.balance_of(TAKER, Y), 50);
    assert_eq!(s.balance_of(TAKER, X), 100);
}

#[test]
fn make_offer_with_zero_offered_is_rejected() {
    let mut s = Swap::new();
    s.deposit(MAKER, X, 100).unwrap();
    assert_eq!(s.make_offer(make_ctx(MAKER), 1, 0, 50), Err(SwapError::InvalidAmount));
    assert_eq!(s.offer(MAKER, 1), None);
    assert_eq!(s.vault_balance(MAKER, 1), None);
    assert_eq!(s.balance_of(MAKER, X), 100);
}

#[test]
fn make_offer_with_zero_wanted_is_rejected() {
    let mut s = Swap::new();
    s.deposit(MAKER, X, 100).unwrap();
    assert_eq!(s.make_offer(make_ctx(MAKER), 1, 10, 0), Err(SwapError::InvalidAmount));
    assert_eq!(s.vault_balance(MAKER, 1), None);
}

#[test]
fn make_offer_without_funds_leaves_nothing() {
    let mut s = Swap::new();
    s.deposit(MAKER, X, 99).unwrap();
    assert_eq!(s.make_offer(make_ctx(MAKER), 1, 100, 50), Err(SwapError::InsufficientFunds));
    assert_eq!(s.offer(MAKER, 1), None);
    assert_eq!(s.vault_balance(MAKER, 1), None);
    assert_eq!(s.balance_of(MAKER, X), 99);
}

#[test]
fn make_offer_twice_under_one_id_is_refused() {
    let mut s = Swap::new();
    s.deposit(MAKER, X, 300).unwrap();
    assert_eq!(s.make_offer(make_ctx(MAKER), 1, 100, 50), Ok(()));
    assert_eq!(s.make_offer(make_ctx(MAKER), 1, 100, 70), Err(SwapError::OfferAlreadyExists));
    assert_eq!(s.vault_balance(MAKER, 1), Some(100));
    assert_eq!(s.offer(MAKER, 1).unwrap().amount_wanted, 50);
    assert_eq!(s.balance_of(MAKER, X), 200);
}

#[test]
fn make_offer_unsigned_is_unauthorized() {
    let mut s = Swap::new();
    s.deposit(MAKER, X, 100).unwrap();
    let ctx = MakeOffer { maker_signed: false, ..make_ctx(MAKER) };
    assert_eq!(s.make_offer(ctx, 1, 100, 50), Err(SwapError::Unauthorized));
    assert_eq!(s.offer(MAKER, 1), None);
    assert_eq!(s.balance_of(MAKER, X), 100);
}

#[test]
fn take_offer_unsigned_is_unauthorized() {
    let mut s = open_offer(100);
    let ctx = TakeOffer { taker_signed: false, ..take_ctx(TAKER, MAKER, 1) };
    assert_eq!(s.take_offer(ctx), Err(SwapError::Unauthorized));
    assert_eq!(s.vault_balance(MAKER, 1), Some(100));
    assert_eq!(s.balance_of(TAKER, Y), 100);
}

#[test]
fn take_offer_of_unknown_offer_is_not_found() {
    let mut s = open_offer(100);
    assert_eq!(s.take_offer(take_ctx(TAKER, MAKER, 2)), Err(SwapError::OfferNotFound));
    assert_eq!(s.take_offer(take_ctx(TAKER, MAKER_B, 1)), Err(SwapError::OfferNotFound));
    assert_eq!(s.vault_balance(MAKER, 1), Some(100));
}

#[test]
fn two_makers_share_an_id() {
    let mut s = Swap::new();
    s.deposit(MAKER, X, 100).unwrap();
    s.deposit(MAKER_B, X, 30).unwrap();
    assert_eq!(s.make_offer(make_ctx(MAKER), 1, 100, 50), Ok(()));
    assert_eq!(s.make_offer(make_ctx(MAKER_B), 1, 30, 5), Ok(()));
    assert_eq!(s.vault_balance(MAKER, 1), Some(100));
    assert_eq!(s.vault_balance(MAKER_B, 1), Some(30));
    s.deposit(TAKER, Y, 5).unwrap();
    assert_eq!(s.take_offer(take_ctx(TAKER, MAKER_B, 1)), Ok(()));
    assert_eq!(s.vault_balance(MAKER, 1), Some(100));
    assert_eq!(s.vault_balance(MAKER_B, 1), None);
    assert_eq!(s.balance_of(TAKER, X), 30);
    assert_eq!(s.balance_of(MAKER_B, Y), 5);
}

#[test]
fn id_is_reusable_after_settlement() {
    let mut s = open_offer(50);
    s.take_offer(take_ctx(TAKER, MAKER, 1)).unwrap();
    s.deposit(MAKER, X, 40).unwrap();
    assert_eq!(s.make_offer(make_ctx(MAKER), 1, 40, 20), Ok(()));
    assert_eq!(s.vault_balance(MAKER, 1), Some(40));
    assert_eq!(s.take_offer(take_ctx(TAKER, MAKER, 1)), Err(SwapError::InsufficientFunds));
}

#[test]
fn maker_may_take_own_offer() {
    let mut s = open_offer(0);
    s.deposit(MAKER, Y, 50).unwrap();
    assert_eq!(s.take_offer(take_ctx(MAKER, MAKER, 1)), Ok(()));
    assert_eq!(s.balance_of(MAKER, Y), 50);
    assert_eq!(s.balance_of(MAKER, X), 100);
    assert_eq!(s.vault_balance(MAKER, 1), None);
}

#[test]
fn offer_of_an_asset_for_itself() {
    let mut s = Swap::new();
    s.deposit(MAKER, X, 100).unwrap();
    s.deposit(TAKER, X, 60).unwrap();
    let ctx = MakeOffer { maker: MAKER, maker_signed: true, asset_offered: X, asset_wanted: X };
    assert_eq!(s.make_offer(ctx, 3, 100, 50), Ok(()));
    assert_eq!(s.take_offer(take_ctx(TAKER, MAKER, 3)), Ok(()));
    assert_eq!(s.balance_of(MAKER, X), 50);
    assert_eq!(s.balance_of(TAKER, X), 110);
}

#[test]
fn take_offer_that_would_overflow_the_maker_changes_nothing() {
    let mut s = open_offer(50);
    s.deposit(MAKER, Y, u64::MAX - 10).unwrap();
    assert_eq!(s.take_offer(take_ctx(TAKER, MAKER, 1)), Err(SwapError::ArithmeticOverflow));
    assert_eq!(s.balance_of(TAKER, Y), 50);
    assert_eq!(s.balance_of(MAKER, Y), u64::MAX - 10);
    assert_eq!(s.vault_balance(MAKER, 1), Some(100));
}

#[test]
fn take_offer_that_would_overflow_the_taker_changes_nothing() {
    let mut s = open_offer(50);
    s.deposit(TAKER, X, u64::MAX - 99).unwrap();
    assert_eq!(s.take_offer(take_ctx(TAKER, MAKER, 1)), Err(SwapError::ArithmeticOverflow));
    assert_eq!(s.balance_of(TAKER, Y), 50);
    assert_eq!(s.balance_of(MAKER, Y), 0);
    assert_eq!(s.balance_of(TAKER, X), u64::MAX - 99);
    assert_eq!(s.vault_balance(MAKER, 1), Some(100));
}

#[test]
fn take_offer_at_the_largest_balance() {
    let mut s = open_offer(50);
    s.deposit(TAKER, X, u64::MAX - 100).unwrap();
    assert_eq!(s.take_offer(take_ctx(TAKER, MAKER, 1)), Ok(()));
    assert_eq!(s.balance_of(TAKER, X), u64::MAX);
}

#[test]
fn deposit_past_the_largest_balance_fails() {
    let mut s = Swap::new();
    assert_eq!(s.deposit(MAKER, X, u64::MAX), Ok(()));
    assert_eq!(s.deposit(MAKER, X, 1), Err(SwapError::ArithmeticOverflow));
    assert_eq!(s.balance_of(MAKER, X), u64::MAX);
}

#[test]
fn ledger_transfer_moves_and_refuses() {
    let mut l = Ledger::new();
    assert_eq!(l.balance_of(MAKER, X), 0);
    l.deposit(MAKER, X, 10).unwrap();
    assert_eq!(l.transfer(MAKER, TAKER, X, 11), Err(SwapError::InsufficientFunds));
    assert_eq!(l.transfer(MAKER, TAKER, X, 4), Ok(()));
    assert_eq!(l.balance_of(MAKER, X), 6);
    assert_eq!(l.balance_of(TAKER, X), 4);
    assert_eq!(l.transfer(MAKER, MAKER, X, 6), Ok(()));
    assert_eq!(l.balance_of(MAKER, X), 6);
    l.deposit(TAKER, Y, u64::MAX).unwrap();
    l.deposit(MAKER, Y, 1).unwrap();
    assert_eq!(l.transfer(MAKER, TAKER, Y, 1), Err(SwapError::ArithmeticOverflow));
    assert_eq!(l.balance_of(MAKER, Y), 1);
}

#[test]
fn ledger_withdraw_debits_or_refuses() {
    let mut l = Ledger::new();
    l.deposit(MAKER, X, 10).unwrap();
    assert_eq!(l.withdraw(MAKER, X, 11), Err(SwapError::InsufficientFunds));
    assert_eq!(l.withdraw(MAKER, X, 10), Ok(()));
    assert_eq!(l.balance_of(MAKER, X), 0);
}
