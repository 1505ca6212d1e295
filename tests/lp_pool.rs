use liquidity_pool::error::Errors;
use liquidity_pool::fixed::FIXED_ONE_U64;
use liquidity_pool::lp_pool::{
    LpPool, LpTokenAmount, Percentage, Price, StakedTokenAmount, TokenAmount,
};

fn create_pool() -> Result<LpPool, Errors> {
    LpPool::init(
        Price(15 * FIXED_ONE_U64 / 10),           // 1.5
        Percentage(1 * FIXED_ONE_U64 / 10 / 100), // 0.1% so 0.001
        Percentage(9 * FIXED_ONE_U64 / 100),      // 9.0% so 0.09
        TokenAmount(90 * FIXED_ONE_U64),
    )
}

#[test]
fn example_use_case() {
    let mut pool = create_pool().unwrap();
    let lp_tokens = pool.add_liquidity(TokenAmount(100 * FIXED_ONE_U64)).unwrap();

    assert_eq!(lp_tokens.0, 100 * FIXED_ONE_U64);

    let tokens = pool.swap(StakedTokenAmount(6 * FIXED_ONE_U64)).unwrap();

    assert_eq!(tokens.0, 8991 * FIXED_ONE_U64 / 1000); // 8.991

    let tokens = pool.add_liquidity(TokenAmount(10 * FIXED_ONE_U64)).unwrap();

    assert_eq!(tokens.0, 99991 * FIXED_ONE_U64 / 10000); // 9.9991

    let tokens = pool.swap(StakedTokenAmount(30 * FIXED_ONE_U64)).unwrap();
    assert_eq!(
        tokens.0,
        434423507580 // 43.4423507580
    );

    let (tokens, st_tokens) = pool.remove_liquidity(LpTokenAmount(1099991000000)).unwrap(); // 109.9991
    assert_eq!(tokens.0, 575666492420); // 57.5666492420
    assert_eq!(st_tokens.0, 36 * FIXED_ONE_U64);
}

#[test]
#[should_panic]
fn fail_to_swap_too_much_tokens() {
    let mut pool = create_pool().unwrap();
    pool.add_liquidity(TokenAmount(100 * FIXED_ONE_U64)).unwrap();

    pool.swap(StakedTokenAmount(100 * FIXED_ONE_U64)).unwrap();
}

#[test]
#[should_panic]
fn fail_to_remove_too_much_liquidity() {
    let mut pool = create_pool().unwrap();
    pool.add_liquidity(TokenAmount(100 * FIXED_ONE_U64)).unwrap();

    pool.remove_liquidity(LpTokenAmount(101 * FIXED_ONE_U64)).unwrap();
}

#[test]
#[should_panic]
fn fail_to_create_pool_with_wrong_fees() {
    LpPool::init(
        Price(15 * FIXED_ONE_U64 / 10),       // 1.5
        Percentage(10 * FIXED_ONE_U64 / 100), // 10.0% so 0.1
        Percentage(9 * FIXED_ONE_U64 / 100),  // 9.0% so 0.09
        TokenAmount(90 * FIXED_ONE_U64),
    )
    .unwrap();
}

#[test]
#[should_panic]
fn fail_to_create_pool_with_zero_as_liquidity_target() {
    LpPool::init(
        Price(15 * FIXED_ONE_U64 / 10),           // 1.5
        Percentage(1 * FIXED_ONE_U64 / 10 / 100), // 0.1% so 0.001
        Percentage(9 * FIXED_ONE_U64 / 100),      // 9.0% so 0.09
        TokenAmount(0),
    )
    .unwrap();
}

#[test]
fn init_rejects_each_bad_parameter() {
    let fee_lo = Percentage(FIXED_ONE_U64 / 1000);
    let fee_hi = Percentage(9 * FIXED_ONE_U64 / 100);
    let target = TokenAmount(90 * FIXED_ONE_U64);
    let price = Price(15 * FIXED_ONE_U64 / 10);
    assert!(matches!(
        LpPool::init(price, fee_hi, fee_lo, target),
        Err(Errors::InvalidArgument)
    ));
    assert!(matches!(
        LpPool::init(price, fee_lo, fee_hi, TokenAmount(0)),
        Err(Errors::InvalidArgument)
    ));
    assert!(matches!(
        LpPool::init(Price(0), fee_lo, fee_hi, target),
        Err(Errors::InvalidArgument)
    ));
    let pool = LpPool::init(price, fee_lo, fee_lo, target).unwrap();
    assert_eq!(pool.token_amount(), TokenAmount(0));
    assert_eq!(pool.st_token_amount(), StakedTokenAmount(0));
    assert_eq!(pool.lp_token_amount(), LpTokenAmount(0));
}

#[test]
fn first_deposit_mints_one_to_one() {
    let mut pool = create_pool().unwrap();
    let shares = pool.add_liquidity(TokenAmount(1234567)).unwrap();
    assert_eq!(shares, LpTokenAmount(1234567));
    assert_eq!(pool.token_amount(), TokenAmount(1234567));
    assert_eq!(pool.lp_token_amount(), LpTokenAmount(1234567));
    // Without staked tokens a second deposit replaces the reserve.
    let shares = pool.add_liquidity(TokenAmount(500)).unwrap();
    assert_eq!(shares, LpTokenAmount(500));
    assert_eq!(pool.token_amount(), TokenAmount(500));
    assert_eq!(pool.lp_token_amount(), LpTokenAmount(500));
}

#[test]
fn remove_more_than_outstanding_is_invalid_and_changes_nothing() {
    let mut pool = create_pool().unwrap();
    pool.add_liquidity(TokenAmount(100 * FIXED_ONE_U64)).unwrap();
    assert!(matches!(
        pool.remove_liquidity(LpTokenAmount(100 * FIXED_ONE_U64 + 1)),
        Err(Errors::InvalidOperation)
    ));
    assert_eq!(pool.token_amount(), TokenAmount(100 * FIXED_ONE_U64));
    assert_eq!(pool.lp_token_amount(), LpTokenAmount(100 * FIXED_ONE_U64));
}

#[test]
fn remove_liquidity_takes_out_reserves_and_shares() {
    let mut pool = create_pool().unwrap();
    pool.add_liquidity(TokenAmount(100 * FIXED_ONE_U64)).unwrap();
    pool.swap(StakedTokenAmount(6 * FIXED_ONE_U64)).unwrap();
    let preview = pool
        .preview_remove_liquidity(LpTokenAmount(50 * FIXED_ONE_U64))
        .unwrap();
    assert_eq!(pool.lp_token_amount(), LpTokenAmount(100 * FIXED_ONE_U64));
    let (tokens, st_tokens) = pool
        .remove_liquidity(LpTokenAmount(50 * FIXED_ONE_U64))
        .unwrap();
    assert_eq!((tokens, st_tokens), preview);
    // Half of 91.009 base tokens and of 6 staked tokens.
    assert_eq!(tokens, TokenAmount(455045000000));
    assert_eq!(st_tokens, StakedTokenAmount(3 * FIXED_ONE_U64));
    assert_eq!(pool.token_amount(), TokenAmount(910090000000 - 455045000000));
    assert_eq!(pool.st_token_amount(), StakedTokenAmount(3 * FIXED_ONE_U64));
    assert_eq!(pool.lp_token_amount(), LpTokenAmount(50 * FIXED_ONE_U64));
}

#[test]
fn remove_from_empty_pool_divides_by_zero() {
    let mut pool = create_pool().unwrap();
    assert!(matches!(
        pool.remove_liquidity(LpTokenAmount(0)),
        Err(Errors::DivisionByZero)
    ));
}

#[test]
fn swap_beyond_reserve_is_invalid_and_changes_nothing() {
    let mut pool = create_pool().unwrap();
    pool.add_liquidity(TokenAmount(100 * FIXED_ONE_U64)).unwrap();
    assert!(matches!(
        pool.swap(StakedTokenAmount(100 * FIXED_ONE_U64)),
        Err(Errors::InvalidOperation)
    ));
    assert_eq!(pool.token_amount(), TokenAmount(100 * FIXED_ONE_U64));
    assert_eq!(pool.st_token_amount(), StakedTokenAmount(0));
    assert_eq!(pool.lp_token_amount(), LpTokenAmount(100 * FIXED_ONE_U64));
}

#[test]
fn swap_fee_is_min_fee_above_target() {
    let mut pool = create_pool().unwrap();
    pool.add_liquidity(TokenAmount(1000 * FIXED_ONE_U64)).unwrap();
    // 10 staked at 1.5 is 15, leaving 985 > 90: fee 0.1%, payout 14.985.
    let paid = pool.swap(StakedTokenAmount(10 * FIXED_ONE_U64)).unwrap();
    assert_eq!(paid, TokenAmount(149850000000));
    assert_eq!(pool.token_amount(), TokenAmount(10000000000000 - 149850000000));
    assert_eq!(pool.st_token_amount(), StakedTokenAmount(10 * FIXED_ONE_U64));
}

#[test]
fn swap_with_fee_above_one_is_negative() {
    let mut pool = LpPool::init(
        Price(FIXED_ONE_U64),
        Percentage(2 * FIXED_ONE_U64),
        Percentage(2 * FIXED_ONE_U64),
        TokenAmount(FIXED_ONE_U64),
    )
    .unwrap();
    pool.add_liquidity(TokenAmount(100 * FIXED_ONE_U64)).unwrap();
    assert!(matches!(
        pool.swap(StakedTokenAmount(FIXED_ONE_U64)),
        Err(Errors::NegativeValue)
    ));
    assert_eq!(pool.st_token_amount(), StakedTokenAmount(0));
}

#[test]
fn add_liquidity_reserve_overflow() {
    let mut pool = create_pool().unwrap();
    pool.add_liquidity(TokenAmount(100 * FIXED_ONE_U64)).unwrap();
    pool.swap(StakedTokenAmount(6 * FIXED_ONE_U64)).unwrap();
    let before = pool.token_amount();
    assert!(matches!(
        pool.add_liquidity(TokenAmount(u64::MAX)),
        Err(Errors::Overflow)
    ));
    assert_eq!(pool.token_amount(), before);
}
