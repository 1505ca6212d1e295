//! A pool of a base token and a staked token, with shares minted against
//! deposits and a fee curve on swaps from the staked token.
use vstd::prelude::*;

use crate::error::Errors;
use crate::fixed::{
    add_res, div_res, in_i128, lemma_div_rem, lemma_mul_value_bounds, mul_res, mul_value, reciprocal_value,
    scale, sub_res, Fixed,
};

verus! {

/// An amount of the base token, scaled by `FIXED_ONE`.
#[derive(Debug, Clone, Copy, PartialEq, Eq, Structural)]
pub struct TokenAmount(pub u64);

/// An amount of the staked token, scaled by `FIXED_ONE`.
#[derive(Debug, Clone, Copy, PartialEq, Eq, Structural)]
pub struct StakedTokenAmount(pub u64);

/// An amount of pool shares, scaled by `FIXED_ONE`.
#[derive(Debug, Clone, Copy, PartialEq, Eq, Structural)]
pub struct LpTokenAmount(pub u64);

/// Base tokens per staked token, scaled by `FIXED_ONE`.
#[derive(Debug, Clone, Copy, PartialEq, Eq, Structural)]
pub struct Price(pub u64);

/// A ratio, scaled by `FIXED_ONE` (so `FIXED_ONE` is 100%).
#[derive(Debug, Clone, Copy, PartialEq, Eq, Structural)]
pub struct Percentage(pub u64);

/// The liquidity pool: reserves of both tokens, the share supply, and the
/// constant parameters of the fee curve.
#[derive(Debug)]
pub struct LpPool {
    price: Price,
    token_amount: TokenAmount,
    st_token_amount: StakedTokenAmount,
    lp_token_amount: LpTokenAmount,
    liquidity_target: TokenAmount,
    min_fee: Percentage,
    max_fee: Percentage,
}

/// The state of a pool as raw scaled values.
pub struct PoolModel {
    pub price: u64,
    pub token_amount: u64,
    pub st_token_amount: u64,
    pub lp_token_amount: u64,
    pub liquidity_target: u64,
    pub min_fee: u64,
    pub max_fee: u64,
}

impl PoolModel {
    /// The pool's constant parameters are consistent.
    pub open spec fn valid(self) -> bool {
        &&& self.min_fee <= self.max_fee
        &&& self.liquidity_target > 0
        &&& self.price > 0
    }
}

impl View for LpPool {
    type V = PoolModel;

    closed spec fn view(&self) -> PoolModel {
        PoolModel {
            price: self.price.0,
            token_amount: self.token_amount.0,
            st_token_amount: self.st_token_amount.0,
            lp_token_amount: self.lp_token_amount.0,
            liquidity_target: self.liquidity_target.0,
            min_fee: self.min_fee.0,
            max_fee: self.max_fee.0,
        }
    }
}

/// A raw unsigned amount as a fixed-point value.
pub open spec fn fx(n: u64) -> Fixed {
    Fixed(n as i128)
}

/// The error of `init` on the given parameters, if any.
pub open spec fn init_rejects(price: u64, min_fee: u64, max_fee: u64, liquidity_target: u64) -> bool {
    min_fee > max_fee || liquidity_target == 0 || price == 0
}

/// The pool right after `init`: empty reserves, no shares.
pub open spec fn initial_model(
    price: u64,
    min_fee: u64,
    max_fee: u64,
    liquidity_target: u64,
) -> PoolModel {
    PoolModel {
        price,
        token_amount: 0,
        st_token_amount: 0,
        lp_token_amount: 0,
        liquidity_target,
        min_fee,
        max_fee,
    }
}

/// Shares owed for a deposit of `amount` into a pool that holds staked
/// tokens: `amount * lp_token_amount / (token_amount + st_token_amount * price)`.
pub open spec fn shares_issued(m: PoolModel, amount: u64) -> Result<Fixed, Errors> {
    match mul_res(fx(m.st_token_amount), fx(m.price)) {
        Err(e) => Err(e),
        Ok(staked_value) => match add_res(fx(m.token_amount), staked_value) {
            Err(e) => Err(e),
            Ok(total_value) => match mul_res(fx(amount), fx(m.lp_token_amount)) {
                Err(e) => Err(e),
                Ok(weighted) => div_res(weighted, total_value),
            },
        },
    }
}

/// Outcome of a deposit: the new state and the shares minted.
pub open spec fn add_liquidity_spec(m: PoolModel, amount: u64) -> Result<(PoolModel, u64), Errors> {
    if m.st_token_amount == 0 {
        Ok((PoolModel { token_amount: amount, lp_token_amount: amount, ..m }, amount))
    } else {
        match shares_issued(m, amount) {
            Err(e) => Err(e),
            Ok(s) => if s.0 < 0 {
                Err(Errors::NegativeValue)
            } else if m.token_amount + amount > u64::MAX || m.lp_token_amount + s.0 > u64::MAX {
                Err(Errors::Overflow)
            } else {
                Ok(
                    (
                        PoolModel {
                            token_amount: (m.token_amount + amount) as u64,
                            lp_token_amount: (m.lp_token_amount + s.0) as u64,
                            ..m
                        },
                        s.0 as u64,
                    ),
                )
            },
        }
    }
}

/// What `shares` redeem: each reserve times `shares / lp_token_amount`,
/// truncated for each reserve on its own.
pub open spec fn redemption(m: PoolModel, shares: u64) -> Result<(u64, u64), Errors> {
    if shares > m.lp_token_amount {
        Err(Errors::InvalidOperation)
    } else {
        match div_res(fx(shares), fx(m.lp_token_amount)) {
            Err(e) => Err(e),
            Ok(proportion) => match mul_res(fx(m.token_amount), proportion) {
                Err(e) => Err(e),
                Ok(tokens) => match mul_res(fx(m.st_token_amount), proportion) {
                    Err(e) => Err(e),
                    Ok(st_tokens) => if tokens.0 < 0 || st_tokens.0 < 0 {
                        Err(Errors::NegativeValue)
                    } else {
                        Ok((tokens.0 as u64, st_tokens.0 as u64))
                    },
                },
            },
        }
    }
}

/// Outcome of a withdrawal: the new state and the amounts paid out.
pub open spec fn remove_liquidity_spec(m: PoolModel, shares: u64) -> Result<
    (PoolModel, (u64, u64)),
    Errors,
> {
    match redemption(m, shares) {
        Err(e) => Err(e),
        Ok((tokens, st_tokens)) => Ok(
            (
                PoolModel {
                    token_amount: (m.token_amount - tokens) as u64,
                    st_token_amount: (m.st_token_amount - st_tokens) as u64,
                    lp_token_amount: (m.lp_token_amount - shares) as u64,
                    ..m
                },
                (tokens, st_tokens),
            ),
        ),
    }
}

/// The fee on a swap that would leave `after` base tokens: `min_fee` above
/// the liquidity target, else the line from `max_fee` at zero to `min_fee` at
/// the target, `max_fee - (max_fee - min_fee) * after / liquidity_target`.
pub open spec fn swap_fee(m: PoolModel, after: Fixed) -> Result<Fixed, Errors> {
    if after.0 > m.liquidity_target {
        Ok(fx(m.min_fee))
    } else {
        match sub_res(fx(m.max_fee), fx(m.min_fee)) {
            Err(e) => Err(e),
            Ok(spread) => match mul_res(spread, after) {
                Err(e) => Err(e),
                Ok(scaled) => match div_res(scaled, fx(m.liquidity_target)) {
                    Err(e) => Err(e),
                    Ok(reduction) => sub_res(fx(m.max_fee), reduction),
                },
            },
        }
    }
}

/// Base tokens owed for `staked` staked tokens: their value at the pool's
/// price, less the fee.
pub open spec fn swap_payout(m: PoolModel, staked: u64) -> Result<Fixed, Errors> {
    match mul_res(fx(staked), fx(m.price)) {
        Err(e) => Err(e),
        Ok(value_in) => match sub_res(fx(m.token_amount), value_in) {
            Err(e) => Err(e),
            Ok(after) => match swap_fee(m, after) {
                Err(e) => Err(e),
                Ok(fee) => match mul_res(value_in, fee) {
                    Err(e) => Err(e),
                    Ok(fee_tokens) => sub_res(value_in, fee_tokens),
                },
            },
        },
    }
}

/// Outcome of a swap: the new state and the base tokens paid out.
pub open spec fn swap_spec(m: PoolModel, staked: u64) -> Result<(PoolModel, u64), Errors> {
    match swap_payout(m, staked) {
        Err(e) => Err(e),
        Ok(p) => if p.0 < 0 {
            Err(Errors::NegativeValue)
        } else if p.0 > m.token_amount {
            Err(Errors::InvalidOperation)
        } else if m.st_token_amount + staked > u64::MAX {
            Err(Errors::Overflow)
        } else {
            Ok(
                (
                    PoolModel {
                        token_amount: (m.token_amount - p.0) as u64,
                        st_token_amount: (m.st_token_amount + staked) as u64,
                        ..m
                    },
                    p.0 as u64,
                ),
            )
        },
    }
}

/// A deposit into a pool without staked tokens mints exactly the deposited
/// amount in shares and sets the base reserve to it.
pub proof fn lemma_first_deposit_one_to_one(m: PoolModel, amount: u64)
    requires
        m.st_token_amount == 0,
    ensures
        add_liquidity_spec(m, amount) matches Ok((next, shares)) && shares == amount
            && next.token_amount == amount && next.lp_token_amount == amount,
{
}

/// Redeeming more shares than are outstanding fails with `InvalidOperation`.
pub proof fn lemma_remove_over_supply_rejected(m: PoolModel, shares: u64)
    requires
        shares > m.lp_token_amount,
    ensures
        remove_liquidity_spec(m, shares) == Err::<(PoolModel, (u64, u64)), Errors>(
            Errors::InvalidOperation,
        ),
{
}

/// A part of a reserve no larger than the whole: `mul_value(v, p)` for
/// `0 <= p <= 1.0` lies in `[0, v]`.
proof fn lemma_part_of_reserve(v: u64, p: int)
    requires
        0 <= p <= scale(),
    ensures
        0 <= mul_value(v as int, p) <= v,
{
    lemma_mul_value_bounds(v as int, p);
    let t = mul_value(v as int, p);
    let s = scale();
    assert(v * p <= v * s) by (nonlinear_arith)
        requires
            0 <= p <= s,
            v >= 0,
    ;
    assert(t <= v) by (nonlinear_arith)
        requires
            t * s <= v * s,
            s > 0,
    ;
}

/// Redeeming at most the outstanding shares of a pool that has shares
/// always succeeds and pays out no more than each reserve holds.
pub proof fn lemma_redemption_within_reserves(m: PoolModel, shares: u64)
    requires
        shares <= m.lp_token_amount,
        m.lp_token_amount > 0,
    ensures
        redemption(m, shares) matches Ok((tokens, st_tokens)) && tokens <= m.token_amount
            && st_tokens <= m.st_token_amount,
{
    let s = scale();
    let lp = m.lp_token_amount as int;
    let sh = shares as int;
    assert(s == 10000000000);
    assert(s * s == 100000000000000000000) by (nonlinear_arith)
        requires
            s == 10000000000,
    ;
    assert(lp < s * s);
    let proportion = div_res(fx(shares), fx(m.lp_token_amount));
    if lp != s && sh != lp {
        let r = reciprocal_value(lp);
        lemma_div_rem(s * s, lp);
        lemma_mul_value_bounds(sh, r);
        let p = mul_value(sh, r);
        assert(sh * r <= lp * r) by (nonlinear_arith)
            requires
                0 <= sh <= lp,
                r >= 0,
        ;
        assert(p <= s) by (nonlinear_arith)
            requires
                p * s <= sh * r,
                sh * r <= lp * r,
                lp * r <= s * s,
                s > 0,
        ;
        assert(in_i128(p));
    }
    assert(proportion is Ok);
    let p = proportion->Ok_0.0 as int;
    assert(0 <= p <= s);
    lemma_part_of_reserve(m.token_amount, p);
    lemma_part_of_reserve(m.st_token_amount, p);
}

/// A swap whose payout exceeds the base reserve fails with
/// `InvalidOperation` (and `swap` then leaves the pool as it was).
pub proof fn lemma_swap_over_reserve_rejected(m: PoolModel, staked: u64)
    requires
        swap_payout(m, staked) is Ok,
        swap_payout(m, staked)->Ok_0.0 > m.token_amount,
    ensures
        swap_spec(m, staked) == Err::<(PoolModel, u64), Errors>(Errors::InvalidOperation),
{
}

/// Every operation keeps the price, the liquidity target and both fee
/// bounds, so a valid pool stays valid.
pub proof fn lemma_operations_keep_parameters(m: PoolModel, amount: u64)
    ensures
        add_liquidity_spec(m, amount) matches Ok((next, _)) ==> same_parameters(m, next),
        remove_liquidity_spec(m, amount) matches Ok((next, _)) ==> same_parameters(m, next),
        swap_spec(m, amount) matches Ok((next, _)) ==> same_parameters(m, next),
{
}

/// Two states with the same constant parameters.
pub open spec fn same_parameters(m: PoolModel, n: PoolModel) -> bool {
    &&& m.price == n.price
    &&& m.liquidity_target == n.liquidity_target
    &&& m.min_fee == n.min_fee
    &&& m.max_fee == n.max_fee
}

impl LpPool {
    /// A pool with empty reserves and no shares; `InvalidArgument` when
    /// `min_fee > max_fee`, `liquidity_target` is zero or `price` is zero.
    pub fn init(
        price: Price,
        min_fee: Percentage,
        max_fee: Percentage,
        liquidity_target: TokenAmount,
    ) -> (r: Result<Self, Errors>)
        ensures
            r is Err <==> init_rejects(price.0, min_fee.0, max_fee.0, liquidity_target.0),
            r is Err ==> r == Err::<Self, Errors>(Errors::InvalidArgument),
            r is Ok ==> r->Ok_0@ == initial_model(price.0, min_fee.0, max_fee.0, liquidity_target.0),
            r is Ok ==> r->Ok_0@.valid(),
    {
        if min_fee.0 > max_fee.0 {
            return Err(Errors::InvalidArgument);
        }
        if liquidity_target.0 == 0 {
            return Err(Errors::InvalidArgument);
        }
        if price.0 == 0 {
            return Err(Errors::InvalidArgument);
        }
        Ok(
            LpPool {
                price,
                token_amount: TokenAmount(0),
                st_token_amount: StakedTokenAmount(0),
                lp_token_amount: LpTokenAmount(0),
                liquidity_target,
                min_fee,
                max_fee,
            },
        )
    }

    /// Deposits `token_amount` base tokens and returns the shares minted for
    /// it. With no staked tokens in the pool the deposit sets the base reserve
    /// and the share supply to `token_amount` and mints shares 1:1; otherwise
    /// it mints `shares_issued` and adds to both. On an error nothing changes.
    pub fn add_liquidity(&mut self, token_amount: TokenAmount) -> (r: Result<LpTokenAmount, Errors>)
        ensures
            match add_liquidity_spec(old(self)@, token_amount.0) {
                Ok((m, s)) => final(self)@ == m && r == Ok::<LpTokenAmount, Errors>(
                    LpTokenAmount(s),
                ),
                Err(e) => final(self)@ == old(self)@ && r == Err::<LpTokenAmount, Errors>(e),
            },
            old(self)@.valid() ==> final(self)@.valid(),
    {
        if self.st_token_amount.0 == 0 {
            self.token_amount = TokenAmount(token_amount.0);
            self.lp_token_amount = LpTokenAmount(token_amount.0);
            return Ok(LpTokenAmount(token_amount.0));
        }
        let total_shares = Fixed::from(self.lp_token_amount.0);
        let staked_value = match Fixed::from(self.st_token_amount.0).checked_mul(
            Fixed::from(self.price.0),
        ) {
            Ok(v) => v,
            Err(e) => return Err(e),
        };
        let total_value = match Fixed::from(self.token_amount.0).checked_add(staked_value) {
            Ok(v) => v,
            Err(e) => return Err(e),
        };
        let weighted = match Fixed::from(token_amount.0).checked_mul(total_shares) {
            Ok(v) => v,
            Err(e) => return Err(e),
        };
        let tokens_issued = match weighted.checked_div(total_value) {
            Ok(v) => v,
            Err(e) => return Err(e),
        };
        if tokens_issued.0 < 0 {
            return Err(Errors::NegativeValue);
        }
        let new_token_amount = match self.token_amount.0.checked_add(token_amount.0) {
            Some(v) => v,
            None => return Err(Errors::Overflow),
        };
        if tokens_issued.0 > (u64::MAX - self.lp_token_amount.0) as i128 {
            return Err(Errors::Overflow);
        }
        let issued = tokens_issued.0 as u64;
        self.token_amount = TokenAmount(new_token_amount);
        self.lp_token_amount = LpTokenAmount(self.lp_token_amount.0 + issued);
        Ok(LpTokenAmount(issued))
    }

    /// What `lp_token_amount` shares would redeem, without changing the pool.
    pub fn preview_remove_liquidity(&self, lp_token_amount: LpTokenAmount) -> (r: Result<
        (TokenAmount, StakedTokenAmount),
        Errors,
    >)
        ensures
            match redemption(self@, lp_token_amount.0) {
                Ok((t, s)) => r == Ok::<(TokenAmount, StakedTokenAmount), Errors>(
                    (TokenAmount(t), StakedTokenAmount(s)),
                ),
                Err(e) => r == Err::<(TokenAmount, StakedTokenAmount), Errors>(e),
            },
            r is Ok <==> lp_token_amount.0 <= self@.lp_token_amount && self@.lp_token_amount > 0,
            lp_token_amount.0 > self@.lp_token_amount ==> r == Err::<
                (TokenAmount, StakedTokenAmount),
                Errors,
            >(Errors::InvalidOperation),
            self@.lp_token_amount == 0 && lp_token_amount.0 == 0 ==> r == Err::<
                (TokenAmount, StakedTokenAmount),
                Errors,
            >(Errors::DivisionByZero),
    {
        proof {
            if lp_token_amount.0 <= self.lp_token_amount.0 && self.lp_token_amount.0 > 0 {
                lemma_redemption_within_reserves(self@, lp_token_amount.0);
            }
        }
        if lp_token_amount.0 > self.lp_token_amount.0 {
            return Err(Errors::InvalidOperation);
        }
        let proportion = match Fixed::from(lp_token_amount.0).checked_div(
            Fixed::from(self.lp_token_amount.0),
        ) {
            Ok(v) => v,
            Err(e) => return Err(e),
        };
        let tokens = match Fixed::from(self.token_amount.0).checked_mul(proportion) {
            Ok(v) => v,
            Err(e) => return Err(e),
        };
        let st_tokens = match Fixed::from(self.st_token_amount.0).checked_mul(proportion) {
            Ok(v) => v,
            Err(e) => return Err(e),
        };
        if tokens.0 < 0 || st_tokens.0 < 0 {
            return Err(Errors::NegativeValue);
        }
        Ok((TokenAmount(tokens.0 as u64), StakedTokenAmount(st_tokens.0 as u64)))
    }

    /// Redeems `lp_token_amount` shares for each reserve's proportional part,
    /// and takes both parts and the shares out of the pool.
    /// `InvalidOperation` for more shares than are outstanding. On an error
    /// nothing changes.
    pub fn remove_liquidity(&mut self, lp_token_amount: LpTokenAmount) -> (r: Result<
        (TokenAmount, StakedTokenAmount),
        Errors,
    >)
        ensures
            match remove_liquidity_spec(old(self)@, lp_token_amount.0) {
                Ok((m, (t, s))) => final(self)@ == m && r == Ok::<
                    (TokenAmount, StakedTokenAmount),
                    Errors,
                >((TokenAmount(t), StakedTokenAmount(s))),
                Err(e) => final(self)@ == old(self)@ && r == Err::<
                    (TokenAmount, StakedTokenAmount),
                    Errors,
                >(e),
            },
            r is Ok <==> lp_token_amount.0 <= old(self)@.lp_token_amount
                && old(self)@.lp_token_amount > 0,
            old(self)@.valid() ==> final(self)@.valid(),
    {
        proof {
            if lp_token_amount.0 <= self.lp_token_amount.0 && self.lp_token_amount.0 > 0 {
                lemma_redemption_within_reserves(self@, lp_token_amount.0);
            }
        }
        match self.preview_remove_liquidity(lp_token_amount) {
            Ok((tokens, st_tokens)) => {
                self.token_amount = TokenAmount(self.token_amount.0 - tokens.0);
                self.st_token_amount = StakedTokenAmount(self.st_token_amount.0 - st_tokens.0);
                self.lp_token_amount = LpTokenAmount(self.lp_token_amount.0 - lp_token_amount.0);
                Ok((tokens, st_tokens))
            },
            Err(e) => Err(e),
        }
    }

    /// The fee for a swap that leaves `amount_after` base tokens.
    fn unstake_fee(&self, amount_after: Fixed) -> (r: Result<Fixed, Errors>)
        ensures
            r == swap_fee(self@, amount_after),
    {
        let liquidity_target = Fixed::from(self.liquidity_target.0);
        if amount_after.0 > liquidity_target.0 {
            return Ok(Fixed::from(self.min_fee.0));
        }
        let max_fee = Fixed::from(self.max_fee.0);
        let spread = match max_fee.checked_sub(Fixed::from(self.min_fee.0)) {
            Ok(v) => v,
            Err(e) => return Err(e),
        };
        let scaled = match spread.checked_mul(amount_after) {
            Ok(v) => v,
            Err(e) => return Err(e),
        };
        let reduction = match scaled.checked_div(liquidity_target) {
            Ok(v) => v,
            Err(e) => return Err(e),
        };
        max_fee.checked_sub(reduction)
    }

    /// Swaps `staked_token_amount` staked tokens into the pool for base
    /// tokens worth their value at the pool's price less the fee, and returns
    /// the payout. `InvalidOperation` when the payout exceeds the base
    /// reserve. On an error nothing changes.
    pub fn swap(&mut self, staked_token_amount: StakedTokenAmount) -> (r: Result<TokenAmount, Errors>)
        ensures
            match swap_spec(old(self)@, staked_token_amount.0) {
                Ok((m, p)) => final(self)@ == m && r == Ok::<TokenAmount, Errors>(TokenAmount(p)),
                Err(e) => final(self)@ == old(self)@ && r == Err::<TokenAmount, Errors>(e),
            },
            old(self)@.valid() ==> final(self)@.valid(),
    {
        let value_in = match Fixed::from(staked_token_amount.0).checked_mul(
            Fixed::from(self.price.0),
        ) {
            Ok(v) => v,
            Err(e) => return Err(e),
        };
        let amount_after = match Fixed::from(self.token_amount.0).checked_sub(value_in) {
            Ok(v) => v,
            Err(e) => return Err(e),
        };
        let fee = match self.unstake_fee(amount_after) {
            Ok(v) => v,
            Err(e) => return Err(e),
        };
        let fee_tokens = match value_in.checked_mul(fee) {
            Ok(v) => v,
            Err(e) => return Err(e),
        };
        let tokens = match value_in.checked_sub(fee_tokens) {
            Ok(v) => v,
            Err(e) => return Err(e),
        };
        if tokens.0 < 0 {
            return Err(Errors::NegativeValue);
        }
        // Checked against the reserve before anything is changed.
        if tokens.0 > self.token_amount.0 as i128 {
            return Err(Errors::InvalidOperation);
        }
        let new_st_amount = match self.st_token_amount.0.checked_add(staked_token_amount.0) {
            Some(v) => v,
            None => return Err(Errors::Overflow),
        };
        let tokens = tokens.0 as u64;
        self.st_token_amount = StakedTokenAmount(new_st_amount);
        self.token_amount = TokenAmount(self.token_amount.0 - tokens);
        Ok(TokenAmount(tokens))
    }

    /// The base-token reserve.
    pub fn token_amount(&self) -> (r: TokenAmount)
        ensures
            r.0 == self@.token_amount,
    {
        self.token_amount
    }

    /// The staked-token reserve.
    pub fn st_token_amount(&self) -> (r: StakedTokenAmount)
        ensures
            r.0 == self@.st_token_amount,
    {
        self.st_token_amount
    }

    /// The number of shares outstanding.
    pub fn lp_token_amount(&self) -> (r: LpTokenAmount)
        ensures
            r.0 == self@.lp_token_amount,
    {
        self.lp_token_amount
    }
}

} // verus!
