use vstd::prelude::*;

use crate::error::RouterError;
use crate::math::{
    agrees, copy_of, difference_of, magnitude, product_of, quotient_of, vals, DecimalMath, Scaled,
};

verus! {

/// A trade against one pool, as scaled integers: what is sold to the pool and what is
/// bought from it, each in the pool's own order of tokens.
pub type Trade = (Seq<int>, Seq<int>);

/// An executable trade agrees with a specified one: the same error, or amounts that
/// stand for the specified integers.
pub open spec fn trade_agrees<T: Scaled>(
    r: Result<(Vec<T>, Vec<T>), RouterError>,
    s: Result<Trade, RouterError>,
) -> bool {
    match (r, s) {
        (Ok((sell, buy)), Ok((sold, bought))) => vals(sell@) == sold && vals(buy@) == bought,
        (Err(e), Err(f)) => e == f,
        _ => false,
    }
}

/// A constant-function market maker: a pool of reserves that quotes, for given prices
/// of its tokens, the trade that is most profitable against it.
pub trait CFMM<T: DecimalMath> {
    /// The pool holds one reserve for each of its tokens.
    spec fn wf(&self) -> bool;

    /// The global index of each of the pool's tokens.
    spec fn token_ids(&self) -> Seq<usize>;

    /// The reserve of each of the pool's tokens.
    spec fn reserves(&self) -> Seq<T>;

    /// The optimal trade at the given prices of the pool's tokens.
    spec fn arb(&self, prices: Seq<int>) -> Result<Trade, RouterError>;

    /// `other` is this pool but for its reserves: the same tokens, and whatever else
    /// decides its trades.
    spec fn same_but_reserves(&self, other: &Self) -> bool;

    /// A pool that differs from another in its reserves only has the same tokens,
    /// and where the reserves stand for the same numbers, the same trades.
    proof fn lemma_same_but_reserves(&self, other: &Self, prices: Seq<int>)
        requires
            self.wf(),
            other.wf(),
            self.same_but_reserves(other),
        ensures
            other.token_ids() == self.token_ids(),
            vals(other.reserves()) == vals(self.reserves()) ==> other.arb(prices) == self.arb(
                prices,
            ),
    ;

    /// A pool holds as many reserves as tokens.
    proof fn lemma_shape(&self)
        requires
            self.wf(),
        ensures
            self.reserves().len() == self.token_ids().len(),
    ;

    /// A trade has one amount sold and one amount bought for each token.
    proof fn lemma_arb_len(&self, prices: Seq<int>)
        requires
            self.wf(),
            prices.len() >= self.token_ids().len(),
        ensures
            self.arb(prices) matches Ok((sold, bought)) ==> sold.len() == self.token_ids().len()
                && bought.len() == self.token_ids().len(),
    ;

    /// The optimal trade at the prices of the pool's tokens, which stand first in
    /// `market_prices`, in the pool's order.
    fn find_arb(&self, market_prices: &[T]) -> (r: Result<(Vec<T>, Vec<T>), RouterError>)
        requires
            self.wf(),
            market_prices@.len() >= self.token_ids().len(),
        ensures
            trade_agrees(r, self.arb(vals(market_prices@))),
    ;

    /// Whether the pool is well formed.
    fn is_wf(&self) -> (r: bool)
        ensures
            r == self.wf(),
    ;

    fn get_token_ids(&self) -> (r: Vec<usize>)
        ensures
            r@ == self.token_ids(),
    ;

    fn get_reserves(&self) -> (r: Vec<T>)
        ensures
            r@ == self.reserves(),
    ;

    fn set_reserves(&mut self, reserves: &[T])
        requires
            old(self).wf(),
            reserves@.len() == old(self).reserves().len(),
        ensures
            final(self).wf(),
            final(self).reserves() == reserves@,
            final(self).token_ids() == old(self).token_ids(),
            old(self).same_but_reserves(final(self)),
    ;
}

/// The amount to sell to a pool of a coin with reserve `r`, where `m` is the price of
/// the other coin in units of this one, `k` the product of the reserves and `fee` the
/// share of a payment that reaches the pool: `max(sqrt(fee * m * k) - r, 0) / fee`.
pub open spec fn arb_delta<T: DecimalMath>(m: int, r: int, k: int, fee: int) -> Result<
    int,
    RouterError,
> {
    match product_of::<T>(m, k) {
        Err(e) => Err(e),
        Ok(mk) => match product_of::<T>(mk, fee) {
            Err(e) => Err(e),
            Ok(t) => {
                let root = T::sqrt_val(magnitude(t)) as int;
                if root > r {
                    match difference_of::<T>(root, r) {
                        Err(e) => Err(e),
                        Ok(d) => quotient_of::<T>(d, fee),
                    }
                } else {
                    Ok(0)
                }
            },
        },
    }
}

/// The amount to buy from a pool of a coin with reserve `r`, where `m` is the price
/// of this coin in units of the other one: `max(r - sqrt(k / (m * fee)), 0)`.
pub open spec fn arb_lambda<T: DecimalMath>(m: int, r: int, k: int, fee: int) -> Result<
    int,
    RouterError,
> {
    match quotient_of::<T>(k, m) {
        Err(e) => Err(e),
        Ok(q) => match quotient_of::<T>(q, fee) {
            Err(e) => Err(e),
            Ok(u) => {
                let root = T::sqrt_val(magnitude(u)) as int;
                if r > root {
                    difference_of::<T>(r, root)
                } else {
                    Ok(0)
                }
            },
        },
    }
}

/// The optimal trade against a constant-product pool of two coins with reserves `r0`
/// and `r1`, at prices `v0` and `v1`. The amounts are computed in the order sold[0],
/// sold[1], bought[0], bought[1], and the first failure is the result.
pub open spec fn two_coin_arb<T: DecimalMath>(r0: int, r1: int, fee: int, v0: int, v1: int) -> Result<
    Trade,
    RouterError,
> {
    match product_of::<T>(r0, r1) {
        Err(e) => Err(e),
        Ok(k) => match quotient_of::<T>(v1, v0) {
            Err(e) => Err(e),
            Ok(m10) => match arb_delta::<T>(m10, r0, k, fee) {
                Err(e) => Err(e),
                Ok(d0) => match quotient_of::<T>(v0, v1) {
                    Err(e) => Err(e),
                    Ok(m01) => match arb_delta::<T>(m01, r1, k, fee) {
                        Err(e) => Err(e),
                        Ok(d1) => match arb_lambda::<T>(m01, r0, k, fee) {
                            Err(e) => Err(e),
                            Ok(l0) => match arb_lambda::<T>(m10, r1, k, fee) {
                                Err(e) => Err(e),
                                Ok(l1) => Ok((seq![d0, d1], seq![l0, l1])),
                            },
                        },
                    },
                },
            },
        },
    }
}

/// A pool of two coins that keeps the product of its reserves constant.
pub struct ProductTwoCoin<T> {
    /// The reserve of each coin.
    pub reserves: Vec<T>,
    /// The share of a payment that reaches the pool, in (0, 1].
    pub fee: T,
    /// The global token index of each coin.
    pub token_ids: Vec<usize>,
}

impl<T: DecimalMath> ProductTwoCoin<T> {
    /// The fee lies in (0, 1].
    pub open spec fn fee_in_range(&self) -> bool {
        0 < self.fee.val() <= T::unit()
    }

    /// A pool of the two coins `idxs` with the given reserves, or `InvalidPool` unless
    /// there are exactly two reserves and two distinct coins.
    pub fn new(reserves: Vec<T>, fee: T, idxs: Vec<usize>) -> (r: Result<Self, RouterError>)
        ensures
            match r {
                Ok(pool) => pool.wf() && pool.reserves@ == reserves@ && pool.fee == fee
                    && pool.token_ids@ == idxs@,
                Err(e) => e == RouterError::InvalidPool && !(reserves@.len() == 2 && idxs@.len()
                    == 2 && idxs@[0] != idxs@[1]),
            },
    {
        if reserves.len() != 2 || idxs.len() != 2 || idxs[0] == idxs[1] {
            return Err(RouterError::InvalidPool);
        }
        Ok(Self { reserves, fee, token_ids: idxs })
    }

    /// `max(sqrt(fee * market_price * constant_product) - reserve, 0) / fee`
    pub fn prod_arb_delta(market_price: T, reserve: T, constant_product: T, fee: T) -> (r: Result<
        T,
        RouterError,
    >)
        ensures
            agrees(
                r,
                arb_delta::<T>(market_price.val(), reserve.val(), constant_product.val(), fee.val()),
            ),
    {
        proof {
            T::lemma_divisors(fee, 0);
        }
        let mk = match market_price.checked_mul(constant_product) {
            Ok(v) => v,
            Err(e) => { return Err(e); },
        };
        let t = match mk.checked_mul(fee) {
            Ok(v) => v,
            Err(e) => { return Err(e); },
        };
        let root = t.sqrt();
        if root.greater_than(reserve) {
            match root.checked_sub(reserve) {
                Ok(d) => d.checked_div(fee),
                Err(e) => Err(e),
            }
        } else {
            Ok(T::zero())
        }
    }

    /// `max(reserve - sqrt(constant_product / (market_price * fee)), 0)`
    pub fn prod_arb_lambda(market_price: T, reserve: T, constant_product: T, fee: T) -> (r: Result<
        T,
        RouterError,
    >)
        ensures
            agrees(
                r,
                arb_lambda::<T>(
                    market_price.val(),
                    reserve.val(),
                    constant_product.val(),
                    fee.val(),
                ),
            ),
    {
        proof {
            T::lemma_divisors(fee, 0);
            T::lemma_divisors(market_price, 0);
        }
        let q = match constant_product.checked_div(market_price) {
            Ok(v) => v,
            Err(e) => { return Err(e); },
        };
        let u = match q.checked_div(fee) {
            Ok(v) => v,
            Err(e) => { return Err(e); },
        };
        let root = u.sqrt();
        if reserve.greater_than(root) {
            reserve.checked_sub(root)
        } else {
            Ok(T::zero())
        }
    }
}

impl<T: DecimalMath> CFMM<T> for ProductTwoCoin<T> {
    open spec fn wf(&self) -> bool {
        &&& self.reserves@.len() == 2
        &&& self.token_ids@.len() == 2
        &&& self.token_ids@[0] != self.token_ids@[1]
    }

    open spec fn token_ids(&self) -> Seq<usize> {
        self.token_ids@
    }

    open spec fn reserves(&self) -> Seq<T> {
        self.reserves@
    }

    open spec fn arb(&self, prices: Seq<int>) -> Result<Trade, RouterError> {
        two_coin_arb::<T>(
            self.reserves@[0].val(),
            self.reserves@[1].val(),
            self.fee.val(),
            prices[0],
            prices[1],
        )
    }

    /// The same fee and the same tokens.
    open spec fn same_but_reserves(&self, other: &Self) -> bool {
        other.fee == self.fee && other.token_ids == self.token_ids
    }

    proof fn lemma_same_but_reserves(&self, other: &Self, prices: Seq<int>) {
        if vals(other.reserves()) == vals(self.reserves()) {
            assert(vals(other.reserves())[0] == vals(self.reserves())[0]);
            assert(vals(other.reserves())[1] == vals(self.reserves())[1]);
        }
    }

    proof fn lemma_shape(&self) {
    }

    fn is_wf(&self) -> (r: bool) {
        self.reserves.len() == 2 && self.token_ids.len() == 2 && self.token_ids[0]
            != self.token_ids[1]
    }

    proof fn lemma_arb_len(&self, prices: Seq<int>) {
    }

    fn get_token_ids(&self) -> (r: Vec<usize>) {
        copy_of(self.token_ids.as_slice())
    }

    /// The closed-form solution of the pool's arbitrage problem; no amount is negative
    /// while the fee is positive.
    fn find_arb(&self, market_prices: &[T]) -> (r: Result<(Vec<T>, Vec<T>), RouterError>)
        ensures
            r matches Ok((sell, buy)) ==> sell@.len() == 2 && buy@.len() == 2 && (self.fee.val() > 0
                ==> sell@[0].val() >= 0 && sell@[1].val() >= 0 && buy@[0].val() >= 0
                && buy@[1].val() >= 0),
    {
        let v0 = market_prices[0];
        let v1 = market_prices[1];
        let r0 = self.reserves[0];
        let r1 = self.reserves[1];
        proof {
            T::lemma_divisors(v0, 0);
            T::lemma_divisors(v1, 0);
            lemma_arb_nonnegative::<T>(r0.val(), r1.val(), self.fee.val(), v0.val(), v1.val());
        }
        let constant_product = match r0.checked_mul(r1) {
            Ok(v) => v,
            Err(e) => { return Err(e); },
        };
        let m10 = match v1.checked_div(v0) {
            Ok(v) => v,
            Err(e) => { return Err(e); },
        };
        let d0 = match Self::prod_arb_delta(m10, r0, constant_product, self.fee) {
            Ok(v) => v,
            Err(e) => { return Err(e); },
        };
        let m01 = match v0.checked_div(v1) {
            Ok(v) => v,
            Err(e) => { return Err(e); },
        };
        let d1 = match Self::prod_arb_delta(m01, r1, constant_product, self.fee) {
            Ok(v) => v,
            Err(e) => { return Err(e); },
        };
        let l0 = match Self::prod_arb_lambda(m01, r0, constant_product, self.fee) {
            Ok(v) => v,
            Err(e) => { return Err(e); },
        };
        let l1 = match Self::prod_arb_lambda(m10, r1, constant_product, self.fee) {
            Ok(v) => v,
            Err(e) => { return Err(e); },
        };
        let delta = vec![d0, d1];
        let lambda = vec![l0, l1];
        assert(vals(delta@) =~= seq![d0.val(), d1.val()]);
        assert(vals(lambda@) =~= seq![l0.val(), l1.val()]);
        Ok((delta, lambda))
    }

    fn get_reserves(&self) -> (r: Vec<T>) {
        copy_of(self.reserves.as_slice())
    }

    /// Only the reserves change.
    fn set_reserves(&mut self, reserves: &[T])
        ensures
            final(self).fee == old(self).fee,
            final(self).token_ids == old(self).token_ids,
    {
        self.reserves = copy_of(reserves);
    }
}

/// An amount to sell is never negative while the fee is positive.
pub proof fn lemma_delta_nonnegative<T: DecimalMath>(m: int, r: int, k: int, fee: int)
    requires
        fee > 0,
    ensures
        arb_delta::<T>(m, r, k, fee) matches Ok(d) ==> d >= 0,
{
    T::lemma_scale();
    if let Ok(mk) = product_of::<T>(m, k) {
        if let Ok(t) = product_of::<T>(mk, fee) {
            let root = T::sqrt_val(magnitude(t)) as int;
            if root > r {
                if let Ok(d) = difference_of::<T>(root, r) {
                    assert(d > 0);
                    if let Ok(q) = quotient_of::<T>(d, fee) {
                        assert(q >= 0);
                    }
                }
            }
        }
    }
}

/// An amount to buy is never negative.
pub proof fn lemma_lambda_nonnegative<T: DecimalMath>(m: int, r: int, k: int, fee: int)
    ensures
        arb_lambda::<T>(m, r, k, fee) matches Ok(l) ==> l >= 0,
{
}

/// No amount of an optimal trade against a two-coin pool is negative while the fee is
/// positive.
pub proof fn lemma_arb_nonnegative<T: DecimalMath>(r0: int, r1: int, fee: int, v0: int, v1: int)
    ensures
        two_coin_arb::<T>(r0, r1, fee, v0, v1) matches Ok((sold, bought)) ==> sold.len() == 2
            && bought.len() == 2 && bought[0] >= 0 && bought[1] >= 0 && (fee > 0 ==> sold[0] >= 0
            && sold[1] >= 0),
{
    if let Ok(k) = product_of::<T>(r0, r1) {
        if let Ok(m10) = quotient_of::<T>(v1, v0) {
            if let Ok(m01) = quotient_of::<T>(v0, v1) {
                lemma_lambda_nonnegative::<T>(m01, r0, k, fee);
                lemma_lambda_nonnegative::<T>(m10, r1, k, fee);
                if fee > 0 {
                    lemma_delta_nonnegative::<T>(m10, r0, k, fee);
                    lemma_delta_nonnegative::<T>(m01, r1, k, fee);
                }
            }
        }
    }
}

} // verus!
