use vstd::prelude::*;

use crate::cfmms::{arb_delta, arb_lambda, two_coin_arb, ProductTwoCoin, CFMM};
use crate::error::RouterError;
use crate::math::{
    lemma_floor, lemma_floor_unique, lemma_product_rounds_down, lemma_quotient_rounds_down,
    magnitude, product_of, quotient_of, DecimalMath, Scaled,
};
use crate::signed_decimal256::SignedDecimal256;
use crate::unsigned_decimal::{decimal_unit, lemma_decimal_sqrt_fine, max_atomics};

verus! {

/// A trade against a two-coin pool depends on the prices only through the two
/// quotients of one price by the other.
pub proof fn lemma_arb_depends_on_ratios<T: DecimalMath>(
    r0: int,
    r1: int,
    fee: int,
    v0: int,
    v1: int,
    w0: int,
    w1: int,
)
    requires
        quotient_of::<T>(v1, v0) == quotient_of::<T>(w1, w0),
        quotient_of::<T>(v0, v1) == quotient_of::<T>(w0, w1),
    ensures
        two_coin_arb::<T>(r0, r1, fee, v0, v1) == two_coin_arb::<T>(r0, r1, fee, w0, w1),
{
}

/// `scaled` is `alpha` times `price`, with nothing lost to rounding.
pub open spec fn scaled_exactly<T: Scaled>(price: int, alpha: int, scaled: int) -> bool {
    scaled * T::unit() == alpha * price
}

/// The quotient of two prices is the quotient of the prices scaled by one positive
/// factor.
pub proof fn lemma_quotient_scale_invariant<T: Scaled>(a: int, b: int, alpha: int, x: int, y: int)
    requires
        alpha > 0,
        scaled_exactly::<T>(a, alpha, x),
        scaled_exactly::<T>(b, alpha, y),
    ensures
        quotient_of::<T>(x, y) == quotient_of::<T>(a, b),
{
    T::lemma_scale();
    let u = T::unit() as int;
    lemma_scaled_sign(a, alpha, x, u);
    lemma_scaled_sign(b, alpha, y, u);
    if b != 0 {
        let ma = magnitude(a) as int;
        let mb = magnitude(b) as int;
        let mx = magnitude(x) as int;
        let my = magnitude(y) as int;
        assert(ma * u >= 0) by (nonlinear_arith)
            requires
                ma >= 0,
                u >= 0,
        ;
        assert(mx * u >= 0) by (nonlinear_arith)
            requires
                mx >= 0,
                u >= 0,
        ;
        lemma_floor(ma * u, mb);
        let q = ma * u / mb;
        assert(q * my <= mx * u < (q + 1) * my) by (nonlinear_arith)
            requires
                u > 0,
                alpha > 0,
                q * mb <= ma * u < (q + 1) * mb,
                mx * u == alpha * ma,
                my * u == alpha * mb,
        ;
        lemma_floor_unique(mx * u, my, q);
    }
}

proof fn lemma_scaled_sign(a: int, alpha: int, x: int, u: int)
    requires
        alpha > 0,
        u > 0,
        x * u == alpha * a,
    ensures
        (x >= 0) == (a >= 0),
        (x == 0) == (a == 0),
        magnitude(x) * u == alpha * magnitude(a),
{
    assert((x >= 0) == (a >= 0) && (x == 0) == (a == 0)) by (nonlinear_arith)
        requires
            alpha > 0,
            u > 0,
            x * u == alpha * a,
    ;
    if x < 0 {
        assert((-x) * u == alpha * (-a)) by (nonlinear_arith)
            requires
                x * u == alpha * a,
        ;
    }
}

/// Scale invariance: the optimal trade at prices that are all scaled by one positive
/// factor is the optimal trade at the prices themselves, as long as the scaling loses
/// nothing to rounding.
pub proof fn lemma_arb_scale_invariant<T: DecimalMath>(
    pool: ProductTwoCoin<T>,
    prices: Seq<int>,
    alpha: int,
    scaled: Seq<int>,
)
    requires
        pool.wf(),
        prices.len() == 2,
        scaled.len() == 2,
        alpha > 0,
        scaled_exactly::<T>(prices[0], alpha, scaled[0]),
        scaled_exactly::<T>(prices[1], alpha, scaled[1]),
    ensures
        pool.arb(scaled) == pool.arb(prices),
{
    lemma_quotient_scale_invariant::<T>(prices[1], prices[0], alpha, scaled[1], scaled[0]);
    lemma_quotient_scale_invariant::<T>(prices[0], prices[1], alpha, scaled[0], scaled[1]);
}

/// The core of the no-arbitrage law for sales, over plain numbers: with `m` the
/// rounded price ratio, `k` the rounded product of the reserves and `root` a root
/// that does not exceed the true one, the root stays at or below the reserve.
proof fn lemma_root_below_reserve(
    u: int,
    fee: int,
    p_this: int,
    p_other: int,
    r_this: int,
    r_other: int,
    m: int,
    k: int,
    mk: int,
    t: int,
    root: int,
)
    requires
        u > 0,
        0 < fee <= u,
        p_this > 0,
        p_other > 0,
        r_this >= 0,
        r_other >= 0,
        p_this * r_this == p_other * r_other,
        0 <= m,
        m * p_this <= p_other * u,
        0 <= k,
        k * u <= r_this * r_other,
        0 <= mk,
        mk * u <= m * k,
        0 <= t,
        t * u <= mk * fee,
        0 <= root,
        root * root <= t * u,
    ensures
        root <= r_this,
{
    assert(t * u <= mk * u) by (nonlinear_arith)
        requires
            t * u <= mk * fee,
            fee <= u,
            mk >= 0,
    ;
    assert(root * root <= m * k);
    assert((m * k) * (p_this * u) <= (p_other * u) * (r_this * r_other)) by (nonlinear_arith)
        requires
            0 <= m,
            0 <= k,
            u > 0,
            p_this > 0,
            m * p_this <= p_other * u,
            k * u <= r_this * r_other,
    ;
    assert((p_other * u) * (r_this * r_other) == (r_this * r_this) * (p_this * u))
        by (nonlinear_arith)
        requires
            p_this * r_this == p_other * r_other,
    ;
    assert(p_this * u > 0) by (nonlinear_arith)
        requires
            p_this > 0,
            u > 0,
    ;
    assert(m * k <= r_this * r_this) by (nonlinear_arith)
        requires
            (m * k) * (p_this * u) <= (r_this * r_this) * (p_this * u),
            p_this * u > 0,
    ;
    assert(root <= r_this) by (nonlinear_arith)
        requires
            root * root <= r_this * r_this,
            0 <= root,
            0 <= r_this,
    ;
}

/// At prices whose ratio is the ratio of the reserves, nothing is sold to a coin's
/// side of the pool.
pub proof fn lemma_delta_zero_at_balance<T: DecimalMath>(
    fee: int,
    p_this: int,
    p_other: int,
    r_this: int,
    r_other: int,
    m: int,
    k: int,
)
    requires
        0 < fee <= T::unit(),
        p_this > 0,
        p_other > 0,
        r_this >= 0,
        r_other >= 0,
        p_this * r_this == p_other * r_other,
        quotient_of::<T>(p_other, p_this) == Ok::<int, RouterError>(m),
        product_of::<T>(r_this, r_other) == Ok::<int, RouterError>(k) || product_of::<T>(
            r_other,
            r_this,
        ) == Ok::<int, RouterError>(k),
    ensures
        arb_delta::<T>(m, r_this, k, fee) matches Ok(d) ==> d == 0,
{
    T::lemma_scale();
    let u = T::unit() as int;
    lemma_quotient_rounds_down::<T>(p_other, p_this);
    lemma_product_rounds_down::<T>(r_this, r_other);
    lemma_product_rounds_down::<T>(r_other, r_this);
    assert(r_this * r_other == r_other * r_this) by (nonlinear_arith);
    lemma_product_rounds_down::<T>(m, k);
    if let Ok(mk) = product_of::<T>(m, k) {
        lemma_product_rounds_down::<T>(mk, fee);
        if let Ok(t) = product_of::<T>(mk, fee) {
            T::lemma_sqrt_val(magnitude(t));
            let root = T::sqrt_val(magnitude(t)) as int;
            lemma_root_below_reserve(
                u,
                fee,
                p_this,
                p_other,
                r_this,
                r_other,
                m,
                k,
                mk,
                t,
                root,
            );
        }
    }
}

/// The no-arbitrage fixed point, for what is sold: at positive prices whose ratio is
/// already the pool's own, `v0 * r0 == v1 * r1`, the optimal trade sells nothing to
/// the pool.
pub proof fn lemma_no_arbitrage_sells_nothing<T: DecimalMath>(
    r0: int,
    r1: int,
    fee: int,
    v0: int,
    v1: int,
)
    requires
        0 < fee <= T::unit(),
        r0 >= 0,
        r1 >= 0,
        v0 > 0,
        v1 > 0,
        v0 * r0 == v1 * r1,
    ensures
        two_coin_arb::<T>(r0, r1, fee, v0, v1) matches Ok((sold, bought)) ==> sold == seq![
            0int,
            0int,
        ],
{
    if let Ok(k) = product_of::<T>(r0, r1) {
        if let Ok(m10) = quotient_of::<T>(v1, v0) {
            lemma_delta_zero_at_balance::<T>(fee, v0, v1, r0, r1, m10, k);
            if let Ok(m01) = quotient_of::<T>(v0, v1) {
                lemma_delta_zero_at_balance::<T>(fee, v1, v0, r1, r0, m01, k);
                if let Ok((sold, bought)) = two_coin_arb::<T>(r0, r1, fee, v0, v1) {
                    assert(sold =~= seq![0int, 0int]);
                }
            }
        }
    }
}

/// The magnitude whose root decides an amount to buy: the constant product `k`
/// divided by the price ratio `m` and by the fee, or `None` where a division fails.
pub open spec fn radicand<T: DecimalMath>(m: int, k: int, fee: int) -> Option<nat> {
    match quotient_of::<T>(k, m) {
        Ok(q) => match quotient_of::<T>(q, fee) {
            Ok(w) => Some(magnitude(w)),
            Err(_) => None,
        },
        Err(_) => None,
    }
}

/// Nothing is bought of a coin whose reserve, squared, stays within the radicand by
/// the grain of the root.
pub proof fn lemma_lambda_zero_when_covered<T: DecimalMath>(m: int, r: int, k: int, fee: int)
    requires
        r >= 0,
        radicand::<T>(m, k, fee) matches Some(w) && (r + T::sqrt_grain(w) - 1) * (r + T::sqrt_grain(
            w,
        ) - 1) <= w * T::unit(),
    ensures
        arb_lambda::<T>(m, r, k, fee) == Ok::<int, RouterError>(0),
{
    let w = radicand::<T>(m, k, fee)->0;
    lemma_within_limit::<T>(m, k, fee);
    T::lemma_sqrt_val(w);
    let root = T::sqrt_val(w) as int;
    let g = T::sqrt_grain(w) as int;
    let u = T::unit() as int;
    assert(r <= root) by (nonlinear_arith)
        requires
            (r + g - 1) * (r + g - 1) <= w * u,
            (root + g) * (root + g) > w * u,
            g >= 1,
            r >= 0,
            root >= 0,
    ;
}

/// Something is bought of every coin whose reserve, squared, exceeds the radicand:
/// where nothing is bought, the square of the reserve is within it.
pub proof fn lemma_lambda_zero_only_when_covered<T: DecimalMath>(m: int, r: int, k: int, fee: int)
    requires
        r >= 0,
        arb_lambda::<T>(m, r, k, fee) == Ok::<int, RouterError>(0),
    ensures
        radicand::<T>(m, k, fee) matches Some(w) && r * r <= w * T::unit(),
{
    let w = radicand::<T>(m, k, fee)->0;
    lemma_within_limit::<T>(m, k, fee);
    T::lemma_sqrt_val(w);
    let root = T::sqrt_val(w) as int;
    let u = T::unit() as int;
    assert(r <= root);
    assert(r * r <= w * u) by (nonlinear_arith)
        requires
            0 <= r <= root,
            root * root <= w * u,
    ;
}

/// A radicand is a magnitude in range.
proof fn lemma_within_limit<T: DecimalMath>(m: int, k: int, fee: int)
    ensures
        radicand::<T>(m, k, fee) matches Some(w) ==> w <= T::limit(),
{
}

/// The root that decides an amount to buy is taken to the last place.
pub open spec fn lambda_fine<T: DecimalMath>(m: int, k: int, fee: int) -> bool {
    radicand::<T>(m, k, fee) matches Some(w) ==> T::sqrt_grain(w) == 1
}

/// For the signed decimal the root is taken to the last place wherever the radicand
/// times 10^18 fits in 256 bits, that is below about 10^41.
pub proof fn lemma_lambda_fine_in_range(m: int, k: int, fee: int)
    requires
        radicand::<SignedDecimal256>(m, k, fee) matches Some(w) ==> w * decimal_unit()
            <= max_atomics(),
    ensures
        lambda_fine::<SignedDecimal256>(m, k, fee),
{
    if let Some(w) = radicand::<SignedDecimal256>(m, k, fee) {
        lemma_decimal_sqrt_fine(w);
    }
}

/// The constant product `k` is divided by the price ratio `m` without a remainder.
pub open spec fn lambda_exact<T: DecimalMath>(m: int, k: int) -> bool {
    quotient_of::<T>(k, m) matches Ok(q) ==> q * m == k * T::unit()
}

/// The fee leaves room for what rounding takes from an amount to buy of a coin with
/// reserve `r_this`: in numbers, `(1 - fee) * r_this^2` is at least
/// `1 + p_other / p_this + fee` of the smallest units that a value can hold.
pub open spec fn lambda_roomy<T: DecimalMath>(fee: int, p_this: int, p_other: int, r_this: int) -> bool {
    r_this * r_this * p_this * (T::unit() - fee) >= T::unit() * (T::unit() * (p_this + p_other)
        + fee * p_this)
}

/// Rounding cannot bring a purchase about at the pool's own price: for each coin the
/// root is taken to the last place, and either the product of the reserves and its
/// quotient by the price ratio are exact, or the fee leaves room for what they lose.
pub open spec fn buys_settle<T: DecimalMath>(r0: int, r1: int, fee: int, v0: int, v1: int) -> bool {
    match product_of::<T>(r0, r1) {
        Ok(k) => {
            &&& quotient_of::<T>(v0, v1) matches Ok(m01) ==> lambda_fine::<T>(m01, k, fee) && ((k
                * T::unit() == r0 * r1 && lambda_exact::<T>(m01, k)) || lambda_roomy::<T>(
                fee,
                v0,
                v1,
                r0,
            ))
            &&& quotient_of::<T>(v1, v0) matches Ok(m10) ==> lambda_fine::<T>(m10, k, fee) && ((k
                * T::unit() == r0 * r1 && lambda_exact::<T>(m10, k)) || lambda_roomy::<T>(
                fee,
                v1,
                v0,
                r1,
            ))
        },
        Err(_) => true,
    }
}

/// The core of the no-arbitrage law for purchases where the fee leaves room, over
/// plain numbers: with every quotient rounded down, the square of the reserve stays
/// within the radicand `w`.
proof fn lemma_reserve_within_radicand_by_fee(
    u: int,
    fee: int,
    p_this: int,
    p_other: int,
    r_this: int,
    r_other: int,
    m: int,
    k: int,
    q: int,
    w: int,
)
    requires
        u > 0,
        0 < fee <= u,
        p_this > 0,
        p_other > 0,
        r_this >= 0,
        r_other >= 0,
        p_this * r_this == p_other * r_other,
        0 < m,
        m * p_other <= p_this * u,
        0 <= k,
        r_this * r_other < (k + 1) * u,
        0 <= q,
        k * u < (q + 1) * m,
        0 <= w,
        q * u < (w + 1) * fee,
        r_this * r_this * p_this * (u - fee) >= u * (u * (p_this + p_other) + fee * p_this),
    ensures
        r_this * r_this <= w * u,
{
    let rr = r_this * r_this;
    // (q + 1) * p_this > k * p_other
    assert((q + 1) * p_this * u >= (q + 1) * m * p_other) by (nonlinear_arith)
        requires
            m * p_other <= p_this * u,
            q + 1 > 0,
    ;
    assert((q + 1) * m * p_other > k * u * p_other) by (nonlinear_arith)
        requires
            k * u < (q + 1) * m,
            p_other > 0,
    ;
    // k * u * p_other > rr * p_this - u * p_other
    assert(r_this * r_other * p_other == rr * p_this) by (nonlinear_arith)
        requires
            p_this * r_this == p_other * r_other,
            rr == r_this * r_this,
    ;
    assert((k + 1) * u * p_other > r_this * r_other * p_other) by (nonlinear_arith)
        requires
            r_this * r_other < (k + 1) * u,
            p_other > 0,
    ;
    assert((k + 1) * u * p_other == k * u * p_other + u * p_other) by (nonlinear_arith);
    assert((q + 1) * p_this * u == q * p_this * u + p_this * u) by (nonlinear_arith);
    let qpu = q * p_this * u;
    assert(qpu > rr * p_this - u * p_other - p_this * u);
    // (w + 1) * fee * p_this > q * u * p_this
    assert((w + 1) * fee * p_this > q * u * p_this) by (nonlinear_arith)
        requires
            q * u < (w + 1) * fee,
            p_this > 0,
    ;
    assert(q * u * p_this == qpu) by (nonlinear_arith)
        requires
            qpu == q * p_this * u,
    ;
    assert((w + 1) * fee * p_this == w * fee * p_this + fee * p_this) by (nonlinear_arith);
    let wfp = w * fee * p_this;
    assert(wfp > rr * p_this - u * p_other - p_this * u - fee * p_this);
    // times u, against the room that the fee leaves
    assert(wfp * u > rr * p_this * fee) by (nonlinear_arith)
        requires
            wfp > rr * p_this - u * p_other - p_this * u - fee * p_this,
            u > 0,
            rr * p_this * (u - fee) >= u * (u * (p_this + p_other) + fee * p_this),
    ;
    assert(w * u >= rr) by (nonlinear_arith)
        requires
            wfp * u > rr * p_this * fee,
            wfp == w * fee * p_this,
            fee > 0,
            p_this > 0,
    ;
}

/// The core of the no-arbitrage law for purchases, over plain numbers: with `m` the
/// rounded price ratio and an exact quotient `q` of the product of the reserves by
/// `m`, the square of the reserve stays within the radicand `w`.
proof fn lemma_reserve_within_radicand(
    u: int,
    fee: int,
    p_this: int,
    p_other: int,
    r_this: int,
    r_other: int,
    m: int,
    q: int,
    w: int,
)
    requires
        u > 0,
        0 < fee <= u,
        p_this > 0,
        p_other > 0,
        r_this >= 0,
        r_other >= 0,
        p_this * r_this == p_other * r_other,
        0 < m,
        m * p_other <= p_this * u,
        0 <= q,
        q * m == r_this * r_other,
        0 <= w,
        q * u < (w + 1) * fee,
    ensures
        r_this * r_this <= w * u,
{
    assert(q <= w) by (nonlinear_arith)
        requires
            q * u < (w + 1) * fee,
            0 < fee <= u,
            0 <= q,
            0 <= w,
    ;
    assert((q * m) * p_other == (r_this * r_this) * p_this) by (nonlinear_arith)
        requires
            q * m == r_this * r_other,
            p_this * r_this == p_other * r_other,
    ;
    assert((q * m) * p_other <= (q * u) * p_this) by (nonlinear_arith)
        requires
            m * p_other <= p_this * u,
            0 <= q,
    ;
    assert(r_this * r_this <= q * u) by (nonlinear_arith)
        requires
            (r_this * r_this) * p_this <= (q * u) * p_this,
            p_this > 0,
    ;
    assert(q * u <= w * u) by (nonlinear_arith)
        requires
            q <= w,
            u > 0,
    ;
}

/// At prices whose ratio is the ratio of the reserves, nothing is bought from a
/// coin's side of the pool, where the root is taken to the last place and either the
/// product of the reserves and its quotient by the price ratio are exact or the fee
/// leaves room for what they lose.
pub proof fn lemma_lambda_zero_at_balance<T: DecimalMath>(
    fee: int,
    p_this: int,
    p_other: int,
    r_this: int,
    r_other: int,
    m: int,
    k: int,
)
    requires
        0 < fee <= T::unit(),
        p_this > 0,
        p_other > 0,
        r_this >= 0,
        r_other >= 0,
        p_this * r_this == p_other * r_other,
        quotient_of::<T>(p_this, p_other) == Ok::<int, RouterError>(m),
        0 <= k,
        k * T::unit() <= r_this * r_other < (k + 1) * T::unit(),
        lambda_fine::<T>(m, k, fee),
        (k * T::unit() == r_this * r_other && lambda_exact::<T>(m, k)) || lambda_roomy::<T>(
            fee,
            p_this,
            p_other,
            r_this,
        ),
    ensures
        arb_lambda::<T>(m, r_this, k, fee) matches Ok(l) ==> l == 0,
{
    T::lemma_scale();
    let u = T::unit() as int;
    lemma_quotient_rounds_down::<T>(p_this, p_other);
    if m > 0 {
        lemma_quotient_rounds_down::<T>(k, m);
        if let Ok(q) = quotient_of::<T>(k, m) {
            lemma_quotient_rounds_down::<T>(q, fee);
            if let Ok(w) = quotient_of::<T>(q, fee) {
                if k * u == r_this * r_other && lambda_exact::<T>(m, k) {
                    lemma_reserve_within_radicand(
                        u,
                        fee,
                        p_this,
                        p_other,
                        r_this,
                        r_other,
                        m,
                        q,
                        w,
                    );
                } else {
                    lemma_reserve_within_radicand_by_fee(
                        u,
                        fee,
                        p_this,
                        p_other,
                        r_this,
                        r_other,
                        m,
                        k,
                        q,
                        w,
                    );
                }
                lemma_lambda_zero_when_covered::<T>(m, r_this, k, fee);
            }
        }
    }
}

/// The no-arbitrage fixed point, for what is bought: at positive prices whose ratio
/// is already the pool's own, `v0 * r0 == v1 * r1`, the optimal trade buys nothing
/// from the pool, as long as rounding cannot bring a purchase about. The root need
/// not be exact.
pub proof fn lemma_no_arbitrage_buys_nothing<T: DecimalMath>(
    r0: int,
    r1: int,
    fee: int,
    v0: int,
    v1: int,
)
    requires
        0 < fee <= T::unit(),
        r0 >= 0,
        r1 >= 0,
        v0 > 0,
        v1 > 0,
        v0 * r0 == v1 * r1,
        buys_settle::<T>(r0, r1, fee, v0, v1),
    ensures
        two_coin_arb::<T>(r0, r1, fee, v0, v1) matches Ok((sold, bought)) ==> bought == seq![
            0int,
            0int,
        ],
{
    lemma_product_rounds_down::<T>(r0, r1);
    if let Ok(k) = product_of::<T>(r0, r1) {
        if let Ok(m10) = quotient_of::<T>(v1, v0) {
            if let Ok(m01) = quotient_of::<T>(v0, v1) {
                assert(r0 * r1 == r1 * r0) by (nonlinear_arith);
                lemma_lambda_zero_at_balance::<T>(fee, v0, v1, r0, r1, m01, k);
                lemma_lambda_zero_at_balance::<T>(fee, v1, v0, r1, r0, m10, k);
                if let Ok((sold, bought)) = two_coin_arb::<T>(r0, r1, fee, v0, v1) {
                    assert(bought =~= seq![0int, 0int]);
                }
            }
        }
    }
}

/// The no-arbitrage fixed point: a pool whose fee lies in (0, 1] and whose reserves
/// are not negative trades nothing at positive prices whose ratio is the ratio of its
/// reserves. What is sold is zero throughout; what is bought is zero where rounding
/// cannot bring a purchase about, and may be a remainder of rounding elsewhere.
pub proof fn lemma_no_arbitrage_fixed_point<T: DecimalMath>(
    pool: ProductTwoCoin<T>,
    prices: Seq<int>,
)
    requires
        pool.wf(),
        pool.fee_in_range(),
        pool.reserves@[0].val() >= 0,
        pool.reserves@[1].val() >= 0,
        prices.len() == 2,
        prices[0] > 0,
        prices[1] > 0,
        prices[0] * pool.reserves@[0].val() == prices[1] * pool.reserves@[1].val(),
    ensures
        pool.arb(prices) matches Ok((sold, bought)) ==> sold == seq![0int, 0int] && (buys_settle::<
            T,
        >(pool.reserves@[0].val(), pool.reserves@[1].val(), pool.fee.val(), prices[0], prices[1])
            ==> bought == seq![0int, 0int]),
{
    let r0 = pool.reserves@[0].val();
    let r1 = pool.reserves@[1].val();
    lemma_no_arbitrage_sells_nothing::<T>(r0, r1, pool.fee.val(), prices[0], prices[1]);
    if buys_settle::<T>(r0, r1, pool.fee.val(), prices[0], prices[1]) {
        lemma_no_arbitrage_buys_nothing::<T>(r0, r1, pool.fee.val(), prices[0], prices[1]);
    }
}

} // verus!
