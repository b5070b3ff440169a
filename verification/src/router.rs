use vstd::prelude::*;

use crate::cfmms::{Trade, CFMM};
use crate::error::RouterError;
use crate::flows::{
    amounts, count_up, flows_after, gains_after, gather, lemma_flows_add_net,
    lemma_flows_after_fails, lemma_gains_after_fails, lemma_pulled_adds_net,
    lemma_trade_net_in_place, local_prices, net_flow, pool_gain, positions, pull, pulled,
    same_prices, trade_net, zeros,
};
use crate::math::{agrees, copy_of, dot, quotient_of, sum_of, vals, DecimalMath, Scaled};
use crate::objectives::Objective;

verus! {

/// The optimal trade against a pool at the prices `v` of all tokens.
pub open spec fn pool_trade<T: DecimalMath, C: CFMM<T>>(pool: C, v: Seq<int>) -> Result<
    Trade,
    RouterError,
> {
    pool.arb(local_prices(pool.token_ids(), v))
}

/// The failure of the first among the first `n` pools that has no trade at the prices
/// `v`, or `None` where each of them has one.
pub open spec fn bulk_failure<T: DecimalMath, C: CFMM<T>>(cfmms: Seq<C>, v: Seq<int>, n: int) -> Option<
    RouterError,
>
    decreases n,
{
    if n <= 0 {
        None
    } else {
        match bulk_failure::<T, C>(cfmms, v, n - 1) {
            Some(e) => Some(e),
            None => match pool_trade::<T, C>(cfmms[n - 1], v) {
                Err(e) => Some(e),
                Ok(_) => None,
            },
        }
    }
}

/// A failure among the first pools is the failure of the whole.
pub proof fn lemma_bulk_failure_stays<T: DecimalMath, C: CFMM<T>>(
    cfmms: Seq<C>,
    v: Seq<int>,
    k: int,
    n: int,
)
    requires
        k <= n,
        bulk_failure::<T, C>(cfmms, v, k) is Some,
    ensures
        bulk_failure::<T, C>(cfmms, v, n) == bulk_failure::<T, C>(cfmms, v, k),
    decreases n - k,
{
    if k < n {
        lemma_bulk_failure_stays::<T, C>(cfmms, v, k, n - 1);
    }
}

/// The sale and the purchase that are stored for pool `i` are its optimal trade at
/// the prices `v`.
pub open spec fn trade_cached<T: DecimalMath, C: CFMM<T>>(
    cfmms: Seq<C>,
    v: Seq<int>,
    sales: Seq<Vec<T>>,
    buys: Seq<Vec<T>>,
    i: int,
) -> bool {
    pool_trade::<T, C>(cfmms[i], v) == Ok::<Trade, RouterError>((vals(sales[i]@), vals(buys[i]@)))
}

/// The stored sales and purchases are the optimal trades of all pools at the prices
/// `v`.
pub open spec fn trades_cached<T: DecimalMath, C: CFMM<T>>(
    cfmms: Seq<C>,
    v: Seq<int>,
    sales: Seq<Vec<T>>,
    buys: Seq<Vec<T>>,
) -> bool {
    &&& sales.len() == cfmms.len()
    &&& buys.len() == cfmms.len()
    &&& forall|i: int| 0 <= i < cfmms.len() ==> #[trigger] trade_cached(cfmms, v, sales, buys, i)
}

/// Pool `i` is well formed, trades tokens below `n` and has one stored sale and one
/// stored purchase for each of its tokens.
pub open spec fn pool_fits<T: DecimalMath, C: CFMM<T>>(
    cfmms: Seq<C>,
    sales: Seq<Vec<T>>,
    buys: Seq<Vec<T>>,
    n: nat,
    i: int,
) -> bool {
    &&& cfmms[i].wf()
    &&& sales[i]@.len() == cfmms[i].token_ids().len()
    &&& buys[i]@.len() == cfmms[i].token_ids().len()
    &&& forall|k: int| 0 <= k < cfmms[i].token_ids().len() ==> #[trigger] cfmms[i].token_ids()[k] < n
}

/// The token indices of every pool.
pub open spec fn ids_of<T: DecimalMath, C: CFMM<T>>(cfmms: Seq<C>) -> Seq<Seq<usize>> {
    Seq::new(cfmms.len(), |i: int| cfmms[i].token_ids())
}

/// The function that the minimizer works on, and its gradient, at the prices `v`: the
/// value of the objective plus the worth of all trades, and the gradient of the
/// objective with the net amount of every trade added at its token. The value is
/// computed first, and the first failure is the result.
pub open spec fn evaluation<T: DecimalMath, O: Objective<T>>(
    objective: O,
    ids: Seq<Seq<usize>>,
    sold: Seq<Seq<int>>,
    bought: Seq<Seq<int>>,
    v: Seq<int>,
) -> Result<(int, Seq<int>), RouterError> {
    match objective.value(v) {
        Err(e) => Err(e),
        Ok(fx) => match gains_after::<T>(ids, sold, bought, v, ids.len() as int) {
            Err(e) => Err(e),
            Ok(acc) => match sum_of::<T>(fx, acc) {
                Err(e) => Err(e),
                Ok(out) => match flows_after::<T>(
                    ids,
                    sold,
                    bought,
                    objective.gradient(v),
                    ids.len() as int,
                ) {
                    Err(e) => Err(e),
                    Ok(g) => Ok((out, g)),
                },
            },
        },
    }
}

/// The price that all tokens start from: one `n`-th.
pub open spec fn uniform_price<T: Scaled>(n: nat) -> Result<int, RouterError> {
    quotient_of::<T>(T::unit() as int, (n * T::unit()) as int)
}

/// The reserves of a pool after a trade: each reserve plus what is sold to the pool
/// less what is bought from it.
pub open spec fn reserves_after<T: DecimalMath, C: CFMM<T>>(
    pool: C,
    sold: Seq<int>,
    bought: Seq<int>,
) -> Result<Seq<int>, RouterError> {
    pulled::<T>(
        vals(pool.reserves()),
        positions(pool.reserves().len()),
        sold,
        bought,
        pool.reserves().len() as int,
    )
}

/// The failure of the first among the first `n` pools whose reserves cannot take its
/// stored trade, or `None` where the reserves of each of them can.
pub open spec fn reserves_failure<T: DecimalMath, C: CFMM<T>>(
    cfmms: Seq<C>,
    sold: Seq<Seq<int>>,
    bought: Seq<Seq<int>>,
    n: int,
) -> Option<RouterError>
    decreases n,
{
    if n <= 0 {
        None
    } else {
        match reserves_failure::<T, C>(cfmms, sold, bought, n - 1) {
            Some(e) => Some(e),
            None => match reserves_after::<T, C>(cfmms[n - 1], sold[n - 1], bought[n - 1]) {
                Err(e) => Some(e),
                Ok(_) => None,
            },
        }
    }
}

/// A failure among the first pools is the failure of the whole.
pub proof fn lemma_reserves_failure_stays<T: DecimalMath, C: CFMM<T>>(
    cfmms: Seq<C>,
    sold: Seq<Seq<int>>,
    bought: Seq<Seq<int>>,
    k: int,
    n: int,
)
    requires
        k <= n,
        reserves_failure::<T, C>(cfmms, sold, bought, k) is Some,
    ensures
        reserves_failure::<T, C>(cfmms, sold, bought, n) == reserves_failure::<T, C>(
            cfmms,
            sold,
            bought,
            k,
        ),
    decreases n - k,
{
    if k < n {
        lemma_reserves_failure_stays::<T, C>(cfmms, sold, bought, k, n - 1);
    }
}

/// Where trades are stored for the prices `v`, none of the first `n` pools fails at
/// `v`.
pub proof fn lemma_cached_never_fails<T: DecimalMath, C: CFMM<T>>(
    cfmms: Seq<C>,
    v: Seq<int>,
    sales: Seq<Vec<T>>,
    buys: Seq<Vec<T>>,
    n: int,
)
    requires
        trades_cached(cfmms, v, sales, buys),
        n <= cfmms.len(),
    ensures
        bulk_failure::<T, C>(cfmms, v, n) is None,
    decreases n,
{
    if n > 0 {
        lemma_cached_never_fails::<T, C>(cfmms, v, sales, buys, n - 1);
        assert(trade_cached(cfmms, v, sales, buys, n - 1));
    }
}

/// The reserves `after` are the reserves `before` with one trade carried out: each
/// has grown by what was sold to the pool and shrunk by what was bought from it.
pub open spec fn settled<T: Scaled>(before: Seq<T>, sale: Seq<T>, buy: Seq<T>, after: Seq<T>) -> bool {
    &&& after.len() == before.len()
    &&& forall|k: int|
        0 <= k < before.len() ==> (#[trigger] after[k]).val() == before[k].val() + sale[k].val()
            - buy[k].val()
}

/// Finds the prices at which an objective, together with the arbitrage against a set
/// of pools, is optimal, and keeps the trade against each pool at the prices it was
/// last computed for.
///
/// Routing is three steps round a minimizer that the caller runs: `begin_route`
/// gives the prices to start from, `evaluate` is the function to minimise with its
/// gradient, and `end_route` takes what the minimizer ends with. The limits that the
/// objective states for the prices are not enforced on the way.
pub struct Router<T, O, C> {
    pub cfmms: Vec<C>,
    pub objective: O,
    /// One price for each token: the variable of the optimisation.
    pub market_prices: Vec<T>,
    /// For each pool, the amount of each of its tokens that is sold to it.
    pub token_sales: Vec<Vec<T>>,
    /// For each pool, the amount of each of its tokens that is bought from it.
    pub token_buys: Vec<Vec<T>>,
}

impl<T: DecimalMath, O: Objective<T>, C: CFMM<T>> Router<T, O, C> {
    /// The number of tokens that the router prices.
    pub open spec fn n_tokens(&self) -> nat {
        self.market_prices@.len()
    }

    /// The objective is fit to be evaluated, every pool trades tokens that the router
    /// prices, and each pool has a stored trade of its own shape. Whether the
    /// objective speaks of as many tokens as the router prices is asked where the
    /// objective is evaluated.
    pub open spec fn wf(&self) -> bool {
        &&& self.objective.wf()
        &&& self.token_sales@.len() == self.cfmms@.len()
        &&& self.token_buys@.len() == self.cfmms@.len()
        &&& forall|i: int|
            0 <= i < self.cfmms@.len() ==> #[trigger] pool_fits(
                self.cfmms@,
                self.token_sales@,
                self.token_buys@,
                self.n_tokens(),
                i,
            )
    }

    /// The stored trades are the optimal ones at the stored prices.
    pub open spec fn fresh(&self) -> bool {
        trades_cached(
            self.cfmms@,
            vals(self.market_prices@),
            self.token_sales@,
            self.token_buys@,
        )
    }

    /// Every pool of a well-formed router trades tokens that the router prices.
    pub proof fn lemma_ids_in_range(&self)
        requires
            self.wf(),
        ensures
            forall|i: int, j: int|
                0 <= i < ids_of(self.cfmms@).len() && 0 <= j < ids_of(self.cfmms@)[i].len()
                    ==> #[trigger] ids_of(self.cfmms@)[i][j] < self.n_tokens(),
    {
        assert forall|i: int, j: int|
            0 <= i < ids_of(self.cfmms@).len() && 0 <= j < ids_of(
                self.cfmms@,
            )[i].len() implies #[trigger] ids_of(self.cfmms@)[i][j] < self.n_tokens() by {
            assert(pool_fits(
                self.cfmms@,
                self.token_sales@,
                self.token_buys@,
                self.n_tokens(),
                i,
            ));
        }
    }

    /// Whether all token indices in `ids` are below `n`.
    pub fn ids_below(ids: &[usize], n: usize) -> (r: bool)
        ensures
            r == forall|k: int| 0 <= k < ids@.len() ==> #[trigger] ids@[k] < n,
    {
        let mut k: usize = 0;
        while k < ids.len()
            invariant
                k <= ids@.len(),
                forall|j: int| 0 <= j < k ==> #[trigger] ids@[j] < n,
            decreases ids@.len() - k,
        {
            if ids[k] >= n {
                return false;
            }
            k = k + 1;
        }
        true
    }

    /// Whether the router is well formed: what every step of routing takes for
    /// granted.
    pub fn is_wf(&self) -> (r: bool)
        ensures
            r == self.wf(),
    {
        if !self.objective.is_wf() {
            return false;
        }
        let m = self.cfmms.len();
        if self.token_sales.len() != m || self.token_buys.len() != m {
            return false;
        }
        let n = self.market_prices.len();
        let mut i: usize = 0;
        while i < m
            invariant
                i <= m,
                m == self.cfmms@.len(),
                m == self.token_sales@.len(),
                m == self.token_buys@.len(),
                n == self.n_tokens(),
                self.objective.wf(),
                forall|j: int|
                    0 <= j < i ==> #[trigger] pool_fits(
                        self.cfmms@,
                        self.token_sales@,
                        self.token_buys@,
                        self.n_tokens(),
                        j,
                    ),
            decreases m - i,
        {
            let ids = self.cfmms[i].get_token_ids();
            let fits = self.cfmms[i].is_wf() && self.token_sales[i].len() == ids.len()
                && self.token_buys[i].len() == ids.len() && Self::ids_below(ids.as_slice(), n);
            if !fits {
                assert(!pool_fits(
                    self.cfmms@,
                    self.token_sales@,
                    self.token_buys@,
                    self.n_tokens(),
                    i as int,
                ));
                return false;
            }
            i = i + 1;
        }
        true
    }

    /// Whether the objective speaks of as many tokens as the router prices, as
    /// `evaluate` takes for granted.
    pub fn objective_fits(&self) -> (r: bool)
        requires
            self.objective.wf(),
        ensures
            r == (self.objective.dim() == self.n_tokens()),
    {
        self.objective.size() == self.market_prices.len()
    }

    /// A router over `n_tokens` tokens with all prices and all stored trades zero.
    pub fn new(objective: O, cfmms: Vec<C>, n_tokens: usize) -> (r: Self)
        requires
            objective.wf(),
            forall|i: int| 0 <= i < cfmms@.len() ==> (#[trigger] cfmms@[i]).wf(),
            forall|i: int, k: int|
                0 <= i < cfmms@.len() && 0 <= k < cfmms@[i].token_ids().len()
                    ==> #[trigger] cfmms@[i].token_ids()[k] < n_tokens,
        ensures
            r.wf(),
            r.cfmms@ == cfmms@,
            r.objective == objective,
            r.n_tokens() == n_tokens,
            forall|j: int| 0 <= j < n_tokens ==> (#[trigger] r.market_prices@[j]).val() == 0,
            forall|i: int, k: int|
                0 <= i < cfmms@.len() && 0 <= k < cfmms@[i].token_ids().len() ==> (
                #[trigger] r.token_sales@[i]@[k]).val() == 0,
            forall|i: int, k: int|
                0 <= i < cfmms@.len() && 0 <= k < cfmms@[i].token_ids().len() ==> (
                #[trigger] r.token_buys@[i]@[k]).val() == 0,
    {
        let m = cfmms.len();
        let mut token_sales: Vec<Vec<T>> = Vec::new();
        let mut token_buys: Vec<Vec<T>> = Vec::new();
        let mut i: usize = 0;
        while i < m
            invariant
                i <= m,
                m == cfmms@.len(),
                token_sales@.len() == i,
                token_buys@.len() == i,
                forall|j: int| 0 <= j < cfmms@.len() ==> (#[trigger] cfmms@[j]).wf(),
                forall|j: int|
                    0 <= j < i ==> (#[trigger] token_sales@[j])@.len()
                        == cfmms@[j].token_ids().len(),
                forall|j: int|
                    0 <= j < i ==> (#[trigger] token_buys@[j])@.len()
                        == cfmms@[j].token_ids().len(),
                forall|j: int, k: int|
                    0 <= j < i && 0 <= k < cfmms@[j].token_ids().len() ==> (
                    #[trigger] token_sales@[j]@[k]).val() == 0,
                forall|j: int, k: int|
                    0 <= j < i && 0 <= k < cfmms@[j].token_ids().len() ==> (
                    #[trigger] token_buys@[j]@[k]).val() == 0,
            decreases m - i,
        {
            let width = cfmms[i].get_token_ids().len();
            token_sales.push(zeros(width));
            token_buys.push(zeros(width));
            i = i + 1;
        }
        let market_prices = zeros(n_tokens);
        let r = Self { cfmms, objective, market_prices, token_sales, token_buys };
        assert forall|i: int| 0 <= i < r.cfmms@.len() implies #[trigger] pool_fits(
            r.cfmms@,
            r.token_sales@,
            r.token_buys@,
            r.n_tokens(),
            i,
        ) by {
            assert(r.cfmms@[i].wf());
        }
        r
    }

    /// What `find_arb` at the prices `v` makes of a router: `after` with the trades of
    /// all pools at `v` stored, or the failure of the first pool that has none and the
    /// router as it was. Pools, objective and prices stay as they are.
    pub open spec fn arb_found(self, v: Seq<int>, after: Self, r: Result<(), RouterError>) -> bool {
        &&& after.cfmms == self.cfmms
        &&& after.objective == self.objective
        &&& after.market_prices == self.market_prices
        &&& match r {
            Ok(()) => bulk_failure::<T, C>(self.cfmms@, v, self.cfmms@.len() as int) is None
                && trades_cached(after.cfmms@, v, after.token_sales@, after.token_buys@),
            Err(e) => bulk_failure::<T, C>(self.cfmms@, v, self.cfmms@.len() as int) == Some(e)
                && after == self,
        }
    }

    /// Idempotence of the stored trades: where the stored trades are the optimal ones
    /// at the stored prices, as they are after routing, `find_arb` at the stored prices
    /// cannot fail, and the trades it stores stand for the same amounts.
    pub proof fn lemma_find_arb_idempotent(routed: Self, again: Self, r: Result<(), RouterError>)
        requires
            routed.fresh(),
            routed.arb_found(vals(routed.market_prices@), again, r),
        ensures
            r is Ok,
            amounts(again.token_sales@) == amounts(routed.token_sales@),
            amounts(again.token_buys@) == amounts(routed.token_buys@),
            again.fresh(),
    {
        let v = vals(routed.market_prices@);
        let cfmms = routed.cfmms@;
        lemma_cached_never_fails::<T, C>(
            cfmms,
            v,
            routed.token_sales@,
            routed.token_buys@,
            cfmms.len() as int,
        );
        assert forall|i: int| 0 <= i < cfmms.len() implies vals(
            #[trigger] again.token_sales@[i]@,
        ) == vals(routed.token_sales@[i]@) by {
            assert(trade_cached(cfmms, v, routed.token_sales@, routed.token_buys@, i));
            assert(trade_cached(cfmms, v, again.token_sales@, again.token_buys@, i));
        }
        assert forall|i: int| 0 <= i < cfmms.len() implies vals(#[trigger] again.token_buys@[i]@)
            == vals(routed.token_buys@[i]@) by {
            assert(trade_cached(cfmms, v, routed.token_sales@, routed.token_buys@, i));
            assert(trade_cached(cfmms, v, again.token_sales@, again.token_buys@, i));
        }
        assert(amounts(again.token_sales@) =~= amounts(routed.token_sales@));
        assert(amounts(again.token_buys@) =~= amounts(routed.token_buys@));
    }

    /// Computes the optimal trade of every pool at the prices `v` and stores them in
    /// place of the old ones. Where a pool has no trade, nothing is stored and the
    /// failure of the first such pool is returned.
    pub fn find_arb(&mut self, v: &[T]) -> (r: Result<(), RouterError>)
        requires
            old(self).wf(),
            v@.len() >= old(self).n_tokens(),
        ensures
            final(self).wf(),
            old(self).arb_found(vals(v@), *final(self), r),
    {
        let (sales, buys) = match self.arb_all(v) {
            Ok(trades) => trades,
            Err(e) => { return Err(e); },
        };
        self.token_sales = sales;
        self.token_buys = buys;
        assert forall|i: int| 0 <= i < self.cfmms@.len() implies #[trigger] pool_fits(
            self.cfmms@,
            self.token_sales@,
            self.token_buys@,
            self.n_tokens(),
            i,
        ) by {
            assert(pool_fits(
                old(self).cfmms@,
                old(self).token_sales@,
                old(self).token_buys@,
                old(self).n_tokens(),
                i,
            ));
            assert(trade_cached(self.cfmms@, vals(v@), self.token_sales@, self.token_buys@, i));
            self.cfmms@[i].lemma_arb_len(local_prices(self.cfmms@[i].token_ids(), vals(v@)));
        }
        Ok(())
    }

    /// The optimal trade of every pool at the prices `v`, or the failure of the first
    /// pool that has none.
    pub fn arb_all(&self, v: &[T]) -> (r: Result<(Vec<Vec<T>>, Vec<Vec<T>>), RouterError>)
        requires
            self.wf(),
            v@.len() >= self.n_tokens(),
        ensures
            match r {
                Ok((sales, buys)) => bulk_failure::<T, C>(
                    self.cfmms@,
                    vals(v@),
                    self.cfmms@.len() as int,
                ) is None && trades_cached(self.cfmms@, vals(v@), sales@, buys@),
                Err(e) => bulk_failure::<T, C>(self.cfmms@, vals(v@), self.cfmms@.len() as int)
                    == Some(e),
            },
    {
        let m = self.cfmms.len();
        let ghost prices = vals(v@);
        let mut sales: Vec<Vec<T>> = Vec::new();
        let mut buys: Vec<Vec<T>> = Vec::new();
        let mut i: usize = 0;
        while i < m
            invariant
                i <= m,
                m == self.cfmms@.len(),
                self.wf(),
                v@.len() >= self.n_tokens(),
                prices == vals(v@),
                sales@.len() == i,
                buys@.len() == i,
                bulk_failure::<T, C>(self.cfmms@, prices, i as int) is None,
                forall|j: int|
                    0 <= j < i ==> #[trigger] trade_cached(self.cfmms@, prices, sales@, buys@, j),
            decreases m - i,
        {
            assert(pool_fits(
                self.cfmms@,
                self.token_sales@,
                self.token_buys@,
                self.n_tokens(),
                i as int,
            ));
            let ids = self.cfmms[i].get_token_ids();
            let local = gather(ids.as_slice(), v);
            match self.cfmms[i].find_arb(local.as_slice()) {
                Ok((sale, buy)) => {
                    let ghost before_sales = sales@;
                    let ghost before_buys = buys@;
                    sales.push(sale);
                    buys.push(buy);
                    assert forall|j: int| 0 <= j < i + 1 implies #[trigger] trade_cached(
                        self.cfmms@,
                        prices,
                        sales@,
                        buys@,
                        j,
                    ) by {
                        if j < i {
                            assert(trade_cached(
                                self.cfmms@,
                                prices,
                                before_sales,
                                before_buys,
                                j,
                            ));
                        }
                    }
                },
                Err(e) => {
                    proof {
                        lemma_bulk_failure_stays::<T, C>(
                            self.cfmms@,
                            prices,
                            i as int + 1,
                            m as int,
                        );
                    }
                    return Err(e);
                },
            }
            i = i + 1;
        }
        Ok((sales, buys))
    }

    /// Adds to `g` the net amount of every stored trade at its token: what is sold
    /// to a pool less what is bought from it.
    pub fn add_flows(&self, g: &mut Vec<T>) -> (r: Result<(), RouterError>)
        requires
            self.wf(),
            old(g)@.len() == self.n_tokens(),
        ensures
            final(g)@.len() == old(g)@.len(),
            match flows_after::<T>(
                ids_of(self.cfmms@),
                amounts(self.token_sales@),
                amounts(self.token_buys@),
                vals(old(g)@),
                self.cfmms@.len() as int,
            ) {
                Ok(h) => r is Ok && vals(final(g)@) == h,
                Err(e) => r == Err::<(), RouterError>(e),
            },
    {
        let m = self.cfmms.len();
        let ghost ids = ids_of(self.cfmms@);
        let ghost sold = amounts(self.token_sales@);
        let ghost bought = amounts(self.token_buys@);
        let ghost g0 = vals(g@);
        let mut i: usize = 0;
        while i < m
            invariant
                i <= m,
                m == self.cfmms@.len(),
                self.wf(),
                ids == ids_of(self.cfmms@),
                sold == amounts(self.token_sales@),
                bought == amounts(self.token_buys@),
                g0 == vals(old(g)@),
                g@.len() == old(g)@.len(),
                g@.len() == self.n_tokens(),
                flows_after::<T>(ids, sold, bought, g0, i as int) == Ok::<Seq<int>, RouterError>(
                    vals(g@),
                ),
            decreases m - i,
        {
            assert(pool_fits(
                self.cfmms@,
                self.token_sales@,
                self.token_buys@,
                self.n_tokens(),
                i as int,
            ));
            let at = self.cfmms[i].get_token_ids();
            match pull(g, at.as_slice(), self.token_sales[i].as_slice(), self.token_buys[i].as_slice()) {
                Ok(()) => {},
                Err(e) => {
                    proof {
                        lemma_flows_after_fails::<T>(ids, sold, bought, g0, i as int + 1, m as int);
                    }
                    return Err(e);
                },
            }
            i = i + 1;
        }
        Ok(())
    }

    /// What one trade is worth at the prices of its pool's tokens.
    pub fn gain(sale: &[T], buy: &[T], local: &[T]) -> (r: Result<T, RouterError>)
        requires
            sale@.len() == local@.len(),
            buy@.len() == local@.len(),
        ensures
            agrees(r, pool_gain::<T>(vals(sale@), vals(buy@), vals(local@))),
    {
        let s = match dot(sale, local) {
            Ok(s) => s,
            Err(e) => { return Err(e); },
        };
        let b = match dot(buy, local) {
            Ok(b) => b,
            Err(e) => { return Err(e); },
        };
        s.checked_sub(b)
    }

    /// What the stored trades are worth together at the prices `v`.
    pub fn gains(&self, v: &[T]) -> (r: Result<T, RouterError>)
        requires
            self.wf(),
            v@.len() >= self.n_tokens(),
        ensures
            agrees(
                r,
                gains_after::<T>(
                    ids_of(self.cfmms@),
                    amounts(self.token_sales@),
                    amounts(self.token_buys@),
                    vals(v@),
                    self.cfmms@.len() as int,
                ),
            ),
    {
        let m = self.cfmms.len();
        let ghost ids = ids_of(self.cfmms@);
        let ghost sold = amounts(self.token_sales@);
        let ghost bought = amounts(self.token_buys@);
        let ghost prices = vals(v@);
        let mut acc = T::zero();
        let mut i: usize = 0;
        while i < m
            invariant
                i <= m,
                m == self.cfmms@.len(),
                self.wf(),
                v@.len() >= self.n_tokens(),
                ids == ids_of(self.cfmms@),
                sold == amounts(self.token_sales@),
                bought == amounts(self.token_buys@),
                prices == vals(v@),
                gains_after::<T>(ids, sold, bought, prices, i as int) == Ok::<int, RouterError>(
                    acc.val(),
                ),
            decreases m - i,
        {
            assert(pool_fits(
                self.cfmms@,
                self.token_sales@,
                self.token_buys@,
                self.n_tokens(),
                i as int,
            ));
            let at = self.cfmms[i].get_token_ids();
            let local = gather(at.as_slice(), v);
            let gain = match Self::gain(
                self.token_sales[i].as_slice(),
                self.token_buys[i].as_slice(),
                local.as_slice(),
            ) {
                Ok(gain) => gain,
                Err(e) => {
                    proof {
                        lemma_gains_after_fails::<T>(
                            ids,
                            sold,
                            bought,
                            prices,
                            i as int + 1,
                            m as int,
                        );
                    }
                    return Err(e);
                },
            };
            acc = match acc.checked_add(gain) {
                Ok(acc) => acc,
                Err(e) => {
                    proof {
                        lemma_gains_after_fails::<T>(
                            ids,
                            sold,
                            bought,
                            prices,
                            i as int + 1,
                            m as int,
                        );
                    }
                    return Err(e);
                },
            };
            i = i + 1;
        }
        Ok(acc)
    }

    /// The net flow of every token over all stored trades: for each pool and each of
    /// its tokens, what is sold to the pool less what is bought from it, added up by
    /// token.
    pub fn net_flows(&self) -> (r: Result<Vec<T>, RouterError>)
        requires
            self.wf(),
        ensures
            match flows_after::<T>(
                ids_of(self.cfmms@),
                amounts(self.token_sales@),
                amounts(self.token_buys@),
                Seq::new(self.n_tokens(), |j: int| 0int),
                self.cfmms@.len() as int,
            ) {
                Ok(flows) => r matches Ok(v) && vals(v@) == flows,
                Err(e) => r == Err::<Vec<T>, RouterError>(e),
            },
            r matches Ok(v) ==> v@.len() == self.n_tokens() && forall|t: int|
                0 <= t < self.n_tokens() ==> (#[trigger] v@[t]).val() == net_flow(
                    ids_of(self.cfmms@),
                    amounts(self.token_sales@),
                    amounts(self.token_buys@),
                    t,
                    self.cfmms@.len() as int,
                ),
    {
        let mut netflows = zeros(self.market_prices.len());
        let ghost nothing = Seq::new(self.n_tokens(), |j: int| 0int);
        assert(vals(netflows@) =~= nothing);
        proof {
            self.lemma_ids_in_range();
            lemma_flows_add_net::<T>(
                ids_of(self.cfmms@),
                amounts(self.token_sales@),
                amounts(self.token_buys@),
                nothing,
                self.cfmms@.len() as int,
            );
        }
        match self.add_flows(&mut netflows) {
            Ok(()) => {
                assert forall|t: int| 0 <= t < self.n_tokens() implies (#[trigger] netflows@[t]).val()
                    == net_flow(
                    ids_of(self.cfmms@),
                    amounts(self.token_sales@),
                    amounts(self.token_buys@),
                    t,
                    self.cfmms@.len() as int,
                ) by {
                    assert(vals(netflows@)[t] == nothing[t] + net_flow(
                        ids_of(self.cfmms@),
                        amounts(self.token_sales@),
                        amounts(self.token_buys@),
                        t,
                        self.cfmms@.len() as int,
                    ));
                }
                Ok(netflows)
            },
            Err(e) => Err(e),
        }
    }

    /// The first step of routing: every price becomes one `n`-th, for `n` tokens, and
    /// the trades of all pools at these prices are stored. Where that fails the
    /// router is left as it was.
    pub fn begin_route(&mut self) -> (r: Result<(), RouterError>)
        requires
            old(self).wf(),
        ensures
            final(self).wf(),
            final(self).cfmms == old(self).cfmms,
            final(self).objective == old(self).objective,
            final(self).n_tokens() == old(self).n_tokens(),
            match uniform_price::<T>(old(self).n_tokens()) {
                Err(e) => r == Err::<(), RouterError>(e) && *final(self) == *old(self),
                Ok(u) => match bulk_failure::<T, C>(
                    old(self).cfmms@,
                    Seq::new(old(self).n_tokens(), |j: int| u),
                    old(self).cfmms@.len() as int,
                ) {
                    Some(e) => r == Err::<(), RouterError>(e) && *final(self) == *old(self),
                    None => r is Ok && vals(final(self).market_prices@) == Seq::new(
                        old(self).n_tokens(),
                        |j: int| u,
                    ) && final(self).fresh(),
                },
            },
    {
        let n = self.market_prices.len();
        let one = T::one();
        proof {
            T::lemma_divisors(one, n);
        }
        let share = match one.checked_div(n) {
            Ok(share) => share,
            Err(e) => { return Err(e); },
        };
        let mut prices: Vec<T> = Vec::new();
        let mut j: usize = 0;
        while j < n
            invariant
                j <= n,
                prices@.len() == j,
                forall|k: int| 0 <= k < j ==> (#[trigger] prices@[k]).val() == share.val(),
            decreases n - j,
        {
            prices.push(share);
            j = j + 1;
        }
        assert(vals(prices@) =~= Seq::new(n as nat, |j: int| share.val()));
        match self.find_arb(prices.as_slice()) {
            Ok(()) => {},
            Err(e) => { return Err(e); },
        }
        assert(self.n_tokens() == old(self).n_tokens());
        assert forall|i: int| 0 <= i < self.cfmms@.len() implies #[trigger] pool_fits(
            self.cfmms@,
            self.token_sales@,
            self.token_buys@,
            old(self).n_tokens(),
            i,
        ) by {
            assert(pool_fits(
                self.cfmms@,
                self.token_sales@,
                self.token_buys@,
                self.n_tokens(),
                i,
            ));
        }
        self.market_prices = prices;
        Ok(())
    }

    /// One evaluation for the minimizer: the value at the prices `x` of the function
    /// that is minimised, with its gradient written to `g`.
    ///
    /// The stored trades are used as they are where `x` stands for the stored prices;
    /// otherwise the trades at `x` are computed and stored together with `x`. Where
    /// a pool has no trade at `x` the router is left as it was. A later failure
    /// leaves `g` as it was, and the router with `x` and its trades.
    pub fn evaluate(&mut self, x: &[T], g: &mut Vec<T>) -> (r: Result<T, RouterError>)
        requires
            old(self).wf(),
            old(self).objective.dim() == old(self).n_tokens(),
            x@.len() == old(self).n_tokens(),
            old(g)@.len() == old(self).n_tokens(),
        ensures
            final(self).wf(),
            final(self).cfmms == old(self).cfmms,
            final(self).objective == old(self).objective,
            final(self).n_tokens() == old(self).n_tokens(),
            final(g)@.len() == old(g)@.len(),
            old(self).fresh() ==> final(self).fresh(),
            ({
                let v = vals(x@);
                let hit = v == vals(old(self).market_prices@);
                let failure = bulk_failure::<T, C>(
                    old(self).cfmms@,
                    v,
                    old(self).cfmms@.len() as int,
                );
                if !hit && failure is Some {
                    &&& r == Err::<T, RouterError>(failure->0)
                    &&& *final(self) == *old(self)
                    &&& final(g)@ == old(g)@
                } else {
                    &&& hit ==> *final(self) == *old(self)
                    &&& !hit ==> final(self).market_prices@ == x@ && final(self).fresh()
                    &&& match evaluation::<T, O>(
                        final(self).objective,
                        ids_of(final(self).cfmms@),
                        amounts(final(self).token_sales@),
                        amounts(final(self).token_buys@),
                        v,
                    ) {
                        Ok((value, gradient)) => r matches Ok(y) && y.val() == value && vals(
                            final(g)@,
                        ) == gradient,
                        Err(e) => r == Err::<T, RouterError>(e) && final(g)@ == old(g)@,
                    }
                }
            }),
            r is Ok ==> forall|t: int|
                0 <= t < old(self).n_tokens() ==> (#[trigger] final(g)@[t]).val() == final(
                    self
                ).objective.gradient(vals(x@))[t] + net_flow(
                    ids_of(final(self).cfmms@),
                    amounts(final(self).token_sales@),
                    amounts(final(self).token_buys@),
                    t,
                    final(self).cfmms@.len() as int,
                ),
    {
        if !same_prices(x, self.market_prices.as_slice()) {
            match self.find_arb(x) {
                Ok(()) => {},
                Err(e) => { return Err(e); },
            }
            assert(self.n_tokens() == old(self).n_tokens());
            assert forall|i: int| 0 <= i < self.cfmms@.len() implies #[trigger] pool_fits(
                self.cfmms@,
                self.token_sales@,
                self.token_buys@,
                old(self).n_tokens(),
                i,
            ) by {
                assert(pool_fits(
                    self.cfmms@,
                    self.token_sales@,
                    self.token_buys@,
                    self.n_tokens(),
                    i,
                ));
            }
            self.market_prices = copy_of(x);
        }
        let fx = match self.objective.f(x) {
            Ok(fx) => fx,
            Err(e) => { return Err(e); },
        };
        let acc = match self.gains(x) {
            Ok(acc) => acc,
            Err(e) => { return Err(e); },
        };
        let out = match fx.checked_add(acc) {
            Ok(out) => out,
            Err(e) => { return Err(e); },
        };
        let mut h = copy_of(g.as_slice());
        self.objective.grad(&mut h, x);
        proof {
            self.objective.lemma_dims(vals(x@));
            assert(vals(h@) =~= self.objective.gradient(vals(x@)));
        }
        proof {
            self.lemma_ids_in_range();
            lemma_flows_add_net::<T>(
                ids_of(self.cfmms@),
                amounts(self.token_sales@),
                amounts(self.token_buys@),
                vals(h@),
                self.cfmms@.len() as int,
            );
        }
        let ghost slope = vals(h@);
        match self.add_flows(&mut h) {
            Ok(()) => {},
            Err(e) => { return Err(e); },
        }
        assert forall|t: int| 0 <= t < self.n_tokens() implies (#[trigger] h@[t]).val()
            == self.objective.gradient(vals(x@))[t] + net_flow(
            ids_of(self.cfmms@),
            amounts(self.token_sales@),
            amounts(self.token_buys@),
            t,
            self.cfmms@.len() as int,
        ) by {
            assert(vals(h@)[t] == slope[t] + net_flow(
                ids_of(self.cfmms@),
                amounts(self.token_sales@),
                amounts(self.token_buys@),
                t,
                self.cfmms@.len() as int,
            ));
        }
        *g = h;
        Ok(out)
    }

    /// The last step of routing, given what the minimizer came back with: `None`
    /// where it gave up, else the prices it settled on. The prices are stored with
    /// the trades of all pools at them; where there is no such outcome, or a pool has
    /// no trade at it, the router is left as it was.
    pub fn end_route(&mut self, outcome: Option<Vec<T>>) -> (r: Result<(), RouterError>)
        requires
            old(self).wf(),
            outcome matches Some(x) ==> x@.len() == old(self).n_tokens(),
        ensures
            final(self).wf(),
            final(self).cfmms == old(self).cfmms,
            final(self).objective == old(self).objective,
            final(self).n_tokens() == old(self).n_tokens(),
            match outcome {
                None => r == Err::<(), RouterError>(RouterError::OptimizerFailure) && *final(self)
                    == *old(self),
                Some(x) => match bulk_failure::<T, C>(
                    old(self).cfmms@,
                    vals(x@),
                    old(self).cfmms@.len() as int,
                ) {
                    Some(e) => r == Err::<(), RouterError>(e) && *final(self) == *old(self),
                    None => r is Ok && final(self).market_prices@ == x@ && final(self).fresh(),
                },
            },
    {
        let prices = match outcome {
            Some(prices) => prices,
            None => { return Err(RouterError::OptimizerFailure); },
        };
        match self.find_arb(prices.as_slice()) {
            Ok(()) => {},
            Err(e) => { return Err(e); },
        }
        assert(self.n_tokens() == old(self).n_tokens());
        assert forall|i: int| 0 <= i < self.cfmms@.len() implies #[trigger] pool_fits(
            self.cfmms@,
            self.token_sales@,
            self.token_buys@,
            old(self).n_tokens(),
            i,
        ) by {
            assert(pool_fits(
                self.cfmms@,
                self.token_sales@,
                self.token_buys@,
                self.n_tokens(),
                i,
            ));
        }
        self.market_prices = prices;
        Ok(())
    }

    /// The reserves that every pool has once its stored trade is carried out, or the
    /// failure of the first pool whose reserves cannot take it.
    pub fn settled_reserves(&self) -> (r: Result<Vec<Vec<T>>, RouterError>)
        requires
            self.wf(),
        ensures
            match reserves_failure::<T, C>(
                self.cfmms@,
                amounts(self.token_sales@),
                amounts(self.token_buys@),
                self.cfmms@.len() as int,
            ) {
                Some(e) => r == Err::<Vec<Vec<T>>, RouterError>(e),
                None => r matches Ok(all) && all@.len() == self.cfmms@.len() && forall|i: int|
                    0 <= i < self.cfmms@.len() ==> #[trigger] reserves_after::<T, C>(
                        self.cfmms@[i],
                        amounts(self.token_sales@)[i],
                        amounts(self.token_buys@)[i],
                    ) == Ok::<Seq<int>, RouterError>(vals(all@[i]@)),
            },
            r matches Ok(all) ==> forall|i: int|
                0 <= i < self.cfmms@.len() ==> settled(
                    self.cfmms@[i].reserves(),
                    self.token_sales@[i]@,
                    self.token_buys@[i]@,
                    #[trigger] all@[i]@,
                ),
    {
        let m = self.cfmms.len();
        let ghost sold = amounts(self.token_sales@);
        let ghost bought = amounts(self.token_buys@);
        let mut all: Vec<Vec<T>> = Vec::new();
        let mut i: usize = 0;
        while i < m
            invariant
                i <= m,
                m == self.cfmms@.len(),
                self.wf(),
                sold == amounts(self.token_sales@),
                bought == amounts(self.token_buys@),
                all@.len() == i,
                reserves_failure::<T, C>(self.cfmms@, sold, bought, i as int) is None,
                forall|j: int|
                    0 <= j < i ==> #[trigger] reserves_after::<T, C>(
                        self.cfmms@[j],
                        sold[j],
                        bought[j],
                    ) == Ok::<Seq<int>, RouterError>(vals(all@[j]@)),
                forall|j: int|
                    0 <= j < i ==> settled(
                        self.cfmms@[j].reserves(),
                        self.token_sales@[j]@,
                        self.token_buys@[j]@,
                        #[trigger] all@[j]@,
                    ),
            decreases m - i,
        {
            assert(pool_fits(
                self.cfmms@,
                self.token_sales@,
                self.token_buys@,
                self.n_tokens(),
                i as int,
            ));
            proof {
                self.cfmms@[i as int].lemma_shape();
            }
            let mut reserves = self.cfmms[i].get_reserves();
            let at = count_up(reserves.len());
            let ghost before = reserves@;
            proof {
                lemma_pulled_adds_net::<T>(
                    vals(before),
                    at@,
                    sold[i as int],
                    bought[i as int],
                    at@.len() as int,
                );
                assert forall|k: int| 0 <= k < before.len() implies trade_net(
                    at@,
                    sold[i as int],
                    bought[i as int],
                    k,
                    at@.len() as int,
                ) == sold[i as int][k] - bought[i as int][k] by {
                    lemma_trade_net_in_place(
                        before.len(),
                        sold[i as int],
                        bought[i as int],
                        k,
                        before.len() as int,
                    );
                }
            }
            match pull(
                &mut reserves,
                at.as_slice(),
                self.token_sales[i].as_slice(),
                self.token_buys[i].as_slice(),
            ) {
                Ok(()) => {},
                Err(e) => {
                    proof {
                        lemma_reserves_failure_stays::<T, C>(
                            self.cfmms@,
                            sold,
                            bought,
                            i as int + 1,
                            m as int,
                        );
                    }
                    return Err(e);
                },
            }
            assert forall|k: int| 0 <= k < before.len() implies (#[trigger] reserves@[k]).val()
                == before[k].val() + self.token_sales@[i as int]@[k].val()
                - self.token_buys@[i as int]@[k].val() by {
                assert(vals(reserves@)[k] == vals(before)[k] + trade_net(
                    at@,
                    sold[i as int],
                    bought[i as int],
                    k,
                    at@.len() as int,
                ));
            }
            let ghost done = all@;
            all.push(reserves);
            assert forall|j: int| 0 <= j < i + 1 implies settled(
                self.cfmms@[j].reserves(),
                self.token_sales@[j]@,
                self.token_buys@[j]@,
                #[trigger] all@[j]@,
            ) by {
                if j < i {
                    assert(all@[j] == done[j]);
                }
            }
            i = i + 1;
        }
        Ok(all)
    }

    /// Carries out the stored trades: every pool's reserve of each of its tokens
    /// grows by what is sold to the pool and shrinks by what is bought from it, and
    /// nothing else of a pool changes. Where the reserves of some pool cannot take
    /// its trade, no pool is changed.
    pub fn update_reserves(&mut self) -> (r: Result<(), RouterError>)
        requires
            old(self).wf(),
        ensures
            final(self).wf(),
            final(self).objective == old(self).objective,
            final(self).market_prices == old(self).market_prices,
            final(self).token_sales == old(self).token_sales,
            final(self).token_buys == old(self).token_buys,
            final(self).cfmms@.len() == old(self).cfmms@.len(),
            match reserves_failure::<T, C>(
                old(self).cfmms@,
                amounts(old(self).token_sales@),
                amounts(old(self).token_buys@),
                old(self).cfmms@.len() as int,
            ) {
                Some(e) => r == Err::<(), RouterError>(e) && *final(self) == *old(self),
                None => r is Ok && forall|i: int|
                    0 <= i < old(self).cfmms@.len() ==> {
                        &&& (#[trigger] final(self).cfmms@[i]).token_ids()
                            == old(self).cfmms@[i].token_ids()
                        &&& reserves_after::<T, C>(
                            old(self).cfmms@[i],
                            amounts(old(self).token_sales@)[i],
                            amounts(old(self).token_buys@)[i],
                        ) == Ok::<Seq<int>, RouterError>(vals(final(self).cfmms@[i].reserves()))
                    },
            },
            r is Ok ==> forall|i: int|
                0 <= i < old(self).cfmms@.len() ==> settled(
                    old(self).cfmms@[i].reserves(),
                    old(self).token_sales@[i]@,
                    old(self).token_buys@[i]@,
                    (#[trigger] final(self).cfmms@[i]).reserves(),
                ),
            r is Ok ==> forall|i: int|
                0 <= i < old(self).cfmms@.len() ==> old(self).cfmms@[i].same_but_reserves(
                    &#[trigger] final(self).cfmms@[i],
                ),
    {
        let all = match self.settled_reserves() {
            Ok(all) => all,
            Err(e) => { return Err(e); },
        };
        let m = self.cfmms.len();
        assert forall|j: int| 0 <= j < m implies (#[trigger] self.cfmms@[j]).wf() by {
            assert(pool_fits(
                self.cfmms@,
                self.token_sales@,
                self.token_buys@,
                self.n_tokens(),
                j,
            ));
        }
        let mut i: usize = 0;
        while i < m
            invariant
                i <= m,
                m == self.cfmms@.len(),
                m == old(self).cfmms@.len(),
                all@.len() == m,
                old(self).wf(),
                self.objective == old(self).objective,
                self.market_prices == old(self).market_prices,
                self.token_sales == old(self).token_sales,
                self.token_buys == old(self).token_buys,
                forall|j: int|
                    0 <= j < m ==> #[trigger] reserves_after::<T, C>(
                        old(self).cfmms@[j],
                        amounts(old(self).token_sales@)[j],
                        amounts(old(self).token_buys@)[j],
                    ) == Ok::<Seq<int>, RouterError>(vals(all@[j]@)),
                forall|j: int|
                    0 <= j < m ==> settled(
                        old(self).cfmms@[j].reserves(),
                        old(self).token_sales@[j]@,
                        old(self).token_buys@[j]@,
                        #[trigger] all@[j]@,
                    ),
                forall|j: int|
                    0 <= j < m ==> (#[trigger] self.cfmms@[j]).wf() && self.cfmms@[j].token_ids()
                        == old(self).cfmms@[j].token_ids(),
                forall|j: int| 0 <= j < i ==> (#[trigger] self.cfmms@[j]).reserves() == all@[j]@,
                forall|j: int|
                    0 <= j < i ==> old(self).cfmms@[j].same_but_reserves(
                        &#[trigger] self.cfmms@[j],
                    ),
                forall|j: int| i <= j < m ==> #[trigger] self.cfmms@[j] == old(self).cfmms@[j],
            decreases m - i,
        {
            proof {
                assert(pool_fits(
                    old(self).cfmms@,
                    old(self).token_sales@,
                    old(self).token_buys@,
                    old(self).n_tokens(),
                    i as int,
                ));
                assert(reserves_after::<T, C>(
                    old(self).cfmms@[i as int],
                    amounts(old(self).token_sales@)[i as int],
                    amounts(old(self).token_buys@)[i as int],
                ) == Ok::<Seq<int>, RouterError>(vals(all@[i as int]@)));
                assert(settled(
                    old(self).cfmms@[i as int].reserves(),
                    old(self).token_sales@[i as int]@,
                    old(self).token_buys@[i as int]@,
                    all@[i as int]@,
                ));
            }
            self.cfmms[i].set_reserves(all[i].as_slice());
            i = i + 1;
        }
        assert forall|j: int| 0 <= j < self.cfmms@.len() implies #[trigger] pool_fits(
            self.cfmms@,
            self.token_sales@,
            self.token_buys@,
            self.n_tokens(),
            j,
        ) by {
            assert(pool_fits(
                old(self).cfmms@,
                old(self).token_sales@,
                old(self).token_buys@,
                old(self).n_tokens(),
                j,
            ));
        }
        Ok(())
    }
}

} // verus!
