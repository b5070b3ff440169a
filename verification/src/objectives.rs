use vstd::prelude::*;

use crate::error::RouterError;
use crate::math::{agrees, product_of, rounded_product, sum_of, vals, DecimalMath};

verus! {

/// What the router optimises, as a function of the price vector.
pub trait Objective<T: DecimalMath> {
    /// The objective is fit to be evaluated.
    spec fn wf(&self) -> bool;

    /// The number of tokens that the objective speaks of.
    spec fn dim(&self) -> nat;

    /// The value at the prices `v`.
    spec fn value(&self, v: Seq<int>) -> Result<int, RouterError>;

    /// The gradient at the prices `v`.
    spec fn gradient(&self, v: Seq<int>) -> Seq<int>;

    /// The least price that each token may take.
    spec fn lower(&self) -> Seq<int>;

    /// The largest price that each token may take.
    spec fn upper(&self) -> Seq<int>;

    /// Gradient and limits have one entry for each token.
    proof fn lemma_dims(&self, v: Seq<int>)
        requires
            self.wf(),
            v.len() >= self.dim(),
        ensures
            self.gradient(v).len() == self.dim(),
            self.lower().len() == self.dim(),
            self.upper().len() == self.dim(),
    ;

    /// The value at the prices `v`, of which there is one for each token at least.
    fn f(&self, v: &[T]) -> (r: Result<T, RouterError>)
        requires
            self.wf(),
            v@.len() >= self.dim(),
        ensures
            agrees(r, self.value(vals(v@))),
    ;

    /// Writes the gradient at the prices `v` to the first entries of `g`, one for
    /// each token, and leaves the others as they are.
    fn grad(&self, g: &mut Vec<T>, v: &[T])
        requires
            self.wf(),
            v@.len() >= self.dim(),
            old(g)@.len() >= self.dim(),
        ensures
            final(g)@.len() == old(g)@.len(),
            forall|i: int|
                0 <= i < self.dim() ==> (#[trigger] final(g)@[i]).val() == self.gradient(
                    vals(v@),
                )[i],
            forall|i: int| self.dim() <= i < old(g)@.len() ==> #[trigger] final(g)@[i] == old(g)@[i],
    ;

    fn lower_limit(&self) -> (r: Vec<T>)
        requires
            self.wf(),
        ensures
            vals(r@) == self.lower(),
    ;

    /// Whether the objective is fit to be evaluated.
    fn is_wf(&self) -> (r: bool)
        ensures
            r == self.wf(),
    ;

    /// The number of tokens that the objective speaks of.
    fn size(&self) -> (r: usize)
        requires
            self.wf(),
        ensures
            r == self.dim(),
    ;

    fn upper_limit(&self) -> (r: Vec<T>)
        requires
            self.wf(),
        ensures
            vals(r@) == self.upper(),
    ;
}

/// The worth of the first `n` entries of a basket at the prices `v`, leaving out the
/// token `out`: each amount times its price, summed in order with checked arithmetic.
pub open spec fn basket_worth<T: DecimalMath>(delta: Seq<int>, v: Seq<int>, out: int, n: int) -> Result<
    int,
    RouterError,
>
    decreases n,
{
    if n <= 0 {
        Ok(0)
    } else {
        match basket_worth::<T>(delta, v, out, n - 1) {
            Err(e) => Err(e),
            Ok(acc) => if n - 1 == out {
                Ok(acc)
            } else {
                match product_of::<T>(delta[n - 1], v[n - 1]) {
                    Err(e) => Err(e),
                    Ok(p) => sum_of::<T>(acc, p),
                }
            },
        }
    }
}

/// The rounded products of amount and price, summed over the first `n` entries of a
/// basket without the token `out`.
pub open spec fn basket_sum(unit: nat, delta: Seq<int>, v: Seq<int>, out: int, n: int) -> int
    decreases n,
{
    if n <= 0 {
        0
    } else {
        basket_sum(unit, delta, v, out, n - 1) + if n - 1 == out {
            0
        } else {
            rounded_product(unit, delta[n - 1], v[n - 1])
        }
    }
}

/// The worth of a basket that is in range is the sum of amount times price over its
/// tokens but the output token.
pub proof fn lemma_basket_worth_is_sum<T: DecimalMath>(
    delta: Seq<int>,
    v: Seq<int>,
    out: int,
    n: int,
)
    ensures
        basket_worth::<T>(delta, v, out, n) matches Ok(w) ==> w == basket_sum(
            T::unit(),
            delta,
            v,
            out,
            n,
        ),
    decreases n,
{
    if n > 0 {
        lemma_basket_worth_is_sum::<T>(delta, v, out, n - 1);
    }
}

/// A failure among the first entries of a basket is the failure of the whole.
pub proof fn lemma_basket_worth_fails<T: DecimalMath>(
    delta: Seq<int>,
    v: Seq<int>,
    out: int,
    k: int,
    n: int,
)
    requires
        k <= n,
        basket_worth::<T>(delta, v, out, k) is Err,
    ensures
        basket_worth::<T>(delta, v, out, n) == basket_worth::<T>(delta, v, out, k),
    decreases n - k,
{
    if k < n {
        lemma_basket_worth_fails::<T>(delta, v, out, k, n - 1);
    }
}

/// The liquidation of a basket of tokens into one output token.
pub struct BasketLiquidation<T> {
    output_token_id: usize,
    delta_in: Vec<T>,
}

impl<T: DecimalMath> BasketLiquidation<T> {
    /// The token that the basket is turned into.
    pub closed spec fn output(&self) -> usize {
        self.output_token_id
    }

    /// The amount of each token that is to be liquidated.
    pub closed spec fn basket(&self) -> Seq<T> {
        self.delta_in@
    }

    /// Whether the output token is priced at one or more, so that the basket counts
    /// as liquidated.
    pub open spec fn feasible(&self, v: Seq<int>) -> bool {
        v[self.output() as int] >= T::unit()
    }

    pub fn new(output_token_id: usize, delta_in: Vec<T>) -> (r: Self)
        requires
            output_token_id < delta_in@.len(),
        ensures
            r.wf(),
            r.output() == output_token_id,
            r.basket() == delta_in@,
    {
        Self { output_token_id, delta_in }
    }
}

impl<T: DecimalMath> Objective<T> for BasketLiquidation<T> {
    open spec fn wf(&self) -> bool {
        self.output() < self.basket().len()
    }

    open spec fn dim(&self) -> nat {
        self.basket().len()
    }

    /// The worth of the basket without the output token where the prices are
    /// feasible, and the infinity sentinel elsewhere.
    open spec fn value(&self, v: Seq<int>) -> Result<int, RouterError> {
        if self.feasible(v) {
            basket_worth::<T>(
                vals(self.basket()),
                v,
                self.output() as int,
                self.basket().len() as int,
            )
        } else {
            Ok(T::limit() as int)
        }
    }

    /// The basket with the entry of the output token set to zero where the prices are
    /// feasible, and the infinity sentinel in every entry elsewhere.
    open spec fn gradient(&self, v: Seq<int>) -> Seq<int> {
        Seq::new(
            self.basket().len(),
            |i: int|
                if self.feasible(v) {
                    if i == self.output() {
                        0
                    } else {
                        self.basket()[i].val()
                    }
                } else {
                    T::limit() as int
                },
        )
    }

    /// Zero for every token but the output token, whose price is at least one.
    open spec fn lower(&self) -> Seq<int> {
        Seq::new(
            self.basket().len(),
            |i: int|
                if i == self.output() {
                    T::unit() as int
                } else {
                    0
                },
        )
    }

    /// The infinity sentinel for every token.
    open spec fn upper(&self) -> Seq<int> {
        Seq::new(self.basket().len(), |i: int| T::limit() as int)
    }

    proof fn lemma_dims(&self, v: Seq<int>) {
    }

    /// Where the prices are feasible and the worth is in range, the sum of amount
    /// times price over the basket without the output token; where they are not
    /// feasible, the infinity sentinel.
    fn f(&self, v: &[T]) -> (r: Result<T, RouterError>)
        ensures
            self.feasible(vals(v@)) ==> (r matches Ok(x) ==> x.val() == basket_sum(
                T::unit(),
                vals(self.basket()),
                vals(v@),
                self.output() as int,
                self.basket().len() as int,
            )),
            !self.feasible(vals(v@)) ==> (r matches Ok(x) && x.val() == T::limit()),
    {
        proof {
            lemma_basket_worth_is_sum::<T>(
                vals(self.basket()),
                vals(v@),
                self.output() as int,
                self.basket().len() as int,
            );
        }
        let n = self.delta_in.len();
        let one = T::one();
        if v[self.output_token_id].at_least(one) {
            let ghost delta = vals(self.delta_in@);
            let ghost prices = vals(v@);
            let ghost out = self.output_token_id as int;
            let mut acc = T::zero();
            let mut i: usize = 0;
            while i < n
                invariant
                    i <= n,
                    n == self.delta_in@.len(),
                    n <= v@.len(),
                    delta == vals(self.delta_in@),
                    prices == vals(v@),
                    out == self.output_token_id as int,
                    self.feasible(prices),
                    basket_worth::<T>(delta, prices, out, i as int) == Ok::<int, RouterError>(
                        acc.val(),
                    ),
                decreases n - i,
            {
                if i != self.output_token_id {
                    let p = match self.delta_in[i].checked_mul(v[i]) {
                        Ok(p) => p,
                        Err(e) => {
                            proof {
                                lemma_basket_worth_fails::<T>(
                                    delta,
                                    prices,
                                    out,
                                    i as int + 1,
                                    n as int,
                                );
                            }
                            return Err(e);
                        },
                    };
                    acc = match acc.checked_add(p) {
                        Ok(s) => s,
                        Err(e) => {
                            proof {
                                lemma_basket_worth_fails::<T>(
                                    delta,
                                    prices,
                                    out,
                                    i as int + 1,
                                    n as int,
                                );
                            }
                            return Err(e);
                        },
                    };
                }
                i = i + 1;
            }
            Ok(acc)
        } else {
            Ok(T::infinity())
        }
    }

    /// Where the prices are feasible, the basket with a zero for the output token;
    /// where they are not, the infinity sentinel in every entry.
    fn grad(&self, g: &mut Vec<T>, v: &[T])
        ensures
            forall|i: int|
                0 <= i < self.basket().len() ==> (#[trigger] final(g)@[i]).val() == if !self.feasible(
                    vals(v@),
                ) {
                    T::limit() as int
                } else if i == self.output() {
                    0
                } else {
                    self.basket()[i].val()
                },
    {
        let n = self.delta_in.len();
        let one = T::one();
        let feasible = v[self.output_token_id].at_least(one);
        let zero = T::zero();
        let infinity = T::infinity();
        let mut i: usize = 0;
        while i < n
            invariant
                i <= n,
                n == self.delta_in@.len(),
                n <= g@.len(),
                g@.len() == old(g)@.len(),
                self.output_token_id < n,
                forall|j: int| i <= j < g@.len() ==> #[trigger] g@[j] == old(g)@[j],
                feasible == self.feasible(vals(v@)),
                zero.val() == 0,
                infinity.val() == T::limit(),
                forall|j: int|
                    0 <= j < i ==> (#[trigger] g@[j]).val() == self.gradient(vals(v@))[j],
            decreases n - i,
        {
            let entry = if feasible {
                if i == self.output_token_id {
                    zero
                } else {
                    self.delta_in[i]
                }
            } else {
                infinity
            };
            g.set(i, entry);
            i = i + 1;
        }
    }

    fn lower_limit(&self) -> (r: Vec<T>) {
        let n = self.delta_in.len();
        let zero = T::zero();
        let one = T::one();
        let eps = T::eps();
        proof {
            T::lemma_scale();
        }
        let least = match one.checked_add(eps) {
            Ok(least) => least,
            Err(_) => one,
        };
        let mut r: Vec<T> = Vec::new();
        let mut i: usize = 0;
        while i < n
            invariant
                i <= n,
                n == self.delta_in@.len(),
                r@.len() == i,
                zero.val() == 0,
                least.val() == T::unit(),
                forall|j: int| 0 <= j < i ==> (#[trigger] r@[j]).val() == self.lower()[j],
            decreases n - i,
        {
            if i == self.output_token_id {
                r.push(least);
            } else {
                r.push(zero);
            }
            i = i + 1;
        }
        assert(vals(r@) =~= self.lower());
        r
    }

    fn is_wf(&self) -> (r: bool) {
        self.output_token_id < self.delta_in.len()
    }

    fn size(&self) -> (r: usize) {
        self.delta_in.len()
    }

    fn upper_limit(&self) -> (r: Vec<T>) {
        let n = self.delta_in.len();
        let infinity = T::infinity();
        let mut r: Vec<T> = Vec::new();
        let mut i: usize = 0;
        while i < n
            invariant
                i <= n,
                n == self.delta_in@.len(),
                r@.len() == i,
                infinity.val() == T::limit(),
                forall|j: int| 0 <= j < i ==> (#[trigger] r@[j]).val() == T::limit(),
            decreases n - i,
        {
            r.push(infinity);
            i = i + 1;
        }
        assert(vals(r@) =~= self.upper());
        r
    }
}

} // verus!
