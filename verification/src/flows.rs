use vstd::prelude::*;

use crate::error::RouterError;
use crate::math::{difference_of, dot_val, sum_of, vals, DecimalMath, Scaled};

verus! {

/// The prices of a pool's tokens, in the pool's order, out of the prices of all tokens.
pub open spec fn local_prices(ids: Seq<usize>, v: Seq<int>) -> Seq<int> {
    Seq::new(ids.len(), |k: int| v[ids[k] as int])
}

/// The prices of a pool's tokens, gathered from the prices of all tokens.
pub fn gather<T: DecimalMath>(ids: &[usize], v: &[T]) -> (r: Vec<T>)
    requires
        forall|k: int| 0 <= k < ids@.len() ==> #[trigger] ids@[k] < v@.len(),
    ensures
        r@.len() == ids@.len(),
        forall|k: int| 0 <= k < ids@.len() ==> #[trigger] r@[k] == v@[ids@[k] as int],
        vals(r@) == local_prices(ids@, vals(v@)),
{
    let mut r: Vec<T> = Vec::new();
    let mut k: usize = 0;
    while k < ids.len()
        invariant
            k <= ids@.len(),
            r@.len() == k,
            forall|j: int| 0 <= j < ids@.len() ==> #[trigger] ids@[j] < v@.len(),
            forall|j: int| 0 <= j < k ==> #[trigger] r@[j] == v@[ids@[j] as int],
        decreases ids@.len() - k,
    {
        r.push(v[ids[k]]);
        k = k + 1;
    }
    assert(vals(r@) =~= local_prices(ids@, vals(v@)));
    r
}

/// A vector of `n` zeros.
pub fn zeros<T: DecimalMath>(n: usize) -> (r: Vec<T>)
    ensures
        r@.len() == n,
        forall|k: int| 0 <= k < n ==> (#[trigger] r@[k]).val() == 0,
{
    let zero = T::zero();
    let mut r: Vec<T> = Vec::new();
    let mut k: usize = 0;
    while k < n
        invariant
            k <= n,
            r@.len() == k,
            zero.val() == 0,
            forall|j: int| 0 <= j < k ==> (#[trigger] r@[j]).val() == 0,
        decreases n - k,
    {
        r.push(zero);
        k = k + 1;
    }
    r
}

/// The stored amounts of every pool, as scaled integers.
pub open spec fn amounts<T: Scaled>(stored: Seq<Vec<T>>) -> Seq<Seq<int>> {
    Seq::new(stored.len(), |i: int| vals(stored[i]@))
}

/// The positions 0, 1, ... of a pool's own tokens.
pub open spec fn positions(n: nat) -> Seq<usize> {
    Seq::new(n, |k: int| k as usize)
}

/// The positions 0, 1, ... below `n`.
pub fn count_up(n: usize) -> (r: Vec<usize>)
    ensures
        r@ == positions(n as nat),
{
    let mut r: Vec<usize> = Vec::new();
    let mut k: usize = 0;
    while k < n
        invariant
            k <= n,
            r@.len() == k,
            forall|j: int| 0 <= j < k ==> #[trigger] r@[j] == j,
        decreases n - k,
    {
        r.push(k);
        k = k + 1;
    }
    assert(r@ =~= positions(n as nat));
    r
}

/// Whether two price vectors stand for the same numbers.
pub fn same_prices<T: DecimalMath>(a: &[T], b: &[T]) -> (r: bool)
    ensures
        r == (vals(a@) == vals(b@)),
{
    if a.len() != b.len() {
        assert(vals(a@).len() != vals(b@).len());
        return false;
    }
    let n = a.len();
    let mut i: usize = 0;
    while i < n
        invariant
            i <= n,
            n == a@.len(),
            n == b@.len(),
            forall|j: int| 0 <= j < i ==> (#[trigger] a@[j]).val() == b@[j].val(),
        decreases n - i,
    {
        if !a[i].same_as(b[i]) {
            assert(vals(a@)[i as int] != vals(b@)[i as int]);
            return false;
        }
        i = i + 1;
    }
    assert(vals(a@) =~= vals(b@));
    true
}

/// The vector `g` after the net amounts of the first `k` tokens of one trade, each
/// the amount sold less the amount bought, were added at the positions `at`, one
/// after the other with checked arithmetic.
pub open spec fn pulled<T: Scaled>(
    g: Seq<int>,
    at: Seq<usize>,
    sold: Seq<int>,
    bought: Seq<int>,
    k: int,
) -> Result<Seq<int>, RouterError>
    decreases k,
{
    if k <= 0 {
        Ok(g)
    } else {
        match pulled::<T>(g, at, sold, bought, k - 1) {
            Err(e) => Err(e),
            Ok(h) => match difference_of::<T>(sold[k - 1], bought[k - 1]) {
                Err(e) => Err(e),
                Ok(d) => match sum_of::<T>(h[at[k - 1] as int], d) {
                    Err(e) => Err(e),
                    Ok(s) => Ok(h.update(at[k - 1] as int, s)),
                },
            },
        }
    }
}

/// A failure among the first tokens of a trade is the failure of the whole.
pub proof fn lemma_pulled_fails<T: Scaled>(
    g: Seq<int>,
    at: Seq<usize>,
    sold: Seq<int>,
    bought: Seq<int>,
    k: int,
    n: int,
)
    requires
        k <= n,
        pulled::<T>(g, at, sold, bought, k) is Err,
    ensures
        pulled::<T>(g, at, sold, bought, n) == pulled::<T>(g, at, sold, bought, k),
    decreases n - k,
{
    if k < n {
        lemma_pulled_fails::<T>(g, at, sold, bought, k, n - 1);
    }
}

/// Adding net amounts keeps the length of the vector.
pub proof fn lemma_pulled_len<T: Scaled>(
    g: Seq<int>,
    at: Seq<usize>,
    sold: Seq<int>,
    bought: Seq<int>,
    k: int,
)
    requires
        k <= at.len(),
        forall|j: int| 0 <= j < at.len() ==> #[trigger] at[j] < g.len(),
    ensures
        pulled::<T>(g, at, sold, bought, k) matches Ok(h) ==> h.len() == g.len(),
    decreases k,
{
    if k > 0 {
        lemma_pulled_len::<T>(g, at, sold, bought, k - 1);
    }
}

/// Adds to `g`, at the positions `at`, the net amounts of one trade: what is sold less
/// what is bought. Where an amount overflows, `g` is left with the amounts added so
/// far.
pub fn pull<T: DecimalMath>(g: &mut Vec<T>, at: &[usize], sale: &[T], buy: &[T]) -> (r: Result<
    (),
    RouterError,
>)
    requires
        sale@.len() == at@.len(),
        buy@.len() == at@.len(),
        forall|k: int| 0 <= k < at@.len() ==> #[trigger] at@[k] < old(g)@.len(),
    ensures
        final(g)@.len() == old(g)@.len(),
        match pulled::<T>(vals(old(g)@), at@, vals(sale@), vals(buy@), at@.len() as int) {
            Ok(h) => r is Ok && vals(final(g)@) == h,
            Err(e) => r == Err::<(), RouterError>(e),
        },
{
    let n = at.len();
    let ghost g0 = vals(g@);
    let ghost sold = vals(sale@);
    let ghost bought = vals(buy@);
    let mut k: usize = 0;
    while k < n
        invariant
            k <= n,
            n == at@.len(),
            sale@.len() == n,
            buy@.len() == n,
            sold == vals(sale@),
            bought == vals(buy@),
            g0 == vals(old(g)@),
            g@.len() == old(g)@.len(),
            forall|j: int| 0 <= j < at@.len() ==> #[trigger] at@[j] < g@.len(),
            pulled::<T>(g0, at@, sold, bought, k as int) == Ok::<Seq<int>, RouterError>(vals(g@)),
        decreases n - k,
    {
        let d = match sale[k].checked_sub(buy[k]) {
            Ok(d) => d,
            Err(e) => {
                proof {
                    lemma_pulled_fails::<T>(g0, at@, sold, bought, k as int + 1, n as int);
                }
                return Err(e);
            },
        };
        let s = match g[at[k]].checked_add(d) {
            Ok(s) => s,
            Err(e) => {
                proof {
                    lemma_pulled_fails::<T>(g0, at@, sold, bought, k as int + 1, n as int);
                }
                return Err(e);
            },
        };
        let ghost before = vals(g@);
        g.set(at[k], s);
        assert(vals(g@) =~= before.update(at@[k as int] as int, s.val()));
        k = k + 1;
    }
    Ok(())
}

/// The vector `g0` after the net amounts of the first `n` trades were added, each at
/// the token indices of its pool.
pub open spec fn flows_after<T: Scaled>(
    ids: Seq<Seq<usize>>,
    sold: Seq<Seq<int>>,
    bought: Seq<Seq<int>>,
    g0: Seq<int>,
    n: int,
) -> Result<Seq<int>, RouterError>
    decreases n,
{
    if n <= 0 {
        Ok(g0)
    } else {
        match flows_after::<T>(ids, sold, bought, g0, n - 1) {
            Err(e) => Err(e),
            Ok(g) => pulled::<T>(
                g,
                ids[n - 1],
                sold[n - 1],
                bought[n - 1],
                ids[n - 1].len() as int,
            ),
        }
    }
}

/// A failure among the first trades is the failure of the whole.
pub proof fn lemma_flows_after_fails<T: Scaled>(
    ids: Seq<Seq<usize>>,
    sold: Seq<Seq<int>>,
    bought: Seq<Seq<int>>,
    g0: Seq<int>,
    k: int,
    n: int,
)
    requires
        k <= n,
        flows_after::<T>(ids, sold, bought, g0, k) is Err,
    ensures
        flows_after::<T>(ids, sold, bought, g0, n) == flows_after::<T>(ids, sold, bought, g0, k),
    decreases n - k,
{
    if k < n {
        lemma_flows_after_fails::<T>(ids, sold, bought, g0, k, n - 1);
    }
}

/// What one trade is worth at the prices `p` of its pool's tokens: the worth of what
/// is sold less the worth of what is bought.
pub open spec fn pool_gain<T: Scaled>(sold: Seq<int>, bought: Seq<int>, p: Seq<int>) -> Result<
    int,
    RouterError,
> {
    match dot_val::<T>(sold, p, sold.len() as int) {
        Err(e) => Err(e),
        Ok(s) => match dot_val::<T>(bought, p, bought.len() as int) {
            Err(e) => Err(e),
            Ok(b) => difference_of::<T>(s, b),
        },
    }
}

/// What the first `n` trades are worth together at the prices `v` of all tokens.
pub open spec fn gains_after<T: Scaled>(
    ids: Seq<Seq<usize>>,
    sold: Seq<Seq<int>>,
    bought: Seq<Seq<int>>,
    v: Seq<int>,
    n: int,
) -> Result<int, RouterError>
    decreases n,
{
    if n <= 0 {
        Ok(0)
    } else {
        match gains_after::<T>(ids, sold, bought, v, n - 1) {
            Err(e) => Err(e),
            Ok(acc) => match pool_gain::<T>(
                sold[n - 1],
                bought[n - 1],
                local_prices(ids[n - 1], v),
            ) {
                Err(e) => Err(e),
                Ok(gain) => sum_of::<T>(acc, gain),
            },
        }
    }
}

/// A failure among the first trades is the failure of the whole.
pub proof fn lemma_gains_after_fails<T: Scaled>(
    ids: Seq<Seq<usize>>,
    sold: Seq<Seq<int>>,
    bought: Seq<Seq<int>>,
    v: Seq<int>,
    k: int,
    n: int,
)
    requires
        k <= n,
        gains_after::<T>(ids, sold, bought, v, k) is Err,
    ensures
        gains_after::<T>(ids, sold, bought, v, n) == gains_after::<T>(ids, sold, bought, v, k),
    decreases n - k,
{
    if k < n {
        lemma_gains_after_fails::<T>(ids, sold, bought, v, k, n - 1);
    }
}

/// The net amount of token `t` in the first `k` entries of one trade: what is sold
/// of it less what is bought of it.
pub open spec fn trade_net(at: Seq<usize>, sold: Seq<int>, bought: Seq<int>, t: int, k: int) -> int
    decreases k,
{
    if k <= 0 {
        0
    } else {
        trade_net(at, sold, bought, t, k - 1) + if at[k - 1] == t {
            sold[k - 1] - bought[k - 1]
        } else {
            0
        }
    }
}

/// The net flow of token `t` over the first `n` trades.
pub open spec fn net_flow(
    ids: Seq<Seq<usize>>,
    sold: Seq<Seq<int>>,
    bought: Seq<Seq<int>>,
    t: int,
    n: int,
) -> int
    decreases n,
{
    if n <= 0 {
        0
    } else {
        net_flow(ids, sold, bought, t, n - 1) + trade_net(
            ids[n - 1],
            sold[n - 1],
            bought[n - 1],
            t,
            ids[n - 1].len() as int,
        )
    }
}

/// Where the net amounts of a trade can be added to a vector, every entry grows by
/// the net amount of its token.
pub proof fn lemma_pulled_adds_net<T: Scaled>(
    g: Seq<int>,
    at: Seq<usize>,
    sold: Seq<int>,
    bought: Seq<int>,
    k: int,
)
    requires
        k <= at.len(),
        forall|j: int| 0 <= j < at.len() ==> #[trigger] at[j] < g.len(),
    ensures
        pulled::<T>(g, at, sold, bought, k) matches Ok(h) ==> h.len() == g.len() && forall|t: int|
            0 <= t < g.len() ==> #[trigger] h[t] == g[t] + trade_net(at, sold, bought, t, k),
    decreases k,
{
    if k > 0 {
        lemma_pulled_adds_net::<T>(g, at, sold, bought, k - 1);
    }
}

/// Where the net amounts of the first `n` trades can be added to a vector, every
/// entry grows by the net flow of its token.
pub proof fn lemma_flows_add_net<T: Scaled>(
    ids: Seq<Seq<usize>>,
    sold: Seq<Seq<int>>,
    bought: Seq<Seq<int>>,
    g0: Seq<int>,
    n: int,
)
    requires
        n <= ids.len(),
        forall|i: int, j: int|
            0 <= i < ids.len() && 0 <= j < ids[i].len() ==> #[trigger] ids[i][j] < g0.len(),
    ensures
        flows_after::<T>(ids, sold, bought, g0, n) matches Ok(h) ==> h.len() == g0.len()
            && forall|t: int|
            0 <= t < g0.len() ==> #[trigger] h[t] == g0[t] + net_flow(ids, sold, bought, t, n),
    decreases n,
{
    if n > 0 {
        lemma_flows_add_net::<T>(ids, sold, bought, g0, n - 1);
        if let Ok(g) = flows_after::<T>(ids, sold, bought, g0, n - 1) {
            lemma_pulled_adds_net::<T>(
                g,
                ids[n - 1],
                sold[n - 1],
                bought[n - 1],
                ids[n - 1].len() as int,
            );
        }
    }
}

/// At the positions 0, 1, ... the net amount of position `t` is what is sold there
/// less what is bought there.
pub proof fn lemma_trade_net_in_place(n: nat, sold: Seq<int>, bought: Seq<int>, t: int, k: int)
    requires
        0 <= k <= n <= usize::MAX,
        0 <= t < n,
    ensures
        trade_net(positions(n), sold, bought, t, k) == if t < k {
            sold[t] - bought[t]
        } else {
            0
        },
    decreases k,
{
    if k > 0 {
        lemma_trade_net_in_place(n, sold, bought, t, k - 1);
        assert(positions(n)[k - 1] == k - 1);
    }
}

} // verus!
