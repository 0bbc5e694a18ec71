use vstd::prelude::*;

use crate::errors::PricingError;
use crate::lattice::is_rectangular;
use crate::lattice::lattice_shape;

verus! {

/// The rows of a grid held as a vector of vectors, as a sequence of rows.
pub open spec fn grid_of<T>(s: &Vec<Vec<Option<T>>>) -> Seq<Seq<Option<T>>> {
    Seq::new(s@.len(), |i: int| s@[i]@)
}

/// A grid the valuer accepts: at least one row, at least one column, and
/// every row of the same length.
pub open spec fn valid_grid<T>(g: Seq<Seq<Option<T>>>) -> bool {
    &&& g.len() >= 1
    &&& g[0].len() >= 1
    &&& is_rectangular(g, g[0].len() as int)
}

/// During backward induction over an `m`-row, `n`-column grid, a value can
/// be computed at row `i` of column `j` only when the row lies strictly
/// inside the grid's outer rows (the extremes have no up or down neighbour)
/// and within the reachable band, which narrows by one row on each side for
/// every column walked back from the terminal one.
pub open spec fn eligible_row(m: int, n: int, i: int, j: int) -> bool {
    &&& 0 < i < m - 1
    &&& n - j - 1 <= i
    &&& i + (n - j - 1) <= m - 1
}

/// Whether backward induction assigns a value at row `i`, column `j`: the
/// terminal column keeps exactly the cells whose price is defined, and an
/// earlier cell gets a value only when it is an eligible row, its own price
/// is defined, and all three successor cells carry values. A structural gap
/// propagates as a gap rather than as a made-up value.
pub open spec fn value_defined<T>(g: Seq<Seq<Option<T>>>, i: int, j: int) -> bool
    decreases g[0].len() - j,
    when 0 <= j < g[0].len()
{
    let m = g.len() as int;
    let n = g[0].len() as int;
    if j == n - 1 {
        0 <= i < m && g[i][j] is Some
    } else {
        &&& eligible_row(m, n, i, j)
        &&& g[i][j] is Some
        &&& value_defined(g, i - 1, j + 1)
        &&& value_defined(g, i, j + 1)
        &&& value_defined(g, i + 1, j + 1)
    }
}

/// The input-output relation of a payoff function value: `v` is a possible
/// payoff of the terminal price `p`.
pub open spec fn payoff_rel<T, FP: Fn(T) -> T>(payoff: FP) -> spec_fn(T, T) -> bool {
    |p: T, v: T| call_ensures(payoff, (p,), v)
}

/// The input-output relation of a one-step combination function value: `v`
/// is a possible discounted combination of the successor values `a` (up),
/// `b` (middle) and `c` (down).
pub open spec fn combine_rel<T, FC: Fn(T, T, T) -> T>(combine: FC) -> spec_fn(
    T,
    T,
    T,
    T,
) -> bool {
    |a: T, b: T, c: T, v: T| call_ensures(combine, (a, b, c), v)
}

/// `v` is a value backward induction can assign at row `i`, column `j`: at
/// the terminal column a payoff of the cell's price (`pays` relates a price
/// to its possible payoffs), and at earlier columns a one-step discounted
/// combination of three successor values (`combines` relates them to the
/// possible combined values).
pub open spec fn cell_valued<T>(
    g: Seq<Seq<Option<T>>>,
    pays: spec_fn(T, T) -> bool,
    combines: spec_fn(T, T, T, T) -> bool,
    i: int,
    j: int,
    v: T,
) -> bool
    decreases g[0].len() - j,
    when 0 <= j < g[0].len()
{
    let m = g.len() as int;
    let n = g[0].len() as int;
    if j == n - 1 {
        &&& 0 <= i < m
        &&& g[i][j] matches Some(p)
        &&& pays(p, v)
    } else {
        &&& eligible_row(m, n, i, j)
        &&& g[i][j] is Some
        &&& exists|a: T, b: T, c: T|
            cell_valued(g, pays, combines, i - 1, j + 1, a) && cell_valued(
                g,
                pays,
                combines,
                i,
                j + 1,
                b,
            ) && cell_valued(g, pays, combines, i + 1, j + 1, c) && #[trigger] combines(a, b, c, v)
    }
}

/// Any property that every payoff result has, and that the one-step
/// combination preserves, holds of every value backward induction assigns.
/// In particular, with a payoff that is non-negative everywhere and a
/// combination that keeps non-negativity (discounting by a non-negative
/// factor and weighting by non-negative probabilities does), the option
/// value at any reached cell — the root included — is non-negative.
pub proof fn lemma_induced_value_property<T>(
    g: Seq<Seq<Option<T>>>,
    pays: spec_fn(T, T) -> bool,
    combines: spec_fn(T, T, T, T) -> bool,
    q: spec_fn(T) -> bool,
    i: int,
    j: int,
    v: T,
)
    requires
        0 <= j < g[0].len(),
        cell_valued(g, pays, combines, i, j, v),
        forall|x: T, y: T| #[trigger] pays(x, y) ==> q(y),
        forall|a: T, b: T, c: T, y: T|
            q(a) && q(b) && q(c) && #[trigger] combines(a, b, c, y) ==> q(y),
    ensures
        q(v),
    decreases g[0].len() - j,
{
    let n = g[0].len() as int;
    if j < n - 1 {
        let (a, b, c) = choose|a: T, b: T, c: T|
            cell_valued(g, pays, combines, i - 1, j + 1, a) && cell_valued(
                g,
                pays,
                combines,
                i,
                j + 1,
                b,
            ) && cell_valued(g, pays, combines, i + 1, j + 1, c) && #[trigger] combines(a, b, c, v);
        lemma_induced_value_property(g, pays, combines, q, i - 1, j + 1, a);
        lemma_induced_value_property(g, pays, combines, q, i, j + 1, b);
        lemma_induced_value_property(g, pays, combines, q, i + 1, j + 1, c);
    }
}

/// A grid whose terminal column is entirely undefined gives backward
/// induction nothing to start from: no cell of any column — the root
/// included — ever receives a value, so valuation of such a grid must end
/// in a structure error rather than in a price.
pub proof fn lemma_empty_terminal_blocks<T>(g: Seq<Seq<Option<T>>>, i: int, j: int)
    requires
        0 <= j < g[0].len(),
        forall|t: int| 0 <= t < g.len() ==> (#[trigger] g[t])[g[0].len() - 1] is None,
    ensures
        !value_defined(g, i, j),
    decreases g[0].len() - j,
{
    let n = g[0].len() as int;
    if j < n - 1 {
        lemma_empty_terminal_blocks(g, i, j + 1);
    }
}

/// In a freshly built `n`-step lattice every cell of the reachable band is
/// assigned a value by backward induction: the triangular topology matches
/// the induction's narrowing band exactly, so no structural gap can appear.
pub proof fn lemma_lattice_band_valued<T>(g: Seq<Seq<Option<T>>>, n: int, i: int, j: int)
    requires
        n >= 0,
        lattice_shape(g, n),
        0 <= j <= n,
        n - j <= i <= n + j,
    ensures
        value_defined(g, i, j),
    decreases n - j,
{
    assert(g[0].len() == n + 1);
    if j == n {
        assert(g[i][j] is Some);
    } else {
        lemma_lattice_band_valued(g, n, i - 1, j + 1);
        lemma_lattice_band_valued(g, n, i, j + 1);
        lemma_lattice_band_valued(g, n, i + 1, j + 1);
        assert(g[i][j] is Some);
    }
}

/// The root of a freshly built `n`-step lattice is always reached by
/// backward induction, so valuing a built lattice never ends in a
/// structure error.
pub proof fn lemma_lattice_root_valued<T>(g: Seq<Seq<Option<T>>>, n: int)
    requires
        n >= 0,
        lattice_shape(g, n),
    ensures
        valid_grid(g),
        value_defined(g, g.len() as int / 2, 0),
{
    assert(g.len() as int / 2 == n);
    lemma_lattice_band_valued(g, n, n, 0);
}

/// Backward-induction valuation of a European-style option over a trinomial
/// price grid.
pub struct TrinomialOptionPricing;

impl TrinomialOptionPricing {
    /// Values an option over the price grid `s` by discounted backward
    /// induction.
    ///
    /// `payoff_func` maps a terminal price to the option's payoff there;
    /// `combine` maps the three successor values (up, middle, down) of a
    /// cell to the cell's own discounted value. For the trinomial model the
    /// caller bakes the discount factor and the risk-neutral probability
    /// weights, which it has validated beforehand, into `combine`.
    ///
    /// The grid must be non-empty and rectangular, else `InvalidInput`. The
    /// terminal column takes payoffs exactly where prices are defined;
    /// every earlier cell takes a combined value exactly where
    /// `value_defined` says so, and the root cell `(rows / 2, 0)` is handed
    /// back, or `TreeStructureError` when the topology never reaches it.
    pub fn price_option<T: Copy, FP: Fn(T) -> T, FC: Fn(T, T, T) -> T>(
        s: &Vec<Vec<Option<T>>>,
        payoff_func: FP,
        combine: FC,
    ) -> (r: Result<T, PricingError>)
        requires
            forall|x: T| call_requires(payoff_func, (x,)),
            forall|a: T, b: T, c: T| call_requires(combine, (a, b, c)),
        ensures
            (r matches Err(PricingError::InvalidInput(_))) <==> !valid_grid(grid_of(s)),
            (r matches Err(PricingError::TreeStructureError(_))) <==> (valid_grid(grid_of(s))
                && !value_defined(grid_of(s), grid_of(s).len() as int / 2, 0)),
            (r is Ok) <==> (valid_grid(grid_of(s)) && value_defined(
                grid_of(s),
                grid_of(s).len() as int / 2,
                0,
            )),
            !(r matches Err(PricingError::NumericalError(_))),
            r matches Ok(v) ==> cell_valued(
                grid_of(s),
                payoff_rel(payoff_func),
                combine_rel(combine),
                grid_of(s).len() as int / 2,
                0,
                v,
            ),
    {
        let m = s.len();
        if m == 0 {
            return Err(
                PricingError::InvalidInput("Stock price tree must not be empty".to_string()),
            );
        }
        let n = s[0].len();
        if n == 0 {
            return Err(
                PricingError::InvalidInput("Stock price tree must not be empty".to_string()),
            );
        }

        // The grid must be rectangular before anything is computed from it.
        let mut i: usize = 0;
        while i < m
            invariant
                m == s@.len(),
                n == s@[0]@.len(),
                i <= m,
                forall|t: int| 0 <= t < i ==> (#[trigger] s@[t])@.len() == n,
            decreases m - i,
        {
            if s[i].len() != n {
                proof {
                    assert(grid_of(s)[0] == s@[0]@);
                    assert(grid_of(s)[i as int] == s@[i as int]@);
                    assert(!valid_grid(grid_of(s)));
                }
                return Err(
                    PricingError::InvalidInput(
                        "Stock price tree must have consistent column lengths".to_string(),
                    ),
                );
            }
            i += 1;
        }
        proof {
            assert(grid_of(s)[0] == s@[0]@);
            assert(forall|t: int| 0 <= t < m ==> #[trigger] grid_of(s)[t] == s@[t]@);
            assert(valid_grid(grid_of(s)));
        }

        // Terminal payoffs: the last column keeps exactly the defined cells.
        let mut vals: Vec<Option<T>> = Vec::new();
        i = 0;
        while i < m
            invariant
                m == s@.len(),
                n == s@[0]@.len(),
                1 <= m,
                1 <= n,
                valid_grid(grid_of(s)),
                i <= m,
                vals@.len() == i,
                forall|x: T| call_requires(payoff_func, (x,)),
                forall|t: int|
                    0 <= t < i ==> ((#[trigger] vals@[t]) is Some <==> value_defined(
                        grid_of(s),
                        t,
                        n - 1,
                    )),
                forall|t: int|
                    0 <= t < i ==> ((#[trigger] vals@[t]) matches Some(v) ==> cell_valued(
                        grid_of(s),
                        payoff_rel(payoff_func),
                        combine_rel(combine),
                        t,
                        n - 1,
                        v,
                    )),
            decreases m - i,
        {
            let row = &s[i];
            proof {
                assert(grid_of(s)[i as int] == s@[i as int]@);
                assert(row@.len() == n);
            }
            match row[n - 1] {
                Some(p) => {
                    let pv = payoff_func(p);
                    proof {
                        assert(value_defined(grid_of(s), i as int, n - 1));
                        assert(payoff_rel(payoff_func)(p, pv));
                        assert(cell_valued(
                            grid_of(s),
                            payoff_rel(payoff_func),
                            combine_rel(combine),
                            i as int,
                            n - 1,
                            pv,
                        ));
                    }
                    vals.push(Some(pv));
                },
                None => {
                    proof {
                        assert(!value_defined(grid_of(s), i as int, n - 1));
                    }
                    vals.push(None);
                },
            }
            i += 1;
        }

        // Backward induction, one column at a time: `vals` always holds the
        // values of column `j`, and each pass computes column `j - 1` from
        // it.
        let mut j: usize = n - 1;
        while j > 0
            invariant
                m == s@.len(),
                n == s@[0]@.len(),
                1 <= m,
                1 <= n,
                valid_grid(grid_of(s)),
                j <= n - 1,
                vals@.len() == m,
                forall|x: T| call_requires(payoff_func, (x,)),
                forall|a: T, b: T, c: T| call_requires(combine, (a, b, c)),
                forall|t: int|
                    0 <= t < m ==> ((#[trigger] vals@[t]) is Some <==> value_defined(
                        grid_of(s),
                        t,
                        j as int,
                    )),
                forall|t: int|
                    0 <= t < m ==> ((#[trigger] vals@[t]) matches Some(v) ==> cell_valued(
                        grid_of(s),
                        payoff_rel(payoff_func),
                        combine_rel(combine),
                        t,
                        j as int,
                        v,
                    )),
            decreases j,
        {
            j -= 1;
            let lo = n - j - 1;
            let mut cur: Vec<Option<T>> = Vec::new();
            let mut i2: usize = 0;
            while i2 < m
                invariant
                    m == s@.len(),
                    n == s@[0]@.len(),
                    1 <= m,
                    j + 2 <= n,
                    lo == n - j - 1,
                    valid_grid(grid_of(s)),
                    vals@.len() == m,
                    i2 <= m,
                    cur@.len() == i2,
                    forall|x: T| call_requires(payoff_func, (x,)),
                    forall|a: T, b: T, c: T| call_requires(combine, (a, b, c)),
                    forall|t: int|
                        0 <= t < m ==> ((#[trigger] vals@[t]) is Some <==> value_defined(
                            grid_of(s),
                            t,
                            j + 1,
                        )),
                    forall|t: int|
                        0 <= t < m ==> ((#[trigger] vals@[t]) matches Some(v) ==> cell_valued(
                            grid_of(s),
                            payoff_rel(payoff_func),
                            combine_rel(combine),
                            t,
                            j + 1,
                            v,
                        )),
                    forall|t: int|
                        0 <= t < i2 ==> ((#[trigger] cur@[t]) is Some <==> value_defined(
                            grid_of(s),
                            t,
                            j as int,
                        )),
                    forall|t: int|
                        0 <= t < i2 ==> ((#[trigger] cur@[t]) matches Some(v) ==> cell_valued(
                            grid_of(s),
                            payoff_rel(payoff_func),
                            combine_rel(combine),
                            t,
                            j as int,
                            v,
                        )),
                decreases m - i2,
            {
                let mut out: Option<T> = None;
                proof {
                    assert(grid_of(s)[i2 as int] == s@[i2 as int]@);
                    assert(s@[i2 as int]@.len() == n);
                }
                if i2 > 0 && i2 + 1 < m && i2 >= lo && lo <= m - 1 - i2 {
                    let row = &s[i2];
                    if row[j].is_some() {
                        let up_v = vals[i2 - 1];
                        let mid_v = vals[i2];
                        let down_v = vals[i2 + 1];
                        if let (Some(a), Some(b), Some(c)) = (up_v, mid_v, down_v) {
                            let cv = combine(a, b, c);
                            out = Some(cv);
                            proof {
                                assert(combine_rel(combine)(a, b, c, cv));
                                assert(cell_valued(
                                    grid_of(s),
                                    payoff_rel(payoff_func),
                                    combine_rel(combine),
                                    i2 as int,
                                    j as int,
                                    cv,
                                ));
                            }
                        }
                    }
                }
                proof {
                    assert((out is Some) <==> value_defined(grid_of(s), i2 as int, j as int));
                }
                cur.push(out);
                i2 += 1;
            }
            vals = cur;
        }

        // The option price sits at the root of the grid.
        let root_row = m / 2;
        match vals[root_row] {
            Some(v) => Ok(v),
            None => Err(
                PricingError::TreeStructureError(
                    "Option price at root is None. Check input parameters.".to_string(),
                ),
            ),
        }
    }
}

} // verus!
