use vstd::prelude::*;

verus! {

/// Row `i` of an `n`-step lattice is reachable at time-step `j` exactly when
/// it lies in the band of `j` rows on either side of the centre row `n`:
/// each step opens one more row above and one more below.
pub open spec fn in_band(n: int, i: int, j: int) -> bool {
    n - j <= i <= n + j
}

/// Every row of the grid has exactly `cols` cells.
pub open spec fn is_rectangular<T>(g: Seq<Seq<Option<T>>>, cols: int) -> bool {
    forall|i: int| 0 <= i < g.len() ==> (#[trigger] g[i]).len() == cols
}

/// The structural guarantee of a built `n`-step lattice: `2n+1` rows of
/// `n+1` cells each, and a cell is defined exactly when it lies in the
/// triangular band of reachable rows for its column.
pub open spec fn lattice_shape<T>(g: Seq<Seq<Option<T>>>, n: int) -> bool {
    &&& g.len() == 2 * n + 1
    &&& is_rectangular(g, n + 1)
    &&& forall|i: int, j: int|
        0 <= i < g.len() && 0 <= j < n + 1 ==> ((#[trigger] g[i][j]) is Some <==> in_band(n, i, j))
}

/// `y` is the `k`-fold image of `x0` under the function value `f`; that is,
/// `y` is a possible result of applying `f` to `x0` `k` times in a row.
pub open spec fn chain_of<T, F: Fn(T) -> T>(f: F, k: nat, x0: T, y: T) -> bool
    decreases k,
{
    if k == 0 {
        y == x0
    } else {
        exists|w: T| chain_of(f, (k - 1) as nat, x0, w) && call_ensures(f, (w,), y)
    }
}

/// The one price a row of the grid carries wherever it is defined: row
/// `n - k` carries the `k`-fold up image of the initial price and row
/// `n + k` the `k`-fold down image, with the chain values listed in `ups`
/// and `downs`.
spec fn band_row_value<T>(ups: Seq<T>, downs: Seq<T>, n: int, i: int) -> T {
    if i <= n {
        ups[n - i]
    } else {
        downs[i - n]
    }
}

/// A trinomial grid of possible asset prices: a rectangular store of
/// optional cells, triangular in the cells that are actually defined.
/// The centre row of column 0 holds the initial price; each time step adds
/// one reachable row above (an up move) and one below (a down move), while
/// every already reachable price rides unchanged along its row (the hold
/// move). A price therefore depends only on its row, which is why the grid
/// can be filled row by row.
#[derive(Debug)]
pub struct StockPriceTree<T> {
    tree: Vec<Vec<Option<T>>>,
    n_steps: usize,
}

impl<T> StockPriceTree<T> {
    /// The grid as a sequence of rows.
    pub closed spec fn grid(&self) -> Seq<Seq<Option<T>>> {
        Seq::new(self.tree@.len(), |i: int| self.tree@[i]@)
    }

    /// The number of time steps the grid was built for.
    pub closed spec fn steps(&self) -> int {
        self.n_steps as int
    }

    #[verifier::type_invariant]
    spec fn wf(self) -> bool {
        &&& lattice_shape(self.grid(), self.steps())
        &&& self.n_steps <= (usize::MAX - 1) / 2
    }

    /// The number of time steps.
    pub fn n_steps(&self) -> (r: usize)
        ensures
            r == self.steps(),
    {
        self.n_steps
    }

    /// A read-only view of the underlying grid of rows.
    pub fn get_tree(&self) -> (r: &Vec<Vec<Option<T>>>)
        ensures
            r@.len() == self.grid().len(),
            forall|i: int| 0 <= i < r@.len() ==> (#[trigger] r@[i])@ == self.grid()[i],
    {
        &self.tree
    }
}

impl<T: Copy> StockPriceTree<T> {
    /// Builds the price grid for `n` time steps from the initial price `s0`.
    ///
    /// `up` and `down` are the per-step moves applied to a price (for the
    /// usual trinomial model, multiplication by `e^{+volatility}` and
    /// `e^{-volatility}`); the hold move keeps a price unchanged. Each up or
    /// down move opens one fresh row whose price then rides unchanged along
    /// the hold path, so every row carries a single price wherever it is
    /// defined, and the grid is filled row by row.
    ///
    /// The result has `2n+1` rows of `n+1` cells, a cell is defined exactly
    /// when it is reachable (`in_band`), the centre row carries `s0`
    /// throughout, every row is constant where defined, and the outermost
    /// defined cell of row `n - k` (resp. `n + k`) carries a `k`-fold image
    /// of `s0` under `up` (resp. `down`).
    pub fn new<F: Fn(T) -> T, G: Fn(T) -> T>(s0: T, n: usize, up: F, down: G) -> (r: Self)
        requires
            n <= (usize::MAX - 1) / 2,
            forall|x: T| call_requires(up, (x,)),
            forall|x: T| call_requires(down, (x,)),
        ensures
            r.steps() == n,
            lattice_shape(r.grid(), n as int),
            forall|j: int| 0 <= j <= n ==> r.grid()[n as int][j] == Some(s0),
            forall|i: int, j1: int, j2: int|
                0 <= i < 2 * n + 1 && 0 <= j1 <= n && 0 <= j2 <= n && in_band(n as int, i, j1)
                    && in_band(n as int, i, j2) ==> r.grid()[i][j1] == r.grid()[i][j2],
            forall|i: int|
                0 <= i < n ==> {
                    &&& (#[trigger] r.grid()[i])[n as int] matches Some(v)
                    &&& chain_of(up, (n - i) as nat, s0, v)
                },
            forall|i: int|
                n < i <= 2 * n ==> {
                    &&& (#[trigger] r.grid()[i])[n as int] matches Some(v)
                    &&& chain_of(down, (i - n) as nat, s0, v)
                },
    {
        let rows = 2 * n + 1;
        let cols = n + 1;

        // The chain of up images of s0: ups[k] is s0 moved up k times.
        let mut ups: Vec<T> = Vec::new();
        ups.push(s0);
        let mut k: usize = 1;
        while k <= n
            invariant
                n <= (usize::MAX - 1) / 2,
                1 <= k <= n + 1,
                ups@.len() == k,
                forall|t: int| 0 <= t < k ==> chain_of(up, t as nat, s0, #[trigger] ups@[t]),
                forall|x: T| call_requires(up, (x,)),
            decreases n + 1 - k,
        {
            let prev = ups[k - 1];
            let next = up(prev);
            proof {
                assert(chain_of(up, (k - 1) as nat, s0, prev) && call_ensures(up, (prev,), next));
                assert(chain_of(up, k as nat, s0, next));
            }
            ups.push(next);
            k += 1;
        }

        // The chain of down images of s0.
        let mut downs: Vec<T> = Vec::new();
        downs.push(s0);
        k = 1;
        while k <= n
            invariant
                n <= (usize::MAX - 1) / 2,
                1 <= k <= n + 1,
                downs@.len() == k,
                forall|t: int| 0 <= t < k ==> chain_of(down, t as nat, s0, #[trigger] downs@[t]),
                forall|x: T| call_requires(down, (x,)),
            decreases n + 1 - k,
        {
            let prev = downs[k - 1];
            let next = down(prev);
            proof {
                assert(chain_of(down, (k - 1) as nat, s0, prev) && call_ensures(
                    down,
                    (prev,),
                    next,
                ));
                assert(chain_of(down, k as nat, s0, next));
            }
            downs.push(next);
            k += 1;
        }

        // Row i first becomes reachable at column |i - n| and keeps its one
        // price from there on.
        let mut tree: Vec<Vec<Option<T>>> = Vec::new();
        let mut i: usize = 0;
        while i < rows
            invariant
                rows == 2 * n + 1,
                cols == n + 1,
                n <= (usize::MAX - 1) / 2,
                ups@.len() == n + 1,
                downs@.len() == n + 1,
                ups@[0] == s0,
                downs@[0] == s0,
                forall|t: int| 0 <= t <= n ==> chain_of(up, t as nat, s0, #[trigger] ups@[t]),
                forall|t: int| 0 <= t <= n ==> chain_of(down, t as nat, s0, #[trigger] downs@[t]),
                i <= rows,
                tree@.len() == i,
                forall|ii: int| 0 <= ii < i ==> (#[trigger] tree@[ii])@.len() == cols,
                forall|ii: int, j: int|
                    0 <= ii < i && 0 <= j < cols ==> (#[trigger] tree@[ii]@[j]) == (
                    if in_band(n as int, ii, j) {
                        Some(band_row_value(ups@, downs@, n as int, ii))
                    } else {
                        None::<T>
                    }),
            decreases rows - i,
        {
            let dist = if i <= n {
                n - i
            } else {
                i - n
            };
            let v = if i <= n {
                ups[n - i]
            } else {
                downs[i - n]
            };
            let mut row: Vec<Option<T>> = Vec::new();
            let mut j: usize = 0;
            while j < cols
                invariant
                    j <= cols,
                    row@.len() == j,
                    dist == (if i <= n {
                        n - i
                    } else {
                        i - n
                    }),
                    v == band_row_value(ups@, downs@, n as int, i as int),
                    i <= 2 * n,
                    ups@.len() == n + 1,
                    downs@.len() == n + 1,
                    forall|t: int|
                        0 <= t < j ==> (#[trigger] row@[t]) == (
                        if dist <= t {
                            Some(v)
                        } else {
                            None::<T>
                        }),
                decreases cols - j,
            {
                if j < dist {
                    row.push(None);
                } else {
                    row.push(Some(v));
                }
                j += 1;
            }
            proof {
                assert(forall|j: int|
                    0 <= j < cols ==> (in_band(n as int, i as int, j) <==> dist <= j));
            }
            tree.push(row);
            i += 1;
        }

        let ghost tseq = tree@;
        proof {
            assert(lattice_shape(Seq::new(tseq.len(), |ii: int| tseq[ii]@), n as int));
        }
        let r = StockPriceTree { tree, n_steps: n };
        proof {
            assert(r.grid() =~= Seq::new(tseq.len(), |ii: int| tseq[ii]@));
            assert(forall|i: int|
                0 <= i < n ==> (#[trigger] r.grid()[i])[n as int] == Some(ups@[n - i]) && chain_of(
                    up,
                    (n - i) as nat,
                    s0,
                    ups@[n - i],
                ));
            assert(forall|i: int|
                n < i <= 2 * n ==> (#[trigger] r.grid()[i])[n as int] == Some(downs@[i - n])
                    && chain_of(down, (i - n) as nat, s0, downs@[i - n]));
        }
        r
    }

    /// The price at `(row, col)`, or `None` when the indices fall outside
    /// the grid or the cell is structurally unreachable.
    pub fn get_price(&self, row: usize, col: usize) -> (r: Option<T>)
        ensures
            r == (if row < self.grid().len() && col <= self.steps() {
                self.grid()[row as int][col as int]
            } else {
                None::<T>
            }),
    {
        proof {
            use_type_invariant(self);
            assert(self.grid().len() == self.tree@.len());
            assert(forall|i: int|
                0 <= i < self.tree@.len() ==> self.grid()[i] == (#[trigger] self.tree@[i])@);
        }
        if row < self.tree.len() && col < self.tree[0].len() {
            proof {
                assert(self.grid()[row as int].len() == self.steps() + 1);
            }
            self.tree[row][col]
        } else {
            None
        }
    }
}

} // verus!
