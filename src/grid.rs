use vstd::prelude::*;

use crate::errors::WhittakerError;

verus! {

/// Series up to this length get their hat-matrix diagonal from an exact dense inverse;
/// longer ones go through a reduced grid of this many samples.
pub const REDUCED_GRID_SIZE: usize = 100;

/// `p / q` rounded to the nearest integer, halves rounded up (`p >= 0`, `q > 0`).
pub open spec fn round_div(p: int, q: int) -> int {
    (2 * p + q) / (2 * q)
}

/// Whether the exact hat matrix is affordable for a series of length `n`.
pub fn uses_exact_hat(n: usize) -> (r: bool)
    ensures
        r == (n <= REDUCED_GRID_SIZE),
{
    n <= REDUCED_GRID_SIZE
}

/// Checks that the reduced grid can carry a penalty of the given order: it has
/// `REDUCED_GRID_SIZE` samples, so a larger order is `DataTooShort` on it.
pub fn check_reduced_order(order: usize) -> (r: Result<(), WhittakerError>)
    ensures
        r is Ok <==> order <= REDUCED_GRID_SIZE,
        r is Err ==> r->Err_0 == WhittakerError::DataTooShort(REDUCED_GRID_SIZE, order),
{
    if order > REDUCED_GRID_SIZE {
        Err(WhittakerError::DataTooShort(REDUCED_GRID_SIZE, order))
    } else {
        Ok(())
    }
}

/// The index maps of the approximate cross-validation of a series. Every index it holds
/// lies within the series or the reduced grid it points into.
pub struct ReducedGrid {
    len: usize,
    down: Vec<usize>,
    up: Vec<usize>,
    mid: usize,
    reduced_mid: usize,
}

impl ReducedGrid {
    /// The length of the series.
    pub closed spec fn spec_len(&self) -> nat {
        self.len as nat
    }

    /// For each sample of the reduced grid, the nearest sample of the series.
    pub closed spec fn spec_down(&self) -> Seq<usize> {
        self.down@
    }

    /// For each sample of the series, the nearest sample of the reduced grid.
    pub closed spec fn spec_up(&self) -> Seq<usize> {
        self.up@
    }

    /// The reference sample near the middle of the series.
    pub closed spec fn spec_mid(&self) -> nat {
        self.mid as nat
    }

    /// The reference sample near the middle of the reduced grid.
    pub closed spec fn spec_reduced_mid(&self) -> nat {
        self.reduced_mid as nat
    }

    #[verifier::type_invariant]
    spec fn inv(&self) -> bool {
        &&& self.down@.len() == REDUCED_GRID_SIZE
        &&& forall|k: int| 0 <= k < REDUCED_GRID_SIZE ==> self.down@[k] < self.len
        &&& self.up@.len() == self.len
        &&& forall|k: int| 0 <= k < self.len ==> self.up@[k] < REDUCED_GRID_SIZE
        &&& self.mid < self.len
        &&& self.reduced_mid < REDUCED_GRID_SIZE
    }

    /// The length of the series.
    pub fn series_len(&self) -> (r: usize)
        ensures
            r == self.spec_len(),
    {
        self.len
    }

    /// For each sample of the reduced grid, the nearest sample of the series.
    pub fn down(&self) -> (r: &Vec<usize>)
        ensures
            r@ == self.spec_down(),
            r@.len() == REDUCED_GRID_SIZE,
            forall|k: int| 0 <= k < r@.len() ==> r@[k] < self.spec_len(),
    {
        proof {
            use_type_invariant(self);
        }
        &self.down
    }

    /// For each sample of the series, the nearest sample of the reduced grid.
    pub fn up(&self) -> (r: &Vec<usize>)
        ensures
            r@ == self.spec_up(),
            r@.len() == self.spec_len(),
            forall|k: int| 0 <= k < r@.len() ==> r@[k] < REDUCED_GRID_SIZE,
    {
        proof {
            use_type_invariant(self);
        }
        &self.up
    }

    /// The reference sample near the middle of the series.
    pub fn mid(&self) -> (r: usize)
        ensures
            r == self.spec_mid(),
            r < self.spec_len(),
    {
        proof {
            use_type_invariant(self);
        }
        self.mid
    }

    /// The reference sample near the middle of the reduced grid.
    pub fn reduced_mid(&self) -> (r: usize)
        ensures
            r == self.spec_reduced_mid(),
            r < REDUCED_GRID_SIZE,
    {
        proof {
            use_type_invariant(self);
        }
        self.reduced_mid
    }

    /// The samples of a series (its positions or its weights) at the reduced grid.
    pub fn sample<T: Copy>(&self, data: &[T]) -> (r: Vec<T>)
        requires
            data@.len() == self.spec_len(),
        ensures
            r@.len() == REDUCED_GRID_SIZE,
            forall|k: int| 0 <= k < REDUCED_GRID_SIZE ==> r@[k] == data@[self.spec_down()[k] as int],
    {
        proof {
            use_type_invariant(self);
        }
        let mut r: Vec<T> = Vec::new();
        let mut k: usize = 0;
        while k < REDUCED_GRID_SIZE
            invariant
                k <= REDUCED_GRID_SIZE,
                self.down@.len() == REDUCED_GRID_SIZE,
                forall|m: int| 0 <= m < REDUCED_GRID_SIZE ==> self.down@[m] < data@.len(),
                self.spec_down() == self.down@,
                r@.len() == k,
                forall|m: int| 0 <= m < k ==> r@[m] == data@[self.down@[m] as int],
            decreases REDUCED_GRID_SIZE - k,
        {
            r.push(data[self.down[k]]);
            k = k + 1;
        }
        r
    }
}

/// Sample `x` of an evenly spread grid of `m` samples over `0..n` maps to `n`'s
/// nearest sample, which lies in range.
proof fn lemma_spread(x: int, n: int, m: int)
    requires
        0 <= x < m,
        2 <= m,
        2 <= n,
    ensures
        0 <= round_div(x * (n - 1), m - 1) < n,
{
    let p = x * (n - 1);
    let q = m - 1;
    assert(0 <= p <= q * (n - 1)) by (nonlinear_arith)
        requires
            0 <= x <= q,
            p == x * (n - 1),
            2 <= n,
    ;
    let r = (2 * p + q) / (2 * q);
    assert(0 <= r) by (nonlinear_arith)
        requires
            r == (2 * p + q) / (2 * q),
            0 <= p,
            1 <= q,
    ;
    assert(r < n) by (nonlinear_arith)
        requires
            r == (2 * p + q) / (2 * q),
            0 <= p <= q * (n - 1),
            1 <= q,
    {
        assert(2 * p + q < 2 * q * n) by (nonlinear_arith)
            requires
                0 <= p <= q * (n - 1),
                1 <= q,
        ;
    }
}

/// Mapping a sample of the reduced grid to its nearest sample of a longer series and
/// back again returns the grid sample it started from.
pub proof fn lemma_grid_round_trip(n: int, x: int)
    requires
        n > REDUCED_GRID_SIZE,
        0 <= x < REDUCED_GRID_SIZE,
    ensures
        round_div(round_div(x * (n - 1), REDUCED_GRID_SIZE - 1) * (REDUCED_GRID_SIZE - 1), n - 1)
            == x,
{
    let m = n - 1;
    let d = round_div(x * m, 99);
    assert(198 * d <= 2 * x * m + 99 < 198 * d + 198) by (nonlinear_arith)
        requires
            d == (2 * (x * m) + 99) / (198 as int),
    ;
    let e = 198 * d - 2 * x * m;
    assert(-99 < e <= 99);
    assert((2 * (d * 99) + m) / (2 * m) == x) by (nonlinear_arith)
        requires
            e == 198 * d - 2 * x * m,
            -99 < e <= 99,
            m >= 100,
    {
        assert(2 * (d * 99) + m == 2 * m * x + (e + m));
        assert(0 <= e + m < 2 * m);
    }
}

/// Evenly spreads `m` samples over `0..n`, each mapped to the nearest index.
fn spread(n: usize, m: usize) -> (r: Vec<usize>)
    requires
        2 <= n,
        2 <= m,
        n <= REDUCED_GRID_SIZE || m <= REDUCED_GRID_SIZE,
    ensures
        r@.len() == m,
        forall|x: int|
            0 <= x < m ==> r@[x] as int == round_div(x * (n - 1), m - 1) && r@[x] < n,
{
    let mut r: Vec<usize> = Vec::new();
    let mut x: usize = 0;
    while x < m
        invariant
            2 <= n,
            2 <= m,
            n <= REDUCED_GRID_SIZE || m <= REDUCED_GRID_SIZE,
            x <= m,
            r@.len() == x,
            forall|y: int|
                0 <= y < x ==> r@[y] as int == round_div(y * (n - 1), m - 1) && r@[y] < n,
        decreases m - x,
    {
        proof {
            assert((x as int) * ((n - 1) as int) <= 0x1_0000_0000_0000_0000 * 128)
                by (nonlinear_arith)
                requires
                    x < m,
                    m <= 0x1_0000_0000_0000_0000,
                    n <= 0x1_0000_0000_0000_0000,
                    n <= 128 || m <= 128,
            ;
            lemma_spread(x as int, n as int, m as int);
        }
        let p: u128 = (x as u128) * ((n - 1) as u128);
        let q: u128 = (m - 1) as u128;
        let v: u128 = (2 * p + q) / (2 * q);
        r.push(v as usize);
        x = x + 1;
    }
    r
}

/// The index maps for a series longer than the reduced grid: `down` samples the series
/// at the grid's evenly spread positions, `up` sends each sample of the series to the
/// nearest grid position, and the two references sit at `len / 2 - 1`.
pub fn reduced_grid(n: usize) -> (r: ReducedGrid)
    requires
        n > REDUCED_GRID_SIZE,
    ensures
        r.spec_len() == n,
        r.spec_down().len() == REDUCED_GRID_SIZE,
        forall|x: int|
            0 <= x < REDUCED_GRID_SIZE ==> r.spec_down()[x] as int == round_div(
                x * (n - 1),
                REDUCED_GRID_SIZE - 1,
            ),
        r.spec_up().len() == n,
        forall|x: int|
            0 <= x < n ==> r.spec_up()[x] as int == round_div(
                x * (REDUCED_GRID_SIZE - 1),
                n - 1,
            ),
        forall|x: int|
            0 <= x < REDUCED_GRID_SIZE ==> r.spec_up()[r.spec_down()[x] as int] == x,
        r.spec_mid() == n / 2 - 1,
        r.spec_reduced_mid() == REDUCED_GRID_SIZE / 2 - 1,
{
    let down = spread(n, REDUCED_GRID_SIZE);
    let up = spread(REDUCED_GRID_SIZE, n);
    assert forall|x: int| 0 <= x < REDUCED_GRID_SIZE implies up@[down@[x] as int] == x by {
        lemma_grid_round_trip(n as int, x);
    }
    ReducedGrid { len: n, down, up, mid: n / 2 - 1, reduced_mid: REDUCED_GRID_SIZE / 2 - 1 }
}

} // verus!
