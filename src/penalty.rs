use vstd::prelude::*;

use crate::difference::{
    diff_entry, difference_coefficients, lemma_diff_band, lemma_diff_entry_bound,
    lemma_diff_entry_shift, MAX_EXACT_ORDER,
};

verus! {

/// `sum_{k < m} D[k][i] * D[k][j]` over the first `m` rows of the order-`d` operator.
pub open spec fn gram_prefix(d: nat, m: nat, i: int, j: int) -> int
    decreases m,
{
    if m == 0 {
        0
    } else {
        gram_prefix(d, (m - 1) as nat, i, j) + diff_entry(d, m - 1, i) * diff_entry(d, m - 1, j)
    }
}

/// The number of rows of the order-`d` difference operator over `n` samples.
pub open spec fn row_count(n: nat, d: nat) -> nat {
    if n >= d {
        (n - d) as nat
    } else {
        0
    }
}

/// Entry `(i, j)` of the penalty `DᵗD`, where `D` is the order-`d` difference operator
/// over `n` equally spaced samples.
pub open spec fn penalty_entry(n: nat, d: nat, i: int, j: int) -> int {
    gram_prefix(d, row_count(n, d), i, j)
}

/// The first column of the penalty's band on row `i`.
pub open spec fn band_lo(d: nat, i: int) -> int {
    if i >= d {
        i - d
    } else {
        0
    }
}

/// The last column of the penalty's band on row `i`, over `n` samples.
pub open spec fn band_hi(n: nat, d: nat, i: int) -> int {
    if i + d < n {
        i + d
    } else {
        n - 1
    }
}

/// The penalty is symmetric: `DᵗD` equals its own transpose, entry for entry.
pub proof fn lemma_penalty_symmetric(n: nat, d: nat, i: int, j: int)
    ensures
        penalty_entry(n, d, i, j) == penalty_entry(n, d, j, i),
{
    lemma_gram_symmetric(d, row_count(n, d), i, j);
}

proof fn lemma_gram_symmetric(d: nat, m: nat, i: int, j: int)
    ensures
        gram_prefix(d, m, i, j) == gram_prefix(d, m, j, i),
    decreases m,
{
    if m > 0 {
        lemma_gram_symmetric(d, (m - 1) as nat, i, j);
        assert(diff_entry(d, m - 1, i) * diff_entry(d, m - 1, j) == diff_entry(d, m - 1, j)
            * diff_entry(d, m - 1, i)) by (nonlinear_arith);
    }
}

/// Rows whose band misses column `i` or column `j` add nothing.
proof fn lemma_gram_term_zero(d: nat, k: int, i: int, j: int)
    requires
        k + d < i || k + d < j || k > i || k > j,
    ensures
        diff_entry(d, k, i) * diff_entry(d, k, j) == 0,
{
    lemma_diff_band(d, k, i);
    lemma_diff_band(d, k, j);
    if diff_entry(d, k, i) == 0 {
        assert(0 * diff_entry(d, k, j) == 0);
    } else {
        assert(diff_entry(d, k, i) * 0 == 0);
    }
}

proof fn lemma_gram_unchanged(d: nat, a: nat, b: nat, i: int, j: int)
    requires
        a <= b,
        forall|k: int|
            a <= k < b ==> #[trigger] (diff_entry(d, k, i) * diff_entry(d, k, j)) == 0,
    ensures
        gram_prefix(d, b, i, j) == gram_prefix(d, a, i, j),
    decreases b,
{
    if a < b {
        lemma_gram_unchanged(d, a, (b - 1) as nat, i, j);
        assert(diff_entry(d, b - 1, i) * diff_entry(d, b - 1, j) == 0);
    }
}

/// Outside the band `|i - j| <= d` the penalty vanishes.
pub proof fn lemma_penalty_band(n: nat, d: nat, i: int, j: int)
    requires
        i - j > d || j - i > d,
    ensures
        penalty_entry(n, d, i, j) == 0,
{
    assert forall|k: int| 0 <= k < row_count(n, d) implies #[trigger] (diff_entry(d, k, i)
        * diff_entry(d, k, j)) == 0 by {
        lemma_gram_term_zero(d, k, i, j);
    }
    lemma_gram_unchanged(d, 0, row_count(n, d), i, j);
}

/// One entry of the penalty, summed over the rows whose band holds both columns.
fn penalty_value(coeffs: &Vec<i64>, n: usize, d: usize, i: usize, j: usize) -> (r: i64)
    requires
        d <= MAX_EXACT_ORDER,
        d <= n,
        i < n,
        j < n,
        i <= j + d,
        j <= i + d,
        coeffs@.len() == d + 1,
        forall|k: int| 0 <= k <= d ==> coeffs@[k] as int == diff_entry(d as nat, 0, k),
    ensures
        r as int == penalty_entry(n as nat, d as nat, i as int, j as int),
{
    let ghost dn = d as nat;
    let top: usize = if i > j {
        i
    } else {
        j
    };
    let bottom: usize = if i < j {
        i
    } else {
        j
    };
    let lo: usize = if top >= d {
        top - d
    } else {
        0
    };
    let end: usize = if bottom + 1 < n - d {
        bottom + 1
    } else {
        n - d
    };
    proof {
        assert forall|k: int| 0 <= k < lo implies #[trigger] (diff_entry(dn, k, i as int)
            * diff_entry(dn, k, j as int)) == 0 by {
            lemma_gram_term_zero(dn, k, i as int, j as int);
        }
        lemma_gram_unchanged(dn, 0, lo as nat, i as int, j as int);
    }
    let mut acc: i64 = 0;
    let mut k: usize = lo;
    while k < end
        invariant
            dn == d,
            d <= MAX_EXACT_ORDER,
            i < n,
            j < n,
            lo <= k,
            k <= end || end <= lo,
            end <= lo ==> k == lo,
            end <= n - d,
            lo + d >= top,
            bottom <= i && bottom <= j,
            top >= i && top >= j,
            bottom == i || bottom == j,
            top == i || top == j,
            end <= bottom + 1,
            k <= bottom + 1,
            coeffs@.len() == d + 1,
            forall|m: int| 0 <= m <= d ==> coeffs@[m] as int == diff_entry(dn, 0, m),
            acc as int == gram_prefix(dn, k as nat, i as int, j as int),
            -(k - lo) * 0x400_0000_0000_0000 <= acc <= (k - lo) * 0x400_0000_0000_0000,
        decreases end - k,
    {
        proof {
            lemma_diff_entry_shift(dn, k as int, i as int);
            lemma_diff_entry_shift(dn, k as int, j as int);
            lemma_diff_entry_bound(dn, k as int, i as int);
            lemma_diff_entry_bound(dn, k as int, j as int);
            let a = diff_entry(dn, k as int, i as int);
            let b = diff_entry(dn, k as int, j as int);
            assert(-0x400_0000_0000_0000 <= a * b <= 0x400_0000_0000_0000) by (nonlinear_arith)
                requires
                    -0x2000_0000 <= a <= 0x2000_0000,
                    -0x2000_0000 <= b <= 0x2000_0000,
            ;
            assert(k - lo < 30);
        }
        let term: i64 = coeffs[i - k] * coeffs[j - k];
        acc = acc + term;
        k = k + 1;
    }
    proof {
        if end > lo {
            assert forall|m: int| end <= m < n - d implies #[trigger] (diff_entry(
                dn,
                m,
                i as int,
            ) * diff_entry(dn, m, j as int)) == 0 by {
                lemma_gram_term_zero(dn, m, i as int, j as int);
            }
            assert(row_count(n as nat, dn) == n - d);
            lemma_gram_unchanged(dn, end as nat, (n - d) as nat, i as int, j as int);
        } else {
            assert forall|m: int| 0 <= m < n - d implies #[trigger] (diff_entry(
                dn,
                m,
                i as int,
            ) * diff_entry(dn, m, j as int)) == 0 by {
                lemma_gram_term_zero(dn, m, i as int, j as int);
            }
            assert(row_count(n as nat, dn) == n - d);
            lemma_gram_unchanged(dn, 0, (n - d) as nat, i as int, j as int);
            lemma_gram_unchanged(dn, 0, lo as nat, i as int, j as int);
        }
    }
    acc
}

/// The penalty `DᵗD` of the order-`order` difference operator over `n` equally spaced
/// samples, row by row: row `i` lists `(column, value)` for every column of its band
/// `band_lo(order, i)..=band_hi(n, order, i)`, left to right. Entries outside the band
/// are zero (`lemma_penalty_band`), and the matrix is symmetric by construction
/// (`lemma_penalty_symmetric`).
pub fn uniform_penalty(n: usize, order: usize) -> (r: Vec<Vec<(usize, i64)>>)
    requires
        order <= n,
        order <= MAX_EXACT_ORDER,
    ensures
        r@.len() == n,
        forall|i: int|
            0 <= i < n ==> r@[i]@.len() == band_hi(n as nat, order as nat, i) - band_lo(
                order as nat,
                i,
            ) + 1,
        forall|i: int, t: int|
            0 <= i < n && 0 <= t < r@[i]@.len() ==> {
                &&& r@[i]@[t].0 == band_lo(order as nat, i) + t
                &&& r@[i]@[t].1 as int == penalty_entry(n as nat, order as nat, i, r@[i]@[t].0 as int)
            },
{
    let coeffs = difference_coefficients(order);
    let mut rows: Vec<Vec<(usize, i64)>> = Vec::new();
    let mut i: usize = 0;
    while i < n
        invariant
            order <= n,
            order <= MAX_EXACT_ORDER,
            i <= n,
            coeffs@.len() == order + 1,
            forall|k: int| 0 <= k <= order ==> coeffs@[k] as int == diff_entry(order as nat, 0, k),
            rows@.len() == i,
            forall|a: int|
                0 <= a < i ==> rows@[a]@.len() == band_hi(n as nat, order as nat, a) - band_lo(
                    order as nat,
                    a,
                ) + 1,
            forall|a: int, t: int|
                0 <= a < i && 0 <= t < rows@[a]@.len() ==> {
                    &&& rows@[a]@[t].0 == band_lo(order as nat, a) + t
                    &&& rows@[a]@[t].1 as int == penalty_entry(n as nat, order as nat, a, rows@[a]@[t].0 as int)
                },
        decreases n - i,
    {
        let lo: usize = if i >= order {
            i - order
        } else {
            0
        };
        let hi: usize = if order < n - i {
            i + order
        } else {
            n - 1
        };
        let mut row: Vec<(usize, i64)> = Vec::new();
        let mut j: usize = lo;
        while j <= hi
            invariant
                order <= n,
                order <= MAX_EXACT_ORDER,
                i < n,
                lo == band_lo(order as nat, i as int),
                hi == band_hi(n as nat, order as nat, i as int),
                lo <= j <= hi + 1,
                hi < n,
                coeffs@.len() == order + 1,
                forall|k: int| 0 <= k <= order ==> coeffs@[k] as int == diff_entry(order as nat, 0, k),
                row@.len() == j - lo,
                forall|t: int|
                    0 <= t < row@.len() ==> {
                        &&& row@[t].0 == lo + t
                        &&& row@[t].1 as int == penalty_entry(n as nat, order as nat, i as int, row@[t].0 as int)
                    },
            decreases hi + 1 - j,
        {
            let v = penalty_value(&coeffs, n, order, i, j);
            row.push((j, v));
            j = j + 1;
        }
        rows.push(row);
        i = i + 1;
    }
    rows
}

/// How many entries the first `i` rows hold together.
pub open spec fn stored_before(rows: Seq<Vec<(usize, i64)>>, i: int) -> int
    decreases i,
{
    if i <= 0 {
        0
    } else {
        stored_before(rows, i - 1) + rows[i - 1]@.len()
    }
}

proof fn lemma_stored_before_mono(rows: Seq<Vec<(usize, i64)>>, a: int, b: int)
    requires
        0 <= a <= b,
    ensures
        stored_before(rows, a) <= stored_before(rows, b),
    decreases b,
{
    if a < b {
        lemma_stored_before_mono(rows, a, b - 1);
    }
}

proof fn lemma_stored_before_bound(rows: Seq<Vec<(usize, i64)>>, i: int, w: int)
    requires
        0 <= i <= rows.len(),
        0 <= w,
        forall|a: int| 0 <= a < rows.len() ==> rows[a]@.len() <= w,
    ensures
        stored_before(rows, i) <= i * w,
    decreases i,
{
    if i > 0 {
        lemma_stored_before_bound(rows, i - 1, w);
        assert((i - 1) * w + w == i * w) by (nonlinear_arith);
    }
}

/// A square sparse matrix in compressed sparse row form: the entries of row `i` sit at
/// positions `indptr[i]..indptr[i + 1]` of `indices` (their columns) and `data`.
pub struct CompressedRows {
    pub indptr: Vec<usize>,
    pub indices: Vec<usize>,
    pub data: Vec<i64>,
}

/// Row `a` sits, in order, at positions `stored_before(rows, a)..stored_before(rows, a + 1)`
/// of `indices` and `data`.
pub open spec fn row_stored(
    rows: Seq<Vec<(usize, i64)>>,
    indices: Seq<usize>,
    data: Seq<i64>,
    a: int,
) -> bool {
    forall|t: int|
        #![trigger indices[t]]
        stored_before(rows, a) <= t < stored_before(rows, a + 1) ==> {
            &&& indices[t] == rows[a]@[t - stored_before(rows, a)].0
            &&& data[t] == rows[a]@[t - stored_before(rows, a)].1
        }
}

/// Lays rows of `(column, value)` pairs out one after another, in compressed sparse rows.
fn compress_rows(rows: &Vec<Vec<(usize, i64)>>) -> (r: CompressedRows)
    requires
        stored_before(rows@, rows@.len() as int) <= usize::MAX,
    ensures
        r.indptr@.len() == rows@.len() + 1,
        forall|i: int| 0 <= i <= rows@.len() ==> r.indptr@[i] == stored_before(rows@, i),
        r.indices@.len() == stored_before(rows@, rows@.len() as int),
        r.data@.len() == r.indices@.len(),
        forall|i: int| 0 <= i < rows@.len() ==> row_stored(rows@, r.indices@, r.data@, i),
{
    let mut indptr: Vec<usize> = vec![0usize];
    let mut indices: Vec<usize> = Vec::new();
    let mut data: Vec<i64> = Vec::new();
    let mut i: usize = 0;
    while i < rows.len()
        invariant
            i <= rows@.len(),
            stored_before(rows@, rows@.len() as int) <= usize::MAX,
            indptr@.len() == i + 1,
            forall|a: int| 0 <= a <= i ==> indptr@[a] == stored_before(rows@, a),
            indices@.len() == stored_before(rows@, i as int),
            data@.len() == indices@.len(),
            forall|a: int| 0 <= a < i ==> row_stored(rows@, indices@, data@, a),
        decreases rows@.len() - i,
    {
        let row = &rows[i];
        let ghost start = stored_before(rows@, i as int);
        let ghost before_indices = indices@;
        let ghost before_data = data@;
        proof {
            lemma_stored_before_mono(rows@, i + 1, rows@.len() as int);
        }
        let mut k: usize = 0;
        while k < row.len()
            invariant
                i < rows@.len(),
                row == rows@[i as int],
                start == stored_before(rows@, i as int),
                start + row@.len() == stored_before(rows@, i + 1),
                stored_before(rows@, i + 1) <= usize::MAX,
                k <= row@.len(),
                indices@.len() == start + k,
                data@.len() == start + k,
                before_indices.len() == start,
                forall|t: int| 0 <= t < start ==> indices@[t] == before_indices[t],
                forall|t: int| 0 <= t < start ==> data@[t] == before_data[t],
                forall|t: int|
                    start <= t < start + k ==> indices@[t] == row@[t - start].0 && data@[t]
                        == row@[t - start].1,
            decreases row@.len() - k,
        {
            indices.push(row[k].0);
            data.push(row[k].1);
            k = k + 1;
        }
        indptr.push(indices.len());
        proof {
            assert forall|a: int| 0 <= a < i + 1 implies row_stored(
                rows@,
                indices@,
                data@,
                a,
            ) by {
                if a < i {
                    lemma_stored_before_mono(rows@, a + 1, i as int);
                    assert(row_stored(rows@, before_indices, before_data, a));
                    assert forall|t: int|
                        #![trigger indices@[t]]
                        stored_before(rows@, a) <= t < stored_before(rows@, a + 1) implies {
                        &&& indices@[t] == rows@[a]@[t - stored_before(rows@, a)].0
                        &&& data@[t] == rows@[a]@[t - stored_before(rows@, a)].1
                    } by {
                        assert(before_indices[t] == rows@[a]@[t - stored_before(rows@, a)].0);
                    }
                }
            }
        }
        i = i + 1;
    }
    CompressedRows { indptr, indices, data }
}

/// The penalty of [`uniform_penalty`] in compressed sparse row form: row `i` holds every
/// column of its band, in order, with its entry of `DᵗD`.
pub fn uniform_penalty_csr(n: usize, order: usize) -> (r: CompressedRows)
    requires
        order <= n,
        order <= MAX_EXACT_ORDER,
        n * (2 * order + 1) <= usize::MAX,
    ensures
        r.indptr@.len() == n + 1,
        r.indptr@[0] == 0,
        forall|i: int|
            0 <= i < n ==> r.indptr@[i + 1] - r.indptr@[i] == band_hi(n as nat, order as nat, i)
                - band_lo(order as nat, i) + 1,
        r.indices@.len() == r.indptr@[n as int],
        r.data@.len() == r.indptr@[n as int],
        forall|i: int, t: int|
            #![trigger r.indptr@[i], r.indices@[t]]
            0 <= i < n && r.indptr@[i] <= t < r.indptr@[i + 1] ==> {
                &&& r.indices@[t] == band_lo(order as nat, i) + (t - r.indptr@[i])
                &&& r.data@[t] as int == penalty_entry(
                    n as nat,
                    order as nat,
                    i,
                    r.indices@[t] as int,
                )
            },
{
    let rows = uniform_penalty(n, order);
    proof {
        assert forall|a: int| 0 <= a < rows@.len() implies rows@[a]@.len() <= 2 * order + 1 by {
            assert(rows@[a]@.len() == band_hi(n as nat, order as nat, a) - band_lo(order as nat, a)
                + 1);
        }
        lemma_stored_before_bound(rows@, n as int, 2 * order + 1);
    }
    let r = compress_rows(&rows);
    proof {
        assert(stored_before(rows@, 0) == 0);
        assert forall|i: int| 0 <= i < n implies r.indptr@[i + 1] - r.indptr@[i] == band_hi(
            n as nat,
            order as nat,
            i,
        ) - band_lo(order as nat, i) + 1 by {
            assert(stored_before(rows@, i + 1) == stored_before(rows@, i) + rows@[i]@.len());
        }
        assert forall|i: int, t: int|
            #![trigger r.indptr@[i], r.indices@[t]]
            0 <= i < n && r.indptr@[i] <= t < r.indptr@[i + 1] implies {
                &&& r.indices@[t] == band_lo(order as nat, i) + (t - r.indptr@[i])
                &&& r.data@[t] as int == penalty_entry(
                    n as nat,
                    order as nat,
                    i,
                    r.indices@[t] as int,
                )
            } by {
            assert(r.indptr@[i] == stored_before(rows@, i));
            assert(r.indptr@[i + 1] == stored_before(rows@, i + 1));
            assert(stored_before(rows@, i + 1) == stored_before(rows@, i) + rows@[i]@.len());
            let k = t - stored_before(rows@, i);
            assert(0 <= k < rows@[i]@.len());
            assert(row_stored(rows@, r.indices@, r.data@, i));
            assert(r.indices@[t] == rows@[i]@[k].0);
            assert(r.data@[t] == rows@[i]@[k].1);
            assert(rows@[i]@[k].0 == band_lo(order as nat, i) + k);
        }
    }
    r
}

} // verus!
