use vstd::prelude::*;

verus! {

/// The largest order whose uniform difference operator, and the penalty built from it,
/// have all their entries within an `i64`.
pub const MAX_EXACT_ORDER: usize = 29;

/// Entry `(i, j)` of the order-`d` difference operator over equally spaced samples.
/// Order 0 is the identity; at order `d`, row `i` is row `i + 1` minus row `i` of the
/// order `d - 1` operator. Over `n` samples the operator has `n - d` rows and `n` columns.
pub open spec fn diff_entry(d: nat, i: int, j: int) -> int
    decreases d,
{
    if d == 0 {
        if i == j {
            1
        } else {
            0
        }
    } else {
        diff_entry((d - 1) as nat, i + 1, j) - diff_entry((d - 1) as nat, i, j)
    }
}

/// An entry depends only on how far its column lies past its row.
pub proof fn lemma_diff_entry_shift(d: nat, i: int, j: int)
    ensures
        diff_entry(d, i, j) == diff_entry(d, 0, j - i),
    decreases d,
{
    if d > 0 {
        lemma_diff_entry_shift((d - 1) as nat, i + 1, j);
        lemma_diff_entry_shift((d - 1) as nat, i, j);
        lemma_diff_entry_shift((d - 1) as nat, 1, j - i);
        lemma_diff_entry_shift((d - 1) as nat, 0, j - i);
    }
}

/// Within the band the coefficients alternate in sign, ending in `+1` on the last
/// column, and are bounded by `2^d`; outside it they vanish.
proof fn lemma_diff_coeff(d: nat)
    ensures
        forall|k: int|
            #![trigger diff_entry(d, 0, k)]
            (k < 0 || k > d) ==> diff_entry(d, 0, k) == 0,
        forall|k: int|
            #![trigger diff_entry(d, 0, k)]
            0 <= k <= d && (d - k) % 2 == 0 ==> 1 <= diff_entry(d, 0, k) <= pow2(d),
        forall|k: int|
            #![trigger diff_entry(d, 0, k)]
            0 <= k <= d && (d - k) % 2 == 1 ==> -pow2(d) <= diff_entry(d, 0, k) <= -1,
    decreases d,
{
    reveal(pow2);
    if d > 0 {
        let e = (d - 1) as nat;
        lemma_diff_coeff(e);
        assert forall|k: int| #![trigger diff_entry(d, 0, k)] true implies diff_entry(d, 0, k)
            == diff_entry(e, 0, k - 1) - diff_entry(e, 0, k) by {
            lemma_diff_entry_shift(e, 1, k);
        }
        assert(pow2(d) == 2 * pow2(e)) by {
            reveal(pow2);
        }
        assert forall|k: int| #![trigger diff_entry(d, 0, k)] 0 <= k <= d implies ((d - k) % 2
            == 0 ==> 1 <= diff_entry(d, 0, k) <= pow2(d)) && ((d - k) % 2 == 1 ==> -pow2(d)
            <= diff_entry(d, 0, k) <= -1) by {
            let a = diff_entry(e, 0, k - 1);
            let b = diff_entry(e, 0, k);
            if k == 0 {
                assert(b == diff_entry(e, 0, 0));
            } else if k == d {
                assert(a == diff_entry(e, 0, e as int));
            } else {
                assert(a == diff_entry(e, 0, k - 1));
                assert(b == diff_entry(e, 0, k));
            }
        }
    }
}

/// `2^d`, as a bound on the size of the coefficients.
#[verifier::opaque]
pub open spec fn pow2(d: nat) -> int
    decreases d,
{
    if d == 0 {
        1
    } else {
        2 * pow2((d - 1) as nat)
    }
}

proof fn lemma_pow2_mono(a: nat, b: nat)
    requires
        a <= b,
    ensures
        pow2(a) <= pow2(b),
        1 <= pow2(a),
    decreases b,
{
    reveal(pow2);
    if a < b {
        lemma_pow2_mono(a, (b - 1) as nat);
    } else if a > 0 {
        lemma_pow2_mono((a - 1) as nat, (a - 1) as nat);
    }
}

/// Every coefficient of an order within the exact range is at most `2^29` in size.
pub proof fn lemma_diff_entry_bound(d: nat, i: int, j: int)
    requires
        d <= MAX_EXACT_ORDER,
    ensures
        -0x2000_0000 <= diff_entry(d, i, j) <= 0x2000_0000,
{
    lemma_diff_entry_shift(d, i, j);
    lemma_diff_coeff(d);
    lemma_pow2_mono(d, 29);
    reveal_with_fuel(pow2, 30);
    assert(diff_entry(d, 0, j - i) == diff_entry(d, 0, j - i));
}

/// An entry of the operator is nonzero exactly on the band `i <= j <= i + d`.
pub proof fn lemma_diff_band(d: nat, i: int, j: int)
    ensures
        diff_entry(d, i, j) != 0 <==> i <= j <= i + d,
{
    lemma_diff_entry_shift(d, i, j);
    lemma_diff_coeff(d);
    assert(diff_entry(d, 0, j - i) == diff_entry(d, 0, j - i));
}

/// The coefficients of one row of the order-`d` difference operator over equally
/// spaced samples: entry `k` multiplies the sample `k` places past the row's first.
pub fn difference_coefficients(order: usize) -> (r: Vec<i64>)
    requires
        order <= MAX_EXACT_ORDER,
    ensures
        r@.len() == order + 1,
        forall|k: int| 0 <= k <= order ==> r@[k] as int == diff_entry(order as nat, 0, k),
{
    let mut row: Vec<i64> = vec![1i64];
    let mut d: usize = 0;
    proof {
        lemma_diff_coeff(0);
    }
    while d < order
        invariant
            d <= order <= MAX_EXACT_ORDER,
            row@.len() == d + 1,
            forall|k: int| 0 <= k <= d ==> row@[k] as int == diff_entry(d as nat, 0, k),
        decreases order - d,
    {
        let ghost e = d as nat;
        let ghost nd = (d + 1) as nat;
        proof {
            lemma_diff_coeff(e);
            lemma_pow2_mono(e, 28);
            reveal_with_fuel(pow2, 30);
        }
        let mut next: Vec<i64> = Vec::new();
        let mut k: usize = 0;
        while k <= d + 1
            invariant
                d < order <= MAX_EXACT_ORDER,
                e == d,
                nd == d + 1,
                k <= d + 2,
                row@.len() == d + 1,
                next@.len() == k,
                forall|m: int| 0 <= m <= d ==> row@[m] as int == diff_entry(e, 0, m),
                forall|m: int| 0 <= m < k ==> next@[m] as int == diff_entry(nd, 0, m),
                forall|m: int|
                    #![trigger diff_entry(e, 0, m)]
                    0 <= m <= e ==> -pow2(e) <= diff_entry(e, 0, m) <= pow2(e),
                forall|m: int|
                    #![trigger diff_entry(e, 0, m)]
                    (m < 0 || m > e) ==> diff_entry(e, 0, m) == 0,
                pow2(e) <= pow2(28),
                pow2(28) == 0x1000_0000,
            decreases d + 2 - k,
        {
            let left: i64 = if k >= 1 {
                row[k - 1]
            } else {
                0
            };
            let right: i64 = if k <= d {
                row[k]
            } else {
                0
            };
            proof {
                lemma_diff_entry_shift(e, 1, k as int);
                assert(left as int == diff_entry(e, 0, k - 1));
                assert(right as int == diff_entry(e, 0, k as int));
            }
            next.push(left - right);
            k = k + 1;
        }
        row = next;
        d = d + 1;
    }
    row
}

/// The nonzero entries of a sparse matrix in coordinate form, listed row by row.
pub struct Triplets {
    pub rows: Vec<usize>,
    pub cols: Vec<usize>,
    pub values: Vec<i64>,
}

/// The order-`order` difference operator over `n` equally spaced samples, as the
/// `(n - order) * (order + 1)` nonzero entries of its band, row by row and left to right
/// within a row. Every entry that it leaves out is zero (`lemma_diff_band`).
pub fn uniform_difference(n: usize, order: usize) -> (r: Triplets)
    requires
        order <= n,
        order <= MAX_EXACT_ORDER,
        (n - order) * (order + 1) <= usize::MAX,
    ensures
        r.rows@.len() == (n - order) * (order + 1),
        r.cols@.len() == r.rows@.len(),
        r.values@.len() == r.rows@.len(),
        forall|t: int|
            0 <= t < r.rows@.len() ==> {
                &&& r.rows@[t] == t / (order + 1)
                &&& r.cols@[t] == r.rows@[t] + t % (order + 1)
                &&& r.values@[t] as int == diff_entry(order as nat, r.rows@[t] as int, r.cols@[t] as int)
            },
{
    let coeffs = difference_coefficients(order);
    let width: usize = order + 1;
    let height: usize = n - order;
    let mut rows: Vec<usize> = Vec::new();
    let mut cols: Vec<usize> = Vec::new();
    let mut values: Vec<i64> = Vec::new();
    let mut i: usize = 0;
    while i < height
        invariant
            width == order + 1,
            height == n - order,
            height * width <= usize::MAX,
            i <= height,
            coeffs@.len() == width,
            forall|k: int| 0 <= k <= order ==> coeffs@[k] as int == diff_entry(order as nat, 0, k),
            rows@.len() == i * width,
            cols@.len() == rows@.len(),
            values@.len() == rows@.len(),
            forall|t: int|
                0 <= t < rows@.len() ==> {
                    &&& rows@[t] == t / (order + 1)
                    &&& cols@[t] == rows@[t] + t % (order + 1)
                    &&& values@[t] as int == diff_entry(order as nat, rows@[t] as int, cols@[t] as int)
                },
        decreases height - i,
    {
        proof {
            assert((i + 1) * width <= height * width) by (nonlinear_arith)
                requires
                    i < height,
            ;
        }
        let mut k: usize = 0;
        while k < width
            invariant
                width == order + 1,
                height == n - order,
                i < height,
                (i + 1) * width <= usize::MAX,
                k <= width,
                coeffs@.len() == width,
                forall|m: int| 0 <= m <= order ==> coeffs@[m] as int == diff_entry(order as nat, 0, m),
                rows@.len() == i * width + k,
                cols@.len() == rows@.len(),
                values@.len() == rows@.len(),
                forall|t: int|
                    0 <= t < rows@.len() ==> {
                        &&& rows@[t] == t / (order + 1)
                        &&& cols@[t] == rows@[t] + t % (order + 1)
                        &&& values@[t] as int == diff_entry(order as nat, rows@[t] as int, cols@[t] as int)
                    },
            decreases width - k,
        {
            proof {
                let t = i * width + k;
                assert(t / (order + 1) == i && t % (order + 1) == k) by (nonlinear_arith)
                    requires
                        t == i * width + k,
                        k < width,
                        width == order + 1,
                ;
                assert(i * width + k < (i + 1) * width) by (nonlinear_arith)
                    requires
                        k < width,
                ;
                lemma_diff_entry_shift(order as nat, i as int, (i + k) as int);
            }
            rows.push(i);
            cols.push(i + k);
            values.push(coeffs[k]);
            k = k + 1;
        }
        proof {
            assert(i * width + width == (i + 1) * width) by (nonlinear_arith);
        }
        i = i + 1;
    }
    Triplets { rows, cols, values }
}

} // verus!
