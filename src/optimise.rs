use vstd::prelude::*;

verus! {

/// The sign bit of an IEEE 754 binary64 encoding.
pub const SIGN_BIT: u64 = 0x8000_0000_0000_0000;

/// The encoding of positive infinity; every larger magnitude encodes a NaN.
pub const INFINITY_BITS: u64 = 0x7ff0_0000_0000_0000;

/// First and last smoothing strengths tried by the sweep, as powers of ten counted in
/// half decades: `10^(-10/2)` up to `10^(16/2)`.
pub const FIRST_HALF_DECADE: i64 = -10;

/// See [`FIRST_HALF_DECADE`].
pub const LAST_HALF_DECADE: i64 = 16;

/// The magnitude of the binary64 value encoded by `b`, as its encoding without the sign.
pub open spec fn magnitude(b: u64) -> int {
    b as int % (SIGN_BIT as int)
}

/// `b` encodes a NaN.
pub open spec fn is_nan(b: u64) -> bool {
    magnitude(b) > INFINITY_BITS as int
}

/// A key that orders the non-NaN binary64 values as their numbers are ordered: the
/// encodings of zero and of positive values grow with the value, those of negative
/// values grow with its magnitude.
pub open spec fn order_key(b: u64) -> int {
    if b < SIGN_BIT {
        magnitude(b)
    } else {
        -magnitude(b)
    }
}

/// `a < b` between the binary64 values that the two encodings stand for.
pub open spec fn f64_lt(a: u64, b: u64) -> bool {
    !is_nan(a) && !is_nan(b) && order_key(a) < order_key(b)
}

/// `a <= b` between the binary64 values that the two encodings stand for.
pub open spec fn f64_le(a: u64, b: u64) -> bool {
    !is_nan(a) && !is_nan(b) && order_key(a) <= order_key(b)
}

/// Compares two binary64 values given by their encodings, as `<` does.
pub fn bits_lt(a: u64, b: u64) -> (r: bool)
    ensures
        r == f64_lt(a, b),
{
    let ma: u64 = a % SIGN_BIT;
    let mb: u64 = b % SIGN_BIT;
    if ma > INFINITY_BITS || mb > INFINITY_BITS {
        return false;
    }
    let ka: i128 = if a < SIGN_BIT {
        ma as i128
    } else {
        -(ma as i128)
    };
    let kb: i128 = if b < SIGN_BIT {
        mb as i128
    } else {
        -(mb as i128)
    };
    ka < kb
}

/// Whether `b` encodes a NaN.
pub fn bits_is_nan(b: u64) -> (r: bool)
    ensures
        r == is_nan(b),
{
    b % SIGN_BIT > INFINITY_BITS
}

/// The index of the optimal entry among the cross-validation errors of a sweep, given
/// as binary64 encodings: the first entry whose error is least among all the errors
/// that are not NaN. When every error is NaN, or there is none, it is 0.
pub fn optimal_index(errors: &Vec<u64>) -> (r: usize)
    ensures
        (exists|j: int| 0 <= j < errors@.len() && !is_nan(errors@[j])) ==> {
            &&& r < errors@.len()
            &&& !is_nan(errors@[r as int])
            &&& forall|j: int|
                0 <= j < errors@.len() ==> !f64_lt(#[trigger] errors@[j], errors@[r as int])
            &&& forall|j: int| 0 <= j < r ==> !f64_le(#[trigger] errors@[j], errors@[r as int])
        },
        !(exists|j: int| 0 <= j < errors@.len() && !is_nan(errors@[j])) ==> r == 0,
{
    let mut best: usize = 0;
    let mut found: bool = false;
    let mut i: usize = 0;
    while i < errors.len()
        invariant
            i <= errors@.len(),
            found <==> exists|j: int| 0 <= j < i && !is_nan(errors@[j]),
            !found ==> best == 0,
            found ==> {
                &&& best < i
                &&& !is_nan(errors@[best as int])
                &&& forall|j: int|
                    0 <= j < i ==> !f64_lt(#[trigger] errors@[j], errors@[best as int])
                &&& forall|j: int| 0 <= j < best ==> !f64_le(#[trigger] errors@[j], errors@[best as int])
            },
        decreases errors@.len() - i,
    {
        let e = errors[i];
        if !found {
            if !bits_is_nan(e) {
                best = i;
                found = true;
            }
        } else if bits_lt(e, errors[best]) {
            best = i;
        }
        i = i + 1;
    }
    best
}

/// The exponents of the smoothing strengths that the sweep tries, in half decades:
/// the strength for entry `i` is `10^(r[i] / 2)`, from `1e-5` up to `1e8`.
pub fn lambda_half_decades() -> (r: Vec<i64>)
    ensures
        r@.len() == LAST_HALF_DECADE - FIRST_HALF_DECADE + 1,
        forall|i: int| 0 <= i < r@.len() ==> r@[i] == FIRST_HALF_DECADE + i,
{
    let mut r: Vec<i64> = Vec::new();
    let mut e: i64 = FIRST_HALF_DECADE;
    while e <= LAST_HALF_DECADE
        invariant
            FIRST_HALF_DECADE <= e <= LAST_HALF_DECADE + 1,
            r@.len() == e - FIRST_HALF_DECADE,
            forall|i: int| 0 <= i < r@.len() ==> r@[i] == FIRST_HALF_DECADE + i,
        decreases LAST_HALF_DECADE + 1 - e,
    {
        r.push(e);
        e = e + 1;
    }
    r
}

/// The number of samples kept when every fifth is taken from `n`, starting with the first.
pub open spec fn decimated_len(n: nat) -> nat {
    if n == 0 {
        0
    } else {
        ((n - 1) / 5 + 1) as nat
    }
}

/// Keeps every fifth sample, starting with the first: the sweep scores such a thinned
/// copy to break the serial correlation of a series.
pub fn every_fifth_element<T: Copy>(data: &[T]) -> (r: Vec<T>)
    ensures
        r@.len() == decimated_len(data@.len()),
        forall|i: int| 0 <= i < r@.len() ==> r@[i] == data@[5 * i],
{
    let mut r: Vec<T> = Vec::new();
    let mut i: usize = 0;
    while i < data.len()
        invariant
            i <= data@.len(),
            r@.len() == (i + 4) / 5,
            forall|k: int| 0 <= k < r@.len() ==> r@[k] == data@[5 * k],
        decreases data@.len() - i,
    {
        if i % 5 == 0 {
            r.push(data[i]);
        }
        i = i + 1;
    }
    r
}

} // verus!
