use vstd::prelude::*;

verus! {

/// One map unit (the side of one grid cell) in 16.16 fixed point.
pub const ONE: i64 = 65536;

/// The grid cell index containing the fixed-point coordinate `x`
/// (mathematical floor of `x / ONE`).
pub open spec fn cell_of(x: int) -> int {
    x / 65536
}

/// Cell index of a non-negative fixed-point coordinate.
pub fn cell_index(x: i64) -> (c: i64)
    requires
        x >= 0,
    ensures
        c == cell_of(x as int),
        0 <= c <= x,
        65536 * c <= x < 65536 * (c + 1),
{
    x / 65536
}

/// Fixed-point product truncated toward zero: `a * b / ONE` with the
/// magnitude rounded down.
pub open spec fn mul_fp(a: int, b: int) -> int {
    if a * b >= 0 {
        (a * b) / 65536
    } else {
        -((-(a * b)) / 65536)
    }
}

/// Fixed-point multiplication. The bounds keep every intermediate value
/// inside `i64`.
pub fn fp_mul(a: i64, b: i64) -> (r: i64)
    requires
        -0x4000_0000_0000_0000 < a < 0x4000_0000_0000_0000,
        -0x4000_0000_0000_0000 < b < 0x4000_0000_0000_0000,
        -0x4000_0000_0000_0000 < a as int * b < 0x4000_0000_0000_0000,
    ensures
        r == mul_fp(a as int, b as int),
        (a as int * b) >= 0 ==> 0 <= r <= a as int * b,
        (a as int * b) < 0 ==> a as int * b <= r <= 0,
        (a as int * b) >= 0 ==> 65536 * r <= a as int * b,
        (a as int * b) < 0 ==> 65536 * r >= a as int * b,
{
    proof {
        lemma_abs_mul(a as int, b as int);
    }
    let ma: i64 = if a < 0 { -a } else { a };
    let mb: i64 = if b < 0 { -b } else { b };
    let m: i64 = ma * mb;
    let q: i64 = m / 65536;
    if (a < 0) != (b < 0) {
        -q
    } else {
        q
    }
}

proof fn lemma_abs_mul(a: int, b: int)
    ensures
        (if a < 0 { -a } else { a }) * (if b < 0 { -b } else { b }) == (if a * b < 0 {
            -(a * b)
        } else {
            a * b
        }),
        a * b < 0 ==> ((a < 0) != (b < 0)),
        a * b > 0 ==> ((a < 0) == (b < 0)),
{
    assert((if a < 0 { -a } else { a }) * (if b < 0 { -b } else { b }) == (if a * b < 0 {
        -(a * b)
    } else {
        a * b
    })) by (nonlinear_arith);
    assert(a * b < 0 ==> ((a < 0) != (b < 0))) by (nonlinear_arith);
    assert(a * b > 0 ==> ((a < 0) == (b < 0))) by (nonlinear_arith);
}

/// Squared Euclidean distance between two fixed-point points, in units of
/// `ONE * ONE`.
pub open spec fn dist_sq(ax: int, ay: int, bx: int, by: int) -> int {
    (ax - bx) * (ax - bx) + (ay - by) * (ay - by)
}

/// Squared distance between two fixed-point points whose coordinates are
/// close enough together (any two in-grid positions are).
pub fn distance_sq(ax: i64, ay: i64, bx: i64, by: i64) -> (d: i64)
    requires
        -0x4000_0000 <= ax - bx <= 0x4000_0000,
        -0x4000_0000 <= ay - by <= 0x4000_0000,
    ensures
        d == dist_sq(ax as int, ay as int, bx as int, by as int),
        d >= 0,
        d <= 2 * (0x4000_0000 * 0x4000_0000),
{
    let dx: i64 = ax - bx;
    let dy: i64 = ay - by;
    proof {
        assert(dx * dx <= 0x4000_0000 * 0x4000_0000 && dx * dx >= 0) by (nonlinear_arith)
            requires
                -0x4000_0000 <= dx <= 0x4000_0000,
        ;
        assert(dy * dy <= 0x4000_0000 * 0x4000_0000 && dy * dy >= 0) by (nonlinear_arith)
            requires
                -0x4000_0000 <= dy <= 0x4000_0000,
        ;
    }
    dx * dx + dy * dy
}

/// Floor of the non-negative square root.
pub open spec fn sqrt_floor(n: int) -> int
    decreases n,
{
    if n <= 0 {
        0
    } else {
        let s = sqrt_floor(n - 1);
        if (s + 1) * (s + 1) <= n {
            s + 1
        } else {
            s
        }
    }
}

/// `sqrt_floor` is the greatest integer whose square does not exceed `n`.
pub proof fn lemma_sqrt_floor_bounds(n: int)
    requires
        n >= 0,
    ensures
        0 <= sqrt_floor(n),
        sqrt_floor(n) * sqrt_floor(n) <= n,
        n < (sqrt_floor(n) + 1) * (sqrt_floor(n) + 1),
    decreases n,
{
    if n == 0 {
    } else {
        lemma_sqrt_floor_bounds(n - 1);
        let s = sqrt_floor(n - 1);
        if (s + 1) * (s + 1) <= n {
            assert(n < ((s + 1) + 1) * ((s + 1) + 1)) by (nonlinear_arith)
                requires
                    0 <= s,
                    n - 1 < (s + 1) * (s + 1),
            ;
        }
    }
}

/// Any integer in the square-root window equals `sqrt_floor`.
pub proof fn lemma_sqrt_unique(n: int, r: int)
    requires
        n >= 0,
        r >= 0,
        r * r <= n,
        n < (r + 1) * (r + 1),
    ensures
        r == sqrt_floor(n),
{
    lemma_sqrt_floor_bounds(n);
    let s = sqrt_floor(n);
    assert(r == s) by (nonlinear_arith)
        requires
            r >= 0,
            s >= 0,
            r * r <= n,
            n < (r + 1) * (r + 1),
            s * s <= n,
            n < (s + 1) * (s + 1),
    ;
}

/// Integer square root: exactly `sqrt_floor(n)`.
pub fn isqrt(n: i64) -> (r: i64)
    requires
        n >= 0,
    ensures
        r == sqrt_floor(n as int),
        0 <= r,
        r * r <= n,
        n < (r + 1) * (r + 1),
{
    let mut lo: i64 = 0;
    let mut hi: i64 = if n < 3037000499 {
        n
    } else {
        3037000499
    };
    proof {
        assert((hi + 1) * (hi + 1) > n) by (nonlinear_arith)
            requires
                n >= 0,
                hi == (if n < 3037000499 { n as int } else { 3037000499 }),
        ;
    }
    while lo < hi
        invariant
            0 <= lo <= hi <= 3037000499,
            lo * lo <= n,
            n < (hi + 1) * (hi + 1),
        decreases hi - lo,
    {
        let mid: i64 = lo + (hi - lo + 1) / 2;
        proof {
            assert(mid * mid <= 3037000499 * 3037000499) by (nonlinear_arith)
                requires
                    0 <= mid <= 3037000499,
            ;
        }
        if mid * mid <= n {
            lo = mid;
        } else {
            hi = mid - 1;
        }
    }
    proof {
        lemma_sqrt_unique(n as int, lo as int);
    }
    lo
}

/// Fixed-point Euclidean distance between two points: the true distance
/// scaled by `ONE` and rounded down.
pub fn distance(ax: i64, ay: i64, bx: i64, by: i64) -> (d: i64)
    requires
        -0x4000_0000 <= ax - bx <= 0x4000_0000,
        -0x4000_0000 <= ay - by <= 0x4000_0000,
    ensures
        d == sqrt_floor(dist_sq(ax as int, ay as int, bx as int, by as int)),
        0 <= d <= 0x4000_0000 * 2,
{
    let dsq = distance_sq(ax, ay, bx, by);
    let r = isqrt(dsq);
    proof {
        assert(r <= 0x8000_0000) by (nonlinear_arith)
            requires
                r >= 0,
                r * r <= dsq,
                dsq <= 2 * (0x4000_0000 * 0x4000_0000),
        ;
    }
    r
}

} // verus!
