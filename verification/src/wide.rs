//! Unsigned 256-bit integers, wide enough to compare exactly the products
//! that the rate computations form.
use vstd::prelude::*;

verus! {

/// 2^64.
pub open spec fn base64() -> int {
    0x1_0000_0000_0000_0000
}

/// 2^128.
pub open spec fn base128() -> int {
    base64() * base64()
}

/// A non-negative integer below 2^256, held as two 128-bit limbs.
#[derive(Clone, Copy)]
pub struct U256 {
    pub hi: u128,
    pub lo: u128,
}

impl U256 {
    pub open spec fn value(self) -> int {
        self.hi * base128() + self.lo
    }
}

proof fn lemma_split(x: u128)
    ensures
        x == (x / 0x1_0000_0000_0000_0000) * base64() + x % 0x1_0000_0000_0000_0000,
        x / 0x1_0000_0000_0000_0000 < base64(),
        x % 0x1_0000_0000_0000_0000 < base64(),
{
    vstd::arithmetic::div_mod::lemma_fundamental_div_mod(x as int, base64());
}

proof fn lemma_product_expansion(a0: int, a1: int, b0: int, b1: int)
    ensures
        (a1 * base64() + a0) * (b1 * base64() + b0) == (a1 * b1) * base128() + (a0 * b1 + a1
            * b0) * base64() + a0 * b0,
{
    assert((a1 * base64() + a0) * (b1 * base64() + b0) == (a1 * b1) * (base64() * base64()) + (a0
        * b1 + a1 * b0) * base64() + a0 * b0) by (nonlinear_arith);
}

proof fn lemma_limb_product(x: int, y: int)
    requires
        0 <= x < base64(),
        0 <= y < base64(),
    ensures
        0 <= x * y <= (base64() - 1) * (base64() - 1),
{
    assert(0 <= x * y <= (base64() - 1) * (base64() - 1)) by (nonlinear_arith)
        requires
            0 <= x < base64(),
            0 <= y < base64(),
    ;
}

/// The exact product of two 128-bit integers.
pub fn mul_wide(a: u128, b: u128) -> (r: U256)
    ensures
        r.value() == a * b,
{
    let a0 = a % 0x1_0000_0000_0000_0000;
    let a1 = a / 0x1_0000_0000_0000_0000;
    let b0 = b % 0x1_0000_0000_0000_0000;
    let b1 = b / 0x1_0000_0000_0000_0000;
    proof {
        lemma_split(a);
        lemma_split(b);
        lemma_limb_product(a0 as int, b0 as int);
        lemma_limb_product(a0 as int, b1 as int);
        lemma_limb_product(a1 as int, b0 as int);
        lemma_limb_product(a1 as int, b1 as int);
    }
    let p00 = a0 * b0;
    let p01 = a0 * b1;
    let p10 = a1 * b0;
    let p11 = a1 * b1;
    let z0 = p00 % 0x1_0000_0000_0000_0000;
    let z1 = p00 / 0x1_0000_0000_0000_0000;
    let x0 = p01 % 0x1_0000_0000_0000_0000;
    let x1 = p01 / 0x1_0000_0000_0000_0000;
    let y0 = p10 % 0x1_0000_0000_0000_0000;
    let y1 = p10 / 0x1_0000_0000_0000_0000;
    proof {
        lemma_split(p00);
        lemma_split(p01);
        lemma_split(p10);
    }
    let s = x0 + y0 + z1;
    let s0 = s % 0x1_0000_0000_0000_0000;
    let c = s / 0x1_0000_0000_0000_0000;
    proof {
        lemma_split(s);
        assert(c <= 2);
        assert(p11 + x1 + y1 + c < base128());
        lemma_product_expansion(a0 as int, a1 as int, b0 as int, b1 as int);
        assert(a * b == p11 * base128() + (p01 + p10) * base64() + p00);
        assert((p01 + p10) * base64() == (x1 + y1) * base128() + (x0 + y0) * base64())
            by (nonlinear_arith)
            requires
                p01 == x1 * base64() + x0,
                p10 == y1 * base64() + y0,
                base128() == base64() * base64(),
        ;
        assert(s0 * base64() + z0 < base128()) by (nonlinear_arith)
            requires
                0 <= s0 < base64(),
                0 <= z0 < base64(),
                base128() == base64() * base64(),
        ;
        assert(s * base64() == c * base128() + s0 * base64()) by (nonlinear_arith)
            requires
                s == c * base64() + s0,
                base128() == base64() * base64(),
        ;
    }
    let lo = s0 * 0x1_0000_0000_0000_0000 + z0;
    let hi = p11 + x1 + y1 + c;
    U256 { hi, lo }
}

/// The exact sum of two wide integers whose sum stays below 2^256.
pub fn add_wide(x: U256, y: U256) -> (r: U256)
    requires
        x.value() + y.value() < base128() * base128(),
    ensures
        r.value() == x.value() + y.value(),
{
    match x.lo.checked_add(y.lo) {
        Some(lo) => {
            proof {
                assert(x.hi + y.hi < base128()) by (nonlinear_arith)
                    requires
                        x.hi * base128() + x.lo + y.hi * base128() + y.lo < base128() * base128(),
                        0 <= x.lo,
                        0 <= y.lo,
                        base128() > 0,
                ;
            }
            U256 { hi: x.hi + y.hi, lo }
        },
        None => {
            proof {
                assert(x.hi + y.hi + 1 < base128()) by (nonlinear_arith)
                    requires
                        x.hi * base128() + x.lo + y.hi * base128() + y.lo < base128() * base128(),
                        x.lo + y.lo >= base128(),
                        base128() > 0,
                ;
            }
            let lo = x.lo - (u128::MAX - y.lo) - 1;
            U256 { hi: x.hi + y.hi + 1, lo }
        },
    }
}

/// Whether `x <= y`.
pub fn le_wide(x: U256, y: U256) -> (r: bool)
    ensures
        r == (x.value() <= y.value()),
{
    if x.hi < y.hi {
        proof {
            assert(x.value() < y.value()) by (nonlinear_arith)
                requires
                    x.hi < y.hi,
                    0 <= x.lo < base128(),
                    0 <= y.lo,
                    x.value() == x.hi * base128() + x.lo,
                    y.value() == y.hi * base128() + y.lo,
            ;
        }
        true
    } else if x.hi > y.hi {
        proof {
            assert(x.value() > y.value()) by (nonlinear_arith)
                requires
                    x.hi > y.hi,
                    0 <= y.lo < base128(),
                    0 <= x.lo,
                    x.value() == x.hi * base128() + x.lo,
                    y.value() == y.hi * base128() + y.lo,
            ;
        }
        false
    } else {
        x.lo <= y.lo
    }
}

/// 2^256 - 1, the largest wide integer.
pub open spec fn wide_max() -> int {
    base128() * base128() - 1
}

/// `x * m`, or `wide_max()` where the product does not fit.
pub open spec fn saturating_product(x: int, m: int) -> int {
    if x * m <= wide_max() {
        x * m
    } else {
        wide_max()
    }
}

/// A 128-bit integer as a wide one.
pub fn widen(x: u128) -> (r: U256)
    ensures
        r.value() == x,
{
    U256 { hi: 0, lo: x }
}

/// `x - y`, for `y <= x`.
pub fn sub_wide(x: U256, y: U256) -> (r: U256)
    requires
        y.value() <= x.value(),
    ensures
        r.value() == x.value() - y.value(),
{
    if x.lo >= y.lo {
        proof {
            assert(x.hi >= y.hi) by (nonlinear_arith)
                requires
                    y.hi * base128() + y.lo <= x.hi * base128() + x.lo,
                    x.lo < base128(),
                    0 <= y.lo,
                    base128() > 0,
            ;
            assert(x.value() - y.value() == (x.hi - y.hi) * base128() + (x.lo - y.lo))
                by (nonlinear_arith)
                requires
                    x.value() == x.hi * base128() + x.lo,
                    y.value() == y.hi * base128() + y.lo,
            ;
        }
        U256 { hi: x.hi - y.hi, lo: x.lo - y.lo }
    } else {
        proof {
            assert(x.hi > y.hi) by (nonlinear_arith)
                requires
                    y.hi * base128() + y.lo <= x.hi * base128() + x.lo,
                    x.lo < y.lo,
                    base128() > 0,
            ;
            assert(x.value() - y.value() == (x.hi - y.hi - 1) * base128() + (base128() - y.lo
                + x.lo)) by (nonlinear_arith)
                requires
                    x.value() == x.hi * base128() + x.lo,
                    y.value() == y.hi * base128() + y.lo,
            ;
        }
        U256 { hi: x.hi - y.hi - 1, lo: (u128::MAX - y.lo) + x.lo + 1 }
    }
}

/// `x * m`, saturating at `wide_max()`.
pub fn mul_sat(x: U256, m: u128) -> (r: U256)
    ensures
        r.value() == saturating_product(x.value(), m as int),
{
    let p = mul_wide(x.lo, m);
    let q = mul_wide(x.hi, m);
    let top = U256 { hi: u128::MAX, lo: u128::MAX };
    proof {
        assert(x.value() * m == q.hi * base128() * base128() + (q.lo + p.hi) * base128() + p.lo)
            by (nonlinear_arith)
            requires
                x.value() == x.hi * base128() + x.lo,
                p.value() == x.lo * m,
                q.value() == x.hi * m,
                p.value() == p.hi * base128() + p.lo,
                q.value() == q.hi * base128() + q.lo,
        ;
        assert(top.value() == wide_max());
    }
    if q.hi != 0 {
        proof {
            assert(x.value() * m > wide_max()) by (nonlinear_arith)
                requires
                    x.value() * m == q.hi * base128() * base128() + (q.lo + p.hi) * base128()
                        + p.lo,
                    q.hi >= 1,
                    q.lo >= 0,
                    p.hi >= 0,
                    p.lo >= 0,
                    base128() > 0,
                    wide_max() == base128() * base128() - 1,
            ;
        }
        return top;
    }
    match q.lo.checked_add(p.hi) {
        Some(h) => {
            proof {
                assert(x.value() * m == h * base128() + p.lo);
                assert(h * base128() + p.lo <= wide_max()) by (nonlinear_arith)
                    requires
                        0 <= h < base128(),
                        0 <= p.lo < base128(),
                        wide_max() == base128() * base128() - 1,
                ;
            }
            U256 { hi: h, lo: p.lo }
        },
        None => {
            proof {
                assert(x.value() * m > wide_max()) by (nonlinear_arith)
                    requires
                        x.value() * m == (q.lo + p.hi) * base128() + p.lo,
                        q.lo + p.hi >= base128(),
                        p.lo >= 0,
                        base128() > 0,
                        wide_max() == base128() * base128() - 1,
                ;
            }
            top
        },
    }
}

/// The bases as numbers, and 2^244 is a wide integer.
pub proof fn lemma_wide_constants()
    ensures
        base64() == 0x1_0000_0000_0000_0000,
        base128() == 0x1_0000_0000_0000_0000_0000_0000_0000_0000int,
        0x10_0000_0000_0000_0000_0000_0000_0000_0000_0000_0000_0000_0000_0000_0000_0000int < wide_max(),
{
    assert(base128() == 0x1_0000_0000_0000_0000_0000_0000_0000_0000int);
    let b = base128();
    assert(0x10_0000_0000_0000_0000_0000_0000_0000int * b < b * b) by (nonlinear_arith)
        requires
            b == 0x1_0000_0000_0000_0000_0000_0000_0000_0000int,
    ;
    assert(0x10_0000_0000_0000_0000_0000_0000_0000int * b
        == 0x10_0000_0000_0000_0000_0000_0000_0000_0000_0000_0000_0000_0000_0000_0000_0000int);
}

/// `x * y < xb * yb` for `0 <= x < xb` and `0 <= y < yb`.
pub proof fn lemma_mul_below(x: int, y: int, xb: int, yb: int)
    requires
        0 <= x < xb,
        0 <= y < yb,
    ensures
        x * y < xb * yb,
{
    assert(x * y <= x * yb) by (nonlinear_arith)
        requires
            0 <= x,
            y < yb,
    ;
    assert(x * yb < xb * yb) by (nonlinear_arith)
        requires
            x < xb,
            0 < yb,
    ;
}

} // verus!
