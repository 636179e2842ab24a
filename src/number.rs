//! Exact decimal numbers: a mantissa scaled by a power of ten.

use vstd::prelude::*;

verus! {

/// Bound on the magnitude of the mantissa of a number written in a query
/// (exclusive).
pub const MANTISSA_LIMIT: i64 = 1_000_000_000_000_000_000;

/// The number `mantissa * 10^exponent`.
#[derive(Clone, Copy, Debug, PartialEq, Eq, Structural)]
pub struct Number {
    pub mantissa: i64,
    pub exponent: i64,
}

/// Ten to the power `n`.
pub open spec fn pow10(n: nat) -> int
    decreases n,
{
    if n == 0 {
        1
    } else {
        10 * pow10((n - 1) as nat)
    }
}

pub proof fn lemma_pow10_positive(n: nat)
    ensures
        pow10(n) >= 1,
    decreases n,
{
    if n > 0 {
        lemma_pow10_positive((n - 1) as nat);
    }
}

pub proof fn lemma_pow10_monotonic(a: nat, b: nat)
    requires
        a <= b,
    ensures
        pow10(a) <= pow10(b),
    decreases b,
{
    if a < b {
        lemma_pow10_monotonic(a, (b - 1) as nat);
        lemma_pow10_positive((b - 1) as nat);
    }
}

pub proof fn lemma_pow10_adds(a: nat, b: nat)
    ensures
        pow10(a + b) == pow10(a) * pow10(b),
    decreases a,
{
    if a > 0 {
        lemma_pow10_adds((a - 1) as nat, b);
        assert(pow10(a + b) == 10 * pow10((a - 1 + b) as nat));
        assert(10 * (pow10((a - 1) as nat) * pow10(b)) == (10 * pow10((a - 1) as nat)) * pow10(b))
            by (nonlinear_arith);
    }
}

pub proof fn lemma_pow10_values()
    ensures
        pow10(19) == 10_000_000_000_000_000_000,
        pow10(20) == 100_000_000_000_000_000_000,
{
    reveal_with_fuel(pow10, 21);
}

/// The smaller of the two exponents.
pub open spec fn min_exp(a: Number, b: Number) -> int {
    if a.exponent <= b.exponent {
        a.exponent as int
    } else {
        b.exponent as int
    }
}

/// `a` written over the common exponent of `a` and `b`.
pub open spec fn scaled(a: Number, b: Number) -> int {
    a.mantissa * pow10((a.exponent - min_exp(a, b)) as nat)
}

/// -1, 0 or 1 as `a` is less than, equal to or greater than `b`.
pub open spec fn num_cmp(a: Number, b: Number) -> int {
    let x = scaled(a, b);
    let y = scaled(b, a);
    if x < y {
        -1
    } else if x == y {
        0
    } else {
        1
    }
}

fn pow10_exec(d: u32) -> (r: i128)
    requires
        d <= 19,
    ensures
        r == pow10(d as nat),
        1 <= r <= 10_000_000_000_000_000_000,
{
    let mut r: i128 = 1;
    let mut i: u32 = 0;
    while i < d
        invariant
            i <= d <= 19,
            r == pow10(i as nat),
            1 <= r <= 10_000_000_000_000_000_000,
        decreases d - i,
    {
        proof {
            lemma_pow10_monotonic((i + 1) as nat, 19);
            lemma_pow10_values();
        }
        r = r * 10;
        i = i + 1;
    }
    r
}

/// Compares `x * 10^d` with `y`.
fn cmp_scaled(x: i64, d: i128, y: i64) -> (r: i8)
    requires
        d >= 0,
    ensures
        ({
            let lhs = x * pow10(d as nat);
            r == (if lhs < y {
                -1int
            } else if lhs == y {
                0int
            } else {
                1int
            })
        }),
{
    let ghost p = pow10(d as nat);
    proof {
        lemma_pow10_positive(d as nat);
    }
    if x == 0 {
        assert(x * p == 0);
        if 0 < y {
            -1
        } else if y == 0 {
            0
        } else {
            1
        }
    } else if d > 19 {
        proof {
            lemma_pow10_monotonic(20, d as nat);
            lemma_pow10_values();
            if x > 0 {
                assert(x * p >= p) by (nonlinear_arith)
                    requires
                        x >= 1,
                        p >= 1,
                ;
            } else {
                assert(x * p <= -p) by (nonlinear_arith)
                    requires
                        x <= -1,
                        p >= 1,
                ;
            }
        }
        if x > 0 {
            1
        } else {
            -1
        }
    } else {
        let q = pow10_exec(d as u32);
        proof {
            assert(-100_000_000_000_000_000_000_000_000_000_000_000_000 < x * q
                < 100_000_000_000_000_000_000_000_000_000_000_000_000) by (nonlinear_arith)
                requires
                    -10_000_000_000_000_000_000 < x < 10_000_000_000_000_000_000,
                    1 <= q <= 10_000_000_000_000_000_000,
            ;
        }
        let lhs: i128 = (x as i128) * q;
        let yy: i128 = y as i128;
        if lhs < yy {
            -1
        } else if lhs == yy {
            0
        } else {
            1
        }
    }
}

impl Number {
    /// -1, 0 or 1 as `self` is less than, equal to or greater than `o`.
    pub fn compare(&self, o: &Number) -> (r: i8)
        ensures
            r == num_cmp(*self, *o),
    {
        if self.exponent >= o.exponent {
            let d: i128 = self.exponent as i128 - o.exponent as i128;
            proof {
                assert(min_exp(*self, *o) == o.exponent);
                assert(scaled(*o, *self) == o.mantissa * pow10(0));
            }
            cmp_scaled(self.mantissa, d, o.mantissa)
        } else {
            let d: i128 = o.exponent as i128 - self.exponent as i128;
            proof {
                assert(min_exp(*self, *o) == self.exponent);
                assert(scaled(*self, *o) == self.mantissa * pow10(0));
            }
            let c = cmp_scaled(o.mantissa, d, self.mantissa);
            -c
        }
    }
}

} // verus!
