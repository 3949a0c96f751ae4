//! Exact fixed-point scalars.
//!
//! A finite scalar holds a raw mantissa `m` and denotes the number
//! `m / 65536`. Every operation is total and deterministic: whenever a
//! result cannot be represented (the reduced mantissa leaves `i64`, or a
//! division by zero occurs), the single absorbing value [`Scalar::NotFinite`]
//! is produced and propagates through all further arithmetic, much as a
//! floating-point overflow silently turns into an infinity or NaN.
//!
//! Products and quotients are truncated toward zero at the last fraction
//! bit; sums, differences, negations and integer values are exact.

use vstd::prelude::*;

verus! {

/// Raw mantissa of the scalar one: the fixed-point scale.
pub const ONE_RAW: i64 = 65536;

/// A fixed-point scalar: either a finite value `m / 65536`, or the
/// absorbing non-finite value.
#[derive(Clone, Copy, Debug, PartialEq, Eq, Structural)]
pub enum Scalar {
    Finite { m: i64 },
    NotFinite,
}

/// Whether a mathematical integer fits in an `i64` mantissa.
pub open spec fn fits_raw(x: int) -> bool {
    i64::MIN <= x <= i64::MAX
}

/// The finite scalar with mantissa `x` if it fits, and the non-finite
/// value otherwise.
pub open spec fn norm(x: int) -> Scalar {
    if fits_raw(x) {
        Scalar::Finite { m: x as i64 }
    } else {
        Scalar::NotFinite
    }
}

/// Truncation toward zero of `p / 65536`.
pub open spec fn tdiv_scale(p: int) -> int {
    if p >= 0 {
        p / 65536
    } else {
        -((-p) / 65536)
    }
}

/// Exact sum, normalized.
pub open spec fn sc_add(a: Scalar, b: Scalar) -> Scalar {
    if a is Finite && b is Finite {
        norm(a->m + b->m)
    } else {
        Scalar::NotFinite
    }
}

/// Exact difference, normalized.
pub open spec fn sc_sub(a: Scalar, b: Scalar) -> Scalar {
    if a is Finite && b is Finite {
        norm(a->m - b->m)
    } else {
        Scalar::NotFinite
    }
}

/// Product, truncated toward zero at the scale and normalized.
pub open spec fn sc_mul(a: Scalar, b: Scalar) -> Scalar {
    if a is Finite && b is Finite {
        norm(tdiv_scale(a->m * b->m))
    } else {
        Scalar::NotFinite
    }
}

/// Reciprocal `1 / a`, truncated toward zero. The reciprocal of zero and
/// of the non-finite value is non-finite.
pub open spec fn sc_recip(a: Scalar) -> Scalar {
    if a is Finite && a->m != 0 {
        if a->m > 0 {
            norm(0x1_0000_0000int / (a->m as int))
        } else {
            norm(-(0x1_0000_0000int / (-(a->m as int))))
        }
    } else {
        Scalar::NotFinite
    }
}

/// `a` raised to a natural power: repeated scalar multiplication,
/// starting from one. The zeroth power is one for every `a`.
pub open spec fn sc_pow_nat(a: Scalar, k: nat) -> Scalar
    decreases k,
{
    if k == 0 {
        Scalar::Finite { m: ONE_RAW }
    } else {
        sc_mul(sc_pow_nat(a, (k - 1) as nat), a)
    }
}

/// `a` raised to an integer power: a negative exponent is the reciprocal
/// of the positive power.
pub open spec fn sc_pow(a: Scalar, e: int) -> Scalar {
    if e >= 0 {
        sc_pow_nat(a, e as nat)
    } else {
        sc_recip(sc_pow_nat(a, (-e) as nat))
    }
}

/// Rectification: the greater of zero and `a`; non-finite passes through.
pub open spec fn sc_relu(a: Scalar) -> Scalar {
    if a is Finite && a->m < 0 {
        Scalar::Finite { m: 0 }
    } else {
        a
    }
}

/// The scalar whose value is the integer `i`.
pub open spec fn sc_from_int(i: int) -> Scalar {
    norm(i * 65536)
}

/// The scalar zero.
pub open spec fn sc_zero() -> Scalar {
    Scalar::Finite { m: 0 }
}

/// The scalar one.
pub open spec fn sc_one() -> Scalar {
    Scalar::Finite { m: ONE_RAW }
}

/// Hyperbolic tangent, defined in this exact arithmetic as the classic
/// odd rational approximation `x (27 + x^2) / (27 + 9 x^2)`, which meets
/// -1 and 1 exactly at -3 and 3 and is clamped there beyond.
pub open spec fn sc_tanh(a: Scalar) -> Scalar {
    if a is Finite {
        if a->m <= -196608 {
            Scalar::Finite { m: -65536i64 }
        } else if a->m >= 196608 {
            Scalar::Finite { m: 65536 }
        } else {
            let x2 = sc_mul(a, a);
            let num = sc_mul(a, sc_add(Scalar::Finite { m: 1769472i64 }, x2));
            let den = sc_add(
                Scalar::Finite { m: 1769472i64 },
                sc_mul(Scalar::Finite { m: 589824i64 }, x2),
            );
            sc_mul(num, sc_recip(den))
        }
    } else {
        Scalar::NotFinite
    }
}

/// Exponential, defined in this exact arithmetic as
/// `(1 + y + y^2 / 2) ^ 256` with `y = a / 256`: the squared-up
/// second-order expansion of the exponential at `a / 256`.
pub open spec fn sc_exp(a: Scalar) -> Scalar {
    if a is Finite {
        let y = sc_mul(a, Scalar::Finite { m: 256 });
        let y2h = sc_mul(sc_mul(y, y), Scalar::Finite { m: 32768 });
        sc_pow_nat(sc_add(sc_add(Scalar::Finite { m: ONE_RAW }, y), y2h), 256)
    } else {
        Scalar::NotFinite
    }
}

/// The magnitude of `x` as a mathematical integer.
pub open spec fn abs_i64(x: i64) -> int {
    if x < 0 {
        -(x as int)
    } else {
        x as int
    }
}

/// Magnitude of an `i64`, wide enough to hold `|i64::MIN|`.
fn abs64(x: i64) -> (r: u128)
    ensures
        r == abs_i64(x),
{
    if x < 0 {
        (-(x as i128)) as u128
    } else {
        x as u128
    }
}

/// A finite scalar from an `i128` mantissa, or non-finite if it does not fit.
fn norm128(x: i128) -> (r: Scalar)
    ensures
        r == norm(x as int),
{
    if -9223372036854775808i128 <= x && x <= 9223372036854775807i128 {
        Scalar::Finite { m: x as i64 }
    } else {
        Scalar::NotFinite
    }
}

/// A finite scalar of magnitude `q` and sign `neg`, or non-finite if the
/// mantissa does not fit.
fn norm_signed(neg: bool, q: u128) -> (r: Scalar)
    ensures
        r == norm(if neg { -(q as int) } else { q as int }),
{
    if neg {
        if q <= 9223372036854775808u128 {
            Scalar::Finite { m: (-(q as i128)) as i64 }
        } else {
            Scalar::NotFinite
        }
    } else {
        if q <= 9223372036854775807u128 {
            Scalar::Finite { m: q as i64 }
        } else {
            Scalar::NotFinite
        }
    }
}

impl Scalar {
    /// The scalar whose value is the integer `i`.
    pub fn from_int(i: i64) -> (r: Scalar)
        ensures
            r == sc_from_int(i as int),
    {
        norm128((i as i128) * 65536)
    }

    /// The finite scalar with raw mantissa `m`, that is the value `m / 65536`.
    pub fn from_raw(m: i64) -> (r: Scalar)
        ensures
            r == (Scalar::Finite { m }),
    {
        Scalar::Finite { m }
    }

    /// Whether the scalar is finite.
    pub fn is_finite(&self) -> (r: bool)
        ensures
            r == (*self is Finite),
    {
        match *self {
            Scalar::Finite { .. } => true,
            Scalar::NotFinite => false,
        }
    }

    /// The raw mantissa of a finite scalar.
    pub fn raw(&self) -> (r: i64)
        requires
            *self is Finite,
        ensures
            r == self->m,
    {
        match *self {
            Scalar::Finite { m } => m,
            Scalar::NotFinite => 0,
        }
    }

    /// The greatest integer not above a finite scalar's value.
    pub fn floor(&self) -> (r: i64)
        requires
            *self is Finite,
        ensures
            r == (self->m as int) / 65536,
    {
        let m: i64 = self.raw();
        if m >= 0 {
            ((m as u64) / 65536) as i64
        } else {
            let mag: u128 = abs64(m);
            let q: u128 = (mag + 65535) / 65536;
            proof {
                lemma_floor_neg(m as int, q as int);
            }
            (-(q as i128)) as i64
        }
    }

    /// Scalar addition.
    pub fn add(self, o: Scalar) -> (r: Scalar)
        ensures
            r == sc_add(self, o),
    {
        match (self, o) {
            (Scalar::Finite { m: a }, Scalar::Finite { m: b }) => {
                norm128((a as i128) + (b as i128))
            },
            _ => Scalar::NotFinite,
        }
    }

    /// Scalar subtraction.
    pub fn sub(self, o: Scalar) -> (r: Scalar)
        ensures
            r == sc_sub(self, o),
    {
        match (self, o) {
            (Scalar::Finite { m: a }, Scalar::Finite { m: b }) => {
                norm128((a as i128) - (b as i128))
            },
            _ => Scalar::NotFinite,
        }
    }

    /// Scalar multiplication, truncated toward zero at the scale.
    pub fn mul(self, o: Scalar) -> (r: Scalar)
        ensures
            r == sc_mul(self, o),
    {
        match (self, o) {
            (Scalar::Finite { m: a }, Scalar::Finite { m: b }) => {
                let neg: bool = (a < 0) != (b < 0);
                let ma: u128 = abs64(a);
                let mb: u128 = abs64(b);
                proof {
                    lemma_abs_mul(a as int, b as int, ma as int, mb as int);
                    assert((ma as int) * (mb as int) <= 0x8000_0000_0000_0000
                        * 0x8000_0000_0000_0000) by (nonlinear_arith)
                        requires
                            0 <= ma as int <= 0x8000_0000_0000_0000,
                            0 <= mb as int <= 0x8000_0000_0000_0000,
                    ;
                }
                let p: u128 = ma * mb;
                let q: u128 = p / 65536;
                proof {
                    lemma_tdiv_signs(a as int, b as int, p as int, q as int, neg);
                }
                norm_signed(neg, q)
            },
            _ => Scalar::NotFinite,
        }
    }

    /// Scalar reciprocal, truncated toward zero.
    pub fn recip(self) -> (r: Scalar)
        ensures
            r == sc_recip(self),
    {
        match self {
            Scalar::Finite { m: a } => {
                if a == 0 {
                    Scalar::NotFinite
                } else {
                    let mag: u128 = abs64(a);
                    let q: u128 = 0x1_0000_0000u128 / mag;
                    norm_signed(a < 0, q)
                }
            },
            Scalar::NotFinite => Scalar::NotFinite,
        }
    }

    /// Scalar power with an integer exponent: repeated multiplication,
    /// with the reciprocal taken for a negative exponent.
    pub fn powi(self, e: i64) -> (r: Scalar)
        ensures
            r == sc_pow(self, e as int),
    {
        let k: u64 = if e >= 0 {
            e as u64
        } else {
            (-(e as i128)) as u64
        };
        let mut acc: Scalar = Scalar::Finite { m: ONE_RAW };
        let mut i: u64 = 0;
        while i < k
            invariant
                i <= k,
                acc == sc_pow_nat(self, i as nat),
            decreases k - i,
        {
            acc = acc.mul(self);
            i = i + 1;
        }
        if e >= 0 {
            acc
        } else {
            acc.recip()
        }
    }

    /// Rectification: zero for a negative scalar, the scalar itself
    /// otherwise.
    pub fn relu(self) -> (r: Scalar)
        ensures
            r == sc_relu(self),
    {
        match self {
            Scalar::Finite { m } => {
                if m < 0 {
                    Scalar::Finite { m: 0 }
                } else {
                    self
                }
            },
            Scalar::NotFinite => Scalar::NotFinite,
        }
    }

    /// Hyperbolic tangent in this exact arithmetic: the odd rational
    /// approximation `x (27 + x^2) / (27 + 9 x^2)`, clamped to -1 and 1
    /// outside (-3, 3).
    pub fn tanh(self) -> (r: Scalar)
        ensures
            r == sc_tanh(self),
    {
        match self {
            Scalar::Finite { m } => {
                if m <= -3 * 65536 {
                    Scalar::Finite { m: -65536 }
                } else if m >= 3 * 65536 {
                    Scalar::Finite { m: 65536 }
                } else {
                    let x2: Scalar = self.mul(self);
                    let num: Scalar = self.mul(Scalar::Finite { m: 27 * 65536 }.add(x2));
                    let den: Scalar = Scalar::Finite { m: 27 * 65536 }.add(
                        Scalar::Finite { m: 9 * 65536 }.mul(x2),
                    );
                    num.mul(den.recip())
                }
            },
            Scalar::NotFinite => Scalar::NotFinite,
        }
    }

    /// Exponential in this exact arithmetic: `(1 + y + y^2 / 2) ^ 256`
    /// with `y = self / 256`.
    pub fn exp(self) -> (r: Scalar)
        ensures
            r == sc_exp(self),
    {
        match self {
            Scalar::Finite { .. } => {
                let y: Scalar = self.mul(Scalar::Finite { m: 256 });
                let y2h: Scalar = y.mul(y).mul(Scalar::Finite { m: 32768 });
                let base: Scalar = Scalar::Finite { m: ONE_RAW }.add(y).add(y2h);
                base.powi(256)
            },
            Scalar::NotFinite => Scalar::NotFinite,
        }
    }
}

/// Multiplication by minus one is exact: it flips the mantissa's sign.
pub proof fn lemma_mul_minus_one(s: Scalar)
    requires
        s is Finite,
        s->m > i64::MIN,
    ensures
        sc_mul(s, sc_from_int(-1)) == (Scalar::Finite { m: (-s->m) as i64 }),
{
    let m = s->m as int;
    assert(sc_from_int(-1) == (Scalar::Finite { m: -65536i64 }));
    assert(m * (-65536) == -(65536 * m)) by (nonlinear_arith);
    vstd::arithmetic::div_mod::lemma_div_multiples_vanish(m, 65536);
    if m >= 0 {
        if m == 0 {
            assert(tdiv_scale(0) == 0);
        } else {
            assert(tdiv_scale(-(65536 * m)) == -((65536 * m) / 65536));
        }
    } else {
        assert(-(65536 * m) >= 0) by (nonlinear_arith)
            requires
                m < 0,
        ;
        vstd::arithmetic::div_mod::lemma_div_multiples_vanish(-m, 65536);
        assert(-(65536 * m) == 65536 * (-m)) by (nonlinear_arith);
    }
}

/// The square of the scalar zero, taken as a power, is the scalar zero.
pub proof fn lemma_zero_squared()
    ensures
        sc_pow(sc_zero(), 2) == sc_zero(),
{
    reveal_with_fuel(sc_pow_nat, 4);
    assert(tdiv_scale(0) == 0);
    assert(sc_mul(sc_one(), sc_zero()) == sc_zero());
}

/// The magnitude of a product is the product of the magnitudes.
proof fn lemma_abs_mul(a: int, b: int, ma: int, mb: int)
    requires
        ma == (if a < 0 { -a } else { a }),
        mb == (if b < 0 { -b } else { b }),
    ensures
        a * b == (if (a < 0) != (b < 0) { -(ma * mb) } else { ma * mb }),
        ma * mb >= 0,
{
    assert(a * b == (if (a < 0) != (b < 0) { -(ma * mb) } else { ma * mb }) && ma * mb >= 0)
        by (nonlinear_arith)
        requires
            ma == (if a < 0 { -a } else { a }),
            mb == (if b < 0 { -b } else { b }),
    ;
}

/// Truncated division of a signed product, through its magnitude.
proof fn lemma_tdiv_signs(a: int, b: int, p: int, q: int, neg: bool)
    requires
        p >= 0,
        a * b == (if neg { -p } else { p }),
        q == p / 65536,
    ensures
        tdiv_scale(a * b) == (if neg { -q } else { q }),
{
    if neg {
        if p == 0 {
            assert(tdiv_scale(0) == 0);
        } else {
            assert(a * b == -p && -p < 0);
            assert(tdiv_scale(-p) == -(p / 65536));
        }
    }
}

/// Flooring a negative mantissa through the ceiling of its magnitude.
proof fn lemma_floor_neg(m: int, q: int)
    requires
        i64::MIN <= m < 0,
        q == (-m + 65535) / 65536,
    ensures
        -q == m / 65536,
        q <= 0x8000_0000_0000_0000,
        m >= -0x8000_0000_0000_0000 ==> -q >= i64::MIN,
{
    vstd::arithmetic::div_mod::lemma_fundamental_div_mod(-m + 65535, 65536);
    vstd::arithmetic::div_mod::lemma_fundamental_div_mod(m, 65536);
    assert(-q == m / 65536) by (nonlinear_arith)
        requires
            m < 0,
            -m + 65535 == 65536 * ((-m + 65535) / 65536) + (-m + 65535) % 65536,
            0 <= (-m + 65535) % 65536 < 65536,
            m == 65536 * (m / 65536) + m % 65536,
            0 <= m % 65536 < 65536,
            q == (-m + 65535) / 65536,
    ;
}

} // verus!
