//! Numbers as the library holds them.
//!
//! Script numbers are IEEE-754 doubles. The library never computes with
//! doubles: it carries a double as its 64-bit pattern and works exactly on
//! the doubles that are integers of magnitude below 2^53, where integer
//! arithmetic and double arithmetic agree. Everything else is left to the
//! embedding (see `eval::Host`).

use vstd::arithmetic::power2::{lemma2_to64, lemma2_to64_rest, lemma_pow2_pos, lemma_pow2_unfold, pow2};
use vstd::prelude::*;

verus! {

/// Integers of magnitude below this bound are held exactly by a double.
pub const SAFE_INTEGER_LIMIT: i64 = 9007199254740992;

/// A JSON number: an integer, or a double given by its bit pattern.
#[derive(Clone, Copy, Debug, PartialEq, Eq, Structural)]
pub enum Number {
    Int(i64),
    Float(u64),
}

/// How two numbers compare.
#[derive(Clone, Copy, Debug, PartialEq, Eq, Structural)]
pub enum Comparison {
    Less,
    Equal,
    Greater,
    Unordered,
}

/// The binary arithmetic operations of the script language.
#[derive(Clone, Copy, Debug, PartialEq, Eq, Structural)]
pub enum MathOp {
    Add,
    Sub,
    Mul,
    Div,
    Mod,
    Pow,
}

/// The sign bit of a double's pattern.
pub open spec fn sign_field(bits: u64) -> int {
    bits as int / 0x8000_0000_0000_0000
}

/// The biased exponent of a double's pattern.
pub open spec fn exponent_field(bits: u64) -> int {
    (bits as int / 0x10_0000_0000_0000) % 2048
}

/// The fraction field of a double's pattern.
pub open spec fn fraction_field(bits: u64) -> int {
    bits as int % 0x10_0000_0000_0000
}

/// The integer that the double with pattern `bits` equals, when it is an
/// integer of magnitude below 2^53 other than negative zero.
pub open spec fn integer_of_bits(bits: u64) -> Option<int> {
    let e = exponent_field(bits);
    let f = fraction_field(bits);
    if e == 0 {
        if f == 0 && sign_field(bits) == 0 {
            Some(0)
        } else {
            None
        }
    } else if 1023 <= e <= 1075 {
        let significand = 0x10_0000_0000_0000 + f;
        let scale = pow2((1075 - e) as nat) as int;
        if significand % scale == 0 {
            if sign_field(bits) == 1 {
                Some(-(significand / scale))
            } else {
                Some(significand / scale)
            }
        } else {
            None
        }
    } else {
        None
    }
}

/// Whether `n` is an integer that a double holds exactly and that the
/// library computes with.
pub open spec fn is_safe(n: int) -> bool {
    -SAFE_INTEGER_LIMIT < n < SAFE_INTEGER_LIMIT
}

/// The magnitude of an integer.
pub open spec fn magnitude(n: int) -> int {
    if n < 0 {
        -n
    } else {
        n
    }
}

/// The result of `op` on two integers, where double arithmetic gives an
/// integer for it that no rounding, sign-of-zero or remainder convention
/// affects: sums, differences and products; a quotient where the divisor
/// divides the dividend; a remainder of a dividend that is not negative
/// by a positive divisor. A zero that double arithmetic would give a
/// negative sign is left out, and so are powers, whose precision no
/// floating-point library promises.
pub open spec fn exact_result(op: MathOp, a: int, b: int) -> Option<int> {
    match op {
        MathOp::Add => Some(a + b),
        MathOp::Sub => Some(a - b),
        MathOp::Mul => if a * b != 0 || (a >= 0 && b >= 0) {
            Some(a * b)
        } else {
            None
        },
        MathOp::Div => if b != 0 && magnitude(a) % magnitude(b) == 0 && (a != 0 || b > 0) {
            Some(
                if (a < 0) == (b < 0) {
                    magnitude(a) / magnitude(b)
                } else {
                    -(magnitude(a) / magnitude(b))
                },
            )
        } else {
            None
        },
        MathOp::Mod => if a >= 0 && b > 0 {
            Some(a % b)
        } else {
            None
        },
        MathOp::Pow => None,
    }
}

/// What `Number::exact` returns: the exact result as an integer when both
/// operands are safe integers and the result is one too.
pub open spec fn exact_number(op: MathOp, a: Number, b: Number) -> Option<Number> {
    match (a.as_integer(), b.as_integer()) {
        (Some(x), Some(y)) => match exact_result(op, x, y) {
            Some(v) => if is_safe(v) {
                Some(Number::Int(v as i64))
            } else {
                None
            },
            None => None,
        },
        _ => None,
    }
}

/// How two safe integers compare; `None` when either number is not one.
pub open spec fn exact_comparison(a: Number, b: Number) -> Option<Comparison> {
    match (a.as_integer(), b.as_integer()) {
        (Some(x), Some(y)) => Some(
            if x < y {
                Comparison::Less
            } else if x == y {
                Comparison::Equal
            } else {
                Comparison::Greater
            },
        ),
        _ => None,
    }
}

/// The double nearest to a safe integer is that integer.
pub proof fn lemma_bits_of_safe_integer(n: int)
    requires
        is_safe(n),
    ensures
        0 <= bits_of_integer(n) <= u64::MAX,
        integer_of_bits(bits_of_integer(n) as u64) == Some(n),
{
    lemma2_to64();
    lemma2_to64_rest();
    if n != 0 {
        let a: nat = if n < 0 {
            (-n) as nat
        } else {
            n as nat
        };
        let p = top_bit(a);
        lemma_top_bit(a);
        if p > 52 {
            vstd::arithmetic::power2::lemma_pow2_strictly_increases(52, p);
            lemma_pow2_unfold(53);
            if p > 53 {
                vstd::arithmetic::power2::lemma_pow2_strictly_increases(53, p);
            }
        }
        assert(p <= 52);
        let scale = pow2((52 - p) as nat) as int;
        let s = a * scale;
        lemma_pow2_pos((52 - p) as nat);
        vstd::arithmetic::power2::lemma_pow2_adds(p, (52 - p) as nat);
        vstd::arithmetic::power2::lemma_pow2_adds(p + 1, (52 - p) as nat);
        lemma_pow2_unfold(53);
        assert(0x10_0000_0000_0000 <= s < 0x20_0000_0000_0000) by (nonlinear_arith)
            requires
                s == a * scale,
                scale > 0,
                pow2(p) <= a < pow2(p + 1),
                pow2(p) * scale == 0x10_0000_0000_0000,
                pow2(p + 1) * scale == 0x20_0000_0000_0000,
        ;
        let sign: int = if n < 0 {
            1
        } else {
            0
        };
        let e = p + 1023;
        let f = s - 0x10_0000_0000_0000;
        let bits = sign * 0x8000_0000_0000_0000 + e * 0x10_0000_0000_0000 + f;
        assert(bits == bits_of_integer(n));
        assert(0 <= bits <= u64::MAX && bits / 0x8000_0000_0000_0000 == sign && (bits
            / 0x10_0000_0000_0000) % 2048 == e && bits % 0x10_0000_0000_0000 == f)
            by (nonlinear_arith)
            requires
                bits == sign * 0x8000_0000_0000_0000 + e * 0x10_0000_0000_0000 + f,
                0 <= sign <= 1,
                1023 <= e <= 1075,
                0 <= f < 0x10_0000_0000_0000,
        ;
        assert(s % scale == 0 && s / scale == a) by (nonlinear_arith)
            requires
                s == a * scale,
                scale > 0,
        ;
    }
}

fn two_to(k: u64) -> (r: u64)
    requires
        k <= 52,
    ensures
        r == pow2(k as nat),
        0 < r <= 0x10_0000_0000_0000,
        k < 52 ==> r < 0x10_0000_0000_0000,
{
    let mut r: u64 = 1;
    let mut i: u64 = 0;
    proof {
        lemma2_to64();
        lemma2_to64_rest();
    }
    while i < k
        invariant
            i <= k <= 52,
            r == pow2(i as nat),
            pow2(52) == 0x10_0000_0000_0000,
            r <= pow2(52),
        decreases k - i,
    {
        proof {
            lemma_pow2_unfold((i + 1) as nat);
            if i + 1 < 52 {
                vstd::arithmetic::power2::lemma_pow2_strictly_increases((i + 1) as nat, 52);
            }
        }
        r = r * 2;
        i += 1;
    }
    proof {
        lemma_pow2_pos(k as nat);
        if k < 52 {
            vstd::arithmetic::power2::lemma_pow2_strictly_increases(k as nat, 52);
        }
    }
    r
}

/// The position of the highest bit that is set in `a`; 0 for 0.
pub open spec fn top_bit(a: nat) -> nat
    decreases a,
{
    if a < 2 {
        0
    } else {
        1 + top_bit(a / 2)
    }
}

/// The significand, between 2^52 and 2^53, of the double nearest to the
/// positive integer `a`, a tie going to the even significand.
pub open spec fn rounded_significand(a: nat) -> nat {
    let p = top_bit(a);
    if p <= 52 {
        a * pow2((52 - p) as nat)
    } else {
        let d = pow2((p - 52) as nat);
        let q = a / d;
        let rem = a % d;
        if rem > d / 2 || (rem == d / 2 && q % 2 == 1) {
            q + 1
        } else {
            q
        }
    }
}

/// The bit pattern of the double nearest to the integer `n`.
pub open spec fn bits_of_integer(n: int) -> int {
    if n == 0 {
        0
    } else {
        let a = if n < 0 {
            (-n) as nat
        } else {
            n as nat
        };
        (if n < 0 {
            0x8000_0000_0000_0000int
        } else {
            0int
        }) + (top_bit(a) + 1023) * 0x10_0000_0000_0000 + (rounded_significand(a)
            - 0x10_0000_0000_0000)
    }
}

/// A positive integer lies between the power of two of its top bit and
/// the next.
pub proof fn lemma_top_bit(a: nat)
    requires
        a >= 1,
    ensures
        pow2(top_bit(a)) <= a < pow2(top_bit(a) + 1),
    decreases a,
{
    lemma2_to64();
    if a >= 2 {
        lemma_top_bit(a / 2);
        lemma_pow2_unfold(top_bit(a));
        lemma_pow2_unfold(top_bit(a) + 1);
    }
}

proof fn lemma_fields(bits: u64)
    ensures
        (bits >> 63) as int == sign_field(bits),
        ((bits >> 52) & 0x7ff) as int == exponent_field(bits),
        (bits & 0xf_ffff_ffff_ffff) as int == fraction_field(bits),
        0 <= sign_field(bits) <= 1,
        0 <= exponent_field(bits) < 2048,
        0 <= fraction_field(bits) < 0x10_0000_0000_0000,
{
    assert((bits >> 63) == bits / 0x8000_0000_0000_0000) by (bit_vector);
    assert(((bits >> 52) & 0x7ff) == (bits / 0x10_0000_0000_0000) % 2048) by (bit_vector);
    assert((bits & 0xf_ffff_ffff_ffff) == bits % 0x10_0000_0000_0000) by (bit_vector);
    assert((bits >> 63) <= 1) by (bit_vector);
}

impl Number {
    /// The integer that this number equals, when the library computes with it.
    pub open spec fn as_integer(self) -> Option<int> {
        match self {
            Number::Int(n) => if is_safe(n as int) {
                Some(n as int)
            } else {
                None
            },
            Number::Float(bits) => integer_of_bits(bits),
        }
    }

    /// The number with the given double pattern: an `Int` when the double is
    /// an integer of magnitude below 2^53 (negative zero excepted), else the
    /// pattern itself.
    pub fn from_bits(bits: u64) -> (r: Number)
        ensures
            r == match integer_of_bits(bits) {
                Some(n) => Number::Int(n as i64),
                None => Number::Float(bits),
            },
            integer_of_bits(bits) matches Some(n) ==> is_safe(n),
    {
        proof {
            lemma_fields(bits);
        }
        let negative = (bits >> 63) == 1;
        let e: u64 = (bits >> 52) & 0x7ff;
        let f: u64 = bits & 0xf_ffff_ffff_ffff;
        if e == 0 {
            if f == 0 && !negative {
                Number::Int(0)
            } else {
                Number::Float(bits)
            }
        } else if 1023 <= e && e <= 1075 {
            let significand: u64 = 0x10_0000_0000_0000 + f;
            let scale: u64 = two_to(1075 - e);
            if significand % scale == 0 {
                let magnitude: u64 = significand / scale;
                assert(magnitude < 0x20_0000_0000_0000) by (nonlinear_arith)
                    requires
                        magnitude == significand / scale,
                        significand < 0x20_0000_0000_0000,
                        scale >= 1,
                ;
                if negative {
                    Number::Int(-(magnitude as i64))
                } else {
                    Number::Int(magnitude as i64)
                }
            } else {
                Number::Float(bits)
            }
        } else {
            Number::Float(bits)
        }
    }

    /// The bit pattern of the double nearest to `n`: that of `n` itself
    /// where `n` has magnitude up to 2^53.
    pub fn bits_of(n: i64) -> (r: u64)
        ensures
            r == bits_of_integer(n as int),
    {
        if n == 0 {
            return 0;
        }
        let a: u64 = if n < 0 {
            (-(n + 1)) as u64 + 1
        } else {
            n as u64
        };
        let mut p: u64 = 0;
        let mut t: u64 = a;
        proof {
            lemma2_to64();
            assert(t * pow2(0) == a) by (nonlinear_arith)
                requires
                    t == a,
                    pow2(0) == 1,
            ;
        }
        while t >= 2
            invariant
                t >= 1,
                p <= 63,
                t * pow2(p as nat) <= a,
                top_bit(a as nat) == p + top_bit(t as nat),
            decreases t,
        {
            proof {
                lemma_pow2_unfold((p + 1) as nat);
                assert((t / 2) * (2 * pow2(p as nat)) <= t * pow2(p as nat)) by (nonlinear_arith)
                    requires
                        t >= 0,
                        pow2(p as nat) >= 0,
                ;
                if p == 63 {
                    lemma2_to64();
                    lemma2_to64_rest();
                    assert(t * pow2(63) >= 2 * pow2(63)) by (nonlinear_arith)
                        requires
                            t >= 2,
                            pow2(63) > 0,
                    ;
                }
            }
            t = t / 2;
            p = p + 1;
        }
        proof {
            lemma_top_bit(a as nat);
            lemma2_to64();
            lemma2_to64_rest();
            if p > 63 {
                vstd::arithmetic::power2::lemma_pow2_strictly_increases(63, p as nat);
            }
        }
        let significand: u64 = if p <= 52 {
            let scale = two_to(52 - p);
            proof {
                lemma_pow2_unfold((p + 1) as nat);
                vstd::arithmetic::power2::lemma_pow2_adds((p + 1) as nat, (52 - p) as nat);
                assert(a * scale < pow2((p + 1) as nat) * scale) by (nonlinear_arith)
                    requires
                        a < pow2((p + 1) as nat),
                        scale > 0,
                ;
                vstd::arithmetic::power2::lemma_pow2_adds(p as nat, (52 - p) as nat);
                assert(a * scale >= pow2(p as nat) * scale) by (nonlinear_arith)
                    requires
                        a >= pow2(p as nat),
                        scale > 0,
                ;
            }
            a * scale
        } else {
            let d = two_to(p - 52);
            let q = a / d;
            let rem = a % d;
            proof {
                vstd::arithmetic::power2::lemma_pow2_adds((p - 52) as nat, 53);
                vstd::arithmetic::power2::lemma_pow2_adds((p - 52) as nat, 52);
                assert(pow2((p + 1) as nat) == pow2((p - 52) as nat) * pow2(53));
                let ai = a as int;
                let di = d as int;
                let qi = q as int;
                let hi = pow2(53) as int;
                let lo = pow2(52) as int;
                assert(qi < hi && qi >= lo) by (nonlinear_arith)
                    requires
                        qi == ai / di,
                        di > 0,
                        ai < di * hi,
                        ai >= di * lo,
                ;
            }
            if rem > d / 2 || (rem == d / 2 && q % 2 == 1) {
                q + 1
            } else {
                q
            }
        };
        let sign: u64 = if n < 0 {
            0x8000_0000_0000_0000
        } else {
            0
        };
        sign + (p + 1023) * 0x10_0000_0000_0000 + (significand - 0x10_0000_0000_0000)
    }

    /// The number in its preferred form: `Int` wherever the library computes
    /// with it.
    pub open spec fn preferred(self) -> Number {
        match self.as_integer() {
            Some(n) => Number::Int(n as i64),
            None => self,
        }
    }

    /// The number in its preferred form: `Int` wherever the library computes
    /// with it.
    pub fn normalized(self) -> (r: Number)
        ensures
            r == self.preferred(),
    {
        match self {
            Number::Int(_) => self,
            Number::Float(bits) => Number::from_bits(bits),
        }
    }

    /// Computes `a op b` where `exact_result` defines it and the result is a
    /// safe integer; `None` leaves the operation to double arithmetic.
    pub fn exact(op: MathOp, a: Number, b: Number) -> (r: Option<Number>)
        ensures
            r == exact_number(op, a, b),
    {
        let x = match a.to_integer() {
            Some(x) => x,
            None => {
                return None;
            },
        };
        let y = match b.to_integer() {
            Some(y) => y,
            None => {
                return None;
            },
        };
        let v: i128 = match op {
            MathOp::Add => x as i128 + y as i128,
            MathOp::Sub => x as i128 - y as i128,
            MathOp::Mul => {
                assert(-0x400_0000_0000_0000_0000_0000_0000 < x * y < 0x400_0000_0000_0000_0000_0000_0000)
                    by (nonlinear_arith)
                    requires
                        -0x20_0000_0000_0000 < x < 0x20_0000_0000_0000,
                        -0x20_0000_0000_0000 < y < 0x20_0000_0000_0000,
                ;
                let p = x as i128 * y as i128;
                if p == 0 && (x < 0 || y < 0) {
                    return None;
                }
                p
            },
            MathOp::Div => {
                let ax: i64 = if x < 0 {
                    -x
                } else {
                    x
                };
                let ay: i64 = if y < 0 {
                    -y
                } else {
                    y
                };
                if ay == 0 || ax % ay != 0 || (x == 0 && y < 0) {
                    return None;
                }
                let q: i64 = ax / ay;
                if (x < 0) == (y < 0) {
                    q as i128
                } else {
                    -(q as i128)
                }
            },
            MathOp::Mod => {
                if x < 0 || y <= 0 {
                    return None;
                }
                (x % y) as i128
            },
            MathOp::Pow => {
                return None;
            },
        };
        if -(SAFE_INTEGER_LIMIT as i128) < v && v < SAFE_INTEGER_LIMIT as i128 {
            Some(Number::Int(v as i64))
        } else {
            None
        }
    }

    /// Compares two safe integers; `None` leaves the comparison to double
    /// arithmetic.
    pub fn exact_compare(a: Number, b: Number) -> (r: Option<Comparison>)
        ensures
            r == exact_comparison(a, b),
    {
        match (a.to_integer(), b.to_integer()) {
            (Some(x), Some(y)) => Some(
                if x < y {
                    Comparison::Less
                } else if x == y {
                    Comparison::Equal
                } else {
                    Comparison::Greater
                },
            ),
            _ => None,
        }
    }

    /// This number as an integer, when the library computes with it.
    pub fn to_integer(self) -> (r: Option<i64>)
        ensures
            r is Some == self.as_integer() is Some,
            r matches Some(n) ==> self.as_integer() == Some(n as int) && is_safe(n as int),
    {
        match self {
            Number::Int(n) => if -SAFE_INTEGER_LIMIT < n && n < SAFE_INTEGER_LIMIT {
                Some(n)
            } else {
                None
            },
            Number::Float(bits) => match Number::from_bits(bits) {
                Number::Int(n) => Some(n),
                Number::Float(_) => None,
            },
        }
    }
}

} // verus!
