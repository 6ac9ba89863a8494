//! IEEE 754 doubles as bit patterns. The order is decided on the bits; the
//! decimal renderings are those of the standard library.
use bytes::Buf;
use vstd::prelude::*;

verus! {

/// A double held by its 64 bits.
#[derive(Clone, Copy, Debug, PartialEq, Eq, Structural)]
pub struct Double {
    pub bits: u64,
}

/// The bits below the sign bit.
pub open spec fn magnitude(bits: u64) -> int {
    if bits >= 0x8000_0000_0000_0000 {
        bits - 0x8000_0000_0000_0000
    } else {
        bits as int
    }
}

/// Whether the bits stand for "not a number".
pub open spec fn is_nan(bits: u64) -> bool {
    magnitude(bits) > 0x7ff0_0000_0000_0000
}

/// Whether the bits stand for a finite number.
pub open spec fn is_finite(bits: u64) -> bool {
    magnitude(bits) < 0x7ff0_0000_0000_0000
}

/// The place of a number in the numeric order: two numbers compare as their
/// ranks do, and both zeros have rank 0.
pub open spec fn rank(bits: u64) -> int {
    if bits >= 0x8000_0000_0000_0000 {
        -magnitude(bits)
    } else {
        magnitude(bits)
    }
}

/// The numeric `a < b`, which is false when either is not a number.
pub open spec fn less(a: u64, b: u64) -> bool {
    !is_nan(a) && !is_nan(b) && rank(a) < rank(b)
}

/// The numeric `a == b`, which is false when either is not a number.
pub open spec fn equal(a: u64, b: u64) -> bool {
    !is_nan(a) && !is_nan(b) && rank(a) == rank(b)
}

/// The numeric order is irreflexive, transitive and, away from "not a number",
/// total.
pub proof fn order_is_total(a: u64, b: u64, c: u64)
    ensures
        !less(a, a),
        less(a, b) && less(b, c) ==> less(a, c),
        !is_nan(a) && !is_nan(b) ==> less(a, b) || equal(a, b) || less(b, a),
        !(less(a, b) && less(b, a)),
{
}

/// What `Display` prints for the double.
pub uninterp spec fn display_text(bits: u64) -> Seq<char>;

/// What `{:.N}` prints for the double, with `places` for `N`.
pub uninterp spec fn fixed_text(bits: u64, places: nat) -> Seq<char>;

/// The bits that `str::parse` reads a double from a text into.
pub uninterp spec fn parsed(s: Seq<char>) -> Option<u64>;

/// The `i64` that an `as` cast makes of the double.
pub uninterp spec fn truncated(bits: u64) -> i64;

/// The `u64` that an `as` cast makes of the double.
pub uninterp spec fn truncated_unsigned(bits: u64) -> u64;

/// The bits of the double that `serde_json::Number::as_f64` gives for a whole
/// number.
pub uninterp spec fn nearest(n: int) -> u64;

/// The bits of the quotient that `/` computes.
pub uninterp spec fn quotient(a: u64, b: u64) -> u64;

/// The bits of the product that `*` computes.
pub uninterp spec fn product(a: u64, b: u64) -> u64;

/// The bits of the difference that `-` computes.
pub uninterp spec fn difference(a: u64, b: u64) -> u64;

/// The bits of the sum that `+` computes.
pub uninterp spec fn total(a: u64, b: u64) -> u64;

/// The bits of the fractional part that `f64::fract` computes.
pub uninterp spec fn fraction(bits: u64) -> u64;

/// Two doubles that are alike in every comparison and in print: the same bits, or
/// "not a number" both.
pub open spec fn alike(a: u64, b: u64) -> bool {
    a == b || (is_nan(a) && is_nan(b))
}

/// Doubles that are alike compare alike and print alike.
pub proof fn alike_is_indistinguishable(a: u64, b: u64, c: u64)
    requires
        alike(a, b),
    ensures
        less(a, c) == less(b, c),
        less(c, a) == less(c, b),
        equal(a, c) == equal(b, c),
        is_finite(a) == is_finite(b),
        shown(a) == shown(b),
{
}

/// The bits that stand for "not a number" in results.
pub const NAN: u64 = 0x7ff8_0000_0000_0000;

/// `a / b`: "not a number" when either is, else the computed quotient.
pub open spec fn over(a: u64, b: u64) -> u64 {
    if is_nan(a) || is_nan(b) {
        NAN
    } else {
        quotient(a, b)
    }
}

/// `a * b`: "not a number" when either is, else the computed product.
pub open spec fn times(a: u64, b: u64) -> u64 {
    if is_nan(a) || is_nan(b) {
        NAN
    } else {
        product(a, b)
    }
}

/// `a - b`: "not a number" when either is, else the computed difference.
pub open spec fn minus(a: u64, b: u64) -> u64 {
    if is_nan(a) || is_nan(b) {
        NAN
    } else {
        difference(a, b)
    }
}

/// `a + b`: "not a number" when either is, else the computed sum.
pub open spec fn plus(a: u64, b: u64) -> u64 {
    if is_nan(a) || is_nan(b) {
        NAN
    } else {
        total(a, b)
    }
}

/// The number without its sign.
pub open spec fn absolute(bits: u64) -> u64 {
    magnitude(bits) as u64
}

/// The numeric `a >= b`, which is false when either is not a number.
pub open spec fn at_least(a: u64, b: u64) -> bool {
    less(b, a) || equal(a, b)
}

/// The larger of two doubles; the other one when the first is "not a number".
pub open spec fn larger(a: u64, b: u64) -> u64 {
    if less(a, b) || is_nan(a) {
        b
    } else {
        a
    }
}

impl Double {
    /// The larger of two doubles; the other one when this is "not a number".
    pub fn or_larger(self, other: Double) -> (r: Double)
        ensures
            r.bits == larger(self.bits, other.bits),
    {
        if self.is_less(other) || self.not_a_number() {
            other
        } else {
            self
        }
    }

    /// The numeric `self >= other`.
    pub fn reaches(self, other: Double) -> (r: bool)
        ensures
            r == at_least(self.bits, other.bits),
    {
        other.is_less(self) || self.is_equal(other)
    }

    /// The number without its sign.
    pub fn without_sign(self) -> (r: Double)
        ensures
            r.bits == absolute(self.bits),
    {
        if self.bits >= 0x8000_0000_0000_0000 {
            Double { bits: self.bits - 0x8000_0000_0000_0000 }
        } else {
            self
        }
    }

    /// The numeric `self < other`.
    pub fn is_less(self, other: Double) -> (r: bool)
        ensures
            r == less(self.bits, other.bits),
    {
        let sign: u64 = 0x8000_0000_0000_0000;
        let nan: u64 = 0x7ff0_0000_0000_0000;
        let a: u64 = if self.bits >= sign {
            self.bits - sign
        } else {
            self.bits
        };
        let b: u64 = if other.bits >= sign {
            other.bits - sign
        } else {
            other.bits
        };
        if a > nan || b > nan {
            false
        } else if self.bits >= sign {
            if other.bits >= sign {
                b < a
            } else {
                a != 0 || b != 0
            }
        } else {
            other.bits < sign && a < b
        }
    }

    /// The numeric `self == other`.
    pub fn is_equal(self, other: Double) -> (r: bool)
        ensures
            r == equal(self.bits, other.bits),
    {
        let sign: u64 = 0x8000_0000_0000_0000;
        let nan: u64 = 0x7ff0_0000_0000_0000;
        let a: u64 = if self.bits >= sign {
            self.bits - sign
        } else {
            self.bits
        };
        a <= nan && (self.bits == other.bits || (a == 0 && (other.bits == 0 || other.bits == sign)))
    }

    /// Whether this is "not a number".
    pub fn not_a_number(self) -> (r: bool)
        ensures
            r == is_nan(self.bits),
    {
        let sign: u64 = 0x8000_0000_0000_0000;
        let a: u64 = if self.bits >= sign {
            self.bits - sign
        } else {
            self.bits
        };
        a > 0x7ff0_0000_0000_0000
    }

    /// Whether this is "not a number".
    pub fn nan(self) -> (r: bool)
        ensures
            r == is_nan(self.bits),
    {
        let sign: u64 = 0x8000_0000_0000_0000;
        let a: u64 = if self.bits >= sign {
            self.bits - sign
        } else {
            self.bits
        };
        a > 0x7ff0_0000_0000_0000
    }

    /// Whether the number is finite.
    pub fn finite(self) -> (r: bool)
        ensures
            r == is_finite(self.bits),
    {
        let sign: u64 = 0x8000_0000_0000_0000;
        let a: u64 = if self.bits >= sign {
            self.bits - sign
        } else {
            self.bits
        };
        a < 0x7ff0_0000_0000_0000
    }
}

/// What a double looks like in a message.
pub open spec fn shown(bits: u64) -> Seq<char> {
    if is_nan(bits) {
        "NaN"@
    } else {
        display_text(bits)
    }
}

/// What a double looks like in a message that gives it a number of decimals.
pub open spec fn rounded(bits: u64, places: nat) -> Seq<char> {
    if is_nan(bits) {
        "NaN"@
    } else {
        fixed_text(bits, places)
    }
}

/// `Display` of a double: `NaN` for every "not a number"; the digits of the
/// others are only named.
#[verifier::external_body]
pub(crate) fn display(d: Double) -> (out: String)
    ensures
        !is_nan(d.bits) ==> out@ == display_text(d.bits),
        is_nan(d.bits) ==> out@ == "NaN"@,
{
    format!("{}", (&d.bits.to_be_bytes()[..]).get_f64())
}

/// `format!("{:.N}")` of a double: `NaN` for every "not a number"; the digits of
/// the others are only named.
#[verifier::external_body]
pub(crate) fn fixed(d: Double, places: usize) -> (out: String)
    requires
        places <= 1000,
    ensures
        !is_nan(d.bits) ==> out@ == fixed_text(d.bits, places as nat),
        is_nan(d.bits) ==> out@ == "NaN"@,
{
    format!("{:.*}", places, (&d.bits.to_be_bytes()[..]).get_f64())
}

/// `str::parse` of a double; which double a text denotes is only named. For a
/// text that denotes "not a number" only that is claimed, not which bits.
#[verifier::external_body]
pub(crate) fn parse(s: &str) -> (r: Option<Double>)
    ensures
        r is Some <==> parsed(s@) is Some,
        r matches Some(d) ==> (d.bits == parsed(s@)->Some_0 || (is_nan(d.bits) && is_nan(
            parsed(s@)->Some_0,
        ))),
{
    let mut x = (&[0u8; 8][..]).get_f64();
    match s.parse() {
        Ok(y) => {
            x = y;
            Some(Double { bits: x.to_bits() })
        },
        Err(_) => None,
    }
}

/// The cast of a double to `i64`; the rounding is only named.
#[verifier::external_body]
pub(crate) fn truncate(d: Double) -> (r: i64)
    ensures
        r == truncated(d.bits),
{
    (&d.bits.to_be_bytes()[..]).get_f64() as i64
}

/// The cast of a double to `u64`; the rounding is only named.
#[verifier::external_body]
pub(crate) fn truncate_unsigned(d: Double) -> (r: u64)
    ensures
        r == truncated_unsigned(d.bits),
{
    (&d.bits.to_be_bytes()[..]).get_f64() as u64
}

/// `serde_json::Number::as_f64` of an unsigned number; the rounding is only
/// named.
#[verifier::external_body]
pub(crate) fn from_u64(n: u64) -> (d: Double)
    ensures
        d.bits == nearest(n as int),
{
    Double { bits: serde_json::Number::from(n).as_f64().unwrap().to_bits() }
}

/// `serde_json::Number::as_f64` of a signed number; the rounding is only
/// named.
#[verifier::external_body]
pub(crate) fn from_i64(n: i64) -> (d: Double)
    ensures
        d.bits == nearest(n as int),
{
    Double { bits: serde_json::Number::from(n).as_f64().unwrap().to_bits() }
}

/// `std::ops::Div` on doubles: "not a number" when either operand is; the quotient
/// of others is only named, and of one that is "not a number" only that is
/// claimed. A number over a finite number other than zero is a number.
#[verifier::external_body]
pub(crate) fn divide(a: Double, b: Double) -> (r: Double)
    ensures
        !is_nan(a.bits) && !is_nan(b.bits) ==> alike(r.bits, quotient(a.bits, b.bits)),
        is_nan(a.bits) || is_nan(b.bits) ==> is_nan(r.bits),
        !is_nan(a.bits) && is_finite(b.bits) && rank(b.bits) != 0 ==> !is_nan(r.bits),
{
    let (x, y) = ((&a.bits.to_be_bytes()[..]).get_f64(), (&b.bits.to_be_bytes()[..]).get_f64());
    Double { bits: (x / y).to_bits() }
}

/// `std::ops::Mul` on doubles: "not a number" when either operand is; the product
/// of others is only named, and of one that is "not a number" only that is
/// claimed. The product of two finite numbers is a number.
#[verifier::external_body]
pub(crate) fn multiply(a: Double, b: Double) -> (r: Double)
    ensures
        !is_nan(a.bits) && !is_nan(b.bits) ==> alike(r.bits, product(a.bits, b.bits)),
        is_nan(a.bits) || is_nan(b.bits) ==> is_nan(r.bits),
        is_finite(a.bits) && is_finite(b.bits) ==> !is_nan(r.bits),
{
    let (x, y) = ((&a.bits.to_be_bytes()[..]).get_f64(), (&b.bits.to_be_bytes()[..]).get_f64());
    Double { bits: (x * y).to_bits() }
}

/// `std::ops::Sub` on doubles: "not a number" when either operand is; the
/// difference of others is only named, and of one that is "not a number" only that
/// is claimed. When one of two numbers is finite, their difference is a number.
#[verifier::external_body]
pub(crate) fn subtract(a: Double, b: Double) -> (r: Double)
    ensures
        !is_nan(a.bits) && !is_nan(b.bits) ==> alike(r.bits, difference(a.bits, b.bits)),
        is_nan(a.bits) || is_nan(b.bits) ==> is_nan(r.bits),
        is_finite(a.bits) && !is_nan(b.bits) ==> !is_nan(r.bits),
        !is_nan(a.bits) && is_finite(b.bits) ==> !is_nan(r.bits),
{
    let (x, y) = ((&a.bits.to_be_bytes()[..]).get_f64(), (&b.bits.to_be_bytes()[..]).get_f64());
    Double { bits: (x - y).to_bits() }
}

/// `std::ops::Add` on doubles: "not a number" when either operand is; the sum of
/// others is only named, and of one that is "not a number" only that is claimed. The
/// sum of two finite numbers is a number.
#[verifier::external_body]
pub(crate) fn add_up(a: Double, b: Double) -> (r: Double)
    ensures
        !is_nan(a.bits) && !is_nan(b.bits) ==> alike(r.bits, total(a.bits, b.bits)),
        is_nan(a.bits) || is_nan(b.bits) ==> is_nan(r.bits),
        is_finite(a.bits) && is_finite(b.bits) ==> !is_nan(r.bits),
{
    let (x, y) = ((&a.bits.to_be_bytes()[..]).get_f64(), (&b.bits.to_be_bytes()[..]).get_f64());
    Double { bits: (x + y).to_bits() }
}

/// `f64::fract`: "not a number" when the operand is; the fractional part of others
/// is only named, and of one that is "not a number" only that is claimed.
#[verifier::external_body]
pub(crate) fn fract(d: Double) -> (r: Double)
    ensures
        !is_nan(d.bits) ==> alike(r.bits, fraction(d.bits)),
        is_nan(d.bits) ==> is_nan(r.bits),
{
    Double { bits: (&d.bits.to_be_bytes()[..]).get_f64().fract().to_bits() }
}

} // verus!
