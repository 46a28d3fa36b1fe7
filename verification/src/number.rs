//! Numbers. A number is a double held by its IEEE 754 bit pattern together
//! with its decimal rendering; both come from whoever does the arithmetic.
//! What the language itself decides about a number (is it zero, how two
//! numbers compare, which list index it names) is computed here from the
//! bits alone.

use vstd::prelude::*;

verus! {

/// A double as the machine carries it.
#[derive(PartialEq, Eq, Debug)]
pub struct Num {
    /// The IEEE 754 binary64 bit pattern.
    pub bits: u64,
    /// The decimal rendering of the same double.
    pub text: String,
}

/// The mathematical content of a [`Num`].
pub struct NumView {
    pub bits: u64,
    pub text: Seq<char>,
}

impl View for Num {
    type V = NumView;

    open spec fn view(&self) -> NumView {
        NumView { bits: self.bits, text: self.text@ }
    }
}

impl DeepView for Num {
    type V = NumView;

    open spec fn deep_view(&self) -> NumView {
        self@
    }
}

impl Clone for Num {
    fn clone(&self) -> (r: Self)
        ensures
            r@ == self@,
    {
        Num { bits: self.bits, text: self.text.clone() }
    }
}

/// The sign bit of a double; by itself, the bit pattern of `-0.0`.
pub const SIGN_BIT: u64 = 0x8000_0000_0000_0000;

/// Two to the power 52: the number of values of the fraction field.
pub const FRACTION_SPAN: u64 = 0x0010_0000_0000_0000;

/// The bit pattern of the quiet NaN that stands for "no value".
pub const NAN_BITS: u64 = 0x7ff8_0000_0000_0000;

/// The bit pattern of `1.0`.
pub const ONE_BITS: u64 = 0x3ff0_0000_0000_0000;

/// The sign bit is set.
pub open spec fn negative(bits: u64) -> bool {
    bits >= SIGN_BIT
}

/// The bits without the sign: they grow with the absolute value.
pub open spec fn magnitude(bits: u64) -> int {
    if bits >= SIGN_BIT {
        bits - SIGN_BIT
    } else {
        bits as int
    }
}

/// The biased exponent field.
pub open spec fn exponent(bits: u64) -> int {
    magnitude(bits) / (FRACTION_SPAN as int)
}

/// The fraction field.
pub open spec fn fraction(bits: u64) -> int {
    magnitude(bits) % (FRACTION_SPAN as int)
}

/// The bits encode a NaN.
pub open spec fn is_nan(bits: u64) -> bool {
    exponent(bits) == 2047 && fraction(bits) != 0
}

/// The bits encode positive or negative zero.
pub open spec fn is_zero(bits: u64) -> bool {
    magnitude(bits) == 0
}

/// An integer that orders the non-NaN doubles as their values do; both
/// zeros share the key 0.
pub open spec fn order_key(bits: u64) -> int {
    if negative(bits) {
        -magnitude(bits)
    } else {
        magnitude(bits)
    }
}

/// Numeric equality of two doubles: a NaN equals nothing.
pub open spec fn num_eq(a: u64, b: u64) -> bool {
    !is_nan(a) && !is_nan(b) && order_key(a) == order_key(b)
}

/// Numeric `<` of two doubles: false when either is a NaN.
pub open spec fn num_lt(a: u64, b: u64) -> bool {
    !is_nan(a) && !is_nan(b) && order_key(a) < order_key(b)
}

/// Two to the power `k`.
pub open spec fn pow2(k: nat) -> nat
    decreases k,
{
    if k == 0 {
        1
    } else {
        2 * pow2((k - 1) as nat)
    }
}

/// The integer part of the absolute value of a finite double.
pub open spec fn whole_part(bits: u64) -> nat {
    let e = exponent(bits);
    let significand = FRACTION_SPAN + fraction(bits);
    if e < 1023 {
        0
    } else if e <= 1075 {
        (significand / (pow2((1075 - e) as nat) as int)) as nat
    } else {
        (significand * pow2((e - 1075) as nat)) as nat
    }
}

/// The absolute value of a finite double is a whole number.
pub open spec fn is_whole(bits: u64) -> bool {
    let e = exponent(bits);
    let significand = FRACTION_SPAN + fraction(bits);
    if magnitude(bits) == 0 {
        true
    } else if e < 1023 {
        false
    } else if e <= 1075 {
        significand % (pow2((1075 - e) as nat) as int) == 0
    } else {
        true
    }
}

/// The largest integer not above the double, for doubles that are neither
/// NaN nor infinite.
pub open spec fn floor_of(bits: u64) -> int {
    if !negative(bits) {
        whole_part(bits) as int
    } else if is_whole(bits) {
        -(whole_part(bits) as int)
    } else {
        -(whole_part(bits) as int) - 1
    }
}

/// `floor_of` brought into `lo..=hi`, with NaN read as 0 and the infinities
/// as the nearer bound: what a saturating conversion of the floor gives.
pub open spec fn floor_clamped(bits: u64, lo: int, hi: int) -> int {
    if is_nan(bits) {
        0
    } else if exponent(bits) == 2047 {
        if negative(bits) {
            lo
        } else {
            hi
        }
    } else if floor_of(bits) < lo {
        lo
    } else if floor_of(bits) > hi {
        hi
    } else {
        floor_of(bits)
    }
}

proof fn lemma_pow2_grows(a: nat, b: nat)
    requires
        a <= b,
    ensures
        pow2(a) <= pow2(b),
        pow2(a) >= 1,
    decreases b,
{
    if a < b {
        lemma_pow2_grows(a, (b - 1) as nat);
    } else if a > 0 {
        lemma_pow2_grows((a - 1) as nat, (a - 1) as nat);
    }
}

proof fn lemma_pow2_64()
    ensures
        pow2(64) == 0x1_0000_0000_0000_0000,
        pow2(63) == 0x8000_0000_0000_0000,
{
    reveal_with_fuel(pow2, 65);
}

fn power_of_two(k: u64) -> (p: u64)
    requires
        k <= 63,
    ensures
        p == pow2(k as nat),
        p >= 1,
{
    let mut p: u64 = 1;
    let mut i: u64 = 0;
    while i < k
        invariant
            i <= k <= 63,
            p == pow2(i as nat),
            p >= 1,
        decreases k - i,
    {
        proof {
            lemma_pow2_grows((i + 1) as nat, 63);
            lemma_pow2_64();
        }
        p = p * 2;
        i += 1;
    }
    p
}

impl Num {
    /// A number from its two parts.
    pub fn new(bits: u64, text: String) -> (r: Num)
        ensures
            r.bits == bits,
            r.text == text,
    {
        Num { bits, text }
    }

    /// The number that stands for "no value": a NaN.
    pub fn nan() -> (r: Num)
        ensures
            r@ == (NumView { bits: NAN_BITS, text: "NaN"@ }),
    {
        Num { bits: NAN_BITS, text: "NaN".to_owned() }
    }

    /// The number 1 for `true`, 0 for `false`.
    pub fn from_bool(b: bool) -> (r: Num)
        ensures
            r@ == truth(b),
    {
        if b {
            Num { bits: ONE_BITS, text: "1".to_owned() }
        } else {
            Num { bits: 0, text: "0".to_owned() }
        }
    }

    /// The number is positive or negative zero.
    pub fn is_zero(&self) -> (r: bool)
        ensures
            r == is_zero(self.bits),
    {
        self.bits == 0 || self.bits == SIGN_BIT
    }

    /// The number is a NaN.
    pub fn is_nan(&self) -> (r: bool)
        ensures
            r == is_nan(self.bits),
    {
        let m = magnitude_of(self.bits);
        m / FRACTION_SPAN == 2047 && m % FRACTION_SPAN != 0
    }

    /// Numeric equality.
    pub fn equals(&self, other: &Num) -> (r: bool)
        ensures
            r == num_eq(self.bits, other.bits),
    {
        if self.is_nan() || other.is_nan() {
            false
        } else if self.is_zero() {
            other.is_zero()
        } else {
            self.bits == other.bits
        }
    }

    /// Numeric `<`.
    pub fn less_than(&self, other: &Num) -> (r: bool)
        ensures
            r == num_lt(self.bits, other.bits),
    {
        if self.is_nan() || other.is_nan() {
            false
        } else {
            let a = magnitude_of(self.bits);
            let b = magnitude_of(other.bits);
            if self.bits >= SIGN_BIT {
                if other.bits >= SIGN_BIT {
                    b < a
                } else {
                    a != 0 || b != 0
                }
            } else {
                if other.bits >= SIGN_BIT {
                    false
                } else {
                    a < b
                }
            }
        }
    }

    /// The floor of the number as an unsigned integer, saturating.
    pub fn floor_u64(&self) -> (r: u64)
        ensures
            r == floor_clamped(self.bits, 0, u64::MAX as int),
    {
        if self.is_nan() || self.bits >= SIGN_BIT {
            0
        } else if magnitude_of(self.bits) / FRACTION_SPAN == 2047 {
            u64::MAX
        } else {
            whole_of(self.bits).0
        }
    }

    /// The floor of the number as a signed integer, saturating.
    pub fn floor_i64(&self) -> (r: i64)
        ensures
            r == floor_clamped(self.bits, i64::MIN as int, i64::MAX as int),
    {
        if self.is_nan() {
            0
        } else if magnitude_of(self.bits) / FRACTION_SPAN == 2047 {
            if self.bits >= SIGN_BIT {
                i64::MIN
            } else {
                i64::MAX
            }
        } else {
            let (w, exact) = whole_of(self.bits);
            if self.bits >= SIGN_BIT {
                if w > SIGN_BIT {
                    i64::MIN
                } else if w == SIGN_BIT {
                    i64::MIN
                } else if exact {
                    -(w as i64)
                } else {
                    -(w as i64) - 1
                }
            } else if w > i64::MAX as u64 {
                i64::MAX
            } else {
                w as i64
            }
        }
    }

    /// The floor of the number as a `usize`, saturating.
    pub fn floor_usize(&self) -> (r: usize)
        ensures
            r == floor_clamped(self.bits, 0, usize::MAX as int),
    {
        let w = self.floor_u64();
        if w > usize::MAX as u64 {
            usize::MAX
        } else {
            w as usize
        }
    }

    /// The floor of the number as a `u32`, saturating.
    pub fn floor_u32(&self) -> (r: u32)
        ensures
            r == floor_clamped(self.bits, 0, u32::MAX as int),
    {
        let w = self.floor_u64();
        if w > u32::MAX as u64 {
            u32::MAX
        } else {
            w as u32
        }
    }
}

/// The number that a truth value becomes.
pub open spec fn truth(b: bool) -> NumView {
    if b {
        NumView { bits: ONE_BITS, text: "1"@ }
    } else {
        NumView { bits: 0, text: "0"@ }
    }
}

fn magnitude_of(bits: u64) -> (m: u64)
    ensures
        m == magnitude(bits),
{
    if bits >= SIGN_BIT {
        bits - SIGN_BIT
    } else {
        bits
    }
}

/// The integer part of the absolute value of a finite double, saturating,
/// and whether the double is a whole number.
fn whole_of(bits: u64) -> (r: (u64, bool))
    requires
        exponent(bits) != 2047,
    ensures
        r.0 == if whole_part(bits) > u64::MAX { u64::MAX as nat } else { whole_part(bits) },
        r.1 == is_whole(bits),
{
    let m = magnitude_of(bits);
    let e = m / FRACTION_SPAN;
    let significand = FRACTION_SPAN + m % FRACTION_SPAN;
    if m == 0 {
        (0, true)
    } else if e < 1023 {
        (0, false)
    } else if e <= 1075 {
        let p = power_of_two(1075 - e);
        (significand / p, significand % p == 0)
    } else if e - 1075 >= 12 {
        proof {
            lemma_pow2_grows(12, (e - 1075) as nat);
            reveal_with_fuel(pow2, 13);
            assert(pow2(12) == 4096);
            assert(significand * pow2((e - 1075) as nat) >= 0x0010_0000_0000_0000 * 4096)
                by (nonlinear_arith)
                requires
                    significand >= 0x0010_0000_0000_0000,
                    pow2((e - 1075) as nat) >= 4096,
            ;
        }
        (u64::MAX, true)
    } else {
        let p = power_of_two(e - 1075);
        proof {
            lemma_pow2_grows((e - 1075) as nat, 11);
            reveal_with_fuel(pow2, 12);
            assert(pow2(11) == 2048);
            assert(significand * p < 0x0020_0000_0000_0000 * 2048) by (nonlinear_arith)
                requires
                    significand < 0x0020_0000_0000_0000,
                    0 < p <= 2048,
            ;
        }
        (significand * p, true)
    }
}

} // verus!
