//! Exact decimal numbers with six fractional digits.
//!
//! A [`Decimal`] counts millionths in a signed 64-bit integer. Sums and
//! products that leave that range stop at its ends, so every operation is
//! total; the laws of the ledger speak of the runs in which none does.

use vstd::prelude::*;
use vstd::string::StrSliceExecFns;
use vstd::string::StringExecFns;
use crate::text::{
    all_digits, decimal_digits, digit_char, digit_str, digits_value, find_char, first_index_of,
    number_to_string, read_digits,
};

verus! {

/// How many millionths make one unit.
pub const SCALE: i64 = 1_000_000;

/// The largest whole part whose millionths still fit the range.
pub const WHOLE_LIMIT: u64 = 9_223_372_036_854;

/// Whether `x` can be held without loss.
pub open spec fn in_range(x: int) -> bool {
    i64::MIN <= x <= i64::MAX
}

/// `x`, or the end of the range that it lies beyond.
pub open spec fn saturate(x: int) -> int {
    if x > i64::MAX {
        i64::MAX as int
    } else if x < i64::MIN {
        i64::MIN as int
    } else {
        x
    }
}

/// Ten to the power `k`.
pub open spec fn pow10(k: nat) -> nat
    decreases k,
{
    if k == 0 {
        1
    } else {
        10 * pow10((k - 1) as nat)
    }
}

/// The last `width` digits of `n`, with leading zeros.
pub open spec fn padded_digits(n: nat, width: nat) -> Seq<char>
    decreases width,
{
    if width == 0 {
        Seq::<char>::empty()
    } else {
        padded_digits(n / 10, (width - 1) as nat).push(digit_char(n % 10))
    }
}

/// The digits after the point for `fraction` counted in units of ten to the
/// power minus `width`, without trailing zeros.
pub open spec fn fraction_digits(fraction: nat, width: nat) -> Seq<char>
    decreases width,
{
    if width == 0 || fraction % 10 != 0 {
        padded_digits(fraction, width)
    } else {
        fraction_digits(fraction / 10, (width - 1) as nat)
    }
}

/// How a number of `raw` millionths is written: a minus sign if negative, the
/// whole part, and, unless they are all zero, a point and the fractional
/// digits up to the last that is not zero.
pub open spec fn decimal_text(raw: int) -> Seq<char> {
    let magnitude = (if raw < 0 {
        -raw
    } else {
        raw
    }) as nat;
    let whole = magnitude / (SCALE as nat);
    let fraction = magnitude % (SCALE as nat);
    let sign = if raw < 0 {
        seq!['-']
    } else {
        Seq::<char>::empty()
    };
    let tail = if fraction == 0 {
        Seq::<char>::empty()
    } else {
        seq!['.'] + fraction_digits(fraction, 6)
    };
    sign + decimal_digits(whole) + tail
}

/// The number of millionths that the text `s` denotes, if it is a decimal
/// numeral: an optional sign, digits, and optionally a point and up to six
/// more digits, with at least one digit in all, the number within range.
pub open spec fn parse_spec(s: Seq<char>) -> Option<int> {
    let signed = s.len() > 0 && (s[0] == '-' || s[0] == '+');
    let body = if signed {
        s.drop_first()
    } else {
        s
    };
    let dot = first_index_of(body, '.');
    let whole = body.subrange(0, dot);
    let fraction = if dot < body.len() {
        body.subrange(dot + 1, body.len() as int)
    } else {
        Seq::<char>::empty()
    };
    let magnitude = digits_value(whole) * SCALE + digits_value(fraction) * pow10(
        (6 - fraction.len()) as nat,
    );
    let value = if s.len() > 0 && s[0] == '-' {
        -magnitude
    } else {
        magnitude as int
    };
    if all_digits(whole) && all_digits(fraction) && whole.len() + fraction.len() > 0
        && fraction.len() <= 6 && in_range(value) {
        Some(value)
    } else {
        None
    }
}

/// A decimal number, held as a count of millionths.
#[derive(Clone, Copy, Debug, Default, PartialEq, Eq, Structural)]
pub struct Decimal {
    /// The number of millionths.
    pub raw: i64,
}

impl View for Decimal {
    type V = int;

    open spec fn view(&self) -> int {
        self.raw as int
    }
}

/// The quotient of `n` by a positive `d`, rounded down.
pub fn floor_div(n: i128, d: i128) -> (q: i128)
    requires
        d > 0,
        n > i128::MIN,
    ensures
        q == n as int / d as int,
{
    if n >= 0 {
        n / d
    } else {
        let m: i128 = -n;
        let up: i128 = (m - 1) / d + 1;
        assert(-up == n as int / d as int) by (nonlinear_arith)
            requires
                d > 0,
                n < 0,
                m == -n,
                up == (m - 1) / (d as int) + 1,
        ;
        -up
    }
}

/// `x` brought into the range of a `Decimal`.
pub fn saturated(x: i128) -> (r: Decimal)
    ensures
        r@ == saturate(x as int),
{
    if x > i64::MAX as i128 {
        Decimal { raw: i64::MAX }
    } else if x < i64::MIN as i128 {
        Decimal { raw: i64::MIN }
    } else {
        Decimal { raw: x as i64 }
    }
}

/// A numeral of `len` digits is less than ten to the power `len`.
pub proof fn lemma_digits_value_bound(s: Seq<char>)
    ensures
        digits_value(s) < pow10(s.len()),
    decreases s.len(),
{
    if s.len() > 0 {
        lemma_digits_value_bound(s.drop_last());
    }
}

/// Ten to the power `k`, for the few powers that a fraction needs.
pub fn power_of_ten(k: usize) -> (r: u64)
    requires
        k <= 6,
    ensures
        r as nat == pow10(k as nat),
        r <= 1_000_000,
{
    reveal_with_fuel(pow10, 8);
    if k == 0 {
        1
    } else if k == 1 {
        10
    } else if k == 2 {
        100
    } else if k == 3 {
        1_000
    } else if k == 4 {
        10_000
    } else if k == 5 {
        100_000
    } else {
        1_000_000
    }
}

impl Decimal {
    /// The number of `raw` millionths.
    pub fn from_raw(raw: i64) -> (r: Decimal)
        ensures
            r@ == raw,
    {
        Decimal { raw }
    }

    /// Zero.
    pub fn zero() -> (r: Decimal)
        ensures
            r@ == 0,
    {
        Decimal { raw: 0 }
    }

    /// The whole number `units`.
    pub fn from_units(units: i64) -> (r: Decimal)
        ensures
            r@ == saturate(units * SCALE),
    {
        assert(-0x8000_0000_0000_0000 * 1_000_000 <= units * 1_000_000 <= 0x8000_0000_0000_0000
            * 1_000_000) by (nonlinear_arith)
            requires
                -0x8000_0000_0000_0000 <= units <= 0x8000_0000_0000_0000,
        ;
        saturated(units as i128 * SCALE as i128)
    }

    /// The sum of the two numbers.
    pub fn plus(self, other: Decimal) -> (r: Decimal)
        ensures
            r@ == saturate(self@ + other@),
    {
        saturated(self.raw as i128 + other.raw as i128)
    }

    /// The first number less the second.
    pub fn minus(self, other: Decimal) -> (r: Decimal)
        ensures
            r@ == saturate(self@ - other@),
    {
        saturated(self.raw as i128 - other.raw as i128)
    }

    /// The number taken `n` times.
    pub fn times(self, n: usize) -> (r: Decimal)
        ensures
            r@ == saturate(self@ * n),
    {
        let wide: i128 = self.wide_times(n);
        saturated(wide)
    }

    /// The number taken `n` times, exactly.
    pub fn wide_times(self, n: usize) -> (r: i128)
        ensures
            r == self@ * n,
            -0x7FFF_FFFF_FFFF_FFFF_8000_0000_0000_0000 <= r <= 0x7FFF_FFFF_FFFF_FFFF_8000_0000_0000_0000,
    {
        assert(-0x8000_0000_0000_0000 * 0xFFFF_FFFF_FFFF_FFFF <= self.raw * n
            <= 0x8000_0000_0000_0000 * 0xFFFF_FFFF_FFFF_FFFF) by (nonlinear_arith)
            requires
                -0x8000_0000_0000_0000 <= self.raw <= 0x8000_0000_0000_0000,
                0 <= n <= 0xFFFF_FFFF_FFFF_FFFF,
        ;
        self.raw as i128 * n as i128
    }

    /// The product of the two numbers, rounded down to a millionth.
    pub fn scaled(self, factor: Decimal) -> (r: Decimal)
        ensures
            r@ == saturate((self@ * factor@) / (SCALE as int)),
    {
        assert(-0x8000_0000_0000_0000 * 0x8000_0000_0000_0000 <= self.raw * factor.raw
            <= 0x8000_0000_0000_0000 * 0x8000_0000_0000_0000) by (nonlinear_arith)
            requires
                -0x8000_0000_0000_0000 <= self.raw <= 0x8000_0000_0000_0000,
                -0x8000_0000_0000_0000 <= factor.raw <= 0x8000_0000_0000_0000,
        ;
        let wide: i128 = self.raw as i128 * factor.raw as i128;
        saturated(floor_div(wide, SCALE as i128))
    }

    /// The number divided into `n` equal shares, each rounded down to a
    /// millionth.
    pub fn shared(self, n: usize) -> (r: Decimal)
        requires
            n > 0,
        ensures
            r@ == self@ / (n as int),
    {
        let q: i128 = floor_div(self.raw as i128, n as i128);
        assert(i64::MIN <= q <= i64::MAX) by (nonlinear_arith)
            requires
                q == self.raw as int / n as int,
                n > 0,
                i64::MIN <= self.raw <= i64::MAX,
        ;
        Decimal { raw: q as i64 }
    }

    /// Reads a decimal numeral: an optional sign, digits, and optionally a
    /// point and up to six more digits. Nothing else is read: no exponent, no
    /// blank, no word for infinity or for what is no number, and no numeral
    /// that is finer than a millionth or beyond the range.
    pub fn parse(s: &str) -> (r: Option<Decimal>)
        ensures
            r is Some <==> parse_spec(s@) is Some,
            r is Some ==> r->0@ == parse_spec(s@)->0,
    {
        let total: usize = s.unicode_len();
        let negative: bool = total > 0 && s.get_char(0) == '-';
        let signed: bool = total > 0 && (negative || s.get_char(0) == '+');
        let body: &str = if signed {
            s.substring_char(1, total)
        } else {
            s
        };
        assert(body@ =~= if signed {
            s@.drop_first()
        } else {
            s@
        });
        let n: usize = body.unicode_len();
        let dot: usize = find_char(body, '.');
        proof {
            crate::text::lemma_first_index_of(body@, '.');
        }
        let ghost whole = body@.subrange(0, dot as int);
        let ghost fraction = if dot < n {
            body@.subrange(dot + 1, n as int)
        } else {
            Seq::<char>::empty()
        };
        let width: usize = if dot < n {
            n - dot - 1
        } else {
            0
        };
        if width > 6 || dot + width == 0 {
            return None;
        }
        let whole_part: u64 = match read_digits(body, 0, dot, WHOLE_LIMIT) {
            Some(v) => v,
            None => {
                proof {
                    if all_digits(whole) {
                        assert(digits_value(whole) * SCALE > i64::MAX + 1) by (nonlinear_arith)
                            requires
                                digits_value(whole) > WHOLE_LIMIT,
                        ;
                    }
                }
                return None;
            },
        };
        let fraction_part: u64 = if dot < n {
            proof {
                lemma_digits_value_bound(fraction);
                reveal_with_fuel(pow10, 8);
            }
            match read_digits(body, dot + 1, n, 999_999) {
                Some(v) => v,
                None => {
                    return None;
                },
            }
        } else {
            assert(digits_value(fraction) == 0);
            0
        };
        let unit: u64 = power_of_ten(6 - width);
        assert(whole_part * SCALE <= WHOLE_LIMIT * SCALE) by (nonlinear_arith)
            requires
                whole_part <= WHOLE_LIMIT,
        ;
        assert(fraction_part * unit <= 999_999 * 1_000_000) by (nonlinear_arith)
            requires
                fraction_part <= 999_999,
                unit <= 1_000_000,
        ;
        let magnitude: i128 = whole_part as i128 * SCALE as i128 + fraction_part as i128
            * unit as i128;
        let value: i128 = if negative {
            -magnitude
        } else {
            magnitude
        };
        if value < i64::MIN as i128 || value > i64::MAX as i128 {
            return None;
        }
        Some(Decimal { raw: value as i64 })
    }

    /// The text of the number.
    pub fn to_string(&self) -> (r: String)
        ensures
            r@ == decimal_text(self@),
    {
        let negative: bool = self.raw < 0;
        let magnitude: u64 = if negative {
            (-(self.raw as i128)) as u64
        } else {
            self.raw as u64
        };
        let whole: u64 = magnitude / (SCALE as u64);
        let fraction: u64 = magnitude % (SCALE as u64);
        let mut out: String = if negative {
            String::from_str("-")
        } else {
            String::from_str("")
        };
        proof {
            reveal_strlit("-");
            reveal_strlit("");
            reveal_strlit(".");
        }
        let digits: String = number_to_string(whole);
        out.append(digits.as_str());
        if fraction != 0 {
            out.append(".");
            let tail: String = fraction_to_string(fraction, 6);
            out.append(tail.as_str());
        }
        assert(out@ =~= decimal_text(self@));
        out
    }
}

/// The last `width` digits of `n`, with leading zeros.
pub fn padded_to_string(n: u64, width: usize) -> (r: String)
    ensures
        r@ == padded_digits(n as nat, width as nat),
    decreases width,
{
    if width == 0 {
        proof {
            reveal_strlit("");
        }
        let r: String = String::from_str("");
        assert(r@ =~= padded_digits(n as nat, 0));
        r
    } else {
        let mut r: String = padded_to_string(n / 10, width - 1);
        r.append(digit_str(n % 10));
        assert(r@ =~= padded_digits(n as nat, width as nat));
        r
    }
}

/// The digits after the point, without trailing zeros.
pub fn fraction_to_string(fraction: u64, width: usize) -> (r: String)
    ensures
        r@ == fraction_digits(fraction as nat, width as nat),
    decreases width,
{
    if width == 0 || fraction % 10 != 0 {
        padded_to_string(fraction, width)
    } else {
        fraction_to_string(fraction / 10, width - 1)
    }
}

} // verus!
