//! Fixed-point money and rate scalars, and the asset categories whose
//! balances the simulation tracks.
//!
//! [`Money`] is a signed number of cents. [`Rate`] is a percentage scaled
//! by `1_000_000`, so it carries six decimal digits. A rate is applied to
//! money by multiplying first and dividing last, at full internal scale,
//! so chained conversions keep sub-cent precision; the one rounding step
//! truncates toward zero.

use crate::errors::EvalError;
use crate::tax::TaxTx;
use crate::tdiv;
use crate::text::{
    all_digits, clean_rate, clean_rate_str, commas_i64, dec_digits, digits_value, dot_idx,
    frac_text, grouped, int_parse_spec, int_text_grouped, is_digit_char, lemma_dec_digits_wf,
    lemma_digits_value_nonneg, lemma_digits_value_upper, lemma_dot_idx, lemma_frac_text_wf,
    padded_digits, parse_i64, pow10, push_digits, push_frac, push_padded, trim_end_spec,
    trim_start_spec, strip_pct_spec,
};
use crate::time::Time;
use vstd::arithmetic::div_mod::{
    lemma_div_is_strictly_smaller, lemma_div_multiples_vanish, lemma_div_nonincreasing,
    lemma_div_pos_is_pos, lemma_fundamental_div_mod, lemma_mod_multiples_basic,
};
use vstd::prelude::*;
use vstd::string::{StrSliceExecFns, StringExecFns};

verus! {

/// The scale factor of [`Rate`]: one percent is this many raw units.
pub const RATE_SCALE: i64 = 1000000;

/// The raw units of [`Rate`] that make up 100%.
pub const RATE_SCALE_PER_UNIT: i64 = 100000000;

/// For a divisor in the 64-bit range (other than the one overflowing
/// combination), the truncating quotient of a 64-bit value stays in the
/// 64-bit range.
proof fn lemma_tdiv_in_i64(a: int, b: int)
    requires
        i64::MIN <= a <= i64::MAX,
        b != 0,
        !(a == i64::MIN && b == -1),
    ensures
        i64::MIN <= tdiv(a, b) <= i64::MAX,
{
    let m = if a >= 0 {
        a
    } else {
        -a
    };
    let d = if b > 0 {
        b
    } else {
        -b
    };
    if m > 0 {
        lemma_div_pos_is_pos(m, d);
        lemma_div_nonincreasing(m, d);
        if d >= 2 {
            lemma_div_is_strictly_smaller(m, d);
        }
    }
}

/// An amount of money, stored as a signed number of cents. All sums and
/// differences are exact; only applying a rate rounds, truncating toward
/// zero.
#[derive(Debug, Clone, Copy, PartialEq, Eq, PartialOrd, Ord, Hash, Structural)]
pub struct Money(i64);

impl View for Money {
    type V = int;

    closed spec fn view(&self) -> int {
        self.0 as int
    }
}

impl Money {
    /// A whole-dollar amount.
    pub fn from_dollars(amount: i64) -> (r: Self)
        requires
            i64::MIN <= amount * 100 <= i64::MAX,
        ensures
            r@ == amount * 100,
    {
        Money(amount * 100)
    }

    /// An amount given directly in cents.
    pub fn from_cents(amount: i64) -> (r: Self)
        ensures
            r@ == amount,
    {
        Money(amount)
    }

    /// The whole-dollar part of the amount, truncated toward zero.
    pub fn as_dollars(self) -> (r: i64)
        ensures
            r == tdiv(self@, 100),
    {
        match self.0.checked_div(100) {
            Some(d) => d,
            None => 0,  // unreachable: the divisor is positive
        }
    }

    /// The exact amount in cents.
    pub fn as_cents(self) -> (r: i64)
        ensures
            r == self@,
    {
        self.0
    }

    /// This amount scaled by a rate; fails if the full-precision product
    /// leaves the 64-bit range.
    pub fn at_rate(&self, rate: Rate) -> (r: Result<Money, EvalError>)
        ensures
            r is Ok <==> i64::MIN <= self@ * rate@ <= i64::MAX,
            r matches Ok(m) ==> m@ == tdiv(self@ * rate@, 100000000),
            r matches Err(e) ==> e == EvalError::Overflow,
    {
        rate.at_rate(*self)
    }

    /// The amount with its sign flipped.
    pub fn negate(&self) -> (r: Self)
        requires
            self@ != i64::MIN,
        ensures
            r@ == -self@,
    {
        Money(-self.0)
    }

    /// The exact sum of two amounts.
    pub fn add(self, rhs: Self) -> (r: Self)
        requires
            i64::MIN <= self@ + rhs@ <= i64::MAX,
        ensures
            r@ == self@ + rhs@,
    {
        Money(self.0 + rhs.0)
    }

    /// The exact difference of two amounts.
    pub fn sub(self, rhs: Self) -> (r: Self)
        requires
            i64::MIN <= self@ - rhs@ <= i64::MAX,
        ensures
            r@ == self@ - rhs@,
    {
        Money(self.0 - rhs.0)
    }

    /// The sum of two amounts, or `None` if it leaves the 64-bit range.
    pub fn checked_add(self, rhs: Self) -> (r: Option<Money>)
        ensures
            r is Some <==> i64::MIN <= self@ + rhs@ <= i64::MAX,
            r matches Some(m) ==> m@ == self@ + rhs@,
    {
        match self.0.checked_add(rhs.0) {
            Some(c) => Some(Money(c)),
            None => None,
        }
    }

    /// The difference of two amounts, or `None` if it leaves the 64-bit
    /// range.
    pub fn checked_sub(self, rhs: Self) -> (r: Option<Money>)
        ensures
            r is Some <==> i64::MIN <= self@ - rhs@ <= i64::MAX,
            r matches Some(m) ==> m@ == self@ - rhs@,
    {
        match self.0.checked_sub(rhs.0) {
            Some(c) => Some(Money(c)),
            None => None,
        }
    }

    /// The percentage that this amount is of `rhs` at full precision, per
    /// [`Money::div`], or `None` when `rhs` is zero or the scaled
    /// numerator leaves the 64-bit range.
    pub fn checked_div(self, rhs: Self) -> (r: Option<Rate>)
        ensures
            r is Some <==> (rhs@ != 0 && i64::MIN <= self@ * 100000000 <= i64::MAX && !(self@
                * 100000000 == i64::MIN && rhs@ == -1)),
            r matches Some(rate) ==> rate@ == tdiv(self@ * 100000000, rhs@),
    {
        if rhs.0 == 0 {
            return None;
        }
        match self.0.checked_mul(100000000) {
            Some(scaled) => {
                if scaled == i64::MIN && rhs.0 == -1 {
                    return None;
                }
                proof {
                    lemma_tdiv_in_i64(scaled as int, rhs@);
                }
                match scaled.checked_div(rhs.0) {
                    Some(q) => Some(Rate(q)),
                    None => None,  // unreachable: the quotient is in range
                }
            },
            None => None,
        }
    }

    /// The exact total of a list of amounts, or `None` if it leaves the
    /// 64-bit range.
    pub fn sum(values: &Vec<Money>) -> (r: Option<Money>)
        ensures
            r is Some <==> i64::MIN <= sum_cents(values@) <= i64::MAX,
            r matches Some(m) ==> m@ == sum_cents(values@),
    {
        let mut acc: i128 = 0;
        let mut i: usize = 0;
        while i < values.len()
            invariant
                0 <= i <= values@.len(),
                acc == sum_cents(values@.take(i as int)),
                -(i as int) * 0x8000000000000000 <= acc <= (i as int) * 0x8000000000000000,
            decreases values@.len() - i,
        {
            proof {
                assert(values@.take(i as int + 1).drop_last() =~= values@.take(i as int));
                assert(values@.take(i as int + 1).last() == values@[i as int]);
            }
            acc = acc + values[i].0 as i128;
            i = i + 1;
        }
        proof {
            assert(values@.take(values@.len() as int) =~= values@);
        }
        if acc >= i64::MIN as i128 && acc <= i64::MAX as i128 {
            Some(Money(acc as i64))
        } else {
            None
        }
    }

    /// The percentage that this amount is of `rhs`, carried to the rate's
    /// full internal precision: the numerator is scaled up before the
    /// division so that fractions of a percent survive.
    pub fn div(self, rhs: Self) -> (r: Rate)
        requires
            rhs@ != 0,
            -i64::MAX <= self@ * 100000000 <= i64::MAX,
        ensures
            r@ == tdiv(self@ * 100000000, rhs@),
    {
        let scaled = match self.0.checked_mul(100000000) {
            Some(s) => s,
            None => 0,  // unreachable under the precondition
        };
        proof {
            lemma_tdiv_in_i64(scaled as int, rhs@);
        }
        match scaled.checked_div(rhs.0) {
            Some(q) => Rate(q),
            None => Rate(0),  // unreachable under the precondition
        }
    }
}

/// The exact sum, in cents, of a list of amounts.
pub open spec fn sum_cents(s: Seq<Money>) -> int
    decreases s.len(),
{
    if s.len() == 0 {
        0
    } else {
        sum_cents(s.drop_last()) + s.last()@
    }
}

/// A percentage with six decimal digits of precision, stored as a signed
/// multiple of one millionth of a percent.
#[derive(Debug, Clone, Copy, PartialEq, Eq, PartialOrd, Ord, Hash, Structural)]
pub struct Rate(i64);

impl View for Rate {
    type V = int;

    closed spec fn view(&self) -> int {
        self.0 as int
    }
}

impl Rate {
    /// A whole-percent rate.
    pub fn from_percent(pct: i64) -> (r: Self)
        requires
            i64::MIN <= pct * 1000000 <= i64::MAX,
        ensures
            r@ == pct * 1000000,
    {
        Rate(pct * RATE_SCALE)
    }

    /// A rate built directly from its raw scaled value.
    pub fn from_raw(raw: i64) -> (r: Self)
        ensures
            r@ == raw,
    {
        Rate(raw)
    }

    /// The raw scaled value of the rate.
    pub fn as_raw(&self) -> (r: i64)
        ensures
            r == self@,
    {
        self.0
    }

    /// The whole-percent part of the rate, truncated toward zero.
    pub fn as_percent(&self) -> (r: i64)
        ensures
            r == tdiv(self@, 1000000),
    {
        match self.0.checked_div(RATE_SCALE) {
            Some(p) => p,
            None => 0,  // unreachable: the divisor is positive
        }
    }

    /// The complement of the rate: 100% minus it.
    pub fn inverse(&self) -> (r: Self)
        requires
            100000000 - self@ <= i64::MAX,
        ensures
            r@ == 100000000 - self@,
    {
        Rate(RATE_SCALE_PER_UNIT - self.0)
    }

    /// The rate with its sign flipped.
    pub fn negate(&self) -> (r: Self)
        requires
            self@ != i64::MIN,
        ensures
            r@ == -self@,
    {
        Rate(-self.0)
    }

    /// The given money scaled by this rate: multiply at full scale first,
    /// divide last, truncating toward zero. Fails exactly when the
    /// full-precision product leaves the 64-bit range.
    pub fn at_rate(&self, money: Money) -> (r: Result<Money, EvalError>)
        ensures
            r is Ok <==> i64::MIN <= money@ * self@ <= i64::MAX,
            r matches Ok(m) ==> m@ == tdiv(money@ * self@, 100000000),
            r matches Err(e) ==> e == EvalError::Overflow,
    {
        match money.0.checked_mul(self.0) {
            Some(tmp) => {
                proof {
                    lemma_tdiv_in_i64(tmp as int, 100000000);
                }
                match tmp.checked_div(RATE_SCALE_PER_UNIT) {
                    Some(q) => Ok(Money(q)),
                    None => Err(EvalError::Overflow),  // unreachable: the divisor is positive
                }
            },
            None => Err(EvalError::Overflow),
        }
    }

    /// The exact difference of two rates.
    pub fn sub(self, rhs: Self) -> (r: Self)
        requires
            i64::MIN <= self@ - rhs@ <= i64::MAX,
        ensures
            r@ == self@ - rhs@,
    {
        Rate(self.0 - rhs.0)
    }

    /// The rate divided by an integer, truncating toward zero.
    pub fn div(self, rhs: i64) -> (r: Self)
        requires
            rhs != 0,
            !(self@ == i64::MIN && rhs == -1),
        ensures
            r@ == tdiv(self@, rhs as int),
    {
        proof {
            lemma_tdiv_in_i64(self@, rhs as int);
        }
        match self.0.checked_div(rhs) {
            Some(q) => Rate(q),
            None => Rate(0),  // unreachable under the precondition
        }
    }
}

/// Why a percentage string was rejected.
#[derive(Debug, Clone, Copy, PartialEq, Eq, Structural)]
pub enum RateParseError {
    /// The text is not an optionally signed decimal number.
    Malformed,
    /// The fractional part has more than six digits.
    TooManyDecimals,
    /// The value does not fit the rate's 64-bit raw range.
    Overflow,
}

/// The raw rate value that a percentage string denotes, if it denotes
/// one: after reducing the string per [`clean_rate_str`], either a signed
/// integer percentage, or one with a dot and one to six fractional
/// digits. The whole part scaled by a million must fit 64 bits, and so
/// must the final raw value.
pub open spec fn rate_parse_spec(cs: Seq<char>) -> Option<int> {
    let clean = clean_rate_str(cs);
    let j = dot_idx(clean);
    if j == clean.len() {
        match int_parse_spec(clean) {
            Some(w) => if i64::MIN <= w * 1000000 <= i64::MAX {
                Some(w * 1000000)
            } else {
                None
            },
            None => None,
        }
    } else {
        let whole = clean.take(j);
        let pts = clean.skip(j + 1);
        if 1 <= pts.len() <= 6 && all_digits(pts) {
            match int_parse_spec(whole) {
                Some(w) => {
                    let raw = w * 1000000 + digits_value(pts) * pow10((6 - pts.len()) as nat);
                    if i64::MIN <= w * 1000000 <= i64::MAX && i64::MIN <= raw <= i64::MAX {
                        Some(raw)
                    } else {
                        None
                    }
                },
                None => None,
            }
        } else {
            None
        }
    }
}

/// The percentage string has a fractional part of more than six digits
/// (all of them digits): the one malformation with its own error.
pub open spec fn too_many_decimals_spec(cs: Seq<char>) -> bool {
    let clean = clean_rate_str(cs);
    let j = dot_idx(clean);
    &&& j < clean.len()
    &&& all_digits(clean.skip(j + 1))
    &&& clean.skip(j + 1).len() > 6
}

/// The textual form of a nonnegative raw rate value: the whole percent
/// part, then a dot and the fractional digits (trailing zeros removed)
/// when there are any, then a percent sign.
pub open spec fn rate_text_nonneg(raw: int) -> Seq<char> {
    let whole = raw / 1000000;
    let rem = raw % 1000000;
    dec_digits(whole as nat) + (if rem == 0 {
        Seq::<char>::empty()
    } else {
        seq!['.'] + frac_text(rem as nat, 6)
    }) + seq!['%']
}

/// The textual form of a raw rate value; negative rates carry a leading
/// minus sign.
pub open spec fn rate_text(raw: int) -> Seq<char> {
    if raw >= 0 {
        rate_text_nonneg(raw)
    } else {
        seq!['-'] + rate_text_nonneg(-raw)
    }
}

/// The textual form of an amount of cents: a dollar sign, a minus sign
/// for negative amounts, the comma-grouped whole dollars, and the two
/// cent digits when they are not zero.
pub open spec fn money_text(cents: int) -> Seq<char> {
    let mag = if cents < 0 {
        -cents
    } else {
        cents
    };
    let d = mag / 100;
    let rem = mag % 100;
    seq!['$'] + (if cents < 0 {
        seq!['-']
    } else {
        Seq::<char>::empty()
    }) + grouped(dec_digits(d as nat)) + (if rem == 0 {
        Seq::<char>::empty()
    } else {
        seq!['.'] + padded_digits(rem as nat, 2)
    })
}

impl Money {
    /// The amount as text per [`money_text`]: comma-grouped dollars after
    /// a dollar sign, with the cents shown only when they are not zero.
    pub fn render(&self) -> (r: String)
        ensures
            r@ == money_text(self@),
    {
        let mag: u64 = if self.0 < 0 {
            (-(self.0 as i128)) as u64
        } else {
            self.0 as u64
        };
        let dollars = mag / 100;
        let rem = mag % 100;
        let mut out = String::from_str("$");
        proof {
            reveal_strlit("$");
            assert(out@ =~= seq!['$']);
        }
        if self.0 < 0 {
            let minus = "-";
            proof {
                reveal_strlit("-");
                assert(minus@ =~= seq!['-']);
            }
            out.append(minus);
        }
        let grouped_dollars = commas_i64(dollars as i64);
        out.append(grouped_dollars.as_str());
        if rem != 0 {
            let dot = ".";
            proof {
                reveal_strlit(".");
                assert(dot@ =~= seq!['.']);
            }
            out.append(dot);
            push_padded(rem, 2, &mut out);
        }
        proof {
            assert(out@ =~= money_text(self@));
        }
        out
    }
}

impl Rate {
    /// The rate as text per [`rate_text`]: the percentage with its
    /// fractional digits (trailing zeros removed) and a percent sign.
    pub fn render(&self) -> (r: String)
        ensures
            r@ == rate_text(self@),
    {
        let mag: u64 = if self.0 < 0 {
            (-(self.0 as i128)) as u64
        } else {
            self.0 as u64
        };
        let whole = mag / 1000000;
        let rem = mag % 1000000;
        let mut out = String::new();
        if self.0 < 0 {
            let minus = "-";
            proof {
                reveal_strlit("-");
                assert(minus@ =~= seq!['-']);
            }
            out.append(minus);
        }
        push_digits(whole, &mut out);
        if rem != 0 {
            let dot = ".";
            proof {
                reveal_strlit(".");
                assert(dot@ =~= seq!['.']);
            }
            out.append(dot);
            push_frac(rem, 6, &mut out);
        }
        let pct = "%";
        proof {
            reveal_strlit("%");
            assert(pct@ =~= seq!['%']);
        }
        out.append(pct);
        proof {
            if self.0 >= 0 {
                assert(out@ =~= rate_text(self@));
            } else {
                assert(out@ =~= rate_text(self@));
            }
        }
        out
    }

    /// Read a rate from a percentage string per [`rate_parse_spec`]:
    /// whitespace and a trailing percent sign are allowed, the number may
    /// carry a sign touching its first digit, and a fractional part may
    /// have at most six digits.
    pub fn parse(s: &str) -> (r: Result<Rate, RateParseError>)
        ensures
            r is Ok <==> rate_parse_spec(s@) is Some,
            r matches Ok(rate) ==> rate_parse_spec(s@) == Some(rate@),
            r == Err::<Rate, RateParseError>(RateParseError::TooManyDecimals)
                <==> too_many_decimals_spec(s@),
    {
        let clean = clean_rate(s);
        let len = clean.unicode_len();
        let mut j: usize = 0;
        while j < len && clean.get_char(j) != '.'
            invariant
                0 <= j <= len,
                len == clean@.len(),
                forall|i: int| 0 <= i < j ==> clean@[i] != '.',
            decreases len - j,
        {
            j = j + 1;
        }
        proof {
            lemma_dot_idx(clean@);
            if j < len {
                assert(clean@[j as int] == '.');
            }
            assert(j == dot_idx(clean@));
        }
        if j == len {
            // no fractional part: a signed whole percentage
            match parse_i64(clean) {
                Some(w) => match w.checked_mul(1000000) {
                    Some(raw) => Ok(Rate(raw)),
                    None => Err(RateParseError::Overflow),
                },
                None => Err(RateParseError::Malformed),
            }
        } else {
            let pts_len = len - (j + 1);
            let pts = clean.substring_char(j + 1, len);
            proof {
                assert(pts@ =~= clean@.skip(j + 1));
            }
            let mut k: usize = 0;
            let mut all_ok = true;
            while k < pts_len && all_ok
                invariant
                    0 <= k <= pts_len,
                    pts@ == clean@.skip(j + 1),
                    pts@.len() == pts_len,
                    all_ok ==> all_digits(pts@.take(k as int)),
                    !all_ok ==> !all_digits(pts@),
                decreases pts_len - k + (if all_ok {
                    1int
                } else {
                    0int
                }),
            {
                let c = pts.get_char(k);
                if '0' <= c && c <= '9' {
                    proof {
                        assert(forall|q: int|
                            0 <= q < k ==> #[trigger] pts@.take(k as int + 1)[q] == pts@.take(
                                k as int,
                            )[q]);
                        assert(pts@.take(k as int + 1)[k as int] == c);
                        assert(all_digits(pts@.take(k as int + 1)));
                    }
                    k = k + 1;
                } else {
                    all_ok = false;
                }
            }
            if !all_ok {
                return Err(RateParseError::Malformed);
            }
            proof {
                assert(pts@.take(pts_len as int) =~= pts@);
            }
            if pts_len == 0 {
                return Err(RateParseError::Malformed);
            }
            if pts_len > 6 {
                return Err(RateParseError::TooManyDecimals);
            }
            let whole_str = clean.substring_char(0, j);
            proof {
                assert(whole_str@ =~= clean@.take(j as int));
            }
            let w = match parse_i64(whole_str) {
                Some(w) => w,
                None => {
                    return Err(RateParseError::Malformed);
                },
            };
            let p = match parse_i64(pts) {
                Some(p) => p,
                None => {
                    // unreachable: one to six digits always parse
                    proof {
                        lemma_digits_value_nonneg(pts@);
                        lemma_digits_value_upper(pts@);
                        reveal_with_fuel(pow10, 8);
                        assert(pow10(pts@.len()) <= 1000000);
                        assert(false);
                    }
                    return Err(RateParseError::Malformed);
                },
            };
            let scale: i64 = match pts_len {
                1 => 100000,
                2 => 10000,
                3 => 1000,
                4 => 100,
                5 => 10,
                _ => 1,
            };
            proof {
                reveal_with_fuel(pow10, 8);
                assert(scale == pow10((6 - pts@.len()) as nat));
                lemma_digits_value_nonneg(pts@);
                lemma_digits_value_upper(pts@);
                assert(pow10(pts@.len()) <= 1000000);
            }
            proof {
                assert(0 <= p * scale <= 1000000 * 100000) by (nonlinear_arith)
                    requires
                        0 <= p < 1000000,
                        0 < scale <= 100000,
                ;
            }
            let p_scaled = p * scale;
            let w6 = match w.checked_mul(1000000) {
                Some(w6) => w6,
                None => {
                    return Err(RateParseError::Overflow);
                },
            };
            match w6.checked_add(p_scaled) {
                Some(raw) => Ok(Rate(raw)),
                None => Err(RateParseError::Overflow),
            }
        }
    }
}

/// Money round-trips: a whole-dollar amount stored as cents
/// ([`Money::from_dollars`]) and read back as dollars
/// ([`Money::as_dollars`]) is unchanged. Cent amounts round-trip exactly
/// by [`Money::from_cents`] and [`Money::as_cents`]'s contracts alone.
pub proof fn lemma_money_dollars_round_trip(d: int)
    requires
        i64::MIN <= d * 100 <= i64::MAX,
    ensures
        tdiv(d * 100, 100) == d,
{
    if d > 0 {
        lemma_div_multiples_vanish(d, 100);
    } else if d < 0 {
        lemma_div_multiples_vanish(-d, 100);
        assert(-(d * 100) == 100 * -d);
    }
}

/// Rendering a rate and parsing the text back returns the same raw value,
/// for every nonnegative rate and for every negative whole percentage.
/// (A negative rate with fractional digits does not round-trip: the
/// parser adds the fractional part instead of subtracting it.)
pub proof fn lemma_rate_render_parse_round_trip(raw: int)
    requires
        0 <= raw <= i64::MAX || (i64::MIN < raw < 0 && raw % 1000000 == 0),
    ensures
        rate_parse_spec(rate_text(raw)) == Some(raw),
{
    if raw >= 0 {
        lemma_rate_round_trip_nonneg(raw);
    } else {
        // "-W%": the sign is parsed, the digits carry the magnitude
        let mag = -raw;
        assert(mag % 1000000 == 0) by {
            lemma_fundamental_div_mod(raw, 1000000);
            lemma_mod_multiples_basic(-(raw / 1000000), 1000000);
            assert(mag == 1000000 * -(raw / 1000000));
        }
        let whole = mag / 1000000;
        lemma_fundamental_div_mod(mag, 1000000);
        let w = dec_digits(whole as nat);
        lemma_dec_digits_wf(whole as nat);
        let body = seq!['-'] + w;
        let cs = rate_text(raw);
        assert(rate_text_nonneg(mag) =~= w + seq!['%']);
        assert(cs =~= body + seq!['%']);
        lemma_clean_digit_body(body, cs);
        lemma_no_dot(body);
        assert(int_parse_spec(body) == Some(-digits_value(w))) by {
            assert(body.first() == '-');
            assert(body.drop_first() =~= w);
        }
        assert(-digits_value(w) * 1000000 == raw) by (nonlinear_arith)
            requires
                digits_value(w) == whole,
                mag == 1000000 * whole,
                raw == -mag,
        ;
    }
}

/// The round trip for nonnegative rates.
proof fn lemma_rate_round_trip_nonneg(raw: int)
    requires
        0 <= raw <= i64::MAX,
    ensures
        rate_parse_spec(rate_text(raw)) == Some(raw),
{
    let whole = raw / 1000000;
    let rem = raw % 1000000;
    lemma_fundamental_div_mod(raw, 1000000);
    let w = dec_digits(whole as nat);
    lemma_dec_digits_wf(whole as nat);
    let cs = rate_text(raw);
    if rem == 0 {
        assert(cs =~= w + seq!['%']);
        lemma_clean_digit_body(w, cs);
        lemma_no_dot(w);
        assert(int_parse_spec(w) == Some(whole));
        assert(whole * 1000000 == raw);
    } else {
        reveal_with_fuel(pow10, 8);
        let ft = frac_text(rem as nat, 6);
        lemma_frac_text_wf(rem as nat, 6);
        let body = w + seq!['.'] + ft;
        assert(cs =~= body + seq!['%']);
        lemma_clean_digit_body(body, cs);
        let j = dot_idx(body);
        lemma_dot_idx(body);
        assert(body[w.len() as int] == '.');
        assert(forall|i: int| 0 <= i < w.len() ==> #[trigger] body[i] == w[i]);
        assert(j == w.len()) by {
            if j < w.len() {
                assert(is_digit_char(w[j]));
            }
            if j > w.len() {
                assert(body[w.len() as int] != '.');
            }
        }
        assert(body.take(j) =~= w);
        assert(body.skip(j + 1) =~= ft);
        assert(int_parse_spec(w) == Some(whole));
        let scaled = digits_value(ft) * pow10((6 - ft.len()) as nat);
        assert(scaled == rem);
        assert(whole * 1000000 + scaled == raw);
        assert(0 <= whole * 1000000 <= i64::MAX);
    }
}

/// A rendered number body surrounded by nothing but its percent sign
/// cleans to itself: it starts with a digit or a minus sign and ends with
/// a digit, so no whitespace is trimmed and only the sign is stripped.
proof fn lemma_clean_digit_body(body: Seq<char>, cs: Seq<char>)
    requires
        cs == body + seq!['%'],
        body.len() >= 1,
        is_digit_char(body.first()) || body.first() == '-',
        is_digit_char(body.last()),
    ensures
        clean_rate_str(cs) == body,
{
    assert(cs.first() == body.first());
    assert(cs.last() == '%');
    assert(trim_start_spec(cs) == cs);
    assert(trim_end_spec(cs) == cs);
    assert(cs.drop_last() =~= body);
    assert(strip_pct_spec(cs) == strip_pct_spec(body));
    assert(strip_pct_spec(body) == body);
    assert(trim_end_spec(body) == body);
}

/// A digit string, possibly signed, holds no dot: parsing finds none.
proof fn lemma_no_dot(body: Seq<char>)
    requires
        forall|i: int|
            0 <= i < body.len() ==> is_digit_char(#[trigger] body[i]) || body[i] == '-',
    ensures
        dot_idx(body) == body.len(),
{
    lemma_dot_idx(body);
    if dot_idx(body) < body.len() {
        assert(is_digit_char(body[dot_idx(body)]) || body[dot_idx(body)] == '-');
    }
}

/// The name of a single asset within a category.
#[derive(Debug, Clone, PartialEq, Eq, PartialOrd, Ord, Hash)]
pub struct AssetName(pub String);

/// A named amount of money contributing to a category's balance.
#[derive(Debug, Clone, PartialEq, Eq, PartialOrd, Ord, Hash)]
pub struct Asset {
    pub name: AssetName,
    pub value: Money,
}

/// One transaction: the time it happened, the net amount applied to the
/// category balance, and its tax bookkeeping.
#[derive(Debug, Clone)]
pub struct Tx {
    pub time: Time,
    pub amount: Money,
    pub tax_tx: TaxTx,
}

/// The name of an asset category.
#[derive(Debug, Clone, PartialEq, Eq, PartialOrd, Ord, Hash)]
pub struct CategoryName(pub String);

impl View for CategoryName {
    type V = Seq<char>;

    open spec fn view(&self) -> Seq<char> {
        self.0@
    }
}

impl CategoryName {
    /// Whether two category names spell the same string.
    pub fn same(&self, other: &CategoryName) -> (r: bool)
        ensures
            r == (self@ == other@),
    {
        self.0 == other.0
    }
}

/// A named group of assets tracked as one running balance.
#[derive(Debug, Clone, PartialEq, Eq, PartialOrd, Ord, Hash)]
pub struct Category {
    pub name: CategoryName,
    pub assets: Vec<Asset>,
}

/// The exact total value, in cents, of a list of assets.
pub open spec fn assets_total(s: Seq<Asset>) -> int
    decreases s.len(),
{
    if s.len() == 0 {
        0
    } else {
        assets_total(s.drop_last()) + s.last().value@
    }
}

impl Category {
    /// A category from its name and assets.
    pub fn from_assets(name: CategoryName, assets: Vec<Asset>) -> (r: Self)
        ensures
            r.name == name,
            r.assets == assets,
    {
        Category { name, assets }
    }

    /// The category's starting balance: the exact sum of its assets.
    pub fn value<'a>(&'a self) -> (r: CategoryValue<'a>)
        requires
            i64::MIN <= assets_total(self.assets@) <= i64::MAX,
        ensures
            r.0 == self,
            r.1@ == assets_total(self.assets@),
    {
        let mut acc: i128 = 0;
        let mut i: usize = 0;
        while i < self.assets.len()
            invariant
                0 <= i <= self.assets@.len(),
                acc == assets_total(self.assets@.take(i as int)),
                -(i as int) * 0x8000000000000000 <= acc <= (i as int) * 0x8000000000000000,
            decreases self.assets@.len() - i,
        {
            proof {
                assert(self.assets@.take(i as int + 1).drop_last() =~= self.assets@.take(
                    i as int,
                ));
                assert(self.assets@.take(i as int + 1).last() == self.assets@[i as int]);
            }
            acc = acc + self.assets[i].value.0 as i128;
            i = i + 1;
        }
        proof {
            assert(self.assets@.take(self.assets@.len() as int) =~= self.assets@);
        }
        CategoryValue(self, Money(acc as i64))
    }
}

/// A category's running balance during a simulation. It starts as the sum
/// of the category's assets and is updated once per simulated month.
pub struct CategoryValue<'a>(pub &'a Category, pub Money);

impl<'a> CategoryValue<'a> {
    /// The name of the category this balance belongs to.
    pub fn name(&self) -> (r: &CategoryName)
        ensures
            r == &self.0.name,
    {
        &self.0.name
    }

    /// The current balance.
    pub fn value(&self) -> (r: Money)
        ensures
            r == self.1,
    {
        self.1
    }

    /// Apply one transaction's net amount to the running balance.
    pub fn apply_tx(&mut self, tx: &Tx)
        requires
            i64::MIN <= old(self).1@ + tx.amount@ <= i64::MAX,
        ensures
            final(self).0 == old(self).0,
            final(self).1@ == old(self).1@ + tx.amount@,
    {
        self.1 = Money(self.1.0 + tx.amount.0);
    }
}

} // verus!
