//! Decimal text: rendering numbers as digit strings (with comma grouping
//! for dollar amounts) and reading signed decimals back, character by
//! character. Everything here speaks of sequences of characters, so the
//! money and rate types can pin their textual forms exactly.

use thousands::Separable;
use vstd::prelude::*;
use vstd::string::{StrSliceExecFns, StringExecFns};

verus! {

/// The digit character for a value between 0 and 9.
pub open spec fn digit_char(d: int) -> char {
    if d == 0 {
        '0'
    } else if d == 1 {
        '1'
    } else if d == 2 {
        '2'
    } else if d == 3 {
        '3'
    } else if d == 4 {
        '4'
    } else if d == 5 {
        '5'
    } else if d == 6 {
        '6'
    } else if d == 7 {
        '7'
    } else if d == 8 {
        '8'
    } else {
        '9'
    }
}

/// Whether a character is an ASCII decimal digit.
pub open spec fn is_digit_char(c: char) -> bool {
    '0' <= c <= '9'
}

/// The numeric value of an ASCII digit character.
pub open spec fn digit_val(c: char) -> int {
    c as u32 - 48
}

/// Whether a character is ASCII whitespace.
pub open spec fn is_ws_char(c: char) -> bool {
    c == ' ' || c == '\t' || c == '\n' || c == '\r'
}

/// The decimal digits of `n`, most significant first, with no padding.
pub open spec fn dec_digits(n: nat) -> Seq<char>
    decreases n,
{
    if n < 10 {
        seq![digit_char(n as int)]
    } else {
        dec_digits(n / 10) + seq![digit_char((n % 10) as int)]
    }
}

/// The last `w` decimal digits of `n`, zero-padded on the left.
pub open spec fn padded_digits(n: nat, w: nat) -> Seq<char>
    decreases w,
{
    if w == 0 {
        Seq::<char>::empty()
    } else {
        padded_digits(n / 10, (w - 1) as nat) + seq![digit_char((n % 10) as int)]
    }
}

/// The fractional digits of `n` at width `w`: the zero-padded digits with
/// their trailing zeros removed.
pub open spec fn frac_text(n: nat, w: nat) -> Seq<char>
    decreases w,
{
    if w == 0 {
        Seq::<char>::empty()
    } else if n % 10 == 0 {
        frac_text(n / 10, (w - 1) as nat)
    } else {
        padded_digits(n, w)
    }
}

/// A digit string with a comma between each group of three digits,
/// counted from the right.
pub open spec fn grouped(ds: Seq<char>) -> Seq<char>
    decreases ds.len(),
{
    if ds.len() <= 3 {
        ds
    } else {
        grouped(ds.take(ds.len() - 3)) + seq![','] + ds.skip(ds.len() - 3)
    }
}

/// A signed integer as comma-grouped decimal text.
pub open spec fn int_text_grouped(n: int) -> Seq<char> {
    if n >= 0 {
        grouped(dec_digits(n as nat))
    } else {
        seq!['-'] + grouped(dec_digits((-n) as nat))
    }
}

/// The digit string for a single decimal digit.
fn digit_str(d: u8) -> (r: &'static str)
    requires
        d < 10,
    ensures
        r@ =~= seq![digit_char(d as int)],
{
    proof {
        reveal_strlit("0");
        reveal_strlit("1");
        reveal_strlit("2");
        reveal_strlit("3");
        reveal_strlit("4");
        reveal_strlit("5");
        reveal_strlit("6");
        reveal_strlit("7");
        reveal_strlit("8");
        reveal_strlit("9");
    }
    match d {
        0 => "0",
        1 => "1",
        2 => "2",
        3 => "3",
        4 => "4",
        5 => "5",
        6 => "6",
        7 => "7",
        8 => "8",
        _ => "9",
    }
}

/// Append the unpadded decimal digits of `n` to `s`.
pub fn push_digits(n: u64, s: &mut String)
    ensures
        final(s)@ == old(s)@ + dec_digits(n as nat),
    decreases n,
{
    if n < 10 {
        s.append(digit_str(n as u8));
    } else {
        push_digits(n / 10, s);
        let ghost mid = s@;
        s.append(digit_str((n % 10) as u8));
        proof {
            assert(final(s)@ =~= old(s)@ + dec_digits(n as nat));
        }
    }
}

/// Append the last `w` decimal digits of `n` to `s`, zero-padded.
pub fn push_padded(n: u64, w: usize, s: &mut String)
    ensures
        final(s)@ == old(s)@ + padded_digits(n as nat, w as nat),
    decreases w,
{
    if w == 0 {
        proof {
            assert(old(s)@ + padded_digits(n as nat, 0) =~= old(s)@);
        }
    } else {
        push_padded(n / 10, w - 1, s);
        s.append(digit_str((n % 10) as u8));
        proof {
            assert(final(s)@ =~= old(s)@ + padded_digits(n as nat, w as nat));
        }
    }
}

/// Append the fractional digits of `n` at width `w` (zero-padded, with
/// trailing zeros removed) to `s`.
pub fn push_frac(n: u64, w: usize, s: &mut String)
    ensures
        final(s)@ == old(s)@ + frac_text(n as nat, w as nat),
    decreases w,
{
    if w == 0 {
        proof {
            assert(old(s)@ + frac_text(n as nat, 0) =~= old(s)@);
        }
    } else if n % 10 == 0 {
        push_frac(n / 10, w - 1, s);
    } else {
        push_padded(n, w, s);
    }
}

/// Relies on `thousands::Separable::separate_with_commas` for `i64`: it
/// renders the value in decimal and inserts a comma between each group of
/// three digits, counted from the right; a leading minus sign is left in
/// place.
#[verifier::external_body]
pub fn commas_i64(n: i64) -> (r: String)
    ensures
        r@ == int_text_grouped(n as int),
{
    n.separate_with_commas()
}

/// The value of a string of decimal digits, most significant first.
pub open spec fn digits_value(cs: Seq<char>) -> int
    decreases cs.len(),
{
    if cs.len() == 0 {
        0
    } else {
        digits_value(cs.drop_last()) * 10 + digit_val(cs.last())
    }
}

/// Whether every character of the string is an ASCII decimal digit.
pub open spec fn all_digits(cs: Seq<char>) -> bool {
    forall|i: int| 0 <= i < cs.len() ==> is_digit_char(#[trigger] cs[i])
}

/// The value of a digit string is never negative.
pub proof fn lemma_digits_value_nonneg(cs: Seq<char>)
    requires
        all_digits(cs),
    ensures
        digits_value(cs) >= 0,
    decreases cs.len(),
{
    if cs.len() > 0 {
        assert(all_digits(cs.drop_last())) by {
            assert(forall|i: int|
                0 <= i < cs.len() - 1 ==> #[trigger] cs.drop_last()[i] == cs[i]);
        }
        lemma_digits_value_nonneg(cs.drop_last());
    }
}

/// A digit string is worth at least as much as any of its prefixes.
pub proof fn lemma_digits_value_prefix(cs: Seq<char>, i: int)
    requires
        all_digits(cs),
        0 <= i <= cs.len(),
    ensures
        digits_value(cs.take(i)) <= digits_value(cs),
    decreases cs.len() - i,
{
    assert(all_digits(cs.take(i))) by {
        assert(forall|k: int| 0 <= k < i ==> #[trigger] cs.take(i)[k] == cs[k]);
    }
    if i == cs.len() {
        assert(cs.take(i) =~= cs);
    } else {
        lemma_digits_value_prefix(cs, i + 1);
        assert(cs.take(i + 1).drop_last() =~= cs.take(i));
        lemma_digits_value_nonneg(cs.take(i));
        assert(digits_value(cs.take(i + 1)) == digits_value(cs.take(i)) * 10 + digit_val(
            cs.take(i + 1).last(),
        ));
        assert(digit_val(cs[i]) >= 0);
    }
}

/// The decimal digits of a number are digits, and there is at least one.
pub proof fn lemma_dec_digits_wf(n: nat)
    ensures
        all_digits(dec_digits(n)),
        dec_digits(n).len() >= 1,
        digits_value(dec_digits(n)) == n,
    decreases n,
{
    if n < 10 {
        let s = seq![digit_char(n as int)];
        assert(s.drop_last() =~= Seq::<char>::empty());
        assert(digits_value(s) == digits_value(Seq::<char>::empty()) * 10 + digit_val(s.last()));
        assert(digit_val(digit_char(n as int)) == n);
    } else {
        lemma_dec_digits_wf(n / 10);
        let head = dec_digits(n / 10);
        let c = digit_char((n % 10) as int);
        assert((head + seq![c]).drop_last() =~= head);
        assert((head + seq![c]).last() == c);
        assert(forall|i: int|
            0 <= i < head.len() ==> #[trigger] (head + seq![c])[i] == head[i]);
        assert(digits_value(head + seq![c]) == n / 10 * 10 + n % 10);
        vstd::arithmetic::div_mod::lemma_fundamental_div_mod(n as int, 10);
    }
}

/// The zero-padded digits of a number below the width's power of ten:
/// exactly `w` digit characters whose value is the number itself.
pub proof fn lemma_padded_digits_wf(n: nat, w: nat)
    requires
        n < pow10(w),
    ensures
        all_digits(padded_digits(n, w)),
        padded_digits(n, w).len() == w,
        digits_value(padded_digits(n, w)) == n,
    decreases w,
{
    if w == 0 {
    } else {
        assert(n / 10 < pow10((w - 1) as nat)) by {
            vstd::arithmetic::div_mod::lemma_multiply_divide_lt(
                n as int,
                pow10((w - 1) as nat),
                10,
            );
        }
        lemma_padded_digits_wf(n / 10, (w - 1) as nat);
        let head = padded_digits(n / 10, (w - 1) as nat);
        let c = digit_char((n % 10) as int);
        assert((head + seq![c]).drop_last() =~= head);
        assert((head + seq![c]).last() == c);
        assert(forall|i: int|
            0 <= i < head.len() ==> #[trigger] (head + seq![c])[i] == head[i]);
        assert(digits_value(head + seq![c]) == n / 10 * 10 + n % 10);
        vstd::arithmetic::div_mod::lemma_fundamental_div_mod(n as int, 10);
    }
}

/// The fractional digits of a positive number below the width's power of
/// ten: one to `w` digit characters which, scaled back by the trailing
/// zeros they dropped, are worth the number itself.
pub proof fn lemma_frac_text_wf(n: nat, w: nat)
    requires
        0 < n < pow10(w),
    ensures
        all_digits(frac_text(n, w)),
        1 <= frac_text(n, w).len() <= w,
        digits_value(frac_text(n, w)) * pow10((w - frac_text(n, w).len()) as nat) == n,
    decreases w,
{
    if n % 10 == 0 {
        assert(n / 10 < pow10((w - 1) as nat)) by {
            vstd::arithmetic::div_mod::lemma_multiply_divide_lt(
                n as int,
                pow10((w - 1) as nat),
                10,
            );
        }
        assert(n / 10 > 0) by {
            vstd::arithmetic::div_mod::lemma_fundamental_div_mod(n as int, 10);
        }
        lemma_frac_text_wf(n / 10, (w - 1) as nat);
        let ft = frac_text(n / 10, (w - 1) as nat);
        assert(digits_value(ft) * pow10((w - ft.len()) as nat) == digits_value(ft) * (10 * pow10(
            ((w - 1) as nat - ft.len()) as nat,
        )));
        assert(digits_value(ft) * (10 * pow10(((w - 1) as nat - ft.len()) as nat)) == digits_value(
            ft,
        ) * pow10(((w - 1) as nat - ft.len()) as nat) * 10) by (nonlinear_arith);
        vstd::arithmetic::div_mod::lemma_fundamental_div_mod(n as int, 10);
    } else {
        lemma_padded_digits_wf(n, w);
        assert(pow10((w - frac_text(n, w).len()) as nat) == 1);
    }
}

/// The string with its leading ASCII whitespace removed.
pub open spec fn trim_start_spec(cs: Seq<char>) -> Seq<char>
    decreases cs.len(),
{
    if cs.len() > 0 && is_ws_char(cs.first()) {
        trim_start_spec(cs.drop_first())
    } else {
        cs
    }
}

/// The string with its trailing ASCII whitespace removed.
pub open spec fn trim_end_spec(cs: Seq<char>) -> Seq<char>
    decreases cs.len(),
{
    if cs.len() > 0 && is_ws_char(cs.last()) {
        trim_end_spec(cs.drop_last())
    } else {
        cs
    }
}

/// The string with its trailing percent signs removed.
pub open spec fn strip_pct_spec(cs: Seq<char>) -> Seq<char>
    decreases cs.len(),
{
    if cs.len() > 0 && cs.last() == '%' {
        strip_pct_spec(cs.drop_last())
    } else {
        cs
    }
}

/// The index of the first `.` in the string, or its length if it has none.
pub open spec fn dot_idx(cs: Seq<char>) -> int
    decreases cs.len(),
{
    if cs.len() == 0 {
        0
    } else if cs.first() == '.' {
        0
    } else {
        1 + dot_idx(cs.drop_first())
    }
}

/// What `dot_idx` finds: the first dot, if the string has one.
pub proof fn lemma_dot_idx(cs: Seq<char>)
    ensures
        0 <= dot_idx(cs) <= cs.len(),
        dot_idx(cs) < cs.len() ==> cs[dot_idx(cs)] == '.',
        forall|i: int| 0 <= i < dot_idx(cs) ==> cs[i] != '.',
    decreases cs.len(),
{
    if cs.len() > 0 && cs.first() != '.' {
        lemma_dot_idx(cs.drop_first());
        assert(forall|i: int|
            1 <= i < cs.len() ==> #[trigger] cs[i] == cs.drop_first()[i - 1]);
    }
}

/// Powers of ten.
pub open spec fn pow10(n: nat) -> int
    decreases n,
{
    if n == 0 {
        1
    } else {
        10 * pow10((n - 1) as nat)
    }
}

/// A digit string's value is below ten to the power of its length.
pub proof fn lemma_digits_value_upper(cs: Seq<char>)
    requires
        all_digits(cs),
    ensures
        digits_value(cs) < pow10(cs.len()),
    decreases cs.len(),
{
    if cs.len() == 0 {
    } else {
        assert(all_digits(cs.drop_last())) by {
            assert(forall|i: int|
                0 <= i < cs.len() - 1 ==> #[trigger] cs.drop_last()[i] == cs[i]);
        }
        lemma_digits_value_upper(cs.drop_last());
        assert(digit_val(cs.last()) <= 9);
    }
}

/// Whether a character is ASCII whitespace.
pub fn is_ws(c: char) -> (r: bool)
    ensures
        r == is_ws_char(c),
{
    c == ' ' || c == '\t' || c == '\n' || c == '\r'
}

/// A percentage string reduced to its numeric core: whitespace trimmed
/// from both ends, then any trailing percent signs removed, then
/// whitespace trimmed from the end again.
pub open spec fn clean_rate_str(cs: Seq<char>) -> Seq<char> {
    trim_end_spec(strip_pct_spec(trim_end_spec(trim_start_spec(cs))))
}

/// Reduce a percentage string to its numeric core per [`clean_rate_str`].
pub fn clean_rate(s: &str) -> (r: &str)
    ensures
        r@ == clean_rate_str(s@),
{
    let mut t: &str = s;
    while t.unicode_len() > 0 && is_ws(t.get_char(0))
        invariant
            trim_start_spec(t@) == trim_start_spec(s@),
        decreases t@.len(),
    {
        let next = t.substring_char(1, t.unicode_len());
        proof {
            assert(next@ =~= t@.drop_first());
        }
        t = next;
    }
    let ghost t1 = t@;
    while t.unicode_len() > 0 && is_ws(t.get_char(t.unicode_len() - 1))
        invariant
            trim_end_spec(t@) == trim_end_spec(t1),
        decreases t@.len(),
    {
        let next = t.substring_char(0, t.unicode_len() - 1);
        proof {
            assert(next@ =~= t@.drop_last());
        }
        t = next;
    }
    let ghost t2 = t@;
    while t.unicode_len() > 0 && t.get_char(t.unicode_len() - 1) == '%'
        invariant
            strip_pct_spec(t@) == strip_pct_spec(t2),
        decreases t@.len(),
    {
        let next = t.substring_char(0, t.unicode_len() - 1);
        proof {
            assert(next@ =~= t@.drop_last());
        }
        t = next;
    }
    let ghost t3 = t@;
    while t.unicode_len() > 0 && is_ws(t.get_char(t.unicode_len() - 1))
        invariant
            trim_end_spec(t@) == trim_end_spec(t3),
        decreases t@.len(),
    {
        let next = t.substring_char(0, t.unicode_len() - 1);
        proof {
            assert(next@ =~= t@.drop_last());
        }
        t = next;
    }
    proof {
        assert(trim_start_spec(t1) == t1);
        assert(trim_end_spec(t2) == t2);
        assert(strip_pct_spec(t3) == t3);
        assert(trim_end_spec(t@) == t@);
    }
    t
}

/// A signed decimal integer: an optional single `+` or `-` touching one
/// or more digits, whose value fits a signed 64-bit integer.
pub open spec fn int_parse_spec(cs: Seq<char>) -> Option<int> {
    let signed = cs.len() > 0 && (cs.first() == '-' || cs.first() == '+');
    let ds = if signed {
        cs.drop_first()
    } else {
        cs
    };
    let neg = cs.len() > 0 && cs.first() == '-';
    if ds.len() > 0 && all_digits(ds) {
        let v = if neg {
            -digits_value(ds)
        } else {
            digits_value(ds)
        };
        if i64::MIN <= v <= i64::MAX {
            Some(v)
        } else {
            None
        }
    } else {
        None
    }
}

/// Parse a signed decimal integer per [`int_parse_spec`].
pub fn parse_i64(s: &str) -> (r: Option<i64>)
    ensures
        match r {
            Some(v) => int_parse_spec(s@) == Some(v as int),
            None => int_parse_spec(s@) is None,
        },
{
    let len = s.unicode_len();
    let mut i: usize = 0;
    let mut neg = false;
    if len > 0 {
        let c0 = s.get_char(0);
        if c0 == '-' {
            neg = true;
            i = 1;
        } else if c0 == '+' {
            i = 1;
        }
    }
    let ghost ds = if i == 1 {
        s@.drop_first()
    } else {
        s@
    };
    if i >= len {
        // empty digit part
        return None;
    }
    let mut acc: u64 = 0;
    let mut k: usize = i;
    while k < len
        invariant
            i <= k <= len,
            len == s@.len(),
            i == 1 ==> ds == s@.drop_first(),
            i == 0 ==> ds == s@,
            i <= 1,
            ds.len() == len - i,
            (i == 1) == (s@.len() > 0 && (s@.first() == '-' || s@.first() == '+')),
            neg == (s@.len() > 0 && s@.first() == '-'),
            all_digits(ds.take(k - i)),
            acc == digits_value(ds.take(k - i)),
            forall|j: int|
                0 <= j < ds.len() ==> #[trigger] ds[j] == s@[j + i],
        decreases len - k,
    {
        let c = s.get_char(k);
        if !('0' <= c && c <= '9') {
            proof {
                assert(ds[k - i] == c);
                assert(!all_digits(ds));
            }
            return None;
        }
        let d: u32 = (c as u32) - 48;
        proof {
            assert(ds.take(k - i + 1).drop_last() =~= ds.take(k - i));
            assert(ds.take(k - i + 1).last() == ds[k - i]);
        }
        let next = match acc.checked_mul(10) {
            Some(t) => t.checked_add(d as u64),
            None => None,
        };
        match next {
            Some(t) => {
                acc = t;
            },
            None => {
                // the digits already seen exceed the 64-bit range, so the
                // full value does too
                proof {
                    let pre = ds.take(k - i + 1);
                    assert(all_digits(pre)) by {
                        assert(forall|j: int|
                            0 <= j < pre.len() ==> #[trigger] pre[j] == ds[j]);
                    }
                    assert(digits_value(pre) > u64::MAX);
                    if all_digits(ds) {
                        lemma_digits_value_prefix(ds, k - i + 1);
                    }
                }
                return None;
            },
        }
        k = k + 1;
    }
    proof {
        assert(ds.take(len - i) =~= ds);
    }
    if neg {
        if acc > 9223372036854775808u64 {
            return None;
        }
        proof {
            assert(i64::MIN <= -(acc as int) <= i64::MAX);
        }
        Some((-(acc as i128)) as i64)
    } else {
        if acc > i64::MAX as u64 {
            return None;
        }
        Some(acc as i64)
    }
}

} // verus!
