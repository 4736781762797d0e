//! The text form of quantities.
//!
//! A quantity is written `<decimal>[K|k|M|m|G|g][<unit suffix>]`: an optional
//! SI multiplier (thousand, million, billion) and the unit's own suffix,
//! which is optional when reading. The formatter prints one decimal digit
//! under the largest multiplier whose half the value exceeds, then the
//! multiplier and the unit suffix.

use vstd::prelude::*;
use vstd::string::StrSliceExecFns;
use vstd::string::StringExecFns;

use crate::qty::Number;
use crate::qty::NumberType;
use crate::qty::SCALE;
use crate::qty::qty_max;
use crate::qty::qty_sat;

verus! {

/// A malformed quantity string.
#[derive(Debug, PartialEq, Eq, Structural)]
pub enum ParseError {
    Malformed,
}

/// A decimal digit.
pub open spec fn is_digit(c: char) -> bool {
    '0' <= c <= '9'
}

/// The value of a decimal digit.
pub open spec fn digit_val(c: char) -> int {
    c as int - 48
}

/// Every character is a decimal digit.
pub open spec fn all_digits(s: Seq<char>) -> bool {
    forall|i: int| 0 <= i < s.len() ==> is_digit(#[trigger] s[i])
}

/// The value of a digit string, most significant first.
pub open spec fn digits_val(s: Seq<char>) -> int
    decreases s.len(),
{
    if s.len() == 0 {
        0
    } else {
        digits_val(s.drop_last()) * 10 + digit_val(s.last())
    }
}

/// The micro-units one fractional digit at position `n` is worth: fractions
/// carry at most six digits.
pub open spec fn frac_scale(n: int) -> int {
    if n == 0 {
        1
    } else if n == 1 {
        10
    } else if n == 2 {
        100
    } else if n == 3 {
        1000
    } else if n == 4 {
        10000
    } else if n == 5 {
        100000
    } else if n == 6 {
        1000000
    } else {
        0
    }
}

/// The factor an SI multiplier character stands for.
pub open spec fn mult_of(c: char) -> int {
    if c == 'K' || c == 'k' {
        1000
    } else if c == 'M' || c == 'm' {
        1000000
    } else if c == 'G' || c == 'g' {
        1000000000
    } else {
        1
    }
}

/// Whether `c` is an SI multiplier character.
pub open spec fn is_mult(c: char) -> bool {
    c == 'K' || c == 'k' || c == 'M' || c == 'm' || c == 'G' || c == 'g'
}

/// Whether `s` contains a decimal point.
pub open spec fn has_dot(s: Seq<char>) -> bool {
    exists|i: int| 0 <= i < s.len() && s[i] == '.'
}

/// The micro-unit value of a plain decimal string: an integer part and at
/// most six fractional digits, at least one digit in all.
pub open spec fn parse_decimal(s: Seq<char>) -> Option<int> {
    if has_dot(s) {
        let i = choose|i: int| 0 <= i < s.len() && s[i] == '.';
        let ip = s.take(i);
        let fp = s.skip(i + 1);
        if all_digits(ip) && all_digits(fp) && ip.len() + fp.len() > 0 && fp.len() <= 6 {
            Some(digits_val(ip) * (SCALE as int) + digits_val(fp) * frac_scale(6 - fp.len()))
        } else {
            None
        }
    } else {
        if all_digits(s) && s.len() > 0 {
            Some(digits_val(s) * (SCALE as int))
        } else {
            None
        }
    }
}

/// The string with the unit suffix stripped, when it wears one.
pub open spec fn strip_suffix(s: Seq<char>, sfx: Seq<char>) -> Seq<char> {
    if sfx.len() > 0 && s.len() >= sfx.len() && s.skip(s.len() - sfx.len()) == sfx {
        s.take(s.len() - sfx.len())
    } else {
        s
    }
}

/// The string with one SI multiplier stripped, and that multiplier.
pub open spec fn strip_mult(s: Seq<char>) -> (Seq<char>, int) {
    if s.len() > 0 && is_mult(s.last()) {
        (s.drop_last(), mult_of(s.last()))
    } else {
        (s, 1)
    }
}

/// The micro-unit value a quantity string denotes under a unit suffix: strip
/// the suffix if it is worn, strip one SI multiplier, read the decimal, and
/// clamp into the representable range.
pub open spec fn parse_spec(s: Seq<char>, suffix: Seq<char>) -> Option<int> {
    let s1 = strip_suffix(s, suffix);
    let s2 = strip_mult(s1).0;
    let mult = strip_mult(s1).1;
    match parse_decimal(s2) {
        None => None,
        Some(v) => Some(qty_sat(v * mult)),
    }
}

/// Read one character as a decimal digit.
fn read_digit(c: char) -> (r: Option<u64>)
    ensures
        match r {
            Some(d) => is_digit(c) && d == digit_val(c) && d <= 9,
            None => !is_digit(c),
        },
{
    if '0' <= c && c <= '9' {
        Some((c as u32 as u64) - 48)
    } else {
        None
    }
}

/// Read the decimal prefix `s[..end]`: the whole-unit part, clamped one past
/// the representable range, and the fraction in micro-units.
fn read_decimal(s: &str, end: usize) -> (r: Result<(u128, u64), ParseError>)
    requires
        end <= s@.len(),
    ensures
        match parse_decimal(s@.take(end as int)) {
            Some(v) => r matches Ok(p) && v >= 0 && p.1 < 1000000 && (p.1 as int) == v % 1000000
                && (p.0 as int) == (if v / 1000000 > u64::MAX {
                (u64::MAX as int) + 1
            } else {
                v / 1000000
            }),
            None => r matches Err(e) && e == ParseError::Malformed,
        },
{
    let ghost s2 = s@.take(end as int);
    // Find the first decimal point, if any.
    let mut dot: Option<usize> = None;
    let mut i: usize = 0;
    while i < end
        invariant
            end <= s@.len(),
            i <= end,
            s2 == s@.take(end as int),
            match dot {
                Some(d) => d < i && s2[d as int] == '.' && forall|j: int|
                    0 <= j < d ==> s2[j] != '.',
                None => forall|j: int| 0 <= j < i ==> s2[j] != '.',
            },
        decreases end - i,
    {
        if dot.is_none() && s.get_char(i) == '.' {
            dot = Some(i);
        }
        i += 1;
    }
    let (ip_end, fp_start): (usize, usize) = match dot {
        Some(d) => (d, d + 1),
        None => (end, end),
    };
    let ghost ip = s2.take(ip_end as int);
    let ghost fp = s2.skip(fp_start as int);
    proof {
        match dot {
            Some(d) => {
                assert(has_dot(s2));
            },
            None => {
                assert(!has_dot(s2));
                assert(ip =~= s2);
                assert(fp =~= Seq::<char>::empty());
            },
        }
    }
    // Integer part, clamped one past the representable range.
    let cap: u128 = (u64::MAX as u128) + 1;
    let mut acc: u128 = 0;
    let mut i: usize = 0;
    proof {
        assert(ip.take(0) =~= Seq::<char>::empty());
    }
    while i < ip_end
        invariant
            ip_end <= end <= s@.len(),
            i <= ip_end,
            s2 == s@.take(end as int),
            ip == s2.take(ip_end as int),
            match dot {
                Some(d) => d == ip_end && d < end && s2[d as int] == '.' && (forall|j: int|
                    0 <= j < d ==> s2[j] != '.'),
                None => ip_end == end && !has_dot(s2),
            },
            all_digits(ip.take(i as int)),
            digits_val(ip.take(i as int)) >= 0,
            cap == (u64::MAX as u128) + 1,
            acc <= cap,
            if digits_val(ip.take(i as int)) > u64::MAX {
                acc == cap
            } else {
                acc == digits_val(ip.take(i as int))
            },
        decreases ip_end - i,
    {
        let c = s.get_char(i);
        proof {
            assert(ip.take(i as int + 1).drop_last() =~= ip.take(i as int));
            assert(ip.take(i as int + 1).last() == ip[i as int]);
            assert(ip[i as int] == s2[i as int]);
        }
        match read_digit(c) {
            None => {
                proof {
                    assert(!is_digit(ip[i as int]));
                    assert(!all_digits(ip));
                    lemma_bad_decimal(s2, ip_end as int, dot is Some);
                }
                return Err(ParseError::Malformed);
            },
            Some(d) => {
                let next: u128 = acc * 10 + (d as u128);
                if next > (u64::MAX as u128) {
                    acc = cap;
                } else {
                    acc = next;
                }
            },
        }
        i += 1;
    }
    proof {
        assert(ip.take(ip_end as int) =~= ip);
    }
    // Fractional part: at most six digits, read exactly.
    let mut fv: u64 = 0;
    let mut fd: usize = 0;
    let mut i: usize = fp_start;
    proof {
        assert(fp.take(0) =~= Seq::<char>::empty());
    }
    while i < end
        invariant
            fp_start <= i,
            i <= end <= s@.len(),
            fp_start <= end,
            ip_end + 1 == fp_start || (ip_end == fp_start && fp_start == end),
            s2 == s@.take(end as int),
            ip == s2.take(ip_end as int),
            fp == s2.skip(fp_start as int),
            match dot {
                Some(d) => d == ip_end && d < end && ip_end + 1 == fp_start && s2[d as int] == '.'
                    && (forall|j: int| 0 <= j < d ==> s2[j] != '.'),
                None => ip_end == end && fp_start == end && !has_dot(s2),
            },
            fd == i - fp_start,
            fd <= 6,
            all_digits(fp.take(fd as int)),
            fv == digits_val(fp.take(fd as int)),
            fv < frac_scale(fd as int),
        decreases end - i,
    {
        if fd == 6 {
            proof {
                assert(dot is Some);
                assert(fp.len() > 6);
                lemma_bad_decimal(s2, ip_end as int, true);
            }
            return Err(ParseError::Malformed);
        }
        let c = s.get_char(i);
        proof {
            assert(fp.take(fd as int + 1).drop_last() =~= fp.take(fd as int));
            assert(fp.take(fd as int + 1).last() == fp[fd as int]);
            assert(fp[fd as int] == s2[i as int]);
        }
        match read_digit(c) {
            None => {
                proof {
                    assert(dot is Some);
                    assert(!is_digit(fp[fd as int]));
                    assert(!all_digits(fp));
                    lemma_bad_decimal(s2, ip_end as int, true);
                }
                return Err(ParseError::Malformed);
            },
            Some(d) => {
                fv = fv * 10 + d;
            },
        }
        fd += 1;
        i += 1;
    }
    proof {
        assert(fp.take(fd as int) =~= fp);
    }
    if ip_end == 0 && fd == 0 {
        proof {
            if has_dot(s2) {
                lemma_bad_decimal(s2, ip_end as int, true);
            }
        }
        return Err(ParseError::Malformed);
    }
    let frac_micro: u64 = match fd {
        0 => 0,
        1 => fv * 100000,
        2 => fv * 10000,
        3 => fv * 1000,
        4 => fv * 100,
        5 => fv * 10,
        _ => fv,
    };
    proof {
        assert(fd as int == fp.len());
        assert(frac_micro as int == digits_val(fp) * frac_scale(6 - fp.len()));
        assert(frac_micro < 1000000);
        if dot is Some {
            lemma_good_decimal(s2, ip_end as int);
            assert(parse_decimal(s2) == Some(
                digits_val(ip) * (SCALE as int) + digits_val(fp) * frac_scale(6 - fp.len()),
            ));
        } else {
            assert(parse_decimal(s2) == Some(digits_val(s2) * (SCALE as int)));
            assert(digits_val(ip) == digits_val(s2));
        }
        let v = digits_val(ip) * (SCALE as int) + (frac_micro as int);
        assert(v / 1000000 == digits_val(ip) && v % 1000000 == frac_micro as int) by (
        nonlinear_arith)
            requires
                v == digits_val(ip) * 1000000 + (frac_micro as int),
                0 <= (frac_micro as int) < 1000000,
                digits_val(ip) >= 0,
        ;
    }
    Ok((acc, frac_micro))
}

/// A decimal with a malformed part around its first dot (or too long a
/// fraction) denotes nothing, wherever the dot is chosen.
proof fn lemma_bad_decimal(s: Seq<char>, d: int, dotted: bool)
    requires
        dotted ==> 0 <= d < s.len() && s[d] == '.' && (forall|j: int| 0 <= j < d ==> s[j] != '.'),
        !dotted ==> !has_dot(s),
        dotted ==> !all_digits(s.take(d)) || !all_digits(s.skip(d + 1)) || s.skip(d + 1).len() > 6
            || (d == 0 && s.skip(d + 1).len() == 0),
        !dotted ==> !all_digits(s) || s.len() == 0,
    ensures
        parse_decimal(s) is None,
{
    if dotted {
        assert(has_dot(s));
        let ic = choose|i: int| 0 <= i < s.len() && s[i] == '.';
        if ic != d {
            assert(ic > d);
            assert(s.take(ic)[d] == '.');
            assert(!is_digit(s.take(ic)[d]));
            assert(!all_digits(s.take(ic)));
        } else {
            if !all_digits(s.take(d)) || !all_digits(s.skip(d + 1)) || s.skip(d + 1).len() > 6 {
            } else {
                assert(d == 0 && s.skip(d + 1).len() == 0);
                assert(s.take(d).len() + s.skip(d + 1).len() == 0);
            }
        }
    }
}

/// A well-formed decimal splits at its unique dot.
proof fn lemma_good_decimal(s: Seq<char>, d: int)
    requires
        0 <= d < s.len(),
        s[d] == '.',
        all_digits(s.take(d)),
        all_digits(s.skip(d + 1)),
        s.take(d).len() + s.skip(d + 1).len() > 0,
        s.skip(d + 1).len() <= 6,
    ensures
        parse_decimal(s) == Some(
            digits_val(s.take(d)) * (SCALE as int) + digits_val(s.skip(d + 1)) * frac_scale(
                6 - s.skip(d + 1).len(),
            ),
        ),
{
    assert(has_dot(s));
    let ic = choose|i: int| 0 <= i < s.len() && s[i] == '.';
    if ic < d {
        assert(is_digit(s.take(d)[ic]));
        assert(false);
    }
    if ic > d {
        assert(s.skip(d + 1)[ic - d - 1] == s[ic]);
        assert(is_digit(s.skip(d + 1)[ic - d - 1]));
        assert(false);
    }
}

/// Read a quantity from text, under the unit's suffix.
pub fn parse<T: NumberType>(s: &str) -> (r: Result<Number<T>, ParseError>)
    ensures
        match parse_spec(s@, T::spec_suffix()) {
            Some(v) => r matches Ok(q) && q@ == v,
            None => r matches Err(e) && e == ParseError::Malformed,
        },
{
    let total = s.unicode_len();
    let suffix = T::suffix();
    let sl = suffix.unicode_len();
    // Strip the unit suffix if the string wears it.
    let mut end = total;
    if sl > 0 && sl <= total {
        let mut matches_suffix = true;
        let mut k: usize = 0;
        while k < sl
            invariant
                sl == T::spec_suffix().len(),
                suffix@ == T::spec_suffix(),
                sl <= total,
                total == s@.len(),
                k <= sl,
                matches_suffix == (forall|j: int|
                    0 <= j < k ==> s@[total - sl + j] == T::spec_suffix()[j]),
            decreases sl - k,
        {
            if s.get_char(total - sl + k) != suffix.get_char(k) {
                matches_suffix = false;
            }
            k += 1;
        }
        if matches_suffix {
            proof {
                assert(s@.skip(total as int - sl as int) =~= T::spec_suffix());
            }
            end = total - sl;
        } else {
            proof {
                assert(s@.skip(total as int - sl as int) != T::spec_suffix());
            }
        }
    }
    let ghost s1 = s@.take(end as int);
    proof {
        if end == total {
            assert(s1 =~= s@);
        }
        assert(s1 == strip_suffix(s@, T::spec_suffix()));
    }
    // Strip one SI multiplier character.
    let mut mult: u64 = 1;
    if end > 0 {
        let c = s.get_char(end - 1);
        if c == 'K' || c == 'k' {
            mult = 1000;
            end -= 1;
        } else if c == 'M' || c == 'm' {
            mult = 1000000;
            end -= 1;
        } else if c == 'G' || c == 'g' {
            mult = 1000000000;
            end -= 1;
        }
    }
    let ghost s2 = s@.take(end as int);
    proof {
        if s1.len() > 0 && is_mult(s1.last()) {
            assert(s2 =~= s1.drop_last());
        } else {
            assert(s2 =~= s1);
        }
        assert(s2 == strip_mult(s1).0);
        assert(mult as int == strip_mult(s1).1);
    }
    let p = match read_decimal(s, end) {
        Ok(p) => p,
        Err(e) => {
            return Err(e);
        },
    };
    proof {
        assert(p.0 <= (u64::MAX as u128) + 1);
    }
    let exact: u128 = p.0 * 1000000u128 + (p.1 as u128);
    proof {
        assert((exact as int) * (mult as int) <= u128::MAX) by (nonlinear_arith)
            requires
                0 <= exact as int <= ((u64::MAX as int) + 1) * 1000000 + 1000000,
                0 <= mult as int <= 1000000000,
        ;
    }
    let scaled: u128 = exact * (mult as u128);
    let out: u64 = if scaled > (u64::MAX as u128) {
        u64::MAX
    } else {
        scaled as u64
    };
    proof {
        let v = parse_decimal(s2)->Some_0;
        lemma_parse_arith(v, p.0 as int, p.1 as int, mult as int, out as int, scaled as int);
        assert(parse_spec(s@, T::spec_suffix()) == Some(out as int));
    }
    Ok(Number::from_micro(out))
}

/// The clamped digit accumulator and the exact decimal value saturate alike.
proof fn lemma_parse_arith(v: int, whole: int, frac: int, mult: int, out: int, scaled: int)
    requires
        v >= 0,
        0 <= frac < 1000000,
        frac == v % 1000000,
        whole == if v / 1000000 > u64::MAX {
            (u64::MAX as int) + 1
        } else {
            v / 1000000
        },
        1 <= mult <= 1000000000,
        scaled == (whole * 1000000 + frac) * mult,
        out == if scaled > u64::MAX {
            u64::MAX as int
        } else {
            scaled
        },
    ensures
        out == qty_sat(v * mult),
{
    let dv = v / 1000000;
    assert(v == dv * 1000000 + frac);
    if dv > u64::MAX {
        assert(v * mult >= v) by (nonlinear_arith)
            requires
                v >= 0,
                mult >= 1,
        ;
        assert(scaled >= whole * 1000000) by (nonlinear_arith)
            requires
                scaled == (whole * 1000000 + frac) * mult,
                whole >= 0,
                frac >= 0,
                mult >= 1,
        ;
        assert(v >= dv * 1000000) by (nonlinear_arith)
            requires
                v == dv * 1000000 + frac,
                frac >= 0,
        ;
        assert(dv * 1000000 >= ((u64::MAX as int) + 1) * 1000000) by (nonlinear_arith)
            requires
                dv >= (u64::MAX as int) + 1,
        ;
        assert(v > u64::MAX);
        assert(scaled > u64::MAX);
        assert(v * mult > u64::MAX);
        assert(out == qty_max());
        assert(qty_sat(v * mult) == qty_max());
    } else {
        assert(whole == dv);
        assert(scaled == v * mult);
        assert(v * mult >= 0) by (nonlinear_arith)
            requires
                v >= 0,
                mult >= 1,
        ;
    }
}


/// The character of a decimal digit value.
pub open spec fn digit_char(d: int) -> char {
    (48 + d) as char
}

/// The decimal digit string of a non-negative number, most significant
/// digit first.
pub open spec fn dec_digits(n: int) -> Seq<char>
    decreases n,
{
    if n < 0 {
        Seq::empty()
    } else if n < 10 {
        seq![digit_char(n)]
    } else {
        dec_digits(n / 10).push(digit_char(n % 10))
    }
}

/// The digit string of `n` reads back as `n`.
pub proof fn lemma_dec_digits(n: int)
    requires
        n >= 0,
    ensures
        all_digits(dec_digits(n)),
        digits_val(dec_digits(n)) == n,
        dec_digits(n).len() >= 1,
    decreases n,
{
    if n < 10 {
        assert(digit_char(n) as int == 48 + n);
        assert(is_digit(digit_char(n)));
        assert(dec_digits(n) == seq![digit_char(n)]);
        let sq = seq![digit_char(n)];
        assert(sq.len() == 1);
        assert(sq.drop_last() =~= Seq::<char>::empty());
        assert(digits_val(sq.drop_last()) == 0);
        assert(sq.last() == digit_char(n));
        assert(digits_val(sq) == 0 * 10 + digit_val(digit_char(n)));
        assert(digit_val(digit_char(n)) == n);
    } else {
        lemma_dec_digits(n / 10);
        let pre = dec_digits(n / 10);
        let whole = pre.push(digit_char(n % 10));
        assert(whole.drop_last() =~= pre);
        assert(whole.last() == digit_char(n % 10));
        assert(is_digit(digit_char(n % 10)));
        assert(digits_val(whole) == digits_val(pre) * 10 + digit_val(digit_char(n % 10)));
        assert(digit_val(digit_char(n % 10)) == n % 10);
        assert(forall|i: int|
            0 <= i < whole.len() ==> is_digit(#[trigger] whole[i]));
    }
}

/// The multiplier the formatter prints `v` micro-units under: the largest
/// whose half the value exceeds.
pub open spec fn format_mult(v: int) -> int {
    if v > 500000000000000 {
        1000000000
    } else if v > 500000000000 {
        1000000
    } else if v > 500000000 {
        1000
    } else {
        1
    }
}

/// The multiplier's letter.
pub open spec fn mult_chars(m: int) -> Seq<char> {
    if m == 1000 {
        "K"@
    } else if m == 1000000 {
        "M"@
    } else if m == 1000000000 {
        "G"@
    } else {
        Seq::empty()
    }
}

/// The value in tenths of the printed multiplier, rounded half up.
pub open spec fn format_tenths(v: int) -> int {
    (v * 10 + format_mult(v) * (SCALE as int) / 2) / (format_mult(v) * (SCALE as int))
}

/// The text of `v` micro-units: one decimal digit under the chosen
/// multiplier, then the multiplier letter and the unit suffix.
pub open spec fn format_spec(v: int, suffix: Seq<char>) -> Seq<char> {
    dec_digits(format_tenths(v) / 10) + seq!['.'] + seq![digit_char(format_tenths(v) % 10)]
        + mult_chars(format_mult(v)) + suffix
}

/// The text of one digit.
fn digit_str(d: u64) -> (r: &'static str)
    requires
        d < 10,
    ensures
        r@ == seq![digit_char(d as int)],
{
    proof {
        reveal_strlit("0");
        reveal_strlit("1");
        reveal_strlit("2");
        reveal_strlit("3");
        reveal_strlit("4");
        reveal_strlit("5");
        reveal_strlit("6");
        reveal_strlit("7");
        reveal_strlit("8");
        reveal_strlit("9");
    }
    let r = match d {
        0 => "0",
        1 => "1",
        2 => "2",
        3 => "3",
        4 => "4",
        5 => "5",
        6 => "6",
        7 => "7",
        8 => "8",
        _ => "9",
    };
    proof {
        assert(r@ =~= seq![digit_char(d as int)]);
    }
    r
}

/// Append the digit string of `n`.
fn push_digits(n: u64, out: String) -> (r: String)
    ensures
        r@ == out@ + dec_digits(n as int),
    decreases n,
{
    if n < 10 {
        let r = out.concat(digit_str(n));
        proof {
            assert(r@ =~= out@ + dec_digits(n as int));
        }
        r
    } else {
        let r1 = push_digits(n / 10, out);
        let r = r1.concat(digit_str(n % 10));
        proof {
            assert(dec_digits(n as int) =~= dec_digits(n as int / 10).push(
                digit_char(n as int % 10),
            ));
            assert(r@ =~= out@ + dec_digits(n as int));
        }
        r
    }
}

/// Write a quantity as text, with its unit suffix.
pub fn render<T: NumberType>(q: &Number<T>) -> (r: String)
    ensures
        r@ == format_spec(q@, T::spec_suffix()),
{
    let v = q.micro();
    let (m_units, mc): (u64, &'static str) = if v > 500000000000000 {
        (1000000000, "G")
    } else if v > 500000000000 {
        (1000000, "M")
    } else if v > 500000000 {
        (1000, "K")
    } else {
        (1, "")
    };
    proof {
        reveal_strlit("K");
        reveal_strlit("M");
        reveal_strlit("G");
        reveal_strlit("");
        assert(mc@ =~= mult_chars(m_units as int));
    }
    let m: u128 = (m_units as u128) * 1000000;
    let d128: u128 = ((v as u128) * 10 + m / 2) / m;
    proof {
        assert(d128 as int <= u64::MAX as int) by (nonlinear_arith)
            requires
                d128 as int == ((v as int) * 10 + (m as int) / 2) / (m as int),
                1000000 <= m as int <= 1000000000000000,
                0 <= v as int <= u64::MAX as int,
        ;
        assert(d128 as int == format_tenths(q@));
    }
    let d = d128 as u64;
    let digits = push_digits(d / 10, String::new());
    let r = digits.concat(".").concat(digit_str(d % 10)).concat(mc).concat(T::suffix());
    proof {
        reveal_strlit(".");
        assert("."@ =~= seq!['.']);
        assert(r@ =~= format_spec(q@, T::spec_suffix()));
    }
    r
}

/// A unit suffix fit for quantity text: no digits, dots, or multiplier
/// letters.
pub open spec fn clean_suffix(sfx: Seq<char>) -> bool {
    forall|i: int|
        0 <= i < sfx.len() ==> !is_digit(#[trigger] sfx[i]) && sfx[i] != '.' && !is_mult(sfx[i])
}

/// Reading a formatted quantity back yields the quantity, up to half of the
/// last printed digit: one twentieth of the printed multiplier.
pub proof fn lemma_quantity_round_trip(v: int, suffix: Seq<char>)
    requires
        0 <= v <= u64::MAX,
        clean_suffix(suffix),
    ensures
        parse_spec(format_spec(v, suffix), suffix) matches Some(v2) && v - format_mult(v) * (
        SCALE as int) / 20 <= v2 <= v + format_mult(v) * (SCALE as int) / 20,
{
    let m = format_mult(v) * (SCALE as int);
    let d = format_tenths(v);
    let a = d / 10;
    let b = d % 10;
    assert(v * 10 + m / 2 >= 0);
    assert(d >= 0);
    lemma_dec_digits(a);
    let ipart = dec_digits(a);
    let base = ipart + seq!['.'] + seq![digit_char(b)] + mult_chars(format_mult(v));
    let f = base + suffix;
    assert(format_spec(v, suffix) == f);
    // Parsing strips the suffix back off.
    let s1 = strip_suffix(f, suffix);
    if suffix.len() > 0 {
        assert(f.skip(f.len() - suffix.len()) =~= suffix);
        assert(s1 == f.take(f.len() - suffix.len()));
        assert(s1 =~= base);
    } else {
        assert(s1 =~= base);
    }
    // Then the multiplier letter.
    let s2 = strip_mult(s1).0;
    let mult = strip_mult(s1).1;
    let dec = ipart + seq!['.'] + seq![digit_char(b)];
    assert(is_digit(digit_char(b)));
    if format_mult(v) == 1 {
        assert(mult_chars(1) =~= Seq::<char>::empty());
        assert(s1 =~= dec);
        assert(s1.last() == digit_char(b));
        assert(!is_mult(s1.last()));
        assert(s2 == s1);
        assert(mult == 1);
    } else {
        reveal_strlit("K");
        reveal_strlit("M");
        reveal_strlit("G");
        assert(mult_chars(format_mult(v)).len() == 1);
        assert(s1.last() == mult_chars(format_mult(v))[0]);
        assert(is_mult(s1.last()));
        assert(mult_of(s1.last()) == format_mult(v));
        assert(s2 == s1.drop_last());
        assert(s2 =~= dec);
        assert(mult == format_mult(v));
    }
    assert(s2 =~= dec);
    assert(mult == format_mult(v));
    // The decimal reads back as d tenths.
    assert(dec[ipart.len() as int] == '.');
    assert(dec.take(ipart.len() as int) =~= ipart);
    assert(dec.skip(ipart.len() as int + 1) =~= seq![digit_char(b)]);
    lemma_dec_digits(b);
    assert(dec_digits(b) == seq![digit_char(b)]);
    assert(digits_val(seq![digit_char(b)]) == b);
    assert(all_digits(seq![digit_char(b)]));
    lemma_good_decimal(dec, ipart.len() as int);
    assert(parse_decimal(dec) == Some(a * (SCALE as int) + b * frac_scale(5)));
    let exact = (a * (SCALE as int) + b * 100000) * mult;
    assert(parse_spec(f, suffix) == Some(qty_sat(exact)));
    // The value read differs from `v` by at most half a printed digit.
    assert(a * 10 + b == d);
    assert(exact == d * (m / 10)) by (nonlinear_arith)
        requires
            exact == ((d / 10) * 1000000 + (d % 10) * 100000) * mult,
            m == mult * 1000000,
            mult >= 1,
            d >= 0,
    ;
    lemma_round_bounds(v, d, m);
    assert(v - m / 20 <= exact <= v + m / 20);
    assert(qty_sat(exact) <= exact);
    assert(exact >= 0);
    if exact > qty_max() {
        assert(qty_sat(exact) == qty_max());
        assert(v <= qty_max());
        assert(qty_sat(exact) >= v - m / 20);
    }
}

/// The printed tenths land within half a tenth of the value.
proof fn lemma_round_bounds(v: int, d: int, m: int)
    requires
        v >= 0,
        m == 1000000 || m == 1000000000 || m == 1000000000000 || m == 1000000000000000,
        d == (v * 10 + m / 2) / m,
    ensures
        v - m / 20 <= d * (m / 10) <= v + m / 20,
{
    let t = v * 10 + m / 2;
    assert(d * m <= t < (d + 1) * m) by (nonlinear_arith)
        requires
            d == t / m,
            t >= 0,
            m >= 1000000,
    ;
    assert(d * (m / 10) * 10 == d * m) by (nonlinear_arith)
        requires
            m % 10 == 0,
            m / 10 * 10 == m,
    ;
    assert(d * m <= v * 10 + m / 2);
    assert(d * m >= v * 10 + m / 2 - m + 1);
    assert(d * (m / 10) <= v + m / 20) by (nonlinear_arith)
        requires
            d * (m / 10) * 10 == d * m,
            d * m <= v * 10 + m / 2,
            m >= 1000000,
            m % 20 == 0,
    ;
    assert(d * (m / 10) >= v - m / 20) by (nonlinear_arith)
        requires
            d * (m / 10) * 10 == d * m,
            d * m >= v * 10 + m / 2 - m + 1,
            m >= 1000000,
            m % 20 == 0,
    ;
}

} // verus!
