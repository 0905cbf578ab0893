//! Decimal and hexadecimal rendering and parsing of the integer scalars the
//! debugger displays, together with the round-trip lemmas the codec relies on.

use vstd::prelude::*;
use vstd::string::StringExecFns;

verus! {

/// `c` is one of the characters `'0'` through `'9'`.
pub open spec fn is_dec_digit(c: char) -> bool {
    48 <= c as u32 <= 57
}

/// The character for the decimal digit `d` (`d < 10`).
pub open spec fn dec_digit(d: nat) -> char
    recommends
        d < 10,
{
    ((48 + d) as u8) as char
}

/// The numeric value of the decimal digit character `c`.
pub open spec fn dec_digit_val(c: char) -> nat
    recommends
        is_dec_digit(c),
{
    (c as u32 - 48) as nat
}

/// The canonical decimal rendering of `n`, most significant digit first,
/// without sign and without leading zeroes.
pub open spec fn dec_str(n: nat) -> Seq<char>
    decreases n,
{
    if n < 10 {
        seq![dec_digit(n)]
    } else {
        dec_str(n / 10).push(dec_digit(n % 10))
    }
}

/// The canonical decimal rendering of the signed value `x`: a `-` sign
/// followed by the rendering of the magnitude when `x` is negative.
pub open spec fn dec_str_signed(x: int) -> Seq<char> {
    if x >= 0 {
        dec_str(x as nat)
    } else {
        seq!['-'] + dec_str((-x) as nat)
    }
}

/// Every character of `s` is a decimal digit.
pub open spec fn all_dec_digits(s: Seq<char>) -> bool {
    forall|i: int| 0 <= i < s.len() ==> is_dec_digit(#[trigger] s[i])
}

/// The value of the digit string `s`, most significant digit first.
pub open spec fn dec_val(s: Seq<char>) -> nat
    decreases s.len(),
{
    if s.len() == 0 {
        0
    } else {
        dec_val(s.drop_last()) * 10 + dec_digit_val(s.last())
    }
}

/// The value of a bare digit string, `None` when it is empty, holds a
/// non-digit, or exceeds `max`.
pub open spec fn parse_digits(digits: Seq<char>, max: nat) -> Option<nat> {
    if digits.len() > 0 && all_dec_digits(digits) && dec_val(digits) <= max {
        Some(dec_val(digits))
    } else {
        None
    }
}

/// The value parsed from `s` as an unsigned integer no larger than `max`:
/// an optional `+` sign followed by at least one digit, as the standard
/// library's integer parser accepts it.
pub open spec fn parse_unsigned(s: Seq<char>, max: nat) -> Option<nat> {
    if s.len() > 0 && s[0] == '+' {
        parse_digits(s.drop_first(), max)
    } else {
        parse_digits(s, max)
    }
}

/// The value parsed from `s` as a signed integer within `[min, max]`:
/// an optional `+` or `-` sign followed by at least one digit.
pub open spec fn parse_signed(s: Seq<char>, min: int, max: int) -> Option<int> {
    if s.len() > 0 && s[0] == '-' {
        match parse_digits(s.drop_first(), (-min) as nat) {
            Some(v) => Some(-(v as int)),
            None => None,
        }
    } else {
        match parse_unsigned(s, max as nat) {
            Some(v) => Some(v as int),
            None => None,
        }
    }
}

/// The single-character string for the decimal digit `d`.
fn digit_str(d: u8) -> (r: &'static str)
    requires
        d < 10,
    ensures
        r@ == seq![dec_digit(d as nat)],
{
    proof {
        reveal_strlit("0");
        reveal_strlit("1");
        reveal_strlit("2");
        reveal_strlit("3");
        reveal_strlit("4");
        reveal_strlit("5");
        reveal_strlit("6");
        reveal_strlit("7");
        reveal_strlit("8");
        reveal_strlit("9");
    }
    if d == 0 {
        "0"
    } else if d == 1 {
        "1"
    } else if d == 2 {
        "2"
    } else if d == 3 {
        "3"
    } else if d == 4 {
        "4"
    } else if d == 5 {
        "5"
    } else if d == 6 {
        "6"
    } else if d == 7 {
        "7"
    } else if d == 8 {
        "8"
    } else {
        "9"
    }
}

/// Renders `n` in decimal.
pub fn u128_to_decimal(n: u128) -> (r: String)
    ensures
        r@ == dec_str(n as nat),
    decreases n,
{
    if n < 10 {
        digit_str(n as u8).to_owned()
    } else {
        let mut s = u128_to_decimal(n / 10);
        s.append(digit_str((n % 10) as u8));
        proof {
            assert(s@ =~= dec_str(n as nat));
        }
        s
    }
}

/// Renders `n` in decimal.
pub fn u64_to_decimal(n: u64) -> (r: String)
    ensures
        r@ == dec_str(n as nat),
{
    u128_to_decimal(n as u128)
}

/// Renders `n` in decimal.
pub fn usize_to_decimal(n: usize) -> (r: String)
    ensures
        r@ == dec_str(n as nat),
{
    u128_to_decimal(n as u128)
}

/// Renders the signed value `x` in decimal.
pub fn i128_to_decimal(x: i128) -> (r: String)
    ensures
        r@ == dec_str_signed(x as int),
{
    if x >= 0 {
        u128_to_decimal(x as u128)
    } else {
        let magnitude: u128 = if x == i128::MIN {
            170141183460469231731687303715884105728u128
        } else {
            (-x) as u128
        };
        let mut s = minus_str().to_owned();
        let m = u128_to_decimal(magnitude);
        s.append(m.as_str());
        proof {
            assert(s@ =~= dec_str_signed(x as int));
        }
        s
    }
}

/// Renders `x` in decimal.
pub fn i64_to_decimal(x: i64) -> (r: String)
    ensures
        r@ == dec_str_signed(x as int),
{
    i128_to_decimal(x as i128)
}

/// The character for the hexadecimal digit `d` (`d < 16`), upper or lower
/// case.
pub open spec fn hex_digit(d: nat, upper: bool) -> char
    recommends
        d < 16,
{
    if d < 10 {
        dec_digit(d)
    } else if upper {
        ((55 + d) as u8) as char
    } else {
        ((87 + d) as u8) as char
    }
}

/// The fixed-width hexadecimal rendering of `x`: exactly `w` digits, most
/// significant first, padded with zeroes on the left.
pub open spec fn hex_str_fixed(x: nat, w: nat, upper: bool) -> Seq<char>
    decreases w,
{
    if w == 0 {
        Seq::empty()
    } else {
        hex_str_fixed(x / 16, (w - 1) as nat, upper).push(hex_digit(x % 16, upper))
    }
}

/// The single-character string for the hexadecimal digit `d`.
fn hex_digit_str(d: u8, upper: bool) -> (r: &'static str)
    requires
        d < 16,
    ensures
        r@ == seq![hex_digit(d as nat, upper)],
{
    if d < 10 {
        digit_str(d)
    } else {
        proof {
            reveal_strlit("A");
            reveal_strlit("B");
            reveal_strlit("C");
            reveal_strlit("D");
            reveal_strlit("E");
            reveal_strlit("F");
            reveal_strlit("a");
            reveal_strlit("b");
            reveal_strlit("c");
            reveal_strlit("d");
            reveal_strlit("e");
            reveal_strlit("f");
        }
        if upper {
            if d == 10 {
                "A"
            } else if d == 11 {
                "B"
            } else if d == 12 {
                "C"
            } else if d == 13 {
                "D"
            } else if d == 14 {
                "E"
            } else {
                "F"
            }
        } else {
            if d == 10 {
                "a"
            } else if d == 11 {
                "b"
            } else if d == 12 {
                "c"
            } else if d == 13 {
                "d"
            } else if d == 14 {
                "e"
            } else {
                "f"
            }
        }
    }
}

/// Renders `x` as exactly `width` hexadecimal digits, most significant
/// first.
pub fn u64_to_hex_fixed(x: u64, width: usize, upper: bool) -> (r: String)
    ensures
        r@ == hex_str_fixed(x as nat, width as nat, upper),
    decreases width,
{
    if width == 0 {
        String::new()
    } else {
        let mut s = u64_to_hex_fixed(x / 16, width - 1, upper);
        s.append(hex_digit_str((x % 16) as u8, upper));
        proof {
            assert(s@ =~= hex_str_fixed(x as nat, width as nat, upper));
        }
        s
    }
}


/// The string `"-"`.
fn minus_str() -> (r: &'static str)
    ensures
        r@ == seq!['-'],
{
    proof {
        reveal_strlit("-");
    }
    "-"
}

/// The rendering of `n` consists only of digits and is never empty.
pub proof fn lemma_dec_str_digits(n: nat)
    ensures
        all_dec_digits(dec_str(n)),
        dec_str(n).len() >= 1,
    decreases n,
{
    if n >= 10 {
        lemma_dec_str_digits(n / 10);
    }
}

/// Parsing the canonical rendering of `n` yields `n` again.
pub proof fn lemma_dec_str_val(n: nat)
    ensures
        dec_val(dec_str(n)) == n,
    decreases n,
{
    if n < 10 {
        assert(dec_str(n).drop_last() =~= Seq::<char>::empty());
        lemma_dec_digit_val(n);
        assert(dec_val(Seq::<char>::empty()) == 0);
        assert(dec_str(n).last() == dec_digit(n));
        assert(dec_val(dec_str(n)) == dec_val(dec_str(n).drop_last()) * 10 + dec_digit_val(
            dec_str(n).last(),
        ));
    } else {
        lemma_dec_str_val(n / 10);
        lemma_dec_digit_val(n % 10);
        assert(dec_str(n).drop_last() =~= dec_str(n / 10));
        assert(dec_str(n).last() == dec_digit(n % 10));
        vstd::arithmetic::div_mod::lemma_fundamental_div_mod(n as int, 10);
    }
}

/// The digit character for `d` carries the value `d`.
pub proof fn lemma_dec_digit_val(d: nat)
    requires
        d < 10,
    ensures
        dec_digit_val(dec_digit(d)) == d,
        is_dec_digit(dec_digit(d)),
{
    assert(((48 + d) as u8) as char as u32 == 48 + d);
}

/// Extending a digit string on the right can only grow its value.
proof fn lemma_dec_val_prefix(s: Seq<char>, i: int)
    requires
        0 <= i <= s.len(),
    ensures
        dec_val(s) >= dec_val(s.subrange(0, i)),
    decreases s.len() - i,
{
    if i < s.len() {
        assert(s.subrange(0, i + 1).drop_last() =~= s.subrange(0, i));
        assert(s.subrange(0, i + 1).last() == s[i]);
        lemma_dec_val_prefix(s, i + 1);
    } else {
        assert(s.subrange(0, i) =~= s);
    }
}

/// Parses the digit run of `s` that starts at character `start`, rejecting
/// values above `max`.
fn parse_digit_run(s: &str, start: usize, max: u128) -> (r: Option<u128>)
    requires
        start <= s@.len(),
    ensures
        match parse_digits(s@.skip(start as int), max as nat) {
            Some(v) => r is Some && r.unwrap() == v,
            None => r is None,
        },
{
    let ghost digits = s@.skip(start as int);
    let n = s.unicode_len();
    if start == n {
        return None;
    }
    let mut acc: u128 = 0;
    let mut i: usize = start;
    while i < n
        invariant
            start <= i <= n,
            n == s@.len(),
            digits == s@.skip(start as int),
            all_dec_digits(digits.subrange(0, i - start)),
            acc as nat == dec_val(digits.subrange(0, i - start)),
            acc <= max,
        decreases n - i,
    {
        let c = s.get_char(i);
        let code = c as u32;
        proof {
            assert(digits[i - start] == s@[i as int]);
        }
        if code < 48 || code > 57 {
            proof {
                assert(!is_dec_digit(digits[i - start]));
            }
            return None;
        }
        let d = (code - 48) as u128;
        proof {
            assert(digits.subrange(0, i - start + 1).drop_last() =~= digits.subrange(
                0,
                i - start,
            ));
            assert(digits.subrange(0, i - start + 1).last() == digits[i - start]);
        }
        if d > max || acc > (max - d) / 10 {
            proof {
                assert(((max - d) / 10) * 10 + d < acc * 10 + d <= dec_val(
                    digits.subrange(0, i - start + 1),
                ) || d > max) by (nonlinear_arith)
                    requires
                        acc as nat == dec_val(digits.subrange(0, i - start)),
                        dec_val(digits.subrange(0, i - start + 1)) == dec_val(
                            digits.subrange(0, i - start),
                        ) * 10 + dec_digit_val(digits[i - start]),
                        dec_digit_val(digits[i - start]) == d,
                        d <= max ==> acc > (max - d) / 10,
                ;
                if d <= max {
                    assert(max < acc * 10 + d) by (nonlinear_arith)
                        requires
                            acc > (max - d) / 10 && d <= max,
                    ;
                }
                lemma_dec_val_prefix(digits, i - start + 1);
                assert(dec_val(digits) > max);
            }
            return None;
        }
        proof {
            assert(acc * 10 + d <= max) by (nonlinear_arith)
                requires
                    acc <= (max - d) / 10 && d <= max,
            ;
        }
        acc = acc * 10 + d;
        i = i + 1;
    }
    proof {
        assert(digits.subrange(0, (n - start) as int) =~= digits);
    }
    Some(acc)
}

/// Parses `s` as an unsigned integer no larger than `max`, exactly as
/// [`parse_unsigned`] describes.
pub fn parse_unsigned_str(s: &str, max: u128) -> (r: Option<u128>)
    ensures
        match parse_unsigned(s@, max as nat) {
            Some(v) => r is Some && r.unwrap() == v,
            None => r is None,
        },
{
    let n = s.unicode_len();
    if n > 0 && s.get_char(0) == '+' {
        parse_digit_run(s, 1, max)
    } else {
        proof {
            assert(s@.skip(0) =~= s@);
        }
        parse_digit_run(s, 0, max)
    }
}

/// Parses `s` as a signed integer within `[min, max]`, exactly as
/// [`parse_signed`] describes.
pub fn parse_signed_str(s: &str, min: i128, max: i128) -> (r: Option<i128>)
    requires
        min < 0,
        max > 0,
    ensures
        match parse_signed(s@, min as int, max as int) {
            Some(v) => r is Some && r.unwrap() == v,
            None => r is None,
        },
{
    let n = s.unicode_len();
    if n > 0 && s.get_char(0) == '-' {
        let magnitude_bound: u128 = if min == i128::MIN {
            170141183460469231731687303715884105728u128
        } else {
            (-min) as u128
        };
        match parse_digit_run(s, 1, magnitude_bound) {
            Some(m) => {
                if m == 170141183460469231731687303715884105728u128 {
                    Some(i128::MIN)
                } else {
                    Some(-(m as i128))
                }
            },
            None => None,
        }
    } else {
        match parse_unsigned_str(s, max as u128) {
            Some(v) => Some(v as i128),
            None => None,
        }
    }
}

/// Round trip for unsigned values: the canonical rendering parses back.
pub proof fn lemma_parse_unsigned_round_trip(n: nat, max: nat)
    requires
        n <= max,
    ensures
        parse_unsigned(dec_str(n), max) == Some(n),
{
    lemma_dec_str_digits(n);
    lemma_dec_str_val(n);
    assert(is_dec_digit(dec_str(n)[0]));
    assert(dec_str(n)[0] != '+');
}

/// Round trip for signed values: the canonical rendering parses back.
pub proof fn lemma_parse_signed_round_trip(x: int, min: int, max: int)
    requires
        min <= x <= max,
    ensures
        parse_signed(dec_str_signed(x), min, max) == Some(x),
{
    if x >= 0 {
        lemma_parse_unsigned_round_trip(x as nat, max as nat);
        lemma_dec_str_digits(x as nat);
        assert(dec_str_signed(x)[0] != '-');
    } else {
        let s = dec_str_signed(x);
        lemma_dec_str_digits((-x) as nat);
        lemma_dec_str_val((-x) as nat);
        assert(s[0] == '-');
        assert(s.drop_first() =~= dec_str((-x) as nat));
    }
}

} // verus!
