//! Decimal text: what a digit string denotes, which strings are integer
//! literals, and how an integer is rendered back to decimal.

use vstd::prelude::*;
use vstd::string::StrSliceExecFns;
use vstd::string::StringExecFns;

verus! {

/// `c` is one of the ten ASCII decimal digits.
pub open spec fn is_digit(c: char) -> bool {
    48 <= c as u32 <= 57
}

/// The numeric value of a decimal digit.
pub open spec fn digit_val(c: char) -> nat {
    (c as u32 - 48) as nat
}

/// Every character of `s` is a decimal digit.
pub open spec fn all_digits(s: Seq<char>) -> bool {
    forall|i: int| 0 <= i < s.len() ==> is_digit(#[trigger] s[i])
}

/// The number denoted by a digit string, most significant digit first.
pub open spec fn digits_val(s: Seq<char>) -> nat
    decreases s.len(),
{
    if s.len() == 0 {
        0
    } else {
        digits_val(s.drop_last()) * 10 + digit_val(s.last())
    }
}

/// The digit part of an integer literal: everything after an optional
/// single leading sign.
pub open spec fn literal_digits(s: Seq<char>) -> Seq<char> {
    if s.len() > 0 && (s[0] == '+' || s[0] == '-') {
        s.subrange(1, s.len() as int)
    } else {
        s
    }
}

/// The sign an integer literal denotes.
pub open spec fn literal_sign(s: Seq<char>) -> int {
    if s.len() > 0 && s[0] == '-' {
        -1
    } else {
        1
    }
}

/// `s` is a plain integer literal that fits in an `i64`: an optional sign
/// followed by at least one digit, denoting a value in `i64`'s range.
pub open spec fn is_int_literal(s: Seq<char>) -> bool {
    &&& literal_digits(s).len() >= 1
    &&& all_digits(literal_digits(s))
    &&& i64::MIN <= literal_sign(s) * digits_val(literal_digits(s)) <= i64::MAX
}

/// The value an integer literal denotes.
pub open spec fn int_literal_val(s: Seq<char>) -> int {
    literal_sign(s) * digits_val(literal_digits(s))
}

/// A digit string grows (weakly) when digits are appended.
proof fn lemma_digits_val_step(s: Seq<char>, i: int)
    requires
        0 <= i < s.len(),
    ensures
        digits_val(s.subrange(0, i + 1)) == digits_val(s.subrange(0, i)) * 10 + digit_val(s[i]),
        digits_val(s.subrange(0, i + 1)) >= digits_val(s.subrange(0, i)),
{
    let pre = s.subrange(0, i + 1);
    assert(pre.drop_last() =~= s.subrange(0, i));
    assert(pre.last() == s[i]);
}

/// As `lemma_digits_val_step`, for a digit run that starts at `base`.
pub proof fn lemma_digits_val_segment_step(s: Seq<char>, base: int, k: int)
    requires
        0 <= base <= k < s.len(),
    ensures
        digits_val(s.subrange(base, k + 1)) == digits_val(s.subrange(base, k)) * 10 + digit_val(
            s[k],
        ),
{
    let pre = s.subrange(base, k + 1);
    assert(pre.drop_last() =~= s.subrange(base, k));
    assert(pre.last() == s[k]);
}

/// Powers of ten.
pub open spec fn pow10(n: nat) -> nat
    decreases n,
{
    if n == 0 {
        1
    } else {
        10 * pow10((n - 1) as nat)
    }
}

/// A digit string denotes less than ten to its length.
pub proof fn lemma_digits_val_bound(s: Seq<char>)
    requires
        all_digits(s),
    ensures
        digits_val(s) < pow10(s.len()),
    decreases s.len(),
{
    if s.len() == 0 {
    } else {
        lemma_digits_val_bound(s.drop_last());
        assert(is_digit(s.last()));
        assert(digit_val(s.last()) <= 9);
    }
}

/// Parses `s` exactly as a decimal `i64` literal: an optional single sign
/// and then digits, rejecting anything else and anything out of range.
pub fn parse_i64(s: &str) -> (r: Option<i64>)
    ensures
        r is Some <==> is_int_literal(s@),
        r matches Some(v) ==> v as int == int_literal_val(s@),
{
    let n = s.unicode_len();
    if n == 0 {
        return None;
    }
    let c0 = s.get_char(0);
    let mut start: usize = 0;
    let mut neg = false;
    if c0 == '-' {
        neg = true;
        start = 1;
    } else if c0 == '+' {
        start = 1;
    }
    let ghost d = literal_digits(s@);
    proof {
        if start == 1 {
            assert(d =~= s@.subrange(1, s@.len() as int));
        } else {
            assert(d =~= s@.subrange(0, s@.len() as int));
        }
    }
    if start == n {
        return None;
    }
    let mut i: usize = start;
    let mut mag: u128 = 0;
    let mut too_big = false;
    while i < n
        invariant
            start <= i <= n,
            n == s@.len(),
            d == literal_digits(s@),
            d =~= s@.subrange(start as int, s@.len() as int),
            all_digits(d.subrange(0, i - start)),
            !too_big ==> mag == digits_val(d.subrange(0, i - start)) && mag
                <= 0x8000_0000_0000_0000u128,
            too_big ==> digits_val(d.subrange(0, i - start)) > 0x8000_0000_0000_0000u128,
        decreases n - i,
    {
        let c = s.get_char(i);
        let u = c as u32;
        proof {
            assert(d[i - start] == s@[i as int]);
        }
        if u < 48 || u > 57 {
            proof {
                assert(!is_digit(d[i - start]));
            }
            return None;
        }
        proof {
            lemma_digits_val_step(d, i - start);
        }
        if too_big {
            proof {
                assert(digits_val(d.subrange(0, (i - start) + 1)) > 0x8000_0000_0000_0000u128);
            }
        } else {
            mag = mag * 10 + (u - 48) as u128;
            if mag > 0x8000_0000_0000_0000u128 {
                too_big = true;
            }
        }
        i += 1;
    }
    proof {
        assert(d.subrange(0, (i - start) as int) =~= d);
    }
    if too_big {
        return None;
    }
    if neg {
        if mag == 0x8000_0000_0000_0000u128 {
            Some(i64::MIN)
        } else {
            Some(-(mag as i64))
        }
    } else {
        if mag > i64::MAX as u128 {
            None
        } else {
            Some(mag as i64)
        }
    }
}

/// The character of a single decimal digit value.
pub open spec fn digit_char(d: nat) -> char {
    if d == 0 {
        '0'
    } else if d == 1 {
        '1'
    } else if d == 2 {
        '2'
    } else if d == 3 {
        '3'
    } else if d == 4 {
        '4'
    } else if d == 5 {
        '5'
    } else if d == 6 {
        '6'
    } else if d == 7 {
        '7'
    } else if d == 8 {
        '8'
    } else {
        '9'
    }
}

/// The decimal rendering of a natural number, without sign or leading zeros.
pub open spec fn dec_digits(n: nat) -> Seq<char>
    decreases n,
{
    if n < 10 {
        seq![digit_char(n)]
    } else {
        dec_digits(n / 10).push(digit_char(n % 10))
    }
}

/// The decimal rendering of an integer: a `-` sign for negative values,
/// then the digits of the magnitude.
pub open spec fn dec_str(v: int) -> Seq<char> {
    if v < 0 {
        seq!['-'] + dec_digits((-v) as nat)
    } else {
        dec_digits(v as nat)
    }
}

/// Rendering a natural number yields a nonempty digit string that denotes
/// the same number.
pub proof fn lemma_dec_digits_denote(n: nat)
    ensures
        dec_digits(n).len() >= 1,
        all_digits(dec_digits(n)),
        digits_val(dec_digits(n)) == n,
    decreases n,
{
    if n < 10 {
        let s = dec_digits(n);
        assert(s =~= seq![digit_char(n)]);
        assert(s.len() == 1);
        assert(s.drop_last() =~= Seq::<char>::empty());
        assert(digits_val(Seq::<char>::empty()) == 0);
        assert(s.last() == digit_char(n));
        assert(digits_val(s) == digits_val(s.drop_last()) * 10 + digit_val(s.last()));
        assert(digits_val(s) == digit_val(digit_char(n)));
    } else {
        lemma_dec_digits_denote(n / 10);
        let rest = dec_digits(n / 10);
        let s = rest.push(digit_char(n % 10));
        assert(s.drop_last() =~= rest);
        assert(digits_val(s) == digits_val(rest) * 10 + digit_val(s.last()));
        assert(digit_val(digit_char(n % 10)) == n % 10);
        assert((n / 10) * 10 + n % 10 == n) by {
            vstd::arithmetic::div_mod::lemma_fundamental_div_mod(n as int, 10);
        }
    }
}

/// Rendering an `i64` and parsing the result round-trips: the rendering is
/// a valid integer literal and denotes the value it was made from.
pub proof fn lemma_int_literal_roundtrip(v: int)
    requires
        i64::MIN <= v <= i64::MAX,
    ensures
        is_int_literal(dec_str(v)),
        int_literal_val(dec_str(v)) == v,
        forall|i: int|
            0 <= i < dec_str(v).len() ==> (dec_str(v)[i] == '-' || is_digit(#[trigger] dec_str(
                v,
            )[i])),
{
    if v < 0 {
        lemma_dec_digits_denote((-v) as nat);
        let s = dec_str(v);
        let dd = dec_digits((-v) as nat);
        assert(s[0] == '-');
        assert(literal_digits(s) =~= dd);
        assert(literal_sign(s) == -1);
        assert(int_literal_val(s) == -(digits_val(dd) as int));
        assert forall|i: int| 0 <= i < s.len() implies (s[i] == '-' || is_digit(#[trigger] s[i])) by {
            if i > 0 {
                assert(s[i] == dd[i - 1]);
            }
        }
    } else {
        lemma_dec_digits_denote(v as nat);
        let s = dec_str(v);
        assert(is_digit(s[0]));
        assert(!(s[0] == '+' || s[0] == '-'));
        assert(literal_digits(s) == s);
        assert(literal_sign(s) == 1);
    }
}

/// A one-character string slice holding the given decimal digit.
fn digit_str(d: u128) -> (r: &'static str)
    requires
        d < 10,
    ensures
        r@ == seq![digit_char(d as nat)],
{
    if d == 0 {
        proof {
            reveal_strlit("0");
            assert("0"@ =~= seq![digit_char(0)]);
        }
        "0"
    } else if d == 1 {
        proof {
            reveal_strlit("1");
            assert("1"@ =~= seq![digit_char(1)]);
        }
        "1"
    } else if d == 2 {
        proof {
            reveal_strlit("2");
            assert("2"@ =~= seq![digit_char(2)]);
        }
        "2"
    } else if d == 3 {
        proof {
            reveal_strlit("3");
            assert("3"@ =~= seq![digit_char(3)]);
        }
        "3"
    } else if d == 4 {
        proof {
            reveal_strlit("4");
            assert("4"@ =~= seq![digit_char(4)]);
        }
        "4"
    } else if d == 5 {
        proof {
            reveal_strlit("5");
            assert("5"@ =~= seq![digit_char(5)]);
        }
        "5"
    } else if d == 6 {
        proof {
            reveal_strlit("6");
            assert("6"@ =~= seq![digit_char(6)]);
        }
        "6"
    } else if d == 7 {
        proof {
            reveal_strlit("7");
            assert("7"@ =~= seq![digit_char(7)]);
        }
        "7"
    } else if d == 8 {
        proof {
            reveal_strlit("8");
            assert("8"@ =~= seq![digit_char(8)]);
        }
        "8"
    } else {
        proof {
            reveal_strlit("9");
            assert("9"@ =~= seq![digit_char(9)]);
        }
        "9"
    }
}

/// Appends the decimal digits of `mag` to `out`.
fn push_dec_digits(mag: u128, out: &mut String)
    ensures
        final(out)@ == old(out)@ + dec_digits(mag as nat),
    decreases mag,
{
    if mag < 10 {
        out.append(digit_str(mag));
        proof {
            assert(final(out)@ =~= old(out)@ + dec_digits(mag as nat));
        }
    } else {
        proof {
            assert(mag / 10 < mag) by {
                vstd::arithmetic::div_mod::lemma_div_is_strictly_smaller(mag as int, 10);
            }
        }
        push_dec_digits(mag / 10, out);
        out.append(digit_str(mag % 10));
        proof {
            assert(dec_digits(mag as nat) == dec_digits((mag as nat) / 10).push(
                digit_char((mag as nat) % 10),
            ));
            assert(final(out)@ =~= old(out)@ + dec_digits(mag as nat));
        }
    }
}

/// Renders `v` in decimal, exactly as `dec_str` describes.
pub fn i64_to_string(v: i64) -> (r: String)
    ensures
        r@ == dec_str(v as int),
{
    let mut out = String::new();
    let mag: u128;
    if v < 0 {
        out.append("-");
        proof {
            reveal_strlit("-");
            assert(out@ =~= seq!['-']);
        }
        mag = (-(v as i128)) as u128;
    } else {
        mag = v as u128;
    }
    push_dec_digits(mag, &mut out);
    proof {
        if v >= 0 {
            assert(out@ =~= dec_str(v as int));
        }
    }
    out
}

} // verus!
