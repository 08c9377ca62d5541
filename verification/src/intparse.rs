//! Decimal parsing of signed 32-bit integers.
//!
//! [`parse_i32`] accepts exactly the strings made of an optional leading
//! sign (`+` or `-`) followed by one or more ASCII decimal digits whose
//! value fits in an `i32`, and returns the denoted value.

use vstd::prelude::*;

verus! {

/// True when `c` is an ASCII decimal digit.
pub open spec fn is_dec_digit(c: char) -> bool {
    48 <= c as int && c as int <= 57
}

/// True when every character of `s` is an ASCII decimal digit.
pub open spec fn all_dec_digits(s: Seq<char>) -> bool {
    forall|i: int| 0 <= i < s.len() ==> is_dec_digit(#[trigger] s[i])
}

/// The value of a sequence of decimal digits, most significant first.
pub open spec fn dec_val(s: Seq<char>) -> int
    decreases s.len(),
{
    if s.len() == 0 {
        0
    } else {
        dec_val(s.drop_last()) * 10 + (s.last() as int - 48)
    }
}

/// The digit part of an integer literal: everything after a leading sign.
pub open spec fn digits_of(s: Seq<char>) -> Seq<char> {
    if s.len() > 0 && (s[0] == '-' || s[0] == '+') {
        s.subrange(1, s.len() as int)
    } else {
        s
    }
}

/// True when the literal denotes a negative value, i.e. starts with `-`.
pub open spec fn is_negative_literal(s: Seq<char>) -> bool {
    s.len() > 0 && s[0] == '-'
}

/// True when `s` is a decimal literal an `i32` can represent: an optional
/// sign, one or more digits, and a magnitude within range.
pub open spec fn int_literal_ok(s: Seq<char>) -> bool {
    &&& digits_of(s).len() > 0
    &&& all_dec_digits(digits_of(s))
    &&& (if is_negative_literal(s) {
        dec_val(digits_of(s)) <= 2147483648
    } else {
        dec_val(digits_of(s)) <= 2147483647
    })
}

/// The value denoted by a valid decimal literal.
pub open spec fn int_literal_val(s: Seq<char>) -> int {
    if is_negative_literal(s) {
        -dec_val(digits_of(s))
    } else {
        dec_val(digits_of(s))
    }
}

/// The value of a digit string is never negative.
proof fn lemma_dec_val_nonneg(s: Seq<char>)
    requires
        all_dec_digits(s),
    ensures
        dec_val(s) >= 0,
    decreases s.len(),
{
    if s.len() > 0 {
        assert(all_dec_digits(s.drop_last()));
        lemma_dec_val_nonneg(s.drop_last());
    }
}

/// Extending a digit string to the right never shrinks its value.
proof fn lemma_dec_val_prefix_le(s: Seq<char>, i: int)
    requires
        all_dec_digits(s),
        0 <= i <= s.len(),
    ensures
        dec_val(s.subrange(0, i)) <= dec_val(s),
    decreases s.len() - i,
{
    if i < s.len() {
        let p = s.subrange(0, i + 1);
        assert(p.drop_last() =~= s.subrange(0, i));
        assert(all_dec_digits(s.subrange(0, i)));
        lemma_dec_val_nonneg(s.subrange(0, i));
        assert(dec_val(s.subrange(0, i)) <= dec_val(p));
        lemma_dec_val_prefix_le(s, i + 1);
    } else {
        assert(s.subrange(0, i) =~= s);
    }
}

/// Parses `s` as a base-10 signed 32-bit integer, accepting exactly the
/// literals [`int_literal_ok`] describes.
pub fn parse_i32(s: &str) -> (r: Option<i32>)
    ensures
        r is Some <==> int_literal_ok(s@),
        r matches Some(v) ==> v as int == int_literal_val(s@),
{
    let n = s.unicode_len();
    let mut start: usize = 0;
    let mut neg = false;
    if n > 0 {
        let c0 = s.get_char(0);
        if c0 == '-' {
            neg = true;
            start = 1;
        } else if c0 == '+' {
            start = 1;
        }
    }
    let ghost d = digits_of(s@);
    proof {
        if start == 0 {
            assert(d =~= s@.subrange(0, n as int));
        }
    }
    if start >= n {
        // no digits at all
        return None;
    }
    let bound: u64 = if neg {
        2147483648
    } else {
        2147483647
    };
    let mut acc: u64 = 0;
    let mut i: usize = start;
    while i < n
        invariant
            start <= i <= n,
            n == s@.len(),
            start < n,
            d == s@.subrange(start as int, n as int),
            d == digits_of(s@),
            neg == is_negative_literal(s@),
            bound == (if neg { 2147483648u64 } else { 2147483647u64 }),
            all_dec_digits(d.subrange(0, i - start)),
            acc == dec_val(d.subrange(0, i - start)),
            acc <= bound,
        decreases n - i,
    {
        let c = s.get_char(i);
        let cu = c as u32;
        if cu < 48 || cu > 57 {
            proof {
                assert(d[i - start] == c);
                assert(!is_dec_digit(c));
            }
            return None;
        }
        let digit: u64 = (cu - 48) as u64;
        let next: u64 = acc * 10 + digit;
        proof {
            let p = d.subrange(0, i - start + 1);
            assert(p.drop_last() =~= d.subrange(0, i - start));
            assert(p.last() == d[i - start]);
            assert(d[i - start] == c);
            assert(dec_val(p) == next);
        }
        if next > bound {
            proof {
                if all_dec_digits(d) {
                    lemma_dec_val_prefix_le(d, i - start + 1);
                    assert(dec_val(d) >= next);
                }
            }
            return None;
        }
        acc = next;
        i = i + 1;
    }
    proof {
        assert(d.subrange(0, n - start) =~= d);
    }
    if neg {
        let v: i32 = (-(acc as i64)) as i32;
        Some(v)
    } else {
        Some(acc as i32)
    }
}

} // verus!
