//! Decimal parsing and rendering for task ids.
use vstd::prelude::*;
use vstd::string::*;

use crate::text::{is_digit, is_digit_char, push_char};

verus! {

pub open spec fn digit_of(c: char) -> nat {
    ((c as int) - 48) as nat
}

/// The numeric value of a digit string, most significant digit first.
pub open spec fn digits_val(s: Seq<char>) -> nat
    decreases s.len(),
{
    if s.len() == 0 {
        0
    } else {
        digits_val(s.drop_last()) * 10 + digit_of(s.last())
    }
}

/// A nonempty, all-digits string: the ids that take part in id assignment.
pub open spec fn is_numeric(s: Seq<char>) -> bool {
    s.len() > 0 && forall|i: int| 0 <= i < s.len() ==> is_digit_char(s[i])
}

proof fn lemma_digits_val_prefix_le(s: Seq<char>, i: int)
    requires
        0 <= i <= s.len(),
    ensures
        digits_val(s.take(i)) <= digits_val(s),
    decreases s.len() - i,
{
    if i == s.len() {
        assert(s.take(i) =~= s);
    } else {
        lemma_digits_val_prefix_le(s, i + 1);
        assert(s.take(i + 1).drop_last() =~= s.take(i));
        assert(digits_val(s.take(i + 1)) == digits_val(s.take(i)) * 10 + digit_of(
            s.take(i + 1).last(),
        ));
    }
}

/// Parses an unsigned decimal number; anything non-numeric or beyond
/// `u32::MAX` yields `None`.
pub fn parse_u32(s: &str) -> (r: Option<u32>)
    ensures
        r is Some <==> is_numeric(s@) && digits_val(s@) <= u32::MAX,
        r is Some ==> r->0 == digits_val(s@),
{
    let n = s.unicode_len();
    if n == 0 {
        return None;
    }
    let mut val: u64 = 0;
    let mut i: usize = 0;
    while i < n
        invariant
            0 <= i <= n,
            n == s@.len(),
            n > 0,
            forall|j: int| 0 <= j < i ==> is_digit_char(s@[j]),
            val == digits_val(s@.take(i as int)),
            val <= u32::MAX,
        decreases n - i,
    {
        let c = s.get_char(i);
        if !is_digit(c) {
            return None;
        }
        let d: u64 = (c as u32 as u64) - 48;
        let next: u64 = val * 10 + d;
        proof {
            assert(s@.take(i + 1).drop_last() =~= s@.take(i as int));
            assert(s@.take(i + 1).last() == s@[i as int]);
            assert(next == digits_val(s@.take(i + 1)));
        }
        if next > 0xffff_ffff {
            proof {
                lemma_digits_val_prefix_le(s@, i + 1);
            }
            return None;
        }
        val = next;
        i = i + 1;
    }
    proof {
        assert(s@.take(n as int) =~= s@);
    }
    Some(val as u32)
}

pub open spec fn digit_char(d: nat) -> char {
    (((48 + d) as u8) as char)
}

/// The decimal rendering of a number, no leading zeros (except for zero
/// itself).
pub open spec fn dec_digits(n: nat) -> Seq<char>
    decreases n,
{
    if n < 10 {
        seq![digit_char(n)]
    } else {
        dec_digits(n / 10) + seq![digit_char(n % 10)]
    }
}

fn digit_char_exec(d: u64) -> (c: char)
    requires
        d < 10,
    ensures
        c == digit_char(d as nat),
{
    ((48 + d) as u8) as char
}

pub fn format_u64(n: u64) -> (r: String)
    ensures
        r@ == dec_digits(n as nat),
    decreases n,
{
    if n < 10 {
        let mut s = String::new();
        push_char(&mut s, digit_char_exec(n));
        proof {
            assert(s@ =~= dec_digits(n as nat));
        }
        s
    } else {
        let mut s = format_u64(n / 10);
        push_char(&mut s, digit_char_exec(n % 10));
        proof {
            assert(s@ =~= dec_digits(n as nat));
        }
        s
    }
}

/// Zero-pads a digit string on the left to at least three characters.
pub open spec fn pad3(s: Seq<char>) -> Seq<char> {
    if s.len() >= 3 {
        s
    } else if s.len() == 2 {
        seq!['0'] + s
    } else if s.len() == 1 {
        seq!['0', '0'] + s
    } else {
        seq!['0', '0', '0']
    }
}

/// Renders a number as a zero-padded three-digit id string.
pub fn format_id3(n: u64) -> (r: String)
    ensures
        r@ == pad3(dec_digits(n as nat)),
{
    let digits = format_u64(n);
    let len = digits.as_str().unicode_len();
    let mut r = String::new();
    if len == 2 {
        push_char(&mut r, '0');
    } else if len == 1 {
        push_char(&mut r, '0');
        push_char(&mut r, '0');
    } else if len == 0 {
        push_char(&mut r, '0');
        push_char(&mut r, '0');
        push_char(&mut r, '0');
    }
    r.append(digits.as_str());
    proof {
        assert(r@ =~= pad3(dec_digits(n as nat)));
    }
    r
}

} // verus!
