//! Small verified text helpers: decimal formatting and string equality.
//!
//! File names, URLs and checksum comparison all work over plain ASCII
//! text, so everything here is specified down to the exact character
//! sequence produced.

use vstd::prelude::*;
use vstd::string::StringSliceAdditionalSpecFns;

verus! {

/// The character for one decimal digit.
pub open spec fn digit_char(d: nat) -> char
    recommends
        d < 10,
{
    (48 + d) as u8 as char
}

/// The decimal digit sequence of `n`, most significant first, no sign,
/// no leading zeros (except for `n == 0`, which is `"0"`).
pub open spec fn dec_chars(n: nat) -> Seq<char>
    decreases n,
{
    if n < 10 {
        seq![digit_char(n)]
    } else {
        dec_chars(n / 10) + seq![digit_char(n % 10)]
    }
}

/// The decimal rendering of a signed value: a minus sign in front of
/// the digits of its absolute value.
pub open spec fn dec_chars_signed(n: int) -> Seq<char> {
    if n < 0 {
        seq!['-'] + dec_chars((-n) as nat)
    } else {
        dec_chars(n as nat)
    }
}

fn digit_str(d: u64) -> (r: &'static str)
    requires
        d < 10,
    ensures
        r@ == seq![digit_char(d as nat)],
{
    let r = match d {
        0 => "0",
        1 => "1",
        2 => "2",
        3 => "3",
        4 => "4",
        5 => "5",
        6 => "6",
        7 => "7",
        8 => "8",
        _ => "9",
    };
    proof {
        reveal_strlit("0");
        reveal_strlit("1");
        reveal_strlit("2");
        reveal_strlit("3");
        reveal_strlit("4");
        reveal_strlit("5");
        reveal_strlit("6");
        reveal_strlit("7");
        reveal_strlit("8");
        reveal_strlit("9");
    }
    r
}

/// Renders `n` in decimal.
pub fn u64_to_string(n: u64) -> (r: String)
    ensures
        r@ == dec_chars(n as nat),
    decreases n,
{
    if n < 10 {
        String::from_str(digit_str(n))
    } else {
        let mut s = u64_to_string(n / 10);
        s.append(digit_str(n % 10));
        s
    }
}

/// Renders `n` in decimal, with a leading minus sign when negative.
pub fn i32_to_string(n: i32) -> (r: String)
    ensures
        r@ == dec_chars_signed(n as int),
{
    if n < 0 {
        let mut s = String::from_str("-");
        proof {
            reveal_strlit("-");
        }
        let abs: u64 = if n == i32::MIN {
            2147483648u64
        } else {
            (-n) as u64
        };
        s.append(u64_to_string(abs).as_str());
        s
    } else {
        u64_to_string(n as u64)
    }
}

/// Character-for-character string equality.
pub fn str_eq(a: &str, b: &str) -> (r: bool)
    ensures
        r == (a@ == b@),
{
    let ab = a.as_bytes();
    let bb = b.as_bytes();
    proof {
        if a.spec_bytes() == b.spec_bytes() {
            vstd::utf8::encode_utf8_decode_utf8(a@);
            vstd::utf8::encode_utf8_decode_utf8(b@);
        }
    }
    if ab.len() != bb.len() {
        return false;
    }
    let mut i: usize = 0;
    while i < ab.len()
        invariant
            i <= ab@.len(),
            ab@.len() == bb@.len(),
            ab@ == a.spec_bytes(),
            bb@ == b.spec_bytes(),
            forall|k: int| 0 <= k < i ==> ab@[k] == bb@[k],
        decreases ab@.len() - i,
    {
        if ab[i] != bb[i] {
            return false;
        }
        i += 1;
    }
    proof {
        assert(ab@ =~= bb@);
    }
    true
}

} // verus!
