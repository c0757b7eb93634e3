//! Text rendering of the numbers that appear in messages.

use vstd::prelude::*;
use vstd::string::*;
use vstd::utf8::*;

verus! {

/// The character of a digit below sixteen.
pub open spec fn digit(d: int) -> char {
    if d < 10 {
        (48 + d) as char
    } else {
        (87 + d) as char
    }
}

/// `n` in decimal.
pub open spec fn dec(n: nat) -> Seq<char>
    decreases n,
{
    if n < 10 {
        seq![digit(n as int)]
    } else {
        dec(n / 10).push(digit((n % 10) as int))
    }
}

/// `n` in lower-case hexadecimal, without leading zeros.
pub open spec fn hex(n: nat) -> Seq<char>
    decreases n,
{
    if n < 16 {
        seq![digit(n as int)]
    } else {
        hex(n / 16).push(digit((n % 16) as int))
    }
}

/// The low `width` hexadecimal digits of `n`, most significant first.
pub open spec fn hex_fixed(n: nat, width: nat) -> Seq<char>
    decreases width,
{
    if width == 0 {
        Seq::empty()
    } else {
        hex_fixed(n / 16, (width - 1) as nat).push(digit((n % 16) as int))
    }
}

fn digit_str(d: u8) -> (s: &'static str)
    requires
        d < 16,
    ensures
        s@ == seq![digit(d as int)],
{
    proof {
        reveal_strlit("0");
        reveal_strlit("1");
        reveal_strlit("2");
        reveal_strlit("3");
        reveal_strlit("4");
        reveal_strlit("5");
        reveal_strlit("6");
        reveal_strlit("7");
        reveal_strlit("8");
        reveal_strlit("9");
        reveal_strlit("a");
        reveal_strlit("b");
        reveal_strlit("c");
        reveal_strlit("d");
        reveal_strlit("e");
        reveal_strlit("f");
    }
    match d {
        0 => "0",
        1 => "1",
        2 => "2",
        3 => "3",
        4 => "4",
        5 => "5",
        6 => "6",
        7 => "7",
        8 => "8",
        9 => "9",
        10 => "a",
        11 => "b",
        12 => "c",
        13 => "d",
        14 => "e",
        _ => "f",
    }
}

/// Renders `n` in decimal.
pub fn dec_string(n: u64) -> (s: String)
    ensures
        s@ == dec(n as nat),
    decreases n,
{
    if n < 10 {
        digit_str(n as u8).to_owned()
    } else {
        let mut s = dec_string(n / 10);
        s.append(digit_str((n % 10) as u8));
        s
    }
}

/// Renders `n` in lower-case hexadecimal, without leading zeros.
pub fn hex_string(n: u64) -> (s: String)
    ensures
        s@ == hex(n as nat),
    decreases n,
{
    if n < 16 {
        digit_str(n as u8).to_owned()
    } else {
        let mut s = hex_string(n / 16);
        s.append(digit_str((n % 16) as u8));
        s
    }
}

/// Renders the low `width` hexadecimal digits of `n`.
pub fn hex_fixed_string(n: u64, width: usize) -> (s: String)
    ensures
        s@ == hex_fixed(n as nat, width as nat),
    decreases width,
{
    if width == 0 {
        String::new()
    } else {
        let mut s = hex_fixed_string(n / 16, width - 1);
        s.append(digit_str((n % 16) as u8));
        s
    }
}

/// The characters of a text that may be absent.
pub open spec fn optional(s: Option<&str>) -> Option<Seq<char>> {
    match s {
        Some(s) => Some(s@),
        None => None,
    }
}

/// Whether two strings hold the same characters.
pub fn str_eq(a: &str, b: &str) -> (r: bool)
    ensures
        r == (a@ == b@),
{
    let x = a.as_bytes();
    let y = b.as_bytes();
    proof {
        encode_utf8_decode_utf8(a@);
        encode_utf8_decode_utf8(b@);
    }
    if x.len() != y.len() {
        return false;
    }
    let mut i: usize = 0;
    while i < x.len()
        invariant
            x@ == encode_utf8(a@),
            y@ == encode_utf8(b@),
            x@.len() == y@.len(),
            i <= x@.len(),
            forall|k: int| 0 <= k < i ==> x@[k] == y@[k],
        decreases x@.len() - i,
    {
        if x[i] != y[i] {
            return false;
        }
        i += 1;
    }
    assert(x@ =~= y@);
    true
}

/// The quotient `n / d` rounded to the nearest integer, ties to the even one.
pub open spec fn round_half_even(n: nat, d: nat) -> nat {
    let q = n / d;
    let r = n % d;
    if 2 * r < d || (2 * r == d && q % 2 == 0) {
        q
    } else {
        q + 1
    }
}

/// `num / one`, with both doubled until `num / d` has twenty-four significant bits.
pub open spec fn normalized(num: nat, one: nat, d: nat) -> (nat, nat)
    decreases
        if num < d * 0x80_0000 {
            d * 0x80_0000 - num
        } else {
            0
        },
{
    if num == 0 || num >= d * 0x80_0000 {
        (num, one)
    } else {
        normalized(2 * num, 2 * one, d)
    }
}

/// The hundredths that `n / d` has when the quotient is first rounded to a single-precision
/// float (a significand of twenty-four bits) and that value is then printed with two decimals.
/// Both roundings go to the nearest value, ties to even.
pub open spec fn single_hundredths(n: nat, d: nat) -> nat {
    let scaled = normalized(n, 1, d);
    let significand = round_half_even(scaled.0, d);
    round_half_even(significand * 100, scaled.1)
}

/// A count of hundredths as a decimal number with two fractional digits.
pub open spec fn two_decimals(hundredths: nat) -> Seq<char> {
    dec(hundredths / 100) + "."@ + seq![
        digit((hundredths / 10 % 10) as int),
        digit((hundredths % 10) as int),
    ]
}

fn round_half_even_u64(n: u64, d: u64) -> (r: u64)
    requires
        0 < d,
        2 * d <= u64::MAX,
        n / d < u64::MAX,
    ensures
        r == round_half_even(n as nat, d as nat),
{
    let q = n / d;
    let rem = n % d;
    if 2 * rem < d || (2 * rem == d && q % 2 == 0) {
        q
    } else {
        q + 1
    }
}

/// Computes the hundredths of the single-precision quotient of `n` and `d`.
pub fn single_hundredths_u64(n: u64, d: u64) -> (r: u64)
    requires
        0 < d <= n,
        n / d < 0x100_0000,
        d <= 0xffff_ffff,
        n <= 0xffff_ffff_ffff,
    ensures
        r == single_hundredths(n as nat, d as nat),
{
    let mut num: u64 = n;
    let mut one: u64 = 1;
    while num < d * 0x80_0000
        invariant
            0 < d <= n,
            d <= 0xffff_ffff,
            n <= 0xffff_ffff_ffff,
            0 < one <= num,
            num <= n || num < d * 0x100_0000,
            n / d < 0x100_0000,
            normalized(num as nat, one as nat, d as nat) == normalized(n as nat, 1, d as nat),
        decreases
            if num < d * 0x80_0000 {
                d * 0x80_0000 - num
            } else {
                0
            },
    {
        num = 2 * num;
        one = 2 * one;
    }
    assert(num / d <= 0x100_0000) by (nonlinear_arith)
        requires
            0 < d,
            num < d * 0x100_0000 || num <= n,
            n / d < 0x100_0000,
    ;
    let significand = round_half_even_u64(num, d);
    assert(significand * 100 / one as int <= significand * 100) by (nonlinear_arith)
        requires
            0 < one,
            0 <= significand,
    ;
    assert(one <= 0x7fff_ffff_ffff_ffff) by (nonlinear_arith)
        requires
            one <= num,
            num < d * 0x100_0000 || num <= n,
            d <= 0xffff_ffff,
            n <= 0xffff_ffff_ffff,
    ;
    round_half_even_u64(significand * 100, one)
}

/// Renders a count of hundredths with two fractional digits.
pub fn two_decimals_string(hundredths: u64) -> (s: String)
    ensures
        s@ == two_decimals(hundredths as nat),
{
    let mut s = dec_string(hundredths / 100);
    s.append(".");
    s.append(digit_str((hundredths / 10 % 10) as u8));
    s.append(digit_str((hundredths % 10) as u8));
    assert(s@ =~= two_decimals(hundredths as nat));
    s
}

} // verus!
