//! Decimal and hexadecimal renderings of numbers, zero-padded to a width, as the
//! `{:0N}`, `{:0NX}` and `{:0Nx}` formats write them.
use vstd::prelude::*;
use crate::text::{push_char, string_from_chars};
use vstd::string::StringExecFns;

verus! {

/// The digit for `d` (`0`-`9`, then `A`-`F` or `a`-`f`).
pub open spec fn digit_char(d: int, upper: bool) -> char {
    if d < 10 {
        (48 + d) as char
    } else if upper {
        (55 + d) as char
    } else {
        (87 + d) as char
    }
}

/// The digits of `n` in `base`, most significant first, without leading zeros
/// (`0` is written as one digit).
pub open spec fn digits(n: nat, base: nat, upper: bool) -> Seq<char>
    decreases n,
{
    if base < 2 || n < base {
        seq![digit_char(n as int, upper)]
    } else {
        proof {
            assert(n / base < n) by (nonlinear_arith)
                requires
                    base >= 2,
                    n >= base,
            ;
        }
        digits(n / base, base, upper).push(digit_char((n % base) as int, upper))
    }
}

/// `s` padded on the left with `c` to at least `width` characters.
pub open spec fn pad_left(s: Seq<char>, width: nat, c: char) -> Seq<char> {
    if s.len() >= width {
        s
    } else {
        Seq::new((width - s.len()) as nat, |i: int| c) + s
    }
}

/// `n` in decimal, zero-padded to `width` (`{:0width}`).
pub open spec fn decimal(n: nat, width: nat) -> Seq<char> {
    pad_left(digits(n, 10, true), width, '0')
}

/// `n` in hexadecimal, zero-padded to `width` (`{:0widthX}` or `{:0widthx}`).
pub open spec fn hex(n: nat, width: nat, upper: bool) -> Seq<char> {
    pad_left(digits(n, 16, upper), width, '0')
}

/// The number of digits of `n` in `base`.
proof fn lemma_digits_len(n: nat, base: nat, upper: bool)
    requires
        2 <= base,
    ensures
        digits(n, base, upper).len() >= 1,
    decreases n,
{
    if n >= base {
        assert(n / base < n) by (nonlinear_arith)
            requires
                base >= 2,
                n >= base,
        ;
        lemma_digits_len(n / base, base, upper);
    }
}

fn digit(d: u64, upper: bool) -> (c: char)
    requires
        d < 16,
    ensures
        c == digit_char(d as int, upper),
{
    if d < 10 {
        ((48 + d) as u8) as char
    } else if upper {
        ((55 + d) as u8) as char
    } else {
        ((87 + d) as u8) as char
    }
}

fn push_digits(out: &mut Vec<char>, n: u64, base: u64, upper: bool)
    requires
        base == 10 || base == 16,
    ensures
        final(out)@ == old(out)@ + digits(n as nat, base as nat, upper),
    decreases n,
{
    if n >= base {
        push_digits(out, n / base, base, upper);
    }
    out.push(digit(n % base, upper));
    proof {
        if n < base {
            assert(n % base == n);
        }
    }
}

/// The digits of `n` in `base` with zero padding to `width`.
fn padded(n: u64, width: usize, base: u64, upper: bool) -> (r: String)
    requires
        base == 10 || base == 16,
    ensures
        r@ == pad_left(digits(n as nat, base as nat, upper), width as nat, '0'),
{
    let mut body: Vec<char> = Vec::new();
    push_digits(&mut body, n, base, upper);
    let ghost d = digits(n as nat, base as nat, upper);
    assert(body@ =~= d);
    let len = body.len();
    let mut chars: Vec<char> = Vec::new();
    let mut i = len;
    while i < width
        invariant
            len == d.len(),
            len <= i,
            i <= width || len > width,
            len >= width ==> i == len,
            chars@ == Seq::new((i - len) as nat, |k: int| '0'),
        decreases width - i,
    {
        chars.push('0');
        assert(chars@ =~= Seq::new((i + 1 - len) as nat, |k: int| '0'));
        i = i + 1;
    }
    let ghost pad = chars@;
    let mut k: usize = 0;
    while k < body.len()
        invariant
            k <= body@.len(),
            chars@ == pad + body@.subrange(0, k as int),
        decreases body.len() - k,
    {
        chars.push(body[k]);
        assert(body@.subrange(0, k + 1) == body@.subrange(0, k as int).push(body@[k as int]));
        k = k + 1;
    }
    assert(body@.subrange(0, body@.len() as int) == body@);
    proof {
        if d.len() < width {
            assert(chars@ =~= pad_left(d, width as nat, '0'));
        } else {
            assert(pad =~= Seq::<char>::empty());
            assert(chars@ =~= pad_left(d, width as nat, '0'));
        }
    }
    string_from_chars(&chars)
}

/// Appends the characters of `tail` to `out`.
pub fn append_string(out: &mut String, tail: &String)
    ensures
        final(out)@ == old(out)@ + tail@,
{
    for c in it: tail.as_str().chars()
        invariant
            out@ == old(out)@ + it.seq().take(it.index() as int),
    {
        push_char(out, c);
    }
    assert(tail@.take(tail@.len() as int) =~= tail@);
}

/// `n` in decimal, zero-padded to `width` characters.
pub fn decimal_string(n: u64, width: usize) -> (r: String)
    ensures
        r@ == decimal(n as nat, width as nat),
{
    padded(n, width, 10, true)
}

/// `n` in hexadecimal, zero-padded to `width` characters, in upper or lower case.
pub fn hex_string(n: u64, width: usize, upper: bool) -> (r: String)
    ensures
        r@ == hex(n as nat, width as nat, upper),
{
    padded(n, width, 16, upper)
}

/// `v` in decimal with a `-` before negative values (`{}` on an `i32`).
pub open spec fn signed_decimal(v: int) -> Seq<char> {
    if v < 0 {
        seq!['-'] + digits((-v) as nat, 10, true)
    } else {
        digits(v as nat, 10, true)
    }
}

/// `v` in decimal, as `{}` writes an `i32`.
pub fn i32_string(v: i32) -> (r: String)
    ensures
        r@ == signed_decimal(v as int),
{
    let mut out: Vec<char> = Vec::new();
    if v < 0 {
        out.push('-');
        let magnitude: u64 = (0 - (v as i64)) as u64;
        push_digits(&mut out, magnitude, 10, true);
    } else {
        push_digits(&mut out, v as u64, 10, true);
    }
    string_from_chars(&out)
}

/// The bytes of `s`, each as two upper-case hexadecimal digits, in order.
pub open spec fn hex_bytes(s: Seq<u8>) -> Seq<char>
    decreases s.len(),
{
    if s.len() == 0 {
        Seq::empty()
    } else {
        hex_bytes(s.drop_last()) + hex(s.last() as nat, 2, true)
    }
}

/// A digest as `sha256_file` prints it: each byte as `{:02X}`, in order.
pub fn hex_upper(bytes: &[u8]) -> (r: String)
    ensures
        r@ == hex_bytes(bytes@),
{
    let mut out = String::from_str("");
    proof {
        reveal_strlit("");
        assert(bytes@.take(0) =~= Seq::<u8>::empty());
    }
    let mut i: usize = 0;
    while i < bytes.len()
        invariant
            i <= bytes@.len(),
            out@ == hex_bytes(bytes@.take(i as int)),
        decreases bytes.len() - i,
    {
        let h = hex_string(bytes[i] as u64, 2, true);
        append_string(&mut out, &h);
        proof {
            assert(bytes@.take(i + 1).drop_last() =~= bytes@.take(i as int));
        }
        i = i + 1;
    }
    assert(bytes@.take(bytes@.len() as int) =~= bytes@);
    out
}

} // verus!
