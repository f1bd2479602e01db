//! Hexadecimal digits, as characters, with a minimum field width.
use vstd::prelude::*;

verus! {

/// The digit for a value below sixteen, upper or lower case.
pub open spec fn hex_digit(d: nat, upper: bool) -> char {
    if d < 10 {
        (('0' as nat) + d) as char
    } else if upper {
        (('A' as nat) + (d - 10)) as char
    } else {
        (('a' as nat) + (d - 10)) as char
    }
}

/// `n` in base sixteen, most significant digit first, with as many leading
/// zeros as it takes to reach `width` digits (and never fewer digits than
/// `n` needs, so that nothing is cut off).
pub open spec fn hex_text(n: nat, width: nat, upper: bool) -> Seq<char>
    decreases n + width,
{
    if n < 16 && width <= 1 {
        seq![hex_digit(n, upper)]
    } else {
        let rest = if width > 0 { (width - 1) as nat } else { 0 };
        hex_text(n / 16, rest, upper).push(hex_digit(n % 16, upper))
    }
}

/// Sixteen to the power `k`.
pub open spec fn pow16(k: nat) -> nat
    decreases k,
{
    if k == 0 {
        1
    } else {
        16 * pow16((k - 1) as nat)
    }
}

/// A value that fits in `width` digits takes exactly `width` characters.
pub proof fn lemma_hex_text_len(n: nat, width: nat, upper: bool)
    requires
        width >= 1,
        n < pow16(width),
    ensures
        hex_text(n, width, upper).len() == width,
    decreases width,
{
    if width > 1 {
        let p = pow16((width - 1) as nat);
        assert(n / 16 < p) by (nonlinear_arith)
            requires
                n < 16 * p,
        ;
        lemma_hex_text_len(n / 16, (width - 1) as nat, upper);
    } else {
        assert(pow16(0) == 1);
    }
}

/// The character for one digit value.
pub fn digit_char(d: u8, upper: bool) -> (c: char)
    requires
        d < 16,
    ensures
        c == hex_digit(d as nat, upper),
{
    if d < 10 {
        (48u8 + d) as char
    } else if upper {
        (65u8 + (d - 10)) as char
    } else {
        (97u8 + (d - 10)) as char
    }
}

/// Appends `n` in base sixteen, padded with zeros to at least `width` digits.
pub fn push_hex(out: &mut Vec<char>, n: u64, width: u64, upper: bool)
    ensures
        final(out)@ == old(out)@ + hex_text(n as nat, width as nat, upper),
    decreases n + width,
{
    if n < 16 && width <= 1 {
        out.push(digit_char(n as u8, upper));
    } else {
        let rest: u64 = if width > 0 { width - 1 } else { 0 };
        push_hex(out, n / 16, rest, upper);
        out.push(digit_char((n % 16) as u8, upper));
    }
}

} // verus!
