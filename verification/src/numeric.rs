//! Runtime numeric formatting for integer values.
//!
//! A numeric directive is a compact spec string: an optional leading zero
//! flag, a minimum width, and an optional base letter (`x`, `X`, `b`, `o`).
//! Values are rendered in the requested base — negative values in a non-
//! decimal base show their 64-bit two's-complement bit pattern, as the
//! standard formatter does — and padded on the left with zeros (after the
//! sign) or spaces up to the minimum width.  A spec string outside this
//! grammar leaves the value in plain decimal.

use vstd::prelude::*;

verus! {

/// The base a numeric directive selects.
#[derive(Clone, Copy)]
pub enum NumBase {
    Dec,
    Hex,
    HexUp,
    Bin,
    Oct,
}

/// A parsed numeric directive: zero-pad flag, minimum width, base.
#[derive(Clone, Copy)]
pub struct NumSpec {
    pub zero: bool,
    pub width: u64,
    pub base: NumBase,
}

pub open spec fn is_digit(c: char) -> bool {
    c == '0' || c == '1' || c == '2' || c == '3' || c == '4' || c == '5' || c == '6' || c == '7'
        || c == '8' || c == '9'
}

/// The numeric value of a decimal digit; zero for anything else.
pub open spec fn digit_val(c: char) -> int {
    if c == '1' {
        1
    } else if c == '2' {
        2
    } else if c == '3' {
        3
    } else if c == '4' {
        4
    } else if c == '5' {
        5
    } else if c == '6' {
        6
    } else if c == '7' {
        7
    } else if c == '8' {
        8
    } else if c == '9' {
        9
    } else {
        0
    }
}

/// The end of the run of decimal digits that starts at `i`.
pub open spec fn digit_run_end(f: Seq<char>, i: int) -> int
    decreases f.len() - i,
{
    if i < 0 || i >= f.len() || !is_digit(f[i]) {
        i
    } else {
        digit_run_end(f, i + 1)
    }
}

/// The decimal value of the digits of `f` before position `j`.
pub open spec fn digits_value(f: Seq<char>, j: int) -> int
    decreases j,
{
    if j <= 0 {
        0
    } else {
        digits_value(f, j - 1) * 10 + digit_val(f[j - 1])
    }
}

pub proof fn lemma_digits_value_nonneg(f: Seq<char>, j: int)
    ensures
        digits_value(f, j) >= 0,
    decreases j,
{
    if j > 0 {
        lemma_digits_value_nonneg(f, j - 1);
    }
}

/// Parse a numeric directive: digits (zero flag when they start with `0`)
/// then at most one base letter.  A width beyond `u64` or a trailing
/// character outside the grammar yields nothing.
pub open spec fn parse_num_spec(f: Seq<char>) -> Option<NumSpec> {
    let dend = digit_run_end(f, 0);
    let wv = digits_value(f, dend);
    if wv > u64::MAX {
        None
    } else {
        let zero = dend > 0 && f[0] == '0';
        if dend == f.len() {
            Some(NumSpec { zero, width: wv as u64, base: NumBase::Dec })
        } else if dend + 1 == f.len() {
            if f[dend] == 'x' {
                Some(NumSpec { zero, width: wv as u64, base: NumBase::Hex })
            } else if f[dend] == 'X' {
                Some(NumSpec { zero, width: wv as u64, base: NumBase::HexUp })
            } else if f[dend] == 'b' {
                Some(NumSpec { zero, width: wv as u64, base: NumBase::Bin })
            } else if f[dend] == 'o' {
                Some(NumSpec { zero, width: wv as u64, base: NumBase::Oct })
            } else {
                None
            }
        } else {
            None
        }
    }
}

/// The character for one digit of value `d`.
pub open spec fn digit_char(d: int, upper: bool) -> char {
    if d == 0 {
        '0'
    } else if d == 1 {
        '1'
    } else if d == 2 {
        '2'
    } else if d == 3 {
        '3'
    } else if d == 4 {
        '4'
    } else if d == 5 {
        '5'
    } else if d == 6 {
        '6'
    } else if d == 7 {
        '7'
    } else if d == 8 {
        '8'
    } else if d == 9 {
        '9'
    } else if d == 10 {
        if upper {
            'A'
        } else {
            'a'
        }
    } else if d == 11 {
        if upper {
            'B'
        } else {
            'b'
        }
    } else if d == 12 {
        if upper {
            'C'
        } else {
            'c'
        }
    } else if d == 13 {
        if upper {
            'D'
        } else {
            'd'
        }
    } else if d == 14 {
        if upper {
            'E'
        } else {
            'e'
        }
    } else {
        if upper {
            'F'
        } else {
            'f'
        }
    }
}

/// The decimal digits of `v`, most significant first.
pub open spec fn digits10(v: nat) -> Seq<char>
    decreases v,
{
    if v < 10 {
        seq![digit_char(v as int, false)]
    } else {
        digits10(v / 10).push(digit_char((v % 10) as int, false))
    }
}

/// The hexadecimal digits of `v`, most significant first.
pub open spec fn digits16(v: nat, upper: bool) -> Seq<char>
    decreases v,
{
    if v < 16 {
        seq![digit_char(v as int, upper)]
    } else {
        digits16(v / 16, upper).push(digit_char((v % 16) as int, upper))
    }
}

/// The binary digits of `v`, most significant first.
pub open spec fn digits2(v: nat) -> Seq<char>
    decreases v,
{
    if v < 2 {
        seq![digit_char(v as int, false)]
    } else {
        digits2(v / 2).push(digit_char((v % 2) as int, false))
    }
}

/// The octal digits of `v`, most significant first.
pub open spec fn digits8(v: nat) -> Seq<char>
    decreases v,
{
    if v < 8 {
        seq![digit_char(v as int, false)]
    } else {
        digits8(v / 8).push(digit_char((v % 8) as int, false))
    }
}

/// `m` copies of `c`; empty for `m` zero or below.
pub open spec fn repeat_char(c: char, m: int) -> Seq<char> {
    if m <= 0 {
        Seq::empty()
    } else {
        Seq::new(m as nat, |k: int| c)
    }
}

/// The magnitude whose digits a 64-bit value shows in a non-decimal base:
/// its two's-complement bit pattern.
pub open spec fn bits64(n: int) -> nat {
    if n >= 0 {
        n as nat
    } else {
        (n + 0x1_0000_0000_0000_0000) as nat
    }
}

/// The digits of `n` under spec `ns`, before any padding.
pub open spec fn bare_digits(ns: NumSpec, n: int) -> Seq<char> {
    match ns.base {
        NumBase::Dec => digits10(if n >= 0 { n as nat } else { (-n) as nat }),
        NumBase::Hex => digits16(bits64(n), false),
        NumBase::HexUp => digits16(bits64(n), true),
        NumBase::Bin => digits2(bits64(n)),
        NumBase::Oct => digits8(bits64(n)),
    }
}

/// Render a 64-bit value under a parsed numeric directive: sign (decimal
/// only), then zero padding after the sign or space padding before it, up to
/// the minimum width.
pub open spec fn num_render(ns: NumSpec, n: int) -> Seq<char> {
    let neg = n < 0 && (ns.base is Dec);
    let digits = bare_digits(ns, n);
    let sign: Seq<char> = if neg {
        seq!['-']
    } else {
        Seq::empty()
    };
    let body = sign + digits;
    if body.len() >= ns.width {
        body
    } else if ns.zero {
        sign + repeat_char('0', ns.width - body.len()) + digits
    } else {
        repeat_char(' ', ns.width - body.len()) + body
    }
}

/// Plain decimal rendering of a 64-bit value, sign included.
pub open spec fn int_display(n: int) -> Seq<char> {
    if n >= 0 {
        digits10(n as nat)
    } else {
        seq!['-'] + digits10((-n) as nat)
    }
}

/// The character for one digit of value `d`.
fn digit_char_exec(d: u64, upper: bool) -> (c: char)
    requires
        d < 16,
    ensures
        c == digit_char(d as int, upper),
{
    if d == 0 {
        '0'
    } else if d == 1 {
        '1'
    } else if d == 2 {
        '2'
    } else if d == 3 {
        '3'
    } else if d == 4 {
        '4'
    } else if d == 5 {
        '5'
    } else if d == 6 {
        '6'
    } else if d == 7 {
        '7'
    } else if d == 8 {
        '8'
    } else if d == 9 {
        '9'
    } else if d == 10 {
        if upper {
            'A'
        } else {
            'a'
        }
    } else if d == 11 {
        if upper {
            'B'
        } else {
            'b'
        }
    } else if d == 12 {
        if upper {
            'C'
        } else {
            'c'
        }
    } else if d == 13 {
        if upper {
            'D'
        } else {
            'd'
        }
    } else if d == 14 {
        if upper {
            'E'
        } else {
            'e'
        }
    } else {
        if upper {
            'F'
        } else {
            'f'
        }
    }
}

fn push_digits10(v: u64, out: &mut Vec<char>)
    ensures
        final(out)@ == old(out)@ + digits10(v as nat),
    decreases v,
{
    if v < 10 {
        out.push(digit_char_exec(v, false));
    } else {
        push_digits10(v / 10, out);
        out.push(digit_char_exec(v % 10, false));
    }
}

fn push_digits16(v: u64, upper: bool, out: &mut Vec<char>)
    ensures
        final(out)@ == old(out)@ + digits16(v as nat, upper),
    decreases v,
{
    if v < 16 {
        out.push(digit_char_exec(v, upper));
    } else {
        push_digits16(v / 16, upper, out);
        out.push(digit_char_exec(v % 16, upper));
    }
}

fn push_digits2(v: u64, out: &mut Vec<char>)
    ensures
        final(out)@ == old(out)@ + digits2(v as nat),
    decreases v,
{
    if v < 2 {
        out.push(digit_char_exec(v, false));
    } else {
        push_digits2(v / 2, out);
        out.push(digit_char_exec(v % 2, false));
    }
}

fn push_digits8(v: u64, out: &mut Vec<char>)
    ensures
        final(out)@ == old(out)@ + digits8(v as nat),
    decreases v,
{
    if v < 8 {
        out.push(digit_char_exec(v, false));
    } else {
        push_digits8(v / 8, out);
        out.push(digit_char_exec(v % 8, false));
    }
}

/// Parse a numeric directive string.
pub fn parse_spec_chars(f: &Vec<char>) -> (r: Option<NumSpec>)
    ensures
        r == parse_num_spec(f@),
{
    let n: usize = f.len();
    let mut i: usize = 0;
    let mut w: u128 = 0;
    let mut too_big: bool = false;
    while i < n && is_digit_char(f[i])
        invariant
            n == f@.len(),
            i <= n,
            digit_run_end(f@, 0) == digit_run_end(f@, i as int),
            forall|t: int| 0 <= t < i ==> is_digit(f@[t]),
            !too_big ==> w == digits_value(f@, i as int) && w <= u64::MAX,
            too_big ==> digits_value(f@, i as int) > u64::MAX,
        decreases n - i,
    {
        let c = f[i];
        let d: u64 = digit_of_char(c);
        proof {
            lemma_digits_value_nonneg(f@, i as int);
        }
        if !too_big {
            w = w * 10 + (d as u128);
            if w > u64::MAX as u128 {
                too_big = true;
            }
        }
        i = i + 1;
    }
    proof {
        assert(digit_run_end(f@, i as int) == i as int);
    }
    let dend = i;
    if too_big {
        return None;
    }
    let zero = dend > 0 && f[0] == '0';
    let width = w as u64;
    if dend == n {
        Some(NumSpec { zero, width, base: NumBase::Dec })
    } else if dend + 1 == n {
        let c = f[dend];
        if c == 'x' {
            Some(NumSpec { zero, width, base: NumBase::Hex })
        } else if c == 'X' {
            Some(NumSpec { zero, width, base: NumBase::HexUp })
        } else if c == 'b' {
            Some(NumSpec { zero, width, base: NumBase::Bin })
        } else if c == 'o' {
            Some(NumSpec { zero, width, base: NumBase::Oct })
        } else {
            None
        }
    } else {
        None
    }
}

/// Is `c` a decimal digit?
fn is_digit_char(c: char) -> (r: bool)
    ensures
        r == is_digit(c),
{
    c == '0' || c == '1' || c == '2' || c == '3' || c == '4' || c == '5' || c == '6' || c == '7'
        || c == '8' || c == '9'
}

/// The decimal value of one digit character.
fn digit_of_char(c: char) -> (d: u64)
    requires
        is_digit(c),
    ensures
        d == digit_val(c),
        d <= 9,
{
    if c == '1' {
        1
    } else if c == '2' {
        2
    } else if c == '3' {
        3
    } else if c == '4' {
        4
    } else if c == '5' {
        5
    } else if c == '6' {
        6
    } else if c == '7' {
        7
    } else if c == '8' {
        8
    } else if c == '9' {
        9
    } else {
        0
    }
}

/// Push `m` copies of `c`.
fn push_repeat(out: &mut Vec<char>, c: char, m: u64)
    ensures
        final(out)@ == old(out)@ + repeat_char(c, m as int),
{
    let mut k: u64 = 0;
    proof {
        assert(repeat_char(c, 0) =~= Seq::<char>::empty());
        assert(out@ + Seq::<char>::empty() =~= out@);
    }
    while k < m
        invariant
            k <= m,
            out@ == old(out)@ + repeat_char(c, k as int),
        decreases m - k,
    {
        out.push(c);
        proof {
            assert(repeat_char(c, k as int + 1) =~= repeat_char(c, k as int).push(c));
        }
        k = k + 1;
    }
}

/// Render `n` under the parsed directive `ns`.
pub fn format_with_spec(ns: &NumSpec, n: i64) -> (r: Vec<char>)
    ensures
        r@ == num_render(*ns, n as int),
{
    let mut digits: Vec<char> = Vec::new();
    let mut neg: bool = false;
    match ns.base {
        NumBase::Dec => {
            let mag: u64 = if n >= 0 {
                n as u64
            } else {
                neg = true;
                ((-(n as i128)) as u64)
            };
            push_digits10(mag, &mut digits);
        },
        NumBase::Hex => {
            push_digits16(to_bits(n), false, &mut digits);
        },
        NumBase::HexUp => {
            push_digits16(to_bits(n), true, &mut digits);
        },
        NumBase::Bin => {
            push_digits2(to_bits(n), &mut digits);
        },
        NumBase::Oct => {
            push_digits8(to_bits(n), &mut digits);
        },
    }
    let ghost dg = bare_digits(*ns, n as int);
    let ghost sgn: Seq<char> = if neg {
        seq!['-']
    } else {
        Seq::empty()
    };
    proof {
        assert(digits@ =~= dg);
    }
    let sign_len: u64 = if neg {
        1
    } else {
        0
    };
    let dlen: usize = digits.len();
    let body_len: u128 = sign_len as u128 + dlen as u128;
    let mut out: Vec<char> = Vec::new();
    if body_len >= ns.width as u128 {
        if neg {
            out.push('-');
        }
        crate::pretty::push_all(&mut out, &digits);
        proof {
            assert(out@ =~= sgn + dg);
        }
    } else if ns.zero {
        if neg {
            out.push('-');
        }
        let pad: u64 = ns.width - sign_len - (dlen as u64);
        push_repeat(&mut out, '0', pad);
        crate::pretty::push_all(&mut out, &digits);
        proof {
            assert((sgn + dg).len() == sign_len + dlen);
            assert(out@ =~= sgn + repeat_char('0', pad as int) + dg);
        }
    } else {
        let pad: u64 = ns.width - sign_len - (dlen as u64);
        push_repeat(&mut out, ' ', pad);
        if neg {
            out.push('-');
        }
        crate::pretty::push_all(&mut out, &digits);
        proof {
            assert((sgn + dg).len() == sign_len + dlen);
            assert(out@ =~= repeat_char(' ', pad as int) + (sgn + dg));
        }
    }
    out
}

/// The 64-bit two's-complement bit pattern of `n`.
fn to_bits(n: i64) -> (r: u64)
    ensures
        r as nat == bits64(n as int),
{
    if n >= 0 {
        n as u64
    } else {
        (((n as i128) + 0x1_0000_0000_0000_0000) as u64)
    }
}

/// Render `n` in plain decimal, sign included.
pub fn format_int_plain(n: i64) -> (r: Vec<char>)
    ensures
        r@ == int_display(n as int),
{
    let mut out: Vec<char> = Vec::new();
    if n < 0 {
        out.push('-');
        let mag: u64 = ((-(n as i128)) as u64);
        push_digits10(mag, &mut out);
        proof {
            assert(out@ =~= seq!['-'] + digits10((-(n as int)) as nat));
        }
    } else {
        push_digits10(n as u64, &mut out);
        proof {
            assert(Seq::<char>::empty() + digits10(n as nat) =~= digits10(n as nat));
        }
    }
    out
}

/// Render `n` under the numeric directive text `f`: the parsed directive
/// where `f` fits the grammar, plain decimal otherwise.
pub fn format_numeric(f: &Vec<char>, n: i64) -> (r: Vec<char>)
    ensures
        r@ == match parse_num_spec(f@) {
            Some(ns) => num_render(ns, n as int),
            None => int_display(n as int),
        },
{
    match parse_spec_chars(f) {
        Some(ns) => format_with_spec(&ns, n),
        None => format_int_plain(n),
    }
}

} // verus!
