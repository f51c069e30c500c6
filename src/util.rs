//! Small helpers: value replacement, numeric ranges and digit conversion.
use vstd::prelude::*;

verus! {

/// Puts `src` in `dest` and returns what was there.
pub fn replace<T>(dest: &mut T, src: T) -> (r: T)
    ensures
        r == *old(dest),
        *final(dest) == src,
{
    let mut s = src;
    core::mem::swap(dest, &mut s);
    s
}

/// The numbers `start, start + 1, ..., end - 1`, in order.
pub fn range(start: usize, end: usize) -> (r: Vec<usize>)
    ensures
        r@.len() == if start < end { end - start } else { 0 },
        forall|i: int| 0 <= i < r@.len() ==> #[trigger] r@[i] == start + i,
{
    let mut out: Vec<usize> = Vec::new();
    if start >= end {
        return out;
    }
    let mut i = start;
    while i < end
        invariant
            start <= i <= end,
            out@.len() == i - start,
            forall|j: int| 0 <= j < out@.len() ==> #[trigger] out@[j] == start + j,
        decreases end - i,
    {
        out.push(i);
        i = i + 1;
    }
    out
}

/// Digit `d` (below 16), lower-case.
pub open spec fn digit_char(d: int) -> char {
    if d == 0 { '0' } else if d == 1 { '1' } else if d == 2 { '2' } else if d == 3 { '3' }
    else if d == 4 { '4' } else if d == 5 { '5' } else if d == 6 { '6' } else if d == 7 { '7' }
    else if d == 8 { '8' } else if d == 9 { '9' } else if d == 10 { 'a' } else if d == 11 { 'b' }
    else if d == 12 { 'c' } else if d == 13 { 'd' } else if d == 14 { 'e' } else { 'f' }
}

fn digit(d: u32) -> (r: char)
    requires
        d < 16,
    ensures
        r == digit_char(d as int),
{
    match d {
        0 => '0', 1 => '1', 2 => '2', 3 => '3', 4 => '4', 5 => '5', 6 => '6', 7 => '7',
        8 => '8', 9 => '9', 10 => 'a', 11 => 'b', 12 => 'c', 13 => 'd', 14 => 'e', _ => 'f',
    }
}

/// The digits of `n` in base `radix`, most significant first (none for 0).
pub open spec fn digits(n: nat, radix: nat) -> Seq<char>
    decreases n via digits_decreases
{
    if n == 0 || radix < 2 {
        seq![]
    } else {
        digits(n / radix, radix).push(digit_char((n % radix) as int))
    }
}

#[via_fn]
proof fn digits_decreases(n: nat, radix: nat) {
    if !(n == 0 || radix < 2) {
        assert(n / radix < n) by (nonlinear_arith) requires n > 0, radix >= 2;
    }
}

/// `value` written in base `radix`: `0b` before binary, `0x` before
/// hexadecimal, a single `0` for zero.
pub open spec fn radix_text(value: u32, radix: u32) -> Seq<char> {
    let prefix = if radix == 2 { seq!['0', 'b'] } else if radix == 16 { seq!['0', 'x'] } else { seq![] };
    prefix + if value == 0 { seq!['0'] } else { digits(value as nat, radix as nat) }
}

/// Writes `value` in base `radix`.
pub fn convert_radix(value: u32, radix: u32) -> (r: Vec<char>)
    requires
        2 <= radix <= 16,
    ensures
        r@ == radix_text(value, radix),
{
    let mut out: Vec<char> = Vec::new();
    let mut n = value;
    if value == 0 {
        out.push('0');
    }
    while n > 0
        invariant
            2 <= radix <= 16,
            value == 0 ==> out@ == seq!['0'] && n == 0,
            value != 0 ==> digits(value as nat, radix as nat) == digits(n as nat, radix as nat) + out@,
        decreases n,
    {
        let d = digit(n % radix);
        let ghost before = out@;
        out.insert(0, d);
        proof {
            assert(digits(n as nat, radix as nat) == digits((n / radix) as nat, radix as nat).push(d));
            assert(out@ =~= seq![d] + before);
            assert(digits((n / radix) as nat, radix as nat).push(d) + before
                =~= digits((n / radix) as nat, radix as nat) + out@);
        }
        n = n / radix;
    }
    if value != 0 {
        assert(digits(0, radix as nat) + out@ =~= out@);
    }
    let mut text: Vec<char> = Vec::new();
    if radix == 2 {
        text.push('0');
        text.push('b');
    } else if radix == 16 {
        text.push('0');
        text.push('x');
    }
    let ghost p = text@;
    text.append(&mut out);
    assert(text@ =~= radix_text(value, radix));
    text
}

/// Writes `value` in decimal.
pub fn convert(value: u32) -> (r: Vec<char>)
    ensures
        r@ == radix_text(value, 10),
{
    convert_radix(value, 10)
}

/// How an integer placeholder prints.
#[derive(Clone, Copy, Debug, PartialEq, Eq, Structural)]
pub enum Format {
    Default,
    Hex,
}

/// A placeholder holding something other than `x` before its `}`.
#[derive(Clone, Copy, Debug, PartialEq, Eq, Structural)]
pub struct InvalidFormat;

/// Reading a placeholder's body `f[start + 1 ..]` for `n` characters:
/// whether the closing `}` was seen, whether `x` was, and whether an
/// invalid character stopped it.
pub open spec fn placeholder_scan(f: Seq<char>, start: int, n: int) -> (bool, bool, bool)
    decreases n,
{
    if n <= 0 {
        (false, false, false)
    } else {
        let (done, hex, bad) = placeholder_scan(f, start, n - 1);
        if done || bad {
            (done, hex, bad)
        } else {
            let c = f[start + n];
            if c == 'x' { (false, true, false) } else if c == '}' { (true, hex, false) } else { (false, hex, true) }
        }
    }
}

/// Characters of the placeholder read once the scan stops.
pub open spec fn placeholder_len(f: Seq<char>, start: int, n: int) -> int
    decreases n,
{
    if n <= 0 {
        0
    } else {
        let (done, _hex, bad) = placeholder_scan(f, start, n - 1);
        if done || bad { placeholder_len(f, start, n - 1) } else { n }
    }
}

/// Prints `value` for the placeholder starting at `format[start]`
///: `{}` prints decimal, `{x}` hexadecimal; returns
/// how many characters the placeholder took and what it printed. A
/// placeholder that never closes prints nothing.
pub fn print_formatted(format: &Vec<char>, start: usize, value: u32) -> (r: Result<(usize, Vec<char>), InvalidFormat>)
    requires
        start < format@.len(),
        format@[start as int] == '{',
    ensures
        ({
            let n = format@.len() - start - 1;
            let (done, hex, bad) = placeholder_scan(format@, start as int, n);
            &&& bad ==> r is Err
            &&& !bad ==> r is Ok && (r->Ok_0).0 == placeholder_len(format@, start as int, n) + 1
            &&& !bad && done ==> (r->Ok_0).1@ == radix_text(value, if hex { 16 } else { 10 })
            &&& !bad && !done ==> (r->Ok_0).1@ == Seq::<char>::empty()
        }),
{
    let len = format.len();
    let mut hex = false;
    let mut i: usize = start + 1;
    let mut done = false;
    let mut used: usize = 0;
    while i < format.len()
        invariant
            start < format@.len(),
            start + 1 <= i <= format@.len(),
            placeholder_scan(format@, start as int, (i - start - 1) as int) == (done, hex, false),
            used == placeholder_len(format@, start as int, (i - start - 1) as int),
            !done ==> used == i - start - 1,
            done ==> i == format@.len(),
            used <= format@.len() - start - 1,
            len == format@.len(),
        decreases format@.len() - i,
    {
        let c = format[i];
        i = i + 1;
        if c == 'x' {
            hex = true;
            used = i - start - 1;
        } else if c == '}' {
            used = i - start - 1;
            done = true;
            proof { lemma_scan_stays(format@, start as int, (i - start - 1) as int, format@.len() - start - 1); }
            i = format.len();
        } else {
            proof { lemma_scan_stays(format@, start as int, (i - start - 1) as int, format@.len() - start - 1); }
            return Err(InvalidFormat);
        }
    }
    if done {
        Ok((used + 1, convert_radix(value, if hex { 16 } else { 10 })))
    } else {
        Ok((used + 1, Vec::new()))
    }
}

/// Once the scan has stopped it stays stopped, and its length stays.
proof fn lemma_scan_stays(f: Seq<char>, start: int, n: int, m: int)
    requires
        0 <= n <= m,
        ({ let (done, _h, bad) = placeholder_scan(f, start, n); done || bad }),
    ensures
        placeholder_scan(f, start, m) == placeholder_scan(f, start, n),
        placeholder_len(f, start, m) == placeholder_len(f, start, n),
    decreases m - n,
{
    if n < m {
        lemma_scan_stays(f, start, n, m - 1);
    }
}

/// The characters of `text`, for a character sink.
pub fn write(text: &[char]) -> (r: Vec<char>)
    ensures
        r@ == text@,
{
    let mut out: Vec<char> = Vec::new();
    let mut i: usize = 0;
    while i < text.len()
        invariant
            i <= text@.len(),
            out@ == text@.subrange(0, i as int),
        decreases text@.len() - i,
    {
        out.push(text[i]);
        i = i + 1;
        assert(out@ =~= text@.subrange(0, i as int));
    }
    assert(text@.subrange(0, i as int) =~= text@);
    out
}

} // verus!
