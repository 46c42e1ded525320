//! The fixed layout `YYYY-MM-DDTHH:MM:SS` as ASCII bytes.
use crate::calendar::Civil;
use crate::calendar::ConvertedInstant;
use vstd::prelude::*;

verus! {

/// The ASCII digit that stands for `d`.
pub open spec fn digit(d: int) -> u8 {
    (48 + d) as u8
}

/// The last `width` decimal digits of `v`, most significant first, with
/// leading zeros.
pub open spec fn digits(v: int, width: nat) -> Seq<u8>
    decreases width,
{
    if width == 0 {
        Seq::empty()
    } else {
        digits(v / 10, (width - 1) as nat).push(digit(v % 10))
    }
}

/// How many decimal digits `v` takes, and never fewer than four.
pub open spec fn year_width(v: int) -> nat
    decreases v,
{
    if v < 10_000 {
        4
    } else {
        1 + year_width(v / 10)
    }
}

/// The year as the layout writes it: four digits from 0000 to 9999, and
/// outside of that a sign followed by at least four digits.
pub open spec fn year_text(year: int) -> Seq<u8> {
    if 0 <= year <= 9999 {
        digits(year, 4)
    } else if year < 0 {
        seq![45u8] + digits(-year, year_width(-year))
    } else {
        seq![43u8] + digits(year, year_width(year))
    }
}

/// The fields in the layout `YYYY-MM-DDTHH:MM:SS`.
pub open spec fn timestamp_text(c: Civil) -> Seq<u8> {
    year_text(c.year) + seq![45u8] + digits(c.month, 2) + seq![45u8] + digits(c.day, 2) + seq![84u8]
        + digits(c.hour, 2) + seq![58u8] + digits(c.minute, 2) + seq![58u8] + digits(c.second, 2)
}

/// Every byte is an ASCII byte.
pub open spec fn all_ascii(bytes: Seq<u8>) -> bool {
    forall|i: int| 0 <= i < bytes.len() ==> #[trigger] bytes[i] < 128
}

/// `digits` gives as many bytes as asked for, each an ASCII digit.
pub proof fn lemma_digits(v: int, width: nat)
    requires
        0 <= v,
    ensures
        digits(v, width).len() == width,
        forall|i: int| 0 <= i < width ==> 48 <= #[trigger] digits(v, width)[i] <= 57,
    decreases width,
{
    if width > 0 {
        lemma_digits(v / 10, (width - 1) as nat);
    }
}

/// A year from 0000 to 9999 takes four bytes, so that the layout of a
/// real date and time in such a year is nineteen bytes wide.
pub proof fn lemma_timestamp_text_width(c: Civil)
    requires
        c.valid(),
        0 <= c.year <= 9999,
    ensures
        timestamp_text(c).len() == 19,
{
    lemma_digits(c.year, 4);
    lemma_digits(c.month, 2);
    lemma_digits(c.day, 2);
    lemma_digits(c.hour, 2);
    lemma_digits(c.minute, 2);
    lemma_digits(c.second, 2);
}

/// The layout of a real date and time holds ASCII bytes only.
pub proof fn lemma_timestamp_text_ascii(c: Civil)
    requires
        c.valid(),
    ensures
        all_ascii(timestamp_text(c)),
{
    let a = if c.year < 0 {
        -c.year
    } else {
        c.year
    };
    lemma_digits(a, 4);
    lemma_digits(a, year_width(a));
    lemma_digits(c.month, 2);
    lemma_digits(c.day, 2);
    lemma_digits(c.hour, 2);
    lemma_digits(c.minute, 2);
    lemma_digits(c.second, 2);
}

/// Appends the last `width` decimal digits of `v`.
pub fn push_digits(out: &mut Vec<u8>, v: u32, width: u32)
    ensures
        final(out)@ == old(out)@ + digits(v as int, width as nat),
    decreases width,
{
    if width > 0 {
        push_digits(out, v / 10, width - 1);
        let d: u8 = (v % 10) as u8;
        out.push(48 + d);
        assert(final(out)@ =~= old(out)@ + digits(v as int, width as nat));
    } else {
        assert(out@ =~= old(out)@ + digits(v as int, 0));
    }
}

/// Executable form of [`year_width`].
pub fn width_of_year(v: u32) -> (w: u32)
    ensures
        w == year_width(v as int),
        4 <= w <= 10,
{
    let mut w: u32 = 4;
    let mut rest: u32 = v;
    while rest >= 10_000
        invariant
            4 <= w,
            w + year_width(rest as int) == 4 + year_width(v as int),
            rest as int * pow10((w - 4) as nat) <= v,
            w <= 10,
        decreases rest,
    {
        proof {
            lemma_pow10_step((w - 4) as nat);
            assert(rest as int * pow10((w - 4) as nat) >= 10_000 * pow10((w - 4) as nat))
                by (nonlinear_arith)
                requires
                    rest >= 10_000,
                    pow10((w - 4) as nat) >= 1,
            ;
            assert((rest / 10) as int * pow10((w - 3) as nat) <= rest as int * pow10(
                (w - 4) as nat,
            )) by (nonlinear_arith)
                requires
                    pow10((w - 3) as nat) == 10 * pow10((w - 4) as nat),
                    pow10((w - 4) as nat) >= 1,
                    rest >= 0,
            ;
            if w == 10 {
                lemma_pow10_values();
            }
        }
        rest = rest / 10;
        w = w + 1;
    }
    w
}

/// Ten to the power `n`.
pub open spec fn pow10(n: nat) -> int
    decreases n,
{
    if n == 0 {
        1
    } else {
        10 * pow10((n - 1) as nat)
    }
}

proof fn lemma_pow10_step(n: nat)
    ensures
        pow10(n + 1) == 10 * pow10(n),
        pow10(n) >= 1,
    decreases n,
{
    if n > 0 {
        lemma_pow10_step((n - 1) as nat);
    }
}

/// The powers of ten that the field widths call for.
pub proof fn lemma_pow10_values()
    ensures
        pow10(0) == 1,
        pow10(2) == 100,
        pow10(4) == 10_000,
        pow10(6) == 1_000_000,
        pow10(8) == 100_000_000,
        pow10(9) == 1_000_000_000,
{
    reveal_with_fuel(pow10, 10);
}

/// A larger exponent gives no smaller power.
pub proof fn lemma_pow10_monotonic(m: nat, n: nat)
    requires
        m <= n,
    ensures
        1 <= pow10(m) <= pow10(n),
    decreases n,
{
    lemma_pow10_step(m);
    if m < n {
        lemma_pow10_monotonic(m, (n - 1) as nat);
    }
}

/// Appends the year as [`year_text`] writes it.
pub fn push_year(out: &mut Vec<u8>, year: i32)
    ensures
        final(out)@ == old(out)@ + year_text(year as int),
{
    if 0 <= year && year <= 9999 {
        push_digits(out, year as u32, 4);
    } else if year < 0 {
        let a: u32 = (-(year as i64)) as u32;
        out.push(45);
        let w = width_of_year(a);
        push_digits(out, a, w);
        assert(final(out)@ =~= old(out)@ + year_text(year as int));
    } else {
        let a: u32 = year as u32;
        out.push(43);
        let w = width_of_year(a);
        push_digits(out, a, w);
        assert(final(out)@ =~= old(out)@ + year_text(year as int));
    }
}

/// Appends the instant in the layout `YYYY-MM-DDTHH:MM:SS`.
pub fn push_timestamp(out: &mut Vec<u8>, local: &ConvertedInstant)
    ensures
        final(out)@ == old(out)@ + timestamp_text(local@),
{
    push_year(out, local.year());
    out.push(45);
    push_digits(out, local.month(), 2);
    out.push(45);
    push_digits(out, local.day(), 2);
    out.push(84);
    push_digits(out, local.hour(), 2);
    out.push(58);
    push_digits(out, local.minute(), 2);
    out.push(58);
    push_digits(out, local.second(), 2);
    assert(final(out)@ =~= old(out)@ + timestamp_text(local@));
}

} // verus!
