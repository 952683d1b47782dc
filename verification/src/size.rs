//! Byte counts as the benchmark reads and prints them.

use crate::text::{
    decimal, digit_char, ends_with, is_white_space, number, parse_number, push_decimal,
    strip_suffix, trim, trimmed, without_last,
};
use vstd::arithmetic::div_mod::lemma_fundamental_div_mod;
use vstd::arithmetic::power2::pow2;
use vstd::prelude::*;
use vstd::string::StringExecFns;

verus! {

broadcast use vstd::string::group_string_axioms;

pub const KIB: u64 = 0x400;

pub const MIB: u64 = 0x10_0000;

pub const GIB: u64 = 0x4000_0000;

/// The digits of a trimmed size, and what one of its units counts.
pub open spec fn size_parts(s: Seq<char>) -> (Seq<char>, nat) {
    if ends_with(s, "G"@) {
        (without_last(s, "G"@.len()), GIB as nat)
    } else if ends_with(s, "M"@) {
        (without_last(s, "M"@.len()), MIB as nat)
    } else if ends_with(s, "K"@) {
        (without_last(s, "K"@.len()), KIB as nat)
    } else {
        (s, 1)
    }
}

/// The bytes that a size such as `64K` stands for; nothing if it is no size.
pub open spec fn size_value(s: Seq<char>) -> Option<nat> {
    let parts = size_parts(trimmed(s));
    match number(parts.0, u64::MAX as nat) {
        Ok(n) => Some(n * parts.1),
        Err(_) => None,
    }
}

/// The size, if `s` is one, fits in 64 bits.
pub open spec fn size_fits(s: Seq<char>) -> bool {
    size_value(s) matches Some(v) ==> v <= u64::MAX
}

/// What is said of a text that is no size.
pub open spec fn invalid_size(s: Seq<char>) -> Seq<char> {
    "Invalid size: "@ + trimmed(s)
}

/// Reads a size with an optional suffix `K`, `M` or `G`. `None` if the byte count
/// does not fit in 64 bits.
pub fn checked_parse_size(s: &str) -> (r: Option<Result<u64, String>>)
    ensures
        r is None <==> !size_fits(s@),
        r is None <==> (size_value(s@) matches Some(v) && v > 0xFFFF_FFFF_FFFF_FFFF),
        match r {
            Some(Ok(v)) => size_value(s@) == Some(v as nat),
            Some(Err(e)) => size_value(s@) is None && e@ == invalid_size(s@) && e@
                == "Invalid size: "@ + trimmed(s@),
            None => true,
        },
{
    let s: &str = trim(s);
    let (digits, unit): (&str, u64) = match strip_suffix(s, "G") {
        Some(n) => (n, GIB),
        None => match strip_suffix(s, "M") {
            Some(n) => (n, MIB),
            None => match strip_suffix(s, "K") {
                Some(n) => (n, KIB),
                None => (s, 1),
            },
        },
    };
    assert((digits@, unit as nat) == size_parts(s@));
    match parse_number(digits, u64::MAX) {
        Ok(n) => {
            let wide: u128 = (n as u128) * (unit as u128);
            if wide > u64::MAX as u128 {
                None
            } else {
                Some(Ok(wide as u64))
            }
        },
        Err(_) => {
            let mut e = String::from_str("Invalid size: ");
            e.append(s);
            Some(Err(e))
        },
    }
}

/// Reads a size with an optional suffix `K` (KiB), `M` (MiB) or `G` (GiB).
pub fn parse_size(s: &str) -> (r: Result<u64, String>)
    requires
        size_fits(s@),
    ensures
        match r {
            Ok(v) => size_value(s@) == Some(v as nat),
            Err(e) => size_value(s@) is None && e@ == invalid_size(s@) && e@ == "Invalid size: "@
                + trimmed(s@),
        },
{
    match checked_parse_size(s) {
        Some(r) => r,
        None => vstd::pervasive::unreached(),
    }
}

/// `n / d` to the nearest whole number; a tie goes to the even neighbour.
pub open spec fn rounded(n: nat, d: nat) -> nat {
    let q = n / d;
    let r = n % d;
    if 2 * r > d || (2 * r == d && q % 2 == 1) {
        q + 1
    } else {
        q
    }
}

/// The distance between the double-precision numbers around `b`, which has a
/// 53-bit significand; at least one.
pub open spec fn double_step(b: nat) -> nat
    decreases b,
{
    if b < 0x20_0000_0000_0000 {
        1
    } else {
        2 * double_step(b / 2)
    }
}

/// The double-precision number nearest to `b`.
pub open spec fn as_double(b: nat) -> nat {
    rounded(b, double_step(b)) * double_step(b)
}

/// A number of tenths as a decimal fraction with one place.
pub open spec fn one_place(tenths: nat) -> Seq<char> {
    decimal(tenths / 10) + "."@ + seq![digit_char(tenths % 10)]
}

/// A byte count for people: whole GiB or MiB where it is a multiple of them, else
/// KiB to one place, else bytes.
pub open spec fn bytes_text(b: nat) -> Seq<char> {
    if b >= GIB && b % (GIB as nat) == 0 {
        one_place(10 * (b / (GIB as nat))) + " GiB"@
    } else if b >= MIB && b % (MIB as nat) == 0 {
        one_place(10 * (b / (MIB as nat))) + " MiB"@
    } else if b >= KIB {
        one_place(rounded(10 * as_double(b), KIB as nat)) + " KiB"@
    } else {
        decimal(b) + " B"@
    }
}

fn push_one_place(out: &mut String, tenths: u64)
    ensures
        final(out)@ == old(out)@ + one_place(tenths as nat),
{
    push_decimal(out, tenths / 10);
    out.append(".");
    push_decimal(out, tenths % 10);
    assert(decimal((tenths % 10) as nat) == seq![digit_char((tenths % 10) as nat)]);
    assert(out@ =~= old(out)@ + one_place(tenths as nat));
}

fn round(n: u128, d: u128) -> (r: u128)
    requires
        0 < d < 0x1_0000_0000_0000_0000,
        n < 0x1_0000_0000_0000_0000_0000,
    ensures
        r == rounded(n as nat, d as nat),
        r <= n + 1,
{
    let q: u128 = n / d;
    let m: u128 = n % d;
    proof {
        assert(q <= n) by (nonlinear_arith)
            requires
                q == n / d,
                d > 0,
        ;
    }
    if 2 * m > d || (2 * m == d && q % 2 == 1) {
        q + 1
    } else {
        q
    }
}

fn step_of(b: u64) -> (r: u64)
    ensures
        r == double_step(b as nat),
        1 <= r,
        r == 1 || r <= b,
    decreases b,
{
    if b < 0x20_0000_0000_0000 {
        1
    } else {
        2 * step_of(b / 2)
    }
}

fn double_of(b: u64) -> (r: u128)
    ensures
        r == as_double(b as nat),
        r <= 2 * b,
{
    let step: u64 = step_of(b);
    let units: u128 = round(b as u128, step as u128);
    let ghost q = (b as int) / (step as int);
    proof {
        lemma_fundamental_div_mod(b as int, step as int);
        assert(step * q <= b);
        assert((q + 1) * step == step * q + step) by (nonlinear_arith);
        assert(q * step == step * q) by (nonlinear_arith);
        if step == 1 {
            assert(b as int % 1 == 0);
            assert(units == q);
        }
        assert(units == q || units == q + 1);
        assert(units * step <= 2 * b);
    }
    units * (step as u128)
}

/// Prints a byte count for people.
pub fn format_bytes(bytes: u64) -> (r: String)
    ensures
        r@ == bytes_text(bytes as nat),
{
    let mut out = String::new();
    if bytes >= GIB && bytes % GIB == 0 {
        push_one_place(&mut out, 10 * (bytes / GIB));
        out.append(" GiB");
    } else if bytes >= MIB && bytes % MIB == 0 {
        push_one_place(&mut out, 10 * (bytes / MIB));
        out.append(" MiB");
    } else if bytes >= KIB {
        let tenths: u128 = round(10 * double_of(bytes), KIB as u128);
        push_one_place(&mut out, tenths as u64);
        out.append(" KiB");
    } else {
        push_decimal(&mut out, bytes);
        out.append(" B");
    }
    assert(out@ =~= bytes_text(bytes as nat));
    out
}

/// A number followed by `K`, `M` or `G` counts KiB, MiB or GiB; a bare number
/// counts bytes.
pub proof fn law_size_suffixes(n: nat)
    requires
        n <= u64::MAX,
    ensures
        size_value(decimal(n)) == Some(n),
        size_value(decimal(n) + "K"@) == Some(n * (KIB as nat)),
        size_value(decimal(n) + "M"@) == Some(n * (MIB as nat)),
        size_value(decimal(n) + "G"@) == Some(n * (GIB as nat)),
{
    reveal_strlit("K");
    reveal_strlit("M");
    reveal_strlit("G");
    crate::text::law_decimal_reads_back(n, u64::MAX as nat);
    crate::text::lemma_decimal_digits(n);
    let d = decimal(n);
    let last = d.subrange(d.len() - 1, d.len() as int);
    assert(last[0] == d[d.len() - 1] && crate::text::is_digit(last[0]));
    assert("K"@[0] == 'K' && "M"@[0] == 'M' && "G"@[0] == 'G');
    assert(trimmed(d) == d);
    assert(n * 1 == n);
    let k = d + "K"@;
    assert(k.subrange(k.len() - 1, k.len() as int) =~= "K"@);
    assert(k.subrange(k.len() - 1, k.len() as int)[0] == 'K');
    assert(without_last(k, 1) =~= d);
    let m = d + "M"@;
    assert(m.subrange(m.len() - 1, m.len() as int) =~= "M"@);
    assert(m.subrange(m.len() - 1, m.len() as int)[0] == 'M');
    assert(without_last(m, 1) =~= d);
    let g = d + "G"@;
    assert(g.subrange(g.len() - 1, g.len() as int) =~= "G"@);
    assert(without_last(g, 1) =~= d);
}

/// White space around a size does not change what it stands for.
pub proof fn law_size_ignores_white_space(s: Seq<char>, c: char)
    requires
        is_white_space(c),
    ensures
        size_value(seq![c] + s) == size_value(s),
        size_value(s.push(c)) == size_value(s),
{
    crate::text::law_trim_ignores_white_space(s, c);
}

/// What a text with a suffix stands for: the number in front of it, times 1024, 1024 to
/// the second or 1024 to the third; nothing if there is no such number.
pub proof fn law_size_by_suffix(d: Seq<char>)
    requires
        d.len() > 0 ==> !is_white_space(d[0]),
    ensures
        ({
            let n = number(d, 0xFFFF_FFFF_FFFF_FFFF);
            &&& size_value(d.push('K')) == match n {
                Ok(v) => Some(v * 1024),
                Err(_) => None,
            }
            &&& size_value(d.push('M')) == match n {
                Ok(v) => Some(v * 1048576),
                Err(_) => None,
            }
            &&& size_value(d.push('G')) == match n {
                Ok(v) => Some(v * 1073741824),
                Err(_) => None,
            }
        }),
{
    reveal_strlit("K");
    reveal_strlit("M");
    reveal_strlit("G");
    assert("K"@ =~= seq!['K'] && "M"@ =~= seq!['M'] && "G"@ =~= seq!['G']);
    let k = d.push('K');
    let m = d.push('M');
    let g = d.push('G');
    assert(trimmed(k) == k && trimmed(m) == m && trimmed(g) == g);
    lemma_last_is(k, 'G');
    lemma_last_is(k, 'M');
    lemma_last_is(k, 'K');
    lemma_last_is(m, 'G');
    lemma_last_is(m, 'M');
    lemma_last_is(g, 'G');
    assert(without_last(k, 1) =~= d && without_last(m, 1) =~= d && without_last(g, 1) =~= d);
}

/// A text that ends in no suffix counts bytes.
pub proof fn law_size_without_suffix(s: Seq<char>)
    requires
        s.len() > 0 ==> !is_white_space(s[0]) && !is_white_space(s.last()) && s.last() != 'K'
            && s.last() != 'M' && s.last() != 'G',
    ensures
        size_value(s) == match number(s, 0xFFFF_FFFF_FFFF_FFFF) {
            Ok(v) => Some(v),
            Err(_) => None,
        },
{
    reveal_strlit("K");
    reveal_strlit("M");
    reveal_strlit("G");
    assert("K"@ =~= seq!['K'] && "M"@ =~= seq!['M'] && "G"@ =~= seq!['G']);
    if s.len() > 0 {
        assert(trimmed(s) == s);
        lemma_last_is(s, 'K');
        lemma_last_is(s, 'M');
        lemma_last_is(s, 'G');
    }
    match number(s, 0xFFFF_FFFF_FFFF_FFFF) {
        Ok(v) => {
            assert(v * 1 == v);
        },
        Err(_) => {},
    }
}

proof fn lemma_last_is(s: Seq<char>, c: char)
    requires
        s.len() > 0,
    ensures
        ends_with(s, seq![c]) == (s.last() == c),
{
    let end = s.subrange(s.len() - 1, s.len() as int);
    assert(end[0] == s.last());
    if s.last() == c {
        assert(end =~= seq![c]);
    }
}

/// Under 1024 the bytes themselves are printed; a whole number of GiB, or of MiB that is
/// no whole number of GiB, is printed as that number.
pub proof fn law_format_of_whole_units(b: nat, g: nat, m: nat)
    ensures
        b < 1024 ==> bytes_text(b) == decimal(b) + " B"@,
        g > 0 ==> bytes_text(g * 1073741824) == decimal(g) + ".0 GiB"@,
        m > 0 && m % 1024 != 0 ==> bytes_text(m * 1048576) == decimal(m) + ".0 MiB"@,
{
    reveal_strlit(".");
    reveal_strlit(" GiB");
    reveal_strlit(" MiB");
    reveal_strlit(".0 GiB");
    reveal_strlit(".0 MiB");
    assert("."@ + seq!['0'] + " GiB"@ =~= ".0 GiB"@);
    assert("."@ + seq!['0'] + " MiB"@ =~= ".0 MiB"@);
    if g > 0 {
        let x = g * 1073741824;
        assert(x % 1073741824 == 0 && x / 1073741824 == g);
        assert(bytes_text(x) =~= decimal(g) + ".0 GiB"@);
    }
    if m > 0 && m % 1024 != 0 {
        let x = m * 1048576;
        assert(x % 1048576 == 0 && x / 1048576 == m);
        assert(x % 1073741824 != 0);
        assert(bytes_text(x) =~= decimal(m) + ".0 MiB"@);
    }
}

/// Any other count that a double holds exactly is printed in KiB to the nearest tenth; a
/// tie goes to the even tenth.
pub proof fn law_format_to_the_nearest_tenth(b: nat, tenths: nat)
    requires
        1024 <= b < 0x20_0000_0000_0000,
        b % 1048576 != 0,
        -512 <= 1024 * tenths - 10 * b <= 512,
        1024 * tenths - 10 * b == 512 || 1024 * tenths - 10 * b == -512 ==> tenths % 2 == 0,
    ensures
        bytes_text(b) == decimal(tenths / 10) + "."@ + seq![('0' as int + tenths % 10) as char]
            + " KiB"@,
{
    assert(b % 1073741824 != 0);
    assert(double_step(b) == 1);
    assert(b / 1 == b && b % 1 == 0);
    assert(as_double(b) == b);
    lemma_rounded_is(10 * b, 1024, tenths);
}

proof fn lemma_rounded_is(n: nat, d: nat, t: nat)
    requires
        d > 0,
        d % 2 == 0 || d == 1,
        -(d as int) <= 2 * (d * t - n) <= d,
        2 * (d * t - n) == d || 2 * (d * t - n) == -(d as int) ==> t % 2 == 0,
    ensures
        rounded(n, d) == t,
{
    let q = n / d;
    let r = n % d;
    lemma_fundamental_div_mod(n as int, d as int);
    assert(d * q + r == n);
    if t < q {
        assert(d * t <= d * (q - 1)) by (nonlinear_arith)
            requires
                t <= q - 1,
                d > 0,
        ;
        assert(d * (q - 1) == d * q - d) by (nonlinear_arith);
    } else if t > q + 1 {
        assert(d * t >= d * (q + 2)) by (nonlinear_arith)
            requires
                t >= q + 2,
                d > 0,
        ;
        assert(d * (q + 2) == d * q + 2 * d) by (nonlinear_arith);
    } else if t == q + 1 {
        assert(d * (q + 1) == d * q + d) by (nonlinear_arith);
    }
}

/// A count from 2 to the 53rd on goes through the nearest double, whose significand has
/// 53 bits; a tie goes to the even one. From there it is printed to the nearest tenth.
pub proof fn law_format_of_large_counts(b: nat, e: nat, m: nat, tenths: nat)
    requires
        e > 0,
        0x10_0000_0000_0000 * pow2(e) <= b < 0x20_0000_0000_0000 * pow2(e),
        b % 1048576 != 0,
        -(pow2(e) as int) <= 2 * (m * pow2(e) - b) <= pow2(e),
        2 * (m * pow2(e) - b) == pow2(e) || 2 * (m * pow2(e) - b) == -(pow2(e) as int) ==> m % 2
            == 0,
        -512 <= 1024 * tenths - 10 * (m * pow2(e)) <= 512,
        1024 * tenths - 10 * (m * pow2(e)) == 512 || 1024 * tenths - 10 * (m * pow2(e)) == -512
            ==> tenths % 2 == 0,
    ensures
        bytes_text(b) == decimal(tenths / 10) + "."@ + seq![('0' as int + tenths % 10) as char]
            + " KiB"@,
{
    assert(b % 1073741824 != 0);
    lemma_double_step(b, e);
    let s = pow2(e);
    lemma_pow2_even(e);
    assert(s * m == m * s) by (nonlinear_arith);
    lemma_rounded_is(b, s, m);
    assert(as_double(b) == m * s);
    lemma_rounded_is(10 * (m * s), 1024, tenths);
    assert(b >= 1024) by {
        vstd::arithmetic::power2::lemma_pow2_pos(e);
    }
}

proof fn lemma_pow2_even(e: nat)
    requires
        e > 0,
    ensures
        pow2(e) == 2 * pow2((e - 1) as nat),
        pow2(e) % 2 == 0,
        pow2(e) > 0,
{
    vstd::arithmetic::power2::lemma_pow2_unfold(e);
    vstd::arithmetic::power2::lemma_pow2_pos(e);
}

proof fn lemma_double_step(b: nat, e: nat)
    requires
        0x10_0000_0000_0000 * pow2(e) <= b < 0x20_0000_0000_0000 * pow2(e),
    ensures
        double_step(b) == pow2(e),
    decreases e,
{
    if e == 0 {
        vstd::arithmetic::power2::lemma2_to64();
    } else {
        lemma_pow2_even(e);
        vstd::arithmetic::power2::lemma_pow2_pos((e - 1) as nat);
        lemma_double_step(b / 2, (e - 1) as nat);
    }
}

/// What fits in 64 bits is read, and nothing that does not; no text that is no size is
/// too large.
pub proof fn law_sizes_that_fit(s: Seq<char>)
    ensures
        size_fits(s) <==> !(size_value(s) matches Some(v) && v > 0xFFFF_FFFF_FFFF_FFFF),
{
}

} // verus!
