//! Text building blocks: white space, suffixes, splitting, decimal numbers.

use vstd::prelude::*;

verus! {

broadcast use vstd::string::group_string_axioms;

/// The characters with the Unicode `White_Space` property.
pub open spec fn is_white_space(c: char) -> bool {
    let u = c as int;
    ||| 0x9 <= u <= 0xd
    ||| u == 0x20
    ||| u == 0x85
    ||| u == 0xa0
    ||| u == 0x1680
    ||| 0x2000 <= u <= 0x200a
    ||| u == 0x2028
    ||| u == 0x2029
    ||| u == 0x202f
    ||| u == 0x205f
    ||| u == 0x3000
}

/// `s` without its leading and trailing white space.
pub open spec fn trimmed(s: Seq<char>) -> Seq<char>
    decreases s.len(),
{
    if s.len() == 0 {
        s
    } else if is_white_space(s[0]) {
        trimmed(s.subrange(1, s.len() as int))
    } else if is_white_space(s[s.len() - 1]) {
        trimmed(s.subrange(0, s.len() - 1))
    } else {
        s
    }
}

fn white_space(c: char) -> (r: bool)
    ensures
        r == is_white_space(c),
{
    let u: u32 = c as u32;
    (0x9 <= u && u <= 0xd) || u == 0x20 || u == 0x85 || u == 0xa0 || u == 0x1680 || (0x2000 <= u
        && u <= 0x200a) || u == 0x2028 || u == 0x2029 || u == 0x202f || u == 0x205f || u == 0x3000
}

/// Cuts leading and trailing white space off `s`.
pub fn trim(s: &str) -> (r: &str)
    ensures
        r@ == trimmed(s@),
{
    let mut from: usize = 0;
    let mut to: usize = s.unicode_len();
    assert(s@.subrange(0, s@.len() as int) =~= s@);
    while from < to && white_space(s.get_char(from))
        invariant
            from <= to <= s@.len(),
            trimmed(s@) == trimmed(s@.subrange(from as int, to as int)),
        decreases to - from,
    {
        assert(s@.subrange(from as int, to as int).subrange(1, to - from) =~= s@.subrange(
            from + 1,
            to as int,
        ));
        from = from + 1;
    }
    while from < to && white_space(s.get_char(to - 1))
        invariant
            from <= to <= s@.len(),
            from < to ==> !is_white_space(s@[from as int]),
            trimmed(s@) == trimmed(s@.subrange(from as int, to as int)),
        decreases to - from,
    {
        assert(s@.subrange(from as int, to as int).subrange(0, to - from - 1) =~= s@.subrange(
            from as int,
            to - 1,
        ));
        to = to - 1;
    }
    s.substring_char(from, to)
}

/// Whether two strings hold the same characters.
pub fn same_text(a: &str, b: &str) -> (r: bool)
    ensures
        r == (a@ == b@),
{
    a.to_owned() == b.to_owned()
}

/// `s` ends with `suffix`.
pub open spec fn ends_with(s: Seq<char>, suffix: Seq<char>) -> bool {
    suffix.len() <= s.len() && s.subrange(s.len() - suffix.len(), s.len() as int) == suffix
}

/// `s` without the `n` characters at its end.
pub open spec fn without_last(s: Seq<char>, n: nat) -> Seq<char> {
    s.subrange(0, s.len() - n)
}

/// What stands before `suffix`, if `s` ends with it.
pub fn strip_suffix<'a>(s: &'a str, suffix: &str) -> (r: Option<&'a str>)
    ensures
        match r {
            Some(rest) => ends_with(s@, suffix@) && rest@ == without_last(s@, suffix@.len()),
            None => !ends_with(s@, suffix@),
        },
{
    let n: usize = s.unicode_len();
    let k: usize = suffix.unicode_len();
    if k <= n && same_text(s.substring_char(n - k, n), suffix) {
        Some(s.substring_char(0, n - k))
    } else {
        None
    }
}

/// The pieces of `s` between its occurrences of `sep`; always at least one.
pub open spec fn split_parts(s: Seq<char>, sep: char) -> Seq<Seq<char>>
    decreases s.len(),
{
    if s.len() == 0 {
        seq![Seq::<char>::empty()]
    } else {
        let head = split_parts(s.subrange(0, s.len() - 1), sep);
        if s[s.len() - 1] == sep {
            head.push(Seq::<char>::empty())
        } else {
            head.update(head.len() - 1, head[head.len() - 1].push(s[s.len() - 1]))
        }
    }
}

/// The characters behind each string of a list.
pub open spec fn texts(v: Seq<&str>) -> Seq<Seq<char>> {
    v.map_values(|p: &str| p@)
}

/// Splits `s` at every `sep`.
pub fn split<'a>(s: &'a str, sep: char) -> (r: Vec<&'a str>)
    ensures
        texts(r@) == split_parts(s@, sep),
{
    let n: usize = s.unicode_len();
    let mut out: Vec<&'a str> = Vec::new();
    let mut from: usize = 0;
    let mut i: usize = 0;
    assert(s@.subrange(0, 0) =~= Seq::<char>::empty());
    while i < n
        invariant
            n == s@.len(),
            from <= i <= n,
            split_parts(s@.subrange(0, i as int), sep) == texts(out@).push(
                s@.subrange(from as int, i as int),
            ),
        decreases n - i,
    {
        let ghost head = s@.subrange(0, i as int);
        let ghost next = s@.subrange(0, i + 1);
        assert(next.subrange(0, next.len() - 1) =~= head);
        assert(s@.subrange(from as int, i as int).push(s@[i as int]) =~= s@.subrange(
            from as int,
            i + 1,
        ));
        if s.get_char(i) == sep {
            let ghost before = texts(out@);
            out.push(s.substring_char(from, i));
            assert(texts(out@) =~= before.push(s@.subrange(from as int, i as int)));
            from = i + 1;
            assert(s@.subrange(from as int, i + 1) =~= Seq::<char>::empty());
        } else {
            let ghost parts = split_parts(head, sep);
            assert(parts.update(parts.len() - 1, s@.subrange(from as int, i + 1)) =~= texts(
                out@,
            ).push(s@.subrange(from as int, i + 1)));
        }
        i = i + 1;
    }
    assert(s@.subrange(0, n as int) =~= s@);
    let ghost before = texts(out@);
    out.push(s.substring_char(from, n));
    assert(texts(out@) =~= before.push(s@.subrange(from as int, n as int)));
    out
}

/// The decimal digit for a number under ten.
pub open spec fn digit_char(d: nat) -> char {
    if d == 0 {
        '0'
    } else if d == 1 {
        '1'
    } else if d == 2 {
        '2'
    } else if d == 3 {
        '3'
    } else if d == 4 {
        '4'
    } else if d == 5 {
        '5'
    } else if d == 6 {
        '6'
    } else if d == 7 {
        '7'
    } else if d == 8 {
        '8'
    } else {
        '9'
    }
}

/// `n` written in decimal, without leading zeros.
pub open spec fn decimal(n: nat) -> Seq<char>
    decreases n,
{
    if n < 10 {
        seq![digit_char(n)]
    } else {
        decimal(n / 10).push(digit_char(n % 10))
    }
}

fn digit_text(d: u64) -> (r: &'static str)
    requires
        d < 10,
    ensures
        r@ == seq![digit_char(d as nat)],
{
    proof {
        reveal_strlit("0");
        reveal_strlit("1");
        reveal_strlit("2");
        reveal_strlit("3");
        reveal_strlit("4");
        reveal_strlit("5");
        reveal_strlit("6");
        reveal_strlit("7");
        reveal_strlit("8");
        reveal_strlit("9");
    }
    let r: &'static str = match d {
        0 => "0",
        1 => "1",
        2 => "2",
        3 => "3",
        4 => "4",
        5 => "5",
        6 => "6",
        7 => "7",
        8 => "8",
        _ => "9",
    };
    assert(r@ =~= seq![digit_char(d as nat)]);
    r
}

/// Appends `n` in decimal.
pub fn push_decimal(out: &mut String, n: u64)
    ensures
        final(out)@ == old(out)@ + decimal(n as nat),
    decreases n,
{
    if n >= 10 {
        push_decimal(out, n / 10);
    }
    out.append(digit_text(n % 10));
    assert(out@ =~= old(out)@ + decimal(n as nat));
}

/// `n` in decimal.
pub fn decimal_text(n: u64) -> (r: String)
    ensures
        r@ == decimal(n as nat),
{
    let mut out = String::new();
    push_decimal(&mut out, n);
    assert(out@ =~= decimal(n as nat));
    out
}

/// Why a text is not an unsigned decimal number.
#[derive(Clone, Copy, Debug, PartialEq, Eq, Structural)]
pub enum IntError {
    /// There is nothing to read.
    Empty,
    /// Something other than a digit stands where a digit must stand.
    InvalidDigit,
    /// The number does not fit the target type.
    PosOverflow,
}

/// The ASCII decimal digits.
pub open spec fn is_digit(c: char) -> bool {
    '0' as int <= c as int <= '9' as int
}

/// What a decimal digit stands for.
pub open spec fn digit_value(c: char) -> nat {
    (c as int - '0' as int) as nat
}

/// The number that `n` leading characters of `d` stand for. The leftmost
/// character that is no digit, or that takes the number above `max`, decides the
/// error.
pub open spec fn prefix_number(d: Seq<char>, n: nat, max: nat) -> Result<nat, IntError>
    decreases n,
{
    if n == 0 {
        Ok(0)
    } else {
        match prefix_number(d, (n - 1) as nat, max) {
            Err(e) => Err(e),
            Ok(v) => {
                let c = d[n - 1];
                if !is_digit(c) {
                    Err(IntError::InvalidDigit)
                } else if 10 * v + digit_value(c) > max {
                    Err(IntError::PosOverflow)
                } else {
                    Ok(10 * v + digit_value(c))
                }
            },
        }
    }
}

/// The digits of a number: what follows a leading plus sign, if there is one.
pub open spec fn unsigned_part(s: Seq<char>) -> Seq<char> {
    if s.len() > 0 && s[0] == '+' {
        s.subrange(1, s.len() as int)
    } else {
        s
    }
}

/// `s` read as an unsigned decimal number of at most `max`.
pub open spec fn number(s: Seq<char>, max: nat) -> Result<nat, IntError> {
    let d = unsigned_part(s);
    if s.len() == 0 {
        Err(IntError::Empty)
    } else if d.len() == 0 {
        Err(IntError::InvalidDigit)
    } else {
        prefix_number(d, d.len(), max)
    }
}

/// Reads an unsigned decimal number of at most `max`: an optional plus sign, then
/// digits only.
pub fn parse_number(s: &str, max: u64) -> (r: Result<u64, IntError>)
    ensures
        match r {
            Ok(v) => number(s@, max as nat) == Ok::<nat, IntError>(v as nat),
            Err(e) => number(s@, max as nat) == Err::<nat, IntError>(e),
        },
{
    let n: usize = s.unicode_len();
    if n == 0 {
        return Err(IntError::Empty);
    }
    let from: usize = if s.get_char(0) == '+' {
        1
    } else {
        0
    };
    if from == n {
        return Err(IntError::InvalidDigit);
    }
    let ghost d = unsigned_part(s@);
    assert(d =~= s@.subrange(from as int, n as int));
    let mut v: u64 = 0;
    let mut i: usize = from;
    while i < n
        invariant
            from <= i <= n,
            n == s@.len(),
            from < n,
            d == s@.subrange(from as int, n as int),
            d == unsigned_part(s@),
            v <= max,
            prefix_number(d, (i - from) as nat, max as nat) == Ok::<nat, IntError>(v as nat),
        decreases n - i,
    {
        let c: char = s.get_char(i);
        assert(c == d[i - from]);
        proof {
            lemma_prefix_error_stays(d, (i - from + 1) as nat, d.len(), max as nat);
        }
        if !('0' <= c && c <= '9') {
            return Err(IntError::InvalidDigit);
        }
        let wide: u128 = 10 * (v as u128) + (c as u32 - '0' as u32) as u128;
        if wide > max as u128 {
            return Err(IntError::PosOverflow);
        }
        v = wide as u64;
        i = i + 1;
    }
    Ok(v)
}

/// An error in a prefix is the error of every longer prefix.
proof fn lemma_prefix_error_stays(d: Seq<char>, n: nat, m: nat, max: nat)
    requires
        n <= m,
    ensures
        prefix_number(d, n, max) is Err ==> prefix_number(d, m, max) == prefix_number(d, n, max),
    decreases m,
{
    if n < m {
        lemma_prefix_error_stays(d, n, (m - 1) as nat, max);
    }
}

/// A number written in decimal reads back as itself, if it fits.
pub proof fn law_decimal_reads_back(n: nat, max: nat)
    requires
        n <= max,
    ensures
        number(decimal(n), max) == Ok::<nat, IntError>(n),
{
    lemma_decimal_digits(n);
    lemma_decimal_prefix(n, max);
    assert(unsigned_part(decimal(n)) =~= decimal(n));
}

/// A decimal number is written with digits only, and with at least one.
pub proof fn lemma_decimal_digits(n: nat)
    ensures
        decimal(n).len() > 0,
        forall|i: int| 0 <= i < decimal(n).len() ==> is_digit(#[trigger] decimal(n)[i]),
    decreases n,
{
    if n >= 10 {
        lemma_decimal_digits(n / 10);
    }
}

proof fn lemma_decimal_prefix(n: nat, max: nat)
    requires
        n <= max,
    ensures
        prefix_number(decimal(n), decimal(n).len(), max) == Ok::<nat, IntError>(n),
    decreases n,
{
    reveal_with_fuel(prefix_number, 2);
    let d = decimal(n);
    if n >= 10 {
        let head = decimal(n / 10);
        lemma_decimal_prefix(n / 10, max);
        lemma_prefix_same(head, d, head.len(), max);
    } else {
        assert(d.len() == 1);
    }
}

proof fn lemma_prefix_same(a: Seq<char>, b: Seq<char>, n: nat, max: nat)
    requires
        n <= a.len(),
        n <= b.len(),
        forall|i: int| 0 <= i < n ==> a[i] == b[i],
    ensures
        prefix_number(a, n, max) == prefix_number(b, n, max),
    decreases n,
{
    if n > 0 {
        lemma_prefix_same(a, b, (n - 1) as nat, max);
    }
}

/// White space at either end of a text is gone from the trimmed text.
pub proof fn law_trim_ignores_white_space(s: Seq<char>, c: char)
    requires
        is_white_space(c),
    ensures
        trimmed(seq![c] + s) == trimmed(s),
        trimmed(s.push(c)) == trimmed(s),
    decreases s.len(),
{
    let a = seq![c] + s;
    assert(a.subrange(1, a.len() as int) =~= s);
    let b = s.push(c);
    assert(b.subrange(0, b.len() - 1) =~= s);
    if s.len() > 0 && is_white_space(s[0]) {
        let t = s.subrange(1, s.len() as int);
        law_trim_ignores_white_space(t, c);
        assert(b.subrange(1, b.len() as int) =~= t.push(c));
    } else if s.len() == 0 {
        assert(b.subrange(1, b.len() as int) =~= s);
    }
}

/// A number that was read is at most the limit that it was read with.
pub proof fn lemma_number_bound(s: Seq<char>, max: nat)
    ensures
        number(s, max) matches Ok(v) ==> v <= max,
{
    reveal_with_fuel(prefix_number, 2);
}

/// The white space characters are these and no others.
pub proof fn law_white_space(c: char)
    ensures
        is_white_space(c) <==> set![
            0x9int,
            0xa,
            0xb,
            0xc,
            0xd,
            0x20,
            0x85,
            0xa0,
            0x1680,
            0x2000,
            0x2001,
            0x2002,
            0x2003,
            0x2004,
            0x2005,
            0x2006,
            0x2007,
            0x2008,
            0x2009,
            0x200a,
            0x2028,
            0x2029,
            0x202f,
            0x205f,
            0x3000,
        ].contains(c as int),
{
}

/// Cut a text in three: if the first and the third part are white space and the second
/// neither begins nor ends with any, the second is the trimmed text.
pub proof fn law_trimmed_is_the_middle(s: Seq<char>, from: int, to: int)
    requires
        0 <= from <= to <= s.len(),
        forall|i: int| 0 <= i < from || to <= i < s.len() ==> is_white_space(#[trigger] s[i]),
        from < to ==> !is_white_space(s[from]) && !is_white_space(s[to - 1]),
    ensures
        trimmed(s) == s.subrange(from, to),
    decreases s.len(),
{
    let n = s.len() as int;
    if n == 0 {
        assert(s.subrange(from, to) =~= s);
    } else if is_white_space(s[0]) {
        let t = s.subrange(1, n);
        let (a, b) = if from > 0 {
            (from - 1, to - 1)
        } else {
            (0int, 0int)
        };
        assert forall|i: int| 0 <= i < a || b <= i < t.len() implies is_white_space(
            #[trigger] t[i],
        ) by {
            assert(t[i] == s[i + 1]);
        }
        law_trimmed_is_the_middle(t, a, b);
        assert(t.subrange(a, b) =~= s.subrange(from, to));
    } else if is_white_space(s[n - 1]) {
        let t = s.subrange(0, n - 1);
        assert forall|i: int| 0 <= i < from || to <= i < t.len() implies is_white_space(
            #[trigger] t[i],
        ) by {
            assert(t[i] == s[i]);
        }
        assert(to < n);
        law_trimmed_is_the_middle(t, from, to);
        assert(t.subrange(from, to) =~= s.subrange(from, to));
    } else {
        assert(from == 0) by {
            if from > 0 {
                assert(is_white_space(s[0]));
            }
        }
        assert(to == n) by {
            if to < n {
                assert(is_white_space(s[n - 1]));
            }
        }
        assert(s.subrange(from, to) =~= s);
    }
}

/// A text ends with a suffix exactly if the suffix was put behind something, and that is
/// what is left without it.
pub proof fn law_suffix(s: Seq<char>, suffix: Seq<char>, head: Seq<char>)
    ensures
        ends_with(head + suffix, suffix),
        without_last(head + suffix, suffix.len()) == head,
        ends_with(s, suffix) ==> without_last(s, suffix.len()) + suffix == s,
{
    let t = head + suffix;
    assert(t.subrange(t.len() - suffix.len(), t.len() as int) =~= suffix);
    assert(t.subrange(0, t.len() - suffix.len()) =~= head);
    if ends_with(s, suffix) {
        assert(without_last(s, suffix.len()) + s.subrange(
            s.len() - suffix.len(),
            s.len() as int,
        ) =~= s);
    }
}

/// A text without the separator is one piece, and the pieces of two texts with a
/// separator between them are those of the one, then those of the other.
pub proof fn law_split(a: Seq<char>, b: Seq<char>, sep: char)
    ensures
        !a.contains(sep) ==> split_parts(a, sep) == seq![a],
        split_parts(a.push(sep) + b, sep) == split_parts(a, sep) + split_parts(b, sep),
    decreases a.len() + b.len(),
{
    lemma_split_nonempty(a, sep);
    lemma_split_nonempty(b, sep);
    if !a.contains(sep) {
        if a.len() > 0 {
            let head = a.subrange(0, a.len() - 1);
            assert(!head.contains(sep)) by {
                if head.contains(sep) {
                    let i = choose|i: int| 0 <= i < head.len() && head[i] == sep;
                    assert(a[i] == sep);
                }
            }
            assert(a[a.len() - 1] != sep);
            law_split(head, Seq::empty(), sep);
            assert(seq![head].update(0, head.push(a[a.len() - 1])) =~= seq![a]) by {
                assert(head.push(a[a.len() - 1]) =~= a);
            }
        } else {
            assert(a =~= Seq::<char>::empty());
        }
    }
    let s = a.push(sep) + b;
    if b.len() == 0 {
        assert(s =~= a.push(sep));
        assert(s.subrange(0, s.len() - 1) =~= a);
        assert(b =~= Seq::<char>::empty());
        assert(split_parts(a, sep).push(Seq::<char>::empty()) =~= split_parts(a, sep) + seq![
            Seq::<char>::empty(),
        ]);
    } else {
        let c = b[b.len() - 1];
        let head = b.subrange(0, b.len() - 1);
        law_split(a, head, sep);
        lemma_split_nonempty(head, sep);
        assert(s.subrange(0, s.len() - 1) =~= a.push(sep) + head);
        assert(s[s.len() - 1] == c);
        let left = split_parts(a, sep);
        let right = split_parts(head, sep);
        assert(split_parts(s, sep) =~= left + split_parts(b, sep));
    }
}

proof fn lemma_split_nonempty(s: Seq<char>, sep: char)
    ensures
        split_parts(s, sep).len() > 0,
    decreases s.len(),
{
    if s.len() > 0 {
        lemma_split_nonempty(s.subrange(0, s.len() - 1), sep);
    }
}

/// Numbers under ten are one digit, by its place after `0`; every other number is that of
/// its tens with the digit of its ones behind.
pub proof fn law_decimal_digit_by_digit(n: nat, d: nat)
    requires
        d < 10,
    ensures
        decimal(d) == seq![('0' as int + d) as char],
        n > 0 ==> decimal((10 * n + d) as nat) == decimal(n).push(('0' as int + d) as char),
{
    assert((10 * n + d) / 10 == n && (10 * n + d) % 10 == d);
}

/// How a text reads as a number, by what stands in front of its last character. Nothing
/// reads as nothing; a plus sign counts only in front; a digit behind a number makes it
/// ten times as large and adds itself; the leftmost fault decides.
pub proof fn law_number_character_by_character(s: Seq<char>, c: char, max: nat)
    ensures
        number(Seq::empty(), max) == Err::<nat, IntError>(IntError::Empty),
        number(seq!['+'], max) == Err::<nat, IntError>(IntError::InvalidDigit),
        s.len() == 0 && !('0' as int <= c as int <= '9' as int) ==> number(s.push(c), max) == Err::<
            nat,
            IntError,
        >(IntError::InvalidDigit),
        (s.len() == 0 || s == seq!['+']) && '0' as int <= c as int <= '9' as int ==> number(
            s.push(c),
            max,
        ) == if c as int - '0' as int <= max {
            Ok::<nat, IntError>((c as int - '0' as int) as nat)
        } else {
            Err(IntError::PosOverflow)
        },
        s == seq!['+'] && !('0' as int <= c as int <= '9' as int) ==> number(s.push(c), max)
            == Err::<nat, IntError>(IntError::InvalidDigit),
        s.len() > 0 && s != seq!['+'] ==> number(s.push(c), max) == match number(s, max) {
            Err(e) => Err(e),
            Ok(v) => if !('0' as int <= c as int <= '9' as int) {
                Err(IntError::InvalidDigit)
            } else if 10 * v + (c as int - '0' as int) > max {
                Err(IntError::PosOverflow)
            } else {
                Ok((10 * v + (c as int - '0' as int)) as nat)
            },
        },
{
    let t = s.push(c);
    reveal_with_fuel(prefix_number, 3);
    assert(unsigned_part(seq!['+']).len() == 0);
    if s.len() == 0 {
        assert(t.subrange(1, 1).len() == 0);
        if c != '+' {
            assert(unsigned_part(t) == t);
        }
    } else if s == seq!['+'] {
        assert(unsigned_part(t) =~= seq![c]);
    } else {
        let d = unsigned_part(s);
        assert(unsigned_part(t) =~= d.push(c));
        assert(d.len() > 0) by {
            if d.len() == 0 {
                assert(s =~= seq!['+']);
            }
        }
        lemma_prefix_same(d, d.push(c), d.len(), max);
    }
}

} // verus!
