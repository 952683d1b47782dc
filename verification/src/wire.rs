//! Bytes on the wire: big-endian numbers, and comparing.

use vstd::prelude::*;

verus! {

/// The number that `s` spells in base 256, most significant byte first.
pub open spec fn be_value(s: Seq<u8>) -> nat
    decreases s.len(),
{
    if s.len() == 0 {
        0
    } else {
        256 * be_value(s.subrange(0, s.len() - 1)) + s[s.len() - 1] as nat
    }
}

/// The `n` low bytes of `v`, most significant byte first.
pub open spec fn be_bytes(v: nat, n: nat) -> Seq<u8>
    decreases n,
{
    if n == 0 {
        Seq::empty()
    } else {
        be_bytes(v / 256, (n - 1) as nat).push((v % 256) as u8)
    }
}

/// The smallest number that needs more than `n` bytes.
pub open spec fn be_limit(n: nat) -> nat
    decreases n,
{
    if n == 0 {
        1
    } else {
        256 * be_limit((n - 1) as nat)
    }
}

/// The limits for four and for eight bytes.
pub proof fn lemma_be_limits()
    ensures
        be_limit(4) == 0x1_0000_0000,
        be_limit(8) == 0x1_0000_0000_0000_0000,
{
    reveal_with_fuel(be_limit, 9);
}

/// `n` bytes spell a number below the limit for `n` bytes.
pub proof fn lemma_be_value_bound(s: Seq<u8>)
    ensures
        be_value(s) < be_limit(s.len()),
    decreases s.len(),
{
    if s.len() > 0 {
        lemma_be_value_bound(s.subrange(0, s.len() - 1));
    }
}

/// Reading back what was written gives the number.
pub proof fn law_be_value_of_bytes(v: nat, n: nat)
    requires
        v < be_limit(n),
    ensures
        be_bytes(v, n).len() == n,
        be_value(be_bytes(v, n)) == v,
    decreases n,
{
    if n > 0 {
        law_be_value_of_bytes(v / 256, (n - 1) as nat);
        let b = be_bytes(v, n);
        assert(b.subrange(0, b.len() - 1) =~= be_bytes(v / 256, (n - 1) as nat));
    }
}

/// Writing what was read gives the bytes.
pub proof fn law_be_bytes_of_value(s: Seq<u8>)
    ensures
        be_bytes(be_value(s), s.len()) == s,
    decreases s.len(),
{
    if s.len() > 0 {
        let head = s.subrange(0, s.len() - 1);
        law_be_bytes_of_value(head);
        assert(be_value(s) / 256 == be_value(head));
        assert(be_bytes(be_value(s), s.len()) =~= s);
    } else {
        assert(be_bytes(be_value(s), s.len()) =~= s);
    }
}

/// Reads the `n` bytes of `buf` from `from` on as a big-endian number.
pub fn read_be(buf: &[u8], from: usize, n: usize) -> (r: u64)
    requires
        from + n <= buf@.len(),
        n <= 8,
    ensures
        r == be_value(buf@.subrange(from as int, from + n)),
{
    let len: usize = buf.len();
    let mut v: u64 = 0;
    let mut i: usize = 0;
    while i < n
        invariant
            i <= n <= 8,
            from + n <= len,
            len == buf@.len(),
            v == be_value(buf@.subrange(from as int, from + i)),
        decreases n - i,
    {
        let ghost head = buf@.subrange(from as int, from + i);
        let ghost next = buf@.subrange(from as int, from + i + 1);
        assert(next.subrange(0, next.len() - 1) =~= head);
        proof {
            lemma_be_value_bound(next);
            reveal_with_fuel(be_limit, 9);
        }
        v = 256 * v + buf[from + i] as u64;
        i = i + 1;
    }
    v
}

/// Appends the `n` low bytes of `v`, most significant byte first.
pub fn push_be(out: &mut Vec<u8>, v: u64, n: usize)
    ensures
        final(out)@ == old(out)@ + be_bytes(v as nat, n as nat),
    decreases n,
{
    if n > 0 {
        push_be(out, v / 256, n - 1);
        out.push((v % 256) as u8);
    }
    assert(out@ =~= old(out)@ + be_bytes(v as nat, n as nat));
}

/// Whether two byte strings are the same.
pub fn same_bytes(a: &[u8], b: &[u8]) -> (r: bool)
    ensures
        r == (a@ == b@),
{
    if a.len() != b.len() {
        return false;
    }
    let n: usize = a.len();
    let mut i: usize = 0;
    while i < n
        invariant
            i <= n,
            n == a@.len(),
            n == b@.len(),
            forall|j: int| 0 <= j < i ==> a@[j] == b@[j],
        decreases n - i,
    {
        if a[i] != b[i] {
            return false;
        }
        i = i + 1;
    }
    assert(a@ =~= b@);
    true
}

/// The most significant byte comes first: a byte put behind a number makes it 256 times as
/// large and adds itself. A single byte is itself.
pub proof fn law_most_significant_first(s: Seq<u8>, b: u8)
    ensures
        be_value(Seq::empty()) == 0,
        be_value(seq![b]) == b,
        be_value(s.push(b)) == 256 * be_value(s) + b,
{
    reveal_with_fuel(be_value, 3);
    assert(s.push(b).subrange(0, s.push(b).len() - 1) =~= s);
    assert(seq![b].subrange(0, 0) =~= Seq::<u8>::empty());
}

} // verus!
