//! One direction of a benchmark transfer, piece by piece.

use vstd::prelude::*;

verus! {

/// The next piece of a transfer: a full buffer, or what is left.
pub open spec fn piece(total: nat, moved: nat, buffer_size: nat) -> nat {
    if total - moved < buffer_size {
        (total - moved) as nat
    } else {
        buffer_size
    }
}

fn piece_of(total: u64, moved: u64, buffer_size: u64) -> (r: u64)
    requires
        moved <= total,
    ensures
        r == piece(total as nat, moved as nat, buffer_size as nat),
        r <= total - moved,
        r <= buffer_size,
{
    let left: u64 = total - moved;
    if left < buffer_size {
        left
    } else {
        buffer_size
    }
}

/// How far a transfer has come.
#[derive(Clone, Copy, Debug, PartialEq, Eq, Structural)]
pub struct Progress {
    pub total: u64,
    pub buffer_size: u64,
    pub moved: u64,
}

/// The other side closed the connection before everything had arrived.
#[derive(Clone, Copy, Debug, PartialEq, Eq, Structural)]
pub struct ConnectionClosed;

impl Progress {
    /// No more has been moved than there is to move.
    pub open spec fn wf(self) -> bool {
        self.moved <= self.total
    }

    /// Everything has been moved.
    pub open spec fn complete(self) -> bool {
        self.moved >= self.total
    }

    /// The size of the next piece.
    pub open spec fn next_piece(self) -> nat {
        piece(self.total as nat, self.moved as nat, self.buffer_size as nat)
    }

    /// The progress after `n` more bytes.
    pub open spec fn after(self, n: u64) -> Progress {
        Progress { moved: (self.moved + n) as u64, ..self }
    }

    /// The progress before the first byte.
    pub open spec fn start_of(total: u64, buffer_size: u64) -> Progress {
        Progress { total, buffer_size, moved: 0 }
    }

    /// A transfer of `total` bytes that has not begun.
    pub fn start(total: u64, buffer_size: u64) -> (r: Self)
        ensures
            r == Progress::start_of(total, buffer_size),
            r.wf(),
    {
        Progress { total, buffer_size, moved: 0 }
    }

    /// How many bytes to move next at most; `None` once everything has been moved.
    pub fn next(&self) -> (r: Option<u64>)
        requires
            self.wf(),
        ensures
            match r {
                Some(n) => {
                    &&& !self.complete() && n == self.next_piece()
                    &&& self.moved < self.total
                    &&& n <= self.buffer_size && n <= self.total - self.moved
                    &&& n == self.buffer_size || n == self.total - self.moved
                },
                None => self.complete() && self.moved == self.total,
            },
    {
        if self.moved < self.total {
            Some(piece_of(self.total, self.moved, self.buffer_size))
        } else {
            None
        }
    }

    /// The piece was written in full.
    pub fn written(&self) -> (r: Self)
        requires
            self.wf(),
            !self.complete(),
        ensures
            r == self.after(self.next_piece() as u64),
            r.moved == self.moved + self.next_piece(),
            r.wf(),
            r.total == self.total && r.buffer_size == self.buffer_size,
            r.moved - self.moved <= self.buffer_size && r.moved <= self.total,
            r.moved - self.moved == self.buffer_size || r.moved == self.total,
    {
        let n: u64 = piece_of(self.total, self.moved, self.buffer_size);
        Progress { total: self.total, buffer_size: self.buffer_size, moved: self.moved + n }
    }

    /// One read brought `n` bytes; none means that the other side is gone.
    pub fn read(&self, n: u64) -> (r: Result<Self, ConnectionClosed>)
        requires
            self.wf(),
            !self.complete(),
            n <= self.next_piece(),
        ensures
            match r {
                Ok(p) => {
                    &&& n > 0 && p == self.after(n) && p.moved == self.moved + n && p.wf()
                    &&& p.total == self.total && p.buffer_size == self.buffer_size
                },
                Err(_) => n == 0,
            },
    {
        if n == 0 {
            Err(ConnectionClosed)
        } else {
            Ok(Progress { total: self.total, buffer_size: self.buffer_size, moved: self.moved + n })
        }
    }
}

/// The pieces in which a sender writes what is left of a transfer.
pub open spec fn pieces(total: nat, moved: nat, buffer_size: nat) -> Seq<nat>
    decreases total - moved,
{
    if moved >= total || buffer_size == 0 {
        Seq::empty()
    } else {
        let n = piece(total, moved, buffer_size);
        seq![n] + pieces(total, moved + n, buffer_size)
    }
}

/// The sum of a list of piece sizes.
pub open spec fn sum(s: Seq<nat>) -> nat
    decreases s.len(),
{
    if s.len() == 0 {
        0
    } else {
        s[0] + sum(s.subrange(1, s.len() as int))
    }
}

/// With a buffer that holds anything, or nothing left to move, the pieces add up to
/// exactly what is left; none is empty or larger than the buffer, and only the last may
/// be smaller.
pub proof fn law_pieces_cover_the_transfer(total: nat, moved: nat, buffer_size: nat)
    requires
        buffer_size > 0 || moved == total,
        moved <= total,
    ensures
        sum(pieces(total, moved, buffer_size)) == total - moved,
        forall|i: int|
            0 <= i < pieces(total, moved, buffer_size).len() ==> 0 < #[trigger] pieces(
                total,
                moved,
                buffer_size,
            )[i] <= buffer_size,
        forall|i: int|
            0 <= i < pieces(total, moved, buffer_size).len() - 1 ==> #[trigger] pieces(
                total,
                moved,
                buffer_size,
            )[i] == buffer_size,
        buffer_size > 0 ==> pieces(total, moved, buffer_size).len() == (total - moved + buffer_size
            - 1) / (buffer_size as int),
    decreases total - moved,
{
    let all = pieces(total, moved, buffer_size);
    if moved < total {
        let n = piece(total, moved, buffer_size);
        let rest = pieces(total, moved + n, buffer_size);
        law_pieces_cover_the_transfer(total, moved + n, buffer_size);
        assert(all.subrange(1, all.len() as int) =~= rest);
        assert forall|i: int| 0 <= i < all.len() implies 0 < #[trigger] all[i] <= buffer_size by {
            if i > 0 {
                assert(all[i] == rest[i - 1]);
            }
        }
        assert forall|i: int| 0 <= i < all.len() - 1 implies #[trigger] all[i] == buffer_size by {
            if i > 0 {
                assert(all[i] == rest[i - 1]);
            } else if n < buffer_size {
                assert(moved + n == total);
                assert(rest.len() == 0);
            }
        }
        let left = total - moved;
        if n < buffer_size {
            assert(rest.len() == 0);
            vstd::arithmetic::div_mod::lemma_fundamental_div_mod_converse(
                left + buffer_size - 1,
                buffer_size as int,
                1,
                left - 1,
            );
        } else {
            vstd::arithmetic::div_mod::lemma_div_plus_one(
                left - 1,
                buffer_size as int,
            );
            assert(left - n + buffer_size - 1 == left - 1);
        }
    } else if buffer_size > 0 {
        vstd::arithmetic::div_mod::lemma_basic_div(buffer_size - 1, buffer_size as int);
    }
}

/// What the reads of a transfer can bring: each at least one byte and at most the next
/// piece, and none once everything is there.
pub open spec fn reads_fit(p: Progress, reads: Seq<u64>) -> bool
    decreases reads.len(),
{
    reads.len() == 0 || {
        &&& !p.complete()
        &&& 0 < reads[0] <= p.next_piece()
        &&& reads_fit(p.after(reads[0]), reads.subrange(1, reads.len() as int))
    }
}

/// The progress after some reads.
pub open spec fn after_reads(p: Progress, reads: Seq<u64>) -> Progress
    decreases reads.len(),
{
    if reads.len() == 0 {
        p
    } else {
        after_reads(p.after(reads[0]), reads.subrange(1, reads.len() as int))
    }
}

/// However the bytes arrive, a receiver never takes in more than the total, and a
/// complete transfer took in exactly the total.
pub proof fn law_receiver_takes_exactly_the_total(p: Progress, reads: Seq<u64>)
    requires
        p.wf(),
        reads_fit(p, reads),
    ensures
        after_reads(p, reads).wf(),
        after_reads(p, reads).total == p.total,
        after_reads(p, reads).complete() ==> after_reads(p, reads).moved == p.total,
    decreases reads.len(),
{
    if reads.len() > 0 {
        law_receiver_takes_exactly_the_total(
            p.after(reads[0]),
            reads.subrange(1, reads.len() as int),
        );
    }
}

} // verus!
