//! What a session asks of its byte stream, and what comes back.

use vstd::prelude::*;

verus! {

/// `n` zero bytes.
pub open spec fn zeros(n: nat) -> Seq<u8> {
    Seq::new(n, |i: int| 0u8)
}

/// A request to the byte stream.
#[derive(Debug)]
pub enum Io {
    /// Read exactly this many bytes.
    ReadExact(u64),
    /// Read once, at most this many bytes.
    ReadSome(u64),
    /// Write all of these bytes.
    Write(Vec<u8>),
    /// Write this many zero bytes.
    WriteZeros(u64),
}

/// What the byte stream did.
#[derive(Debug)]
pub enum IoEvent {
    /// The bytes that an exact read brought.
    Bytes(Vec<u8>),
    /// How many bytes one read brought.
    Count(u64),
    /// Everything was written.
    Written,
}

/// A request, as the bytes it is about.
pub enum IoView {
    ReadExact(nat),
    ReadSome(nat),
    Write(Seq<u8>),
}

/// An answer, as the bytes it is about.
pub enum IoEventView {
    Bytes(Seq<u8>),
    Count(nat),
    Written,
}

impl View for Io {
    type V = IoView;

    open spec fn view(&self) -> IoView {
        match self {
            Io::ReadExact(n) => IoView::ReadExact(*n as nat),
            Io::ReadSome(n) => IoView::ReadSome(*n as nat),
            Io::Write(b) => IoView::Write(b@),
            Io::WriteZeros(n) => IoView::Write(zeros(*n as nat)),
        }
    }
}

impl View for IoEvent {
    type V = IoEventView;

    open spec fn view(&self) -> IoEventView {
        match self {
            IoEvent::Bytes(b) => IoEventView::Bytes(b@),
            IoEvent::Count(n) => IoEventView::Count(*n as nat),
            IoEvent::Written => IoEventView::Written,
        }
    }
}

/// `event` answers `io`.
pub open spec fn io_answers(io: IoView, event: IoEventView) -> bool {
    match (io, event) {
        (IoView::ReadExact(n), IoEventView::Bytes(b)) => b.len() == n,
        (IoView::ReadSome(n), IoEventView::Count(c)) => c <= n,
        (IoView::Write(_), IoEventView::Written) => true,
        _ => false,
    }
}

/// The bytes that a request puts on the stream.
pub open spec fn io_output(io: IoView) -> Seq<u8> {
    match io {
        IoView::Write(b) => b,
        _ => Seq::empty(),
    }
}

/// How many bytes an answer took off the stream.
pub open spec fn io_input(event: IoEventView) -> nat {
    match event {
        IoEventView::Bytes(b) => b.len(),
        IoEventView::Count(c) => c,
        IoEventView::Written => 0,
    }
}

impl Io {
    /// Whether `event` answers this request.
    pub fn answered_by(&self, event: &IoEvent) -> (r: bool)
        ensures
            r == io_answers(self@, event@),
    {
        match (self, event) {
            (Io::ReadExact(n), IoEvent::Bytes(b)) => b.len() as u64 == *n,
            (Io::ReadSome(n), IoEvent::Count(c)) => *c <= *n,
            (Io::Write(_), IoEvent::Written) => true,
            (Io::WriteZeros(_), IoEvent::Written) => true,
            _ => false,
        }
    }
}

/// What requests and answers are about: the bytes to write, as many zeros as were asked
/// for, the count to read; the bytes or the count that came. An exact read is answered by
/// exactly so many bytes, a read by at most so many, a write by having been done.
pub proof fn law_requests_and_answers(n: u64, c: u64, b: Vec<u8>)
    ensures
        zeros(n as nat).len() == n,
        forall|i: int| 0 <= i < n ==> #[trigger] zeros(n as nat)[i] == 0,
        Io::ReadExact(n)@ == IoView::ReadExact(n as nat),
        Io::ReadSome(n)@ == IoView::ReadSome(n as nat),
        Io::Write(b)@ == IoView::Write(b@),
        Io::WriteZeros(n)@ == IoView::Write(zeros(n as nat)),
        IoEvent::Bytes(b)@ == IoEventView::Bytes(b@),
        IoEvent::Count(c)@ == IoEventView::Count(c as nat),
        io_answers(Io::ReadExact(n)@, IoEvent::Bytes(b)@) == (b@.len() == n),
        io_answers(Io::ReadSome(n)@, IoEvent::Count(c)@) == (c <= n),
        io_answers(Io::Write(b)@, IoEvent::Written@),
        io_answers(Io::WriteZeros(n)@, IoEvent::Written@),
        io_output(Io::Write(b)@) == b@,
        io_output(Io::WriteZeros(n)@) == zeros(n as nat),
        io_output(Io::ReadExact(n)@).len() == 0 && io_output(Io::ReadSome(n)@).len() == 0,
        io_input(IoEvent::Bytes(b)@) == b@.len(),
        io_input(IoEvent::Count(c)@) == c,
        io_input(IoEvent::Written@) == 0,
{
}

} // verus!
