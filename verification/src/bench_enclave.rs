//! The enclave side of a benchmark connection.

use crate::control::{
    ack_bytes, law_ack_reads_back, law_message_fields, message_of, read_ack, wants_reverse,
    write_ack, ControlMessage,
};
use crate::io::{io_answers, io_input, io_output, zeros, Io, IoEvent, IoEventView, IoView};
use crate::transfer::Progress;
use crate::wire::{be_value, lemma_be_limits, lemma_be_value_bound};
use vstd::prelude::*;

verus! {

/// Where the enclave stands in a connection.
#[derive(Clone, Copy, Debug, PartialEq, Eq, Structural)]
pub enum EnclavePhase {
    /// The control message has yet to arrive.
    Control,
    /// Data arrives from the host.
    Receive(ControlMessage, Progress),
    /// All data has arrived; its size is to be acknowledged.
    Ack(ControlMessage, u64),
    /// Data goes back to the host.
    Send(ControlMessage, Progress),
    /// All data is out; the host has yet to acknowledge it.
    AwaitAck(ControlMessage),
    /// The connection is over; with the host's count, if data went back.
    Done(Option<u64>),
    /// The host closed the connection in the middle of its data.
    Closed,
}

/// What the enclave does next.
#[derive(Debug)]
pub enum EnclaveAction {
    Io(Io),
    Done,
    Closed,
}

/// What the enclave asks of the stream in a phase; nothing once it is over.
pub open spec fn enclave_io(phase: EnclavePhase) -> Option<IoView> {
    match phase {
        EnclavePhase::Control => Some(IoView::ReadExact(24)),
        EnclavePhase::Receive(_, p) => Some(IoView::ReadSome(p.next_piece())),
        EnclavePhase::Ack(_, n) => Some(IoView::Write(ack_bytes(n))),
        EnclavePhase::Send(_, p) => Some(IoView::Write(zeros(p.next_piece()))),
        EnclavePhase::AwaitAck(_) => Some(IoView::ReadExact(8)),
        EnclavePhase::Done(_) => None,
        EnclavePhase::Closed => None,
    }
}

/// Receiving goes on until everything is there.
pub open spec fn receiving(c: ControlMessage, p: Progress) -> EnclavePhase {
    if p.complete() {
        EnclavePhase::Ack(c, p.moved)
    } else {
        EnclavePhase::Receive(c, p)
    }
}

/// Sending goes on until everything is out.
pub open spec fn sending(c: ControlMessage, p: Progress) -> EnclavePhase {
    if p.complete() {
        EnclavePhase::AwaitAck(c)
    } else {
        EnclavePhase::Send(c, p)
    }
}

/// The phase that follows an answer of the stream.
pub open spec fn enclave_next(phase: EnclavePhase, event: IoEventView) -> EnclavePhase {
    match (phase, event) {
        (EnclavePhase::Control, IoEventView::Bytes(b)) => {
            let c = message_of(b);
            receiving(c, Progress::start_of(c.total_bytes, c.buffer_size))
        },
        (EnclavePhase::Receive(c, p), IoEventView::Count(n)) => if n == 0 {
            EnclavePhase::Closed
        } else {
            receiving(c, p.after(n as u64))
        },
        (EnclavePhase::Ack(c, _), IoEventView::Written) => if wants_reverse(c) {
            sending(c, Progress::start_of(c.total_bytes, c.buffer_size))
        } else {
            EnclavePhase::Done(None)
        },
        (EnclavePhase::Send(c, p), IoEventView::Written) => sending(
            c,
            p.after(p.next_piece() as u64),
        ),
        (EnclavePhase::AwaitAck(_), IoEventView::Bytes(b)) => EnclavePhase::Done(
            Some(be_value(b) as u64),
        ),
        _ => phase,
    }
}

/// A transfer that is under way for a control message.
pub open spec fn under_way(c: ControlMessage, p: Progress) -> bool {
    &&& p.wf()
    &&& !p.complete()
    &&& p.total == c.total_bytes
    &&& p.buffer_size == c.buffer_size
}

/// The phases that a connection can be in.
pub open spec fn enclave_wf(phase: EnclavePhase) -> bool {
    match phase {
        EnclavePhase::Receive(c, p) => under_way(c, p),
        EnclavePhase::Ack(c, n) => n == c.total_bytes,
        EnclavePhase::Send(c, p) => under_way(c, p) && wants_reverse(c),
        EnclavePhase::AwaitAck(c) => wants_reverse(c),
        _ => true,
    }
}

/// The enclave side of one connection.
#[derive(Clone, Copy, Debug, PartialEq, Eq, Structural)]
pub struct EnclaveSession {
    pub phase: EnclavePhase,
}

impl EnclaveSession {
    /// The session is in a phase that a connection can be in.
    pub open spec fn wf(self) -> bool {
        enclave_wf(self.phase)
    }

    /// A connection that has just been accepted.
    pub fn new() -> (r: Self)
        ensures
            r.phase == EnclavePhase::Control,
            r.wf(),
    {
        EnclaveSession { phase: EnclavePhase::Control }
    }

    /// What to do next.
    pub fn action(&self) -> (r: EnclaveAction)
        requires
            self.wf(),
        ensures
            match r {
                EnclaveAction::Io(io) => enclave_io(self.phase) == Some(io@),
                EnclaveAction::Done => self.phase is Done,
                EnclaveAction::Closed => self.phase is Closed,
            },
    {
        match self.phase {
            EnclavePhase::Control => EnclaveAction::Io(Io::ReadExact(24)),
            EnclavePhase::Receive(_, p) => match p.next() {
                Some(n) => EnclaveAction::Io(Io::ReadSome(n)),
                None => EnclaveAction::Closed,
            },
            EnclavePhase::Ack(_, n) => EnclaveAction::Io(Io::Write(write_ack(n))),
            EnclavePhase::Send(_, p) => match p.next() {
                Some(n) => EnclaveAction::Io(Io::WriteZeros(n)),
                None => EnclaveAction::Closed,
            },
            EnclavePhase::AwaitAck(_) => EnclaveAction::Io(Io::ReadExact(8)),
            EnclavePhase::Done(_) => EnclaveAction::Done,
            EnclavePhase::Closed => EnclaveAction::Closed,
        }
    }

    /// Whether `event` answers what is to be done next.
    pub fn accepts(&self, event: &IoEvent) -> (r: bool)
        requires
            self.wf(),
        ensures
            r == (enclave_io(self.phase) matches Some(io) && io_answers(io, event@)),
    {
        match self.action() {
            EnclaveAction::Io(io) => io.answered_by(event),
            _ => false,
        }
    }

    /// The session after the stream answered the last request.
    pub fn on_event(&self, event: &IoEvent) -> (r: Self)
        requires
            self.wf(),
            enclave_io(self.phase) matches Some(io) && io_answers(io, event@),
        ensures
            r.phase == enclave_next(self.phase, event@),
            r.wf(),
    {
        let phase: EnclavePhase = match (self.phase, event) {
            (EnclavePhase::Control, IoEvent::Bytes(b)) => {
                let c = message_in(b);
                let p = Progress::start(c.total_bytes, c.buffer_size);
                Self::receive_on(c, p)
            },
            (EnclavePhase::Receive(c, p), IoEvent::Count(n)) => match p.read(*n) {
                Ok(q) => Self::receive_on(c, q),
                Err(_) => EnclavePhase::Closed,
            },
            (EnclavePhase::Ack(c, _), IoEvent::Written) => if c.reverse_requested() {
                Self::send_on(c, Progress::start(c.total_bytes, c.buffer_size))
            } else {
                EnclavePhase::Done(None)
            },
            (EnclavePhase::Send(c, p), IoEvent::Written) => Self::send_on(c, p.written()),
            (EnclavePhase::AwaitAck(_), IoEvent::Bytes(b)) => EnclavePhase::Done(
                Some(read_ack(b.as_slice())),
            ),
            (other, _) => other,
        };
        EnclaveSession { phase }
    }

    fn receive_on(c: ControlMessage, p: Progress) -> (r: EnclavePhase)
        requires
            p.wf(),
            p.total == c.total_bytes,
            p.buffer_size == c.buffer_size,
        ensures
            r == receiving(c, p),
            enclave_wf(r),
    {
        match p.next() {
            Some(_) => EnclavePhase::Receive(c, p),
            None => EnclavePhase::Ack(c, p.moved),
        }
    }

    fn send_on(c: ControlMessage, p: Progress) -> (r: EnclavePhase)
        requires
            p.wf(),
            p.total == c.total_bytes,
            p.buffer_size == c.buffer_size,
            wants_reverse(c),
        ensures
            r == sending(c, p),
            enclave_wf(r),
    {
        match p.next() {
            Some(_) => EnclavePhase::Send(c, p),
            None => EnclavePhase::AwaitAck(c),
        }
    }
}

fn message_in(b: &Vec<u8>) -> (r: ControlMessage)
    requires
        b@.len() == 24,
    ensures
        r == message_of(b@),
{
    let mut buf: [u8; 24] = [0;24];
    let mut i: usize = 0;
    while i < 24
        invariant
            i <= 24,
            b@.len() == 24,
            forall|j: int| 0 <= j < i ==> buf@[j] == b@[j],
        decreases 24 - i,
    {
        buf[i] = b[i];
        i = i + 1;
    }
    assert(buf@ =~= b@);
    ControlMessage::from_bytes(&buf)
}

/// The phase after a list of answers.
pub open spec fn enclave_run(events: Seq<IoEventView>) -> EnclavePhase
    decreases events.len(),
{
    if events.len() == 0 {
        EnclavePhase::Control
    } else {
        enclave_next(enclave_run(events.drop_last()), events.last())
    }
}

/// Each answer is one to what the enclave asked for.
pub open spec fn enclave_answered(events: Seq<IoEventView>) -> bool
    decreases events.len(),
{
    events.len() == 0 || {
        &&& enclave_answered(events.drop_last())
        &&& enclave_io(enclave_run(events.drop_last())) matches Some(io)
        &&& io_answers(io, events.last())
    }
}

/// The bytes that the enclave wrote.
pub open spec fn enclave_output(events: Seq<IoEventView>) -> Seq<u8>
    decreases events.len(),
{
    if events.len() == 0 {
        Seq::empty()
    } else {
        enclave_output(events.drop_last()) + match enclave_io(enclave_run(events.drop_last())) {
            Some(io) => io_output(io),
            None => Seq::empty(),
        }
    }
}

/// How many bytes the answers took off the stream.
pub open spec fn total_input(events: Seq<IoEventView>) -> nat
    decreases events.len(),
{
    if events.len() == 0 {
        0
    } else {
        total_input(events.drop_last()) + io_input(events.last())
    }
}

/// The control message that the first answer brought.
pub open spec fn opening(events: Seq<IoEventView>) -> ControlMessage {
    match events[0] {
        IoEventView::Bytes(b) => message_of(b),
        _ => arbitrary(),
    }
}

/// What the enclave has read and written, phase by phase.
pub open spec fn enclave_account(
    phase: EnclavePhase,
    c: ControlMessage,
    read: nat,
    written: Seq<u8>,
) -> bool {
    let total = c.total_bytes;
    match phase {
        EnclavePhase::Control => read == 0 && written.len() == 0,
        EnclavePhase::Receive(d, p) => d == c && read == 24 + p.moved && written.len() == 0,
        EnclavePhase::Ack(d, n) => d == c && read == 24 + total && written.len() == 0,
        EnclavePhase::Send(d, p) => d == c && read == 24 + total && written == ack_bytes(total)
            + zeros(p.moved as nat),
        EnclavePhase::AwaitAck(d) => d == c && read == 24 + total && written == ack_bytes(total)
            + zeros(total as nat),
        EnclavePhase::Done(None) => !wants_reverse(c) && read == 24 + total && written == ack_bytes(
            total,
        ),
        EnclavePhase::Done(Some(_)) => wants_reverse(c) && read == 24 + total + 8 && written
            == ack_bytes(total) + zeros(total as nat),
        EnclavePhase::Closed => read < 24 + total && written.len() == 0,
    }
}

/// However the stream splits the data, the enclave takes in the control message and
/// then exactly as many bytes as it announces, acknowledges exactly that count, and
/// sends as many zero bytes back if and only if it was asked to.
pub proof fn law_enclave_run(events: Seq<IoEventView>)
    requires
        enclave_answered(events),
    ensures
        enclave_wf(enclave_run(events)),
        enclave_account(
            enclave_run(events),
            opening(events),
            total_input(events),
            enclave_output(events),
        ),
    decreases events.len(),
{
    if events.len() > 0 {
        let before = events.drop_last();
        law_enclave_run(before);
        let phase = enclave_run(before);
        let c = opening(events);
        if before.len() > 0 {
            assert(opening(before) == c);
        }
        let out = enclave_output(before);
        match (phase, events.last()) {
            (EnclavePhase::Control, IoEventView::Bytes(b)) => {
                assert(before.len() == 0) by {
                    if before.len() > 0 {
                        lemma_left_control(before);
                    }
                }
                lemma_be_limits();
                lemma_be_value_bound(b.subrange(0, 8));
                assert(out + Seq::<u8>::empty() =~= Seq::<u8>::empty());
            },
            (EnclavePhase::Receive(_, p), IoEventView::Count(n)) => {
                assert(out + Seq::<u8>::empty() =~= Seq::<u8>::empty());
            },
            (EnclavePhase::Ack(_, n), _) => {
                assert(out + ack_bytes(n) =~= ack_bytes(n));
                assert(ack_bytes(n) + zeros(0) =~= ack_bytes(n));
            },
            (EnclavePhase::Send(_, p), _) => {
                let n = p.next_piece();
                assert(out + zeros(n) =~= ack_bytes(c.total_bytes) + zeros(p.moved as nat + n));
            },
            (EnclavePhase::AwaitAck(_), _) => {
                assert(out + Seq::<u8>::empty() =~= out);
            },
            _ => {},
        }
    }
}

proof fn lemma_left_control(events: Seq<IoEventView>)
    requires
        enclave_answered(events),
        events.len() > 0,
    ensures
        enclave_run(events) != EnclavePhase::Control,
    decreases events.len(),
{
    if events.len() > 1 {
        lemma_left_control(events.drop_last());
    }
}

/// A bound on how many events are still to come in a connection with this control
/// message.
pub open spec fn enclave_events_left(phase: EnclavePhase, c: ControlMessage) -> nat {
    let total = c.total_bytes as nat;
    match phase {
        EnclavePhase::Done(_) => 0,
        EnclavePhase::Closed => 0,
        EnclavePhase::AwaitAck(_) => 1,
        EnclavePhase::Send(_, p) => 1 + (total - p.moved) as nat,
        EnclavePhase::Ack(_, _) => 2 + total,
        EnclavePhase::Receive(_, p) => 2 + total + (total - p.moved) as nat,
        EnclavePhase::Control => 3 + 2 * total,
    }
}

/// Nothing arrives through a buffer that holds nothing.
proof fn lemma_buffer_holds(events: Seq<IoEventView>)
    requires
        enclave_answered(events),
    ensures
        match enclave_run(events) {
            EnclavePhase::Receive(c, p) => p.moved > 0 ==> c.buffer_size > 0,
            EnclavePhase::Ack(c, _) => c.total_bytes > 0 ==> c.buffer_size > 0,
            EnclavePhase::Send(c, _) => c.buffer_size > 0,
            _ => true,
        },
    decreases events.len(),
{
    if events.len() > 0 {
        lemma_buffer_holds(events.drop_last());
        law_enclave_run(events.drop_last());
        law_enclave_run(events);
    }
}

/// Every connection ends: it cannot see more events than a number fixed by its control
/// message.
pub proof fn law_enclave_run_ends(events: Seq<IoEventView>)
    requires
        enclave_answered(events),
        events.len() > 0,
    ensures
        events.len() + enclave_events_left(enclave_run(events), opening(events))
            <= enclave_events_left(EnclavePhase::Control, opening(events)),
    decreases events.len(),
{
    let before = events.drop_last();
    law_enclave_run(before);
    law_enclave_run(events);
    lemma_buffer_holds(before);
    if before.len() > 0 {
        assert(opening(before) == opening(events));
        lemma_left_control(before);
        law_enclave_run_ends(before);
    }
}

/// What the enclave asks for next follows from the 24 bytes that opened the connection and
/// from how much was read and written since: first so many bytes as the message announces,
/// a buffer at a time or what is left; then eight bytes that spell that number; then, only
/// if the lowest flag bit was set, as many zero bytes, a buffer at a time or what is left,
/// and the eight bytes of the host's acknowledgement. Only a read that brings nothing ends
/// it early.
pub proof fn law_enclave_requests(events: Seq<IoEventView>, head: Seq<u8>)
    requires
        enclave_answered(events),
        events.len() > 0,
        events[0] == IoEventView::Bytes(head),
    ensures
        head.len() == 24,
        ({
            let total = be_value(head.subrange(0, 8));
            let buffer = be_value(head.subrange(8, 16));
            let back = head[23] % 2 == 1;
            let got = total_input(events);
            let put = enclave_output(events);
            let asks = enclave_io(enclave_run(events));
            &&& enclave_run(events) is Closed <==> events.last() == IoEventView::Count(0)
            &&& !(enclave_run(events) is Closed) ==> {
                &&& got < 24 + total ==> {
                    &&& put.len() == 0
                    &&& asks matches Some(IoView::ReadSome(n))
                    &&& n <= buffer && n <= 24 + total - got
                    &&& n == buffer || n == 24 + total - got
                }
                &&& got == 24 + total && put.len() == 0 ==> {
                    &&& asks matches Some(IoView::Write(w))
                    &&& w.len() == 8 && be_value(w) == total
                }
                &&& put.len() > 0 ==> {
                    &&& got >= 24 + total
                    &&& put.len() >= 8
                    &&& be_value(put.subrange(0, 8)) == total
                    &&& forall|i: int| 8 <= i < put.len() ==> put[i] == 0
                }
                &&& put.len() > 0 && !back ==> {
                    &&& put.len() == 8
                    &&& got == 24 + total
                    &&& enclave_run(events) == EnclavePhase::Done(None)
                }
                &&& put.len() > 0 && back && put.len() < 8 + total ==> {
                    &&& got == 24 + total
                    &&& asks matches Some(IoView::Write(w))
                    &&& w.len() <= buffer && w.len() <= 8 + total - put.len()
                    &&& w.len() == buffer || w.len() == 8 + total - put.len()
                    &&& forall|i: int| 0 <= i < w.len() ==> w[i] == 0
                }
                &&& put.len() > 0 && back && put.len() >= 8 + total ==> {
                    &&& put.len() == 8 + total
                    &&& got == 24 + total ==> asks == Some(IoView::ReadExact(8))
                    &&& got != 24 + total ==> got == 32 + total && {
                        &&& events.last() matches IoEventView::Bytes(ack)
                        &&& enclave_run(events) == EnclavePhase::Done(Some(be_value(ack) as u64))
                        &&& ack.len() == 8
                    }
                }
            }
        }),
{
    law_enclave_run(events);
    lemma_left_control(events);
    lemma_opened(events);
    law_message_fields(head);
    let before = events.drop_last();
    law_enclave_run(before);
    let c = message_of(head);
    assert(opening(events) == c);
    law_ack_reads_back(c.total_bytes);
    let ack = ack_bytes(c.total_bytes);
    let put = enclave_output(events);
    if put.len() > 0 && !(enclave_run(events) is Closed) {
        assert(put.subrange(0, 8) =~= ack);
    }
}

/// The first thing that the enclave asks for is 24 bytes.
pub proof fn law_enclave_begins()
    ensures
        enclave_io(enclave_run(Seq::empty())) == Some(IoView::ReadExact(24)),
{
}

/// The first answer is the 24 bytes that were asked for first.
proof fn lemma_opened(events: Seq<IoEventView>)
    requires
        enclave_answered(events),
        events.len() > 0,
    ensures
        events[0] matches IoEventView::Bytes(b) && b.len() == 24,
    decreases events.len(),
{
    if events.len() > 1 {
        lemma_opened(events.drop_last());
    } else {
        assert(events.drop_last() =~= Seq::<IoEventView>::empty());
    }
}

} // verus!
