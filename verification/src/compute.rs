//! One attested computation: a request frame comes in, the output and a document that
//! is bound to input and output go back.

use crate::attestation::{
    nsm_answers, nsm_next, NsmEvent, NsmResponse, NsmSession, NsmView, RequestView,
};
use crate::binding::{attest_computation, bound_request};
use crate::crypto::sha256;
use crate::frame::{answer, encode_answer, frame, law_frame_reads_back, payload_of};
use crate::io::{io_answers, Io, IoEvent, IoEventView, IoView};
use crate::text::{decimal, number, push_decimal, IntError};
use crate::wire::{
    be_value, law_be_bytes_of_value, lemma_be_limits, lemma_be_value_bound, read_be,
};
use vstd::prelude::*;
use vstd::string::StringExecFns;

verus! {

broadcast use vstd::string::group_string_axioms;

/// The vsock port of the service.
pub const COMPUTE_PORT: u32 = 5000;

/// Where a computation stands.
#[derive(Debug)]
pub enum ComputePhase {
    /// The length of the input has yet to arrive.
    Length,
    /// So many bytes of input have yet to arrive.
    Input(u64),
    /// The output is to be computed from this input.
    Compute(Vec<u8>),
    /// A document is to be obtained for this input and this output.
    Attest(Vec<u8>, Vec<u8>, NsmSession),
    /// For this input, this output and this document are to be sent.
    Answer(Vec<u8>, Vec<u8>, Vec<u8>),
    /// The answer is out.
    Done,
    /// There is no answer, for this reason.
    Failed(String),
}

/// A phase, its contents as sequences.
pub enum ComputeView {
    Length,
    Input(nat),
    Compute(Seq<u8>),
    Attest(Seq<u8>, Seq<u8>, NsmView),
    Answer(Seq<u8>, Seq<u8>, Seq<u8>),
    Done,
    Failed(Seq<char>),
}

impl View for ComputePhase {
    type V = ComputeView;

    open spec fn view(&self) -> ComputeView {
        match self {
            ComputePhase::Length => ComputeView::Length,
            ComputePhase::Input(n) => ComputeView::Input(*n as nat),
            ComputePhase::Compute(input) => ComputeView::Compute(input@),
            ComputePhase::Attest(input, output, x) => ComputeView::Attest(input@, output@, x@),
            ComputePhase::Answer(input, output, d) => ComputeView::Answer(input@, output@, d@),
            ComputePhase::Done => ComputeView::Done,
            ComputePhase::Failed(e) => ComputeView::Failed(e@),
        }
    }
}

/// What to do next. What it is to be done with stands in the phase.
#[derive(Debug)]
pub enum ComputeAction {
    /// Use the connection.
    Io(Io),
    /// Compute the output from the input.
    Compute,
    /// Take the next step of the exchange with the security module.
    Attest,
    /// The answer is out.
    Done,
    /// There is no answer.
    Failed,
}

/// What came of an action.
#[derive(Debug)]
pub enum ComputeEvent {
    /// The connection did what it was asked.
    Io(IoEvent),
    /// The connection failed.
    Broken(String),
    /// The output that was computed.
    Output(Vec<u8>),
    /// Nothing can be computed from the input.
    Rejected(String),
    /// What came of a step of the exchange.
    Nsm(NsmEvent),
}

/// An event, as the bytes and characters it is about.
pub enum ComputeEventView {
    Io(IoEventView),
    Broken(Seq<char>),
    Output(Seq<u8>),
    Rejected(Seq<char>),
    Nsm(NsmEvent),
}

impl View for ComputeEvent {
    type V = ComputeEventView;

    open spec fn view(&self) -> ComputeEventView {
        match self {
            ComputeEvent::Io(e) => ComputeEventView::Io(e@),
            ComputeEvent::Broken(e) => ComputeEventView::Broken(e@),
            ComputeEvent::Output(o) => ComputeEventView::Output(o@),
            ComputeEvent::Rejected(e) => ComputeEventView::Rejected(e@),
            ComputeEvent::Nsm(e) => ComputeEventView::Nsm(*e),
        }
    }
}

/// A length that four bytes can announce.
pub open spec fn announceable(len: nat) -> bool {
    len < 0x1_0000_0000
}

/// Output and document fit in two frames, and these in memory.
pub open spec fn answer_fits(output: Seq<u8>, document: Seq<u8>) -> bool {
    &&& announceable(output.len())
    &&& announceable(document.len())
    &&& output.len() + document.len() + 8 <= isize::MAX
}

/// What a computation asks of the connection, if it asks for anything.
pub open spec fn compute_io(phase: ComputeView) -> Option<IoView> {
    match phase {
        ComputeView::Length => Some(IoView::ReadExact(4)),
        ComputeView::Input(n) => Some(IoView::ReadExact(n)),
        ComputeView::Answer(_, output, document) => Some(IoView::Write(answer(output, document))),
        _ => None,
    }
}

/// `event` can come of what a computation does in a phase.
pub open spec fn compute_answers(phase: ComputeView, event: ComputeEventView) -> bool {
    match phase {
        ComputeView::Compute(_) => match event {
            ComputeEventView::Output(output) => announceable(output.len()),
            ComputeEventView::Rejected(_) => true,
            _ => false,
        },
        ComputeView::Attest(_, output, exchange) => match event {
            ComputeEventView::Nsm(e) => nsm_answers(exchange, e) && (match e {
                NsmEvent::Answered(NsmResponse::Attestation(d)) => answer_fits(output, d@),
                _ => true,
            }),
            _ => false,
        },
        _ => match (compute_io(phase), event) {
            (Some(io), ComputeEventView::Io(e)) => io_answers(io, e),
            (Some(_), ComputeEventView::Broken(_)) => true,
            _ => false,
        },
    }
}

/// The phase after a step of the exchange.
pub open spec fn attesting(input: Seq<u8>, output: Seq<u8>, exchange: NsmView) -> ComputeView {
    match exchange {
        NsmView::Done(Ok(document)) => ComputeView::Answer(input, output, document),
        NsmView::Done(Err(e)) => ComputeView::Failed(e),
        _ => ComputeView::Attest(input, output, exchange),
    }
}

/// The phase that follows an event. `vsock` tells whether there is a security module.
pub open spec fn compute_next(
    vsock: bool,
    phase: ComputeView,
    event: ComputeEventView,
) -> ComputeView {
    match (phase, event) {
        (ComputeView::Length, ComputeEventView::Io(IoEventView::Bytes(b))) => ComputeView::Input(
            be_value(b),
        ),
        (ComputeView::Input(_), ComputeEventView::Io(IoEventView::Bytes(b))) =>
            ComputeView::Compute(b),
        (ComputeView::Compute(input), ComputeEventView::Output(output)) => if vsock {
            ComputeView::Attest(input, output, NsmView::Init(bound_request(input, output)))
        } else {
            ComputeView::Failed("attestation is not supported without the vsock feature"@)
        },
        (ComputeView::Compute(_), ComputeEventView::Rejected(e)) => ComputeView::Failed(e),
        (ComputeView::Attest(input, output, exchange), ComputeEventView::Nsm(e)) => attesting(
            input,
            output,
            nsm_next(exchange, e),
        ),
        (ComputeView::Answer(_, _, _), ComputeEventView::Io(_)) => ComputeView::Done,
        (_, ComputeEventView::Broken(e)) => ComputeView::Failed(e),
        _ => phase,
    }
}

/// The phases that a computation can be in.
pub open spec fn compute_wf(phase: ComputeView) -> bool {
    match phase {
        ComputeView::Input(n) => announceable(n),
        ComputeView::Compute(input) => announceable(input.len()),
        ComputeView::Attest(_, output, exchange) => announceable(output.len()) && (match exchange {
            NsmView::Exit(_, Ok(document)) => answer_fits(output, document),
            NsmView::Done(_) => false,
            _ => true,
        }),
        ComputeView::Answer(_, output, document) => answer_fits(output, document),
        _ => true,
    }
}

/// One computation. `vsock` tells whether this is an enclave, which has a security
/// module to ask.
#[derive(Debug)]
pub struct ComputeSession {
    pub vsock: bool,
    pub phase: ComputePhase,
}

impl ComputeSession {
    /// The computation is in a phase that one can be in.
    pub open spec fn wf(self) -> bool {
        compute_wf(self.phase@)
    }

    /// A connection that has just been accepted.
    pub fn new(vsock: bool) -> (r: Self)
        ensures
            r.vsock == vsock,
            r.phase@ == ComputeView::Length,
            r.wf(),
    {
        ComputeSession { vsock, phase: ComputePhase::Length }
    }

    /// What to do next.
    pub fn action(&self) -> (r: ComputeAction)
        requires
            self.wf(),
        ensures
            match r {
                ComputeAction::Io(io) => compute_io(self.phase@) == Some(io@),
                ComputeAction::Compute => self.phase@ is Compute,
                ComputeAction::Attest => self.phase@ is Attest,
                ComputeAction::Done => self.phase@ is Done,
                ComputeAction::Failed => self.phase@ is Failed,
            },
    {
        match &self.phase {
            ComputePhase::Length => ComputeAction::Io(Io::ReadExact(4)),
            ComputePhase::Input(n) => ComputeAction::Io(Io::ReadExact(*n)),
            ComputePhase::Compute(_) => ComputeAction::Compute,
            ComputePhase::Attest(_, _, _) => ComputeAction::Attest,
            ComputePhase::Answer(_, output, document) => ComputeAction::Io(
                Io::Write(encode_answer(output.as_slice(), document.as_slice())),
            ),
            ComputePhase::Done => ComputeAction::Done,
            ComputePhase::Failed(_) => ComputeAction::Failed,
        }
    }

    /// Whether `event` can come of what is to be done next.
    pub fn accepts(&self, event: &ComputeEvent) -> (r: bool)
        requires
            self.wf(),
        ensures
            r == compute_answers(self.phase@, event@),
    {
        match (&self.phase, event) {
            (ComputePhase::Compute(_), ComputeEvent::Output(output)) => (output.len() as u64)
                < 0x1_0000_0000,
            (ComputePhase::Compute(_), ComputeEvent::Rejected(_)) => true,
            (ComputePhase::Attest(_, output, exchange), ComputeEvent::Nsm(e)) => {
                let fits: bool = match e {
                    NsmEvent::Answered(NsmResponse::Attestation(d)) => fits_answer(
                        output.len(),
                        d.len(),
                    ),
                    _ => true,
                };
                exchange.accepts(e) && fits
            },
            (ComputePhase::Length, ComputeEvent::Io(e)) => Io::ReadExact(4).answered_by(e),
            (ComputePhase::Input(n), ComputeEvent::Io(e)) => Io::ReadExact(*n).answered_by(e),
            (ComputePhase::Answer(_, _, _), ComputeEvent::Io(IoEvent::Written)) => true,
            (ComputePhase::Length, ComputeEvent::Broken(_)) => true,
            (ComputePhase::Input(_), ComputeEvent::Broken(_)) => true,
            (ComputePhase::Answer(_, _, _), ComputeEvent::Broken(_)) => true,
            _ => false,
        }
    }

    /// The computation after what came of the last action.
    pub fn on_event(self, event: ComputeEvent) -> (r: Self)
        requires
            self.wf(),
            compute_answers(self.phase@, event@),
        ensures
            r.vsock == self.vsock,
            r.phase@ == compute_next(self.vsock, self.phase@, event@),
            r.wf(),
    {
        let vsock: bool = self.vsock;
        let phase: ComputePhase = match (self.phase, event) {
            (ComputePhase::Length, ComputeEvent::Io(IoEvent::Bytes(b))) => {
                proof {
                    lemma_be_value_bound(b@);
                    lemma_be_limits();
                    assert(b@.subrange(0, 4) =~= b@);
                }
                ComputePhase::Input(read_be(b.as_slice(), 0, 4))
            },
            (ComputePhase::Input(_), ComputeEvent::Io(IoEvent::Bytes(b))) => ComputePhase::Compute(
                b,
            ),
            (ComputePhase::Compute(input), ComputeEvent::Output(output)) =>
                match attest_computation(vsock, input.as_slice(), output.as_slice()) {
                    Ok(exchange) => ComputePhase::Attest(input, output, exchange),
                    Err(e) => ComputePhase::Failed(e),
                },
            (ComputePhase::Compute(_), ComputeEvent::Rejected(e)) => ComputePhase::Failed(e),
            (ComputePhase::Attest(input, output, exchange), ComputeEvent::Nsm(e)) =>
                match exchange.on_event(e) {
                    NsmSession::Done(Ok(document)) => ComputePhase::Answer(input, output, document),
                    NsmSession::Done(Err(e)) => ComputePhase::Failed(e),
                    other => ComputePhase::Attest(input, output, other),
                },
            (ComputePhase::Answer(_, _, _), ComputeEvent::Io(_)) => ComputePhase::Done,
            (_, ComputeEvent::Broken(e)) => ComputePhase::Failed(e),
            (other, _) => other,
        };
        ComputeSession { vsock, phase }
    }
}

fn fits_answer(output: usize, document: usize) -> (r: bool)
    ensures
        r == (announceable(output as nat) && announceable(document as nat) && output + document + 8
            <= isize::MAX),
{
    let total: u128 = output as u128 + document as u128 + 8;
    (output as u64) < 0x1_0000_0000 && (document as u64) < 0x1_0000_0000 && total
        <= isize::MAX as u128
}

/// The phase after a list of events.
pub open spec fn compute_run(vsock: bool, events: Seq<ComputeEventView>) -> ComputeView
    decreases events.len(),
{
    if events.len() == 0 {
        ComputeView::Length
    } else {
        compute_next(vsock, compute_run(vsock, events.drop_last()), events.last())
    }
}

/// Each event is one that can come of what was done before it.
pub open spec fn compute_answered(vsock: bool, events: Seq<ComputeEventView>) -> bool
    decreases events.len(),
{
    events.len() == 0 || {
        &&& compute_answered(vsock, events.drop_last())
        &&& compute_answers(compute_run(vsock, events.drop_last()), events.last())
    }
}

/// The bytes that were read.
pub open spec fn bytes_read(events: Seq<ComputeEventView>) -> Seq<u8>
    decreases events.len(),
{
    if events.len() == 0 {
        Seq::empty()
    } else {
        bytes_read(events.drop_last()) + match events.last() {
            ComputeEventView::Io(IoEventView::Bytes(b)) => b,
            _ => Seq::empty(),
        }
    }
}

/// The bytes that were written.
pub open spec fn bytes_written(vsock: bool, events: Seq<ComputeEventView>) -> Seq<u8>
    decreases events.len(),
{
    if events.len() == 0 {
        Seq::empty()
    } else {
        bytes_written(vsock, events.drop_last()) + match (
            compute_io(compute_run(vsock, events.drop_last())),
            events.last(),
        ) {
            (Some(IoView::Write(b)), ComputeEventView::Io(_)) => b,
            _ => Seq::empty(),
        }
    }
}

/// The output that was computed.
pub open spec fn output_in(events: Seq<ComputeEventView>) -> Option<Seq<u8>>
    decreases events.len(),
{
    if events.len() == 0 {
        None
    } else {
        match events.last() {
            ComputeEventView::Output(output) => Some(output),
            _ => output_in(events.drop_last()),
        }
    }
}

/// The document that the security module gave.
pub open spec fn document_in(events: Seq<ComputeEventView>) -> Option<Seq<u8>>
    decreases events.len(),
{
    if events.len() == 0 {
        None
    } else {
        match events.last() {
            ComputeEventView::Nsm(NsmEvent::Answered(NsmResponse::Attestation(d))) => Some(d@),
            _ => document_in(events.drop_last()),
        }
    }
}

/// The requests that the security module answered, in order.
pub open spec fn requests_in(vsock: bool, events: Seq<ComputeEventView>) -> Seq<RequestView>
    decreases events.len(),
{
    if events.len() == 0 {
        Seq::empty()
    } else {
        match (compute_run(vsock, events.drop_last()), events.last()) {
            (
                ComputeView::Attest(_, _, NsmView::Process(_, q)),
                ComputeEventView::Nsm(NsmEvent::Answered(_)),
            ) => requests_in(vsock, events.drop_last()).push(q),
            _ => requests_in(vsock, events.drop_last()),
        }
    }
}

/// What has been read, computed, requested and written, phase by phase.
pub open spec fn compute_account(
    phase: ComputeView,
    read: Seq<u8>,
    written: Seq<u8>,
    output: Option<Seq<u8>>,
    document: Option<Seq<u8>>,
    requests: Seq<RequestView>,
) -> bool {
    let quiet = written.len() == 0;
    let unasked = requests.len() == 0 && document is None;
    match phase {
        ComputeView::Length => quiet && unasked && output is None && read.len() == 0,
        ComputeView::Input(n) => quiet && unasked && output is None && read.len() == 4 && n
            == be_value(read),
        ComputeView::Compute(input) => quiet && unasked && output is None && read == frame(input),
        ComputeView::Attest(input, o, exchange) => {
            &&& quiet
            &&& read == frame(input)
            &&& announceable(input.len())
            &&& output == Some(o)
            &&& match exchange {
                NsmView::Init(q) => unasked && q == bound_request(input, o),
                NsmView::Process(_, q) => unasked && q == bound_request(input, o),
                NsmView::Exit(_, outcome) => requests == seq![bound_request(input, o)] && (
                outcome matches Ok(d) ==> document == Some(d)),
                NsmView::Done(_) => false,
            }
        },
        ComputeView::Answer(input, o, d) => {
            &&& quiet
            &&& read == frame(input)
            &&& announceable(input.len())
            &&& output == Some(o)
            &&& document == Some(d)
            &&& requests == seq![bound_request(input, o)]
        },
        ComputeView::Done => {
            &&& read == frame(payload_of(read))
            &&& announceable(payload_of(read).len())
            &&& output matches Some(o)
            &&& document matches Some(d)
            &&& answer_fits(o, d)
            &&& written == answer(o, d)
            &&& requests == seq![bound_request(payload_of(read), o)]
        },
        ComputeView::Failed(_) => quiet,
    }
}

/// A computation that is done read exactly one frame, asked the security module exactly
/// once, for a document bound to that frame's payload and the output, and wrote exactly
/// the output and that document, in two frames; one that is not done wrote nothing.
pub proof fn law_compute_run(vsock: bool, events: Seq<ComputeEventView>)
    requires
        compute_answered(vsock, events),
    ensures
        compute_wf(compute_run(vsock, events)),
        compute_account(
            compute_run(vsock, events),
            bytes_read(events),
            bytes_written(vsock, events),
            output_in(events),
            document_in(events),
            requests_in(vsock, events),
        ),
    decreases events.len(),
{
    if events.len() > 0 {
        let before = events.drop_last();
        law_compute_run(vsock, before);
        let phase = compute_run(vsock, before);
        let read = bytes_read(before);
        let written = bytes_written(vsock, before);
        let nothing = Seq::<u8>::empty();
        assert(read + nothing =~= read);
        assert(written + nothing =~= written);
        lemma_be_limits();
        match (phase, events.last()) {
            (ComputeView::Length, ComputeEventView::Io(IoEventView::Bytes(b))) => {
                assert(read + b =~= b);
                lemma_be_value_bound(b);
            },
            (ComputeView::Input(n), ComputeEventView::Io(IoEventView::Bytes(b))) => {
                law_be_bytes_of_value(read);
                assert(read + b =~= frame(b));
            },
            (ComputeView::Attest(input, o, NsmView::Process(_, q)), _) => {
                assert(requests_in(vsock, before).push(q) =~= seq![q]);
            },
            (ComputeView::Answer(input, o, d), ComputeEventView::Io(_)) => {
                assert(written + answer(o, d) =~= answer(o, d));
                law_frame_reads_back(input, nothing);
                assert(frame(input) + nothing =~= frame(input));
            },
            _ => {},
        }
    }
}

/// The sum of a list of numbers.
pub open spec fn sum_of(values: Seq<i64>) -> int
    decreases values.len(),
{
    if values.len() == 0 {
        0
    } else {
        sum_of(values.drop_last()) + values.last()
    }
}

/// A whole number in decimal, with a minus sign if it is negative.
pub open spec fn int_text(n: int) -> Seq<char> {
    if n < 0 {
        "-"@ + decimal((-n) as nat)
    } else {
        decimal(n as nat)
    }
}

/// The output of the sample computation, which sums a list of numbers.
pub open spec fn sample_text(sum: int) -> Seq<char> {
    "{\"result\":"@ + int_text(sum) + ",\"processed\":true}"@
}

/// The sample computation: the sum of some numbers as a JSON object. `None` if the sum
/// does not fit in 64 bits.
pub fn sample_output(values: &[i64]) -> (r: Option<String>)
    ensures
        match r {
            Some(t) => i64::MIN <= sum_of(values@) <= i64::MAX && t@ == sample_text(
                sum_of(values@),
            ),
            None => !(i64::MIN <= sum_of(values@) <= i64::MAX),
        },
{
    let n: usize = values.len();
    let mut sum: i128 = 0;
    let mut i: usize = 0;
    assert(values@.take(0) =~= Seq::<i64>::empty());
    while i < n
        invariant
            i <= n,
            n == values@.len(),
            sum == sum_of(values@.take(i as int)),
            -0x8000_0000_0000_0000 * i <= sum <= 0x8000_0000_0000_0000 * i,
        decreases n - i,
    {
        assert(values@.take(i + 1).drop_last() =~= values@.take(i as int));
        sum = sum + values[i] as i128;
        i = i + 1;
    }
    assert(values@.take(n as int) =~= values@);
    if sum < i64::MIN as i128 || sum > i64::MAX as i128 {
        return None;
    }
    let mut out = String::from_str("{\"result\":");
    if sum < 0 {
        out.append("-");
        push_decimal(&mut out, (-sum) as u64);
    } else {
        push_decimal(&mut out, sum as u64);
    }
    out.append(",\"processed\":true}");
    assert(out@ =~= sample_text(sum as int));
    Some(out)
}

/// Every value counts: nothing sums to zero, a value on its own to itself, and two lists
/// one after the other to what they sum to together.
pub proof fn law_every_value_counts(a: Seq<i64>, b: Seq<i64>, v: i64)
    ensures
        sum_of(Seq::empty()) == 0,
        sum_of(seq![v]) == v,
        sum_of(a.push(v)) == sum_of(a) + v,
        sum_of(a + b) == sum_of(a) + sum_of(b),
    decreases b.len(),
{
    reveal_with_fuel(sum_of, 3);
    assert(a.push(v).drop_last() =~= a);
    assert(seq![v].drop_last() =~= Seq::<i64>::empty());
    if b.len() > 0 {
        law_every_value_counts(a, b.drop_last(), v);
        assert((a + b).drop_last() =~= a + b.drop_last());
        assert((a + b).last() == b.last());
    } else {
        assert(a + b =~= a);
    }
}

/// The order of the values does not matter to their sum.
pub proof fn law_order_does_not_matter(a: Seq<i64>, b: Seq<i64>)
    ensures
        sum_of(a + b) == sum_of(b + a),
{
    law_every_value_counts(a, b, 0);
    law_every_value_counts(b, a, 0);
}

/// The output of the sample computation is a JSON object whose result reads back as the
/// sum, with a minus sign exactly if it is negative.
pub proof fn law_sample_reads_back(sum: int)
    ensures
        ({
            let text = sample_text(sum);
            let n = text.len() as int;
            &&& n > 28
            &&& text.subrange(0, 10) == "{\"result\":"@
            &&& text.subrange(n - 18, n) == ",\"processed\":true}"@
            &&& sum >= 0 ==> number(text.subrange(10, n - 18), sum as nat) == Ok::<nat, IntError>(
                sum as nat,
            )
            &&& sum < 0 ==> text[10] == '-' && number(text.subrange(11, n - 18), (-sum) as nat)
                == Ok::<nat, IntError>((-sum) as nat)
        }),
{
    reveal_strlit("{\"result\":");
    reveal_strlit(",\"processed\":true}");
    reveal_strlit("-");
    let text = sample_text(sum);
    let n = text.len() as int;
    let size = if sum < 0 {
        (-sum) as nat
    } else {
        sum as nat
    };
    crate::text::lemma_decimal_digits(size);
    crate::text::law_decimal_reads_back(size, size);
    assert(text.subrange(0, 10) =~= "{\"result\":"@);
    assert(text.subrange(n - 18, n) =~= ",\"processed\":true}"@);
    if sum < 0 {
        assert(text.subrange(11, n - 18) =~= decimal(size));
    } else {
        assert(text.subrange(10, n - 18) =~= decimal(size));
    }
}

/// What a computation does follows from what came before: it reads four bytes; then as
/// many as these spell; computes from exactly those; and for whatever output comes, asks
/// for a document with the digest of input and output as its user data, and nothing else.
pub proof fn law_compute_steps(vsock: bool, events: Seq<ComputeEventView>)
    requires
        compute_answered(vsock, events),
        !(compute_run(vsock, events) is Failed),
    ensures
        events.len() == 0 ==> compute_io(compute_run(vsock, events)) == Some(IoView::ReadExact(4)),
        events.len() == 1 ==> {
            &&& events[0] matches ComputeEventView::Io(IoEventView::Bytes(b))
            &&& b.len() == 4
            &&& compute_io(compute_run(vsock, events)) == Some(IoView::ReadExact(be_value(b)))
        },
        events.len() == 2 ==> {
            &&& events[1] matches ComputeEventView::Io(IoEventView::Bytes(b))
            &&& compute_run(vsock, events) == ComputeView::Compute(b)
        },
        events.len() == 3 ==> {
            &&& vsock
            &&& events[1] matches ComputeEventView::Io(IoEventView::Bytes(b))
            &&& events[2] matches ComputeEventView::Output(o)
            &&& compute_run(vsock, events) matches ComputeView::Attest(i, p, NsmView::Init(q))
            &&& i == b && p == o
            &&& q.user_data == Some(sha256(b + o))
            &&& q.nonce is None && q.public_key is None
        },
        events.len() > 3 ==> {
            ||| compute_run(vsock, events) is Attest
            ||| compute_run(vsock, events) is Answer
            ||| compute_run(vsock, events) is Done
        },
{
    lemma_compute_step(vsock, events);
    if events.len() > 0 {
        lemma_compute_step(vsock, events.drop_last());
        if events.len() > 1 {
            lemma_compute_step(vsock, events.drop_last().drop_last());
        }
    }
}

proof fn lemma_compute_step(vsock: bool, events: Seq<ComputeEventView>)
    requires
        compute_answered(vsock, events),
    ensures
        match compute_run(vsock, events) {
            ComputeView::Length => events.len() == 0,
            ComputeView::Input(n) => events.len() == 1 && (events[0] matches ComputeEventView::Io(
                IoEventView::Bytes(b),
            ) && b.len() == 4 && n == be_value(b)),
            ComputeView::Compute(input) => events.len() == 2 && events[1] == ComputeEventView::Io(
                IoEventView::Bytes(input),
            ),
            ComputeView::Attest(i, o, x) => events.len() >= 3 && vsock && events[1]
                == ComputeEventView::Io(IoEventView::Bytes(i)) && events[2]
                == ComputeEventView::Output(o) && (events.len() == 3 ==> x == NsmView::Init(
                bound_request(i, o),
            )),
            ComputeView::Answer(i, o, _) => events.len() > 3 && vsock && events[1]
                == ComputeEventView::Io(IoEventView::Bytes(i)) && events[2]
                == ComputeEventView::Output(o),
            ComputeView::Done => events.len() > 4,
            ComputeView::Failed(_) => events.len() > 0,
        },
    decreases events.len(),
{
    if events.len() > 0 {
        lemma_compute_step(vsock, events.drop_last());
    }
}

/// An event that leaves a computation without an answer.
pub open spec fn is_setback(vsock: bool, event: ComputeEventView) -> bool {
    match event {
        ComputeEventView::Broken(_) => true,
        ComputeEventView::Rejected(_) => true,
        ComputeEventView::Output(_) => !vsock,
        ComputeEventView::Nsm(NsmEvent::Opened(fd)) => fd < 0,
        ComputeEventView::Nsm(NsmEvent::Answered(r)) => !(r is Attestation),
        _ => false,
    }
}

/// A computation fails only if the connection broke, the input was rejected, there is no
/// security module, its driver did not open, or it gave no document.
pub proof fn law_compute_fails_only_for_a_reason(vsock: bool, events: Seq<ComputeEventView>)
    requires
        compute_answered(vsock, events),
        compute_run(vsock, events) is Failed,
    ensures
        exists|i: int| 0 <= i < events.len() && is_setback(vsock, #[trigger] events[i]),
{
    lemma_compute_setback(vsock, events);
}

proof fn lemma_compute_setback(vsock: bool, events: Seq<ComputeEventView>)
    requires
        compute_answered(vsock, events),
    ensures
        compute_run(vsock, events) is Failed || (compute_run(vsock, events)
            matches ComputeView::Attest(_, _, NsmView::Exit(_, o)) && o is Err) ==> exists|i: int|
            0 <= i < events.len() && is_setback(vsock, #[trigger] events[i]),
    decreases events.len(),
{
    if events.len() > 0 {
        let before = events.drop_last();
        lemma_compute_setback(vsock, before);
        law_compute_run(vsock, before);
        if is_setback(vsock, events.last()) {
            assert(is_setback(vsock, events[events.len() - 1]));
        } else if exists|i: int| 0 <= i < before.len() && is_setback(vsock, #[trigger] before[i]) {
            let i = choose|i: int|
                0 <= i < before.len() && is_setback(vsock, #[trigger] before[i]);
            assert(is_setback(vsock, events[i]));
        }
    }
}

/// Any output and any document that four bytes can announce, and memory can hold, is
/// taken; so is every answer of the connection to what it was asked, and its failure.
pub proof fn law_outcomes_of_compute_steps(
    input: Seq<u8>,
    output: Seq<u8>,
    document: Vec<u8>,
    fd: i32,
    got: i32,
    request: RequestView,
    outcome: Result<Seq<u8>, Seq<char>>,
    text: Seq<char>,
    n: nat,
    e: IoEventView,
)
    ensures
        compute_answers(ComputeView::Length, ComputeEventView::Io(e)) == io_answers(
            IoView::ReadExact(4),
            e,
        ),
        compute_answers(ComputeView::Length, ComputeEventView::Broken(text)),
        compute_answers(ComputeView::Input(n), ComputeEventView::Io(e)) == io_answers(
            IoView::ReadExact(n),
            e,
        ),
        compute_answers(ComputeView::Input(n), ComputeEventView::Broken(text)),
        compute_answers(ComputeView::Compute(input), ComputeEventView::Output(output)) == (
        output.len() < 0x1_0000_0000),
        compute_answers(ComputeView::Compute(input), ComputeEventView::Rejected(text)),
        compute_answers(
            ComputeView::Attest(input, output, NsmView::Init(request)),
            ComputeEventView::Nsm(NsmEvent::Opened(got)),
        ),
        compute_answers(
            ComputeView::Attest(input, output, NsmView::Process(fd, request)),
            ComputeEventView::Nsm(NsmEvent::Answered(NsmResponse::Attestation(document))),
        ) == (output.len() < 0x1_0000_0000 && document@.len() < 0x1_0000_0000 && output.len()
            + document@.len() + 8 <= isize::MAX),
        compute_answers(
            ComputeView::Attest(input, output, NsmView::Process(fd, request)),
            ComputeEventView::Nsm(NsmEvent::Answered(NsmResponse::Other)),
        ),
        compute_answers(
            ComputeView::Attest(input, output, NsmView::Exit(fd, outcome)),
            ComputeEventView::Nsm(NsmEvent::Closed),
        ),
        compute_answers(
            ComputeView::Answer(input, output, document@),
            ComputeEventView::Io(IoEventView::Written),
        ),
        compute_answers(
            ComputeView::Answer(input, output, document@),
            ComputeEventView::Broken(text),
        ),
{
}

/// Events are what they carry.
pub proof fn law_compute_events(b: Vec<u8>, text: String, e: IoEvent, step: NsmEvent)
    ensures
        ComputeEvent::Io(e)@ == ComputeEventView::Io(e@),
        ComputeEvent::Broken(text)@ == ComputeEventView::Broken(text@),
        ComputeEvent::Output(b)@ == ComputeEventView::Output(b@),
        ComputeEvent::Rejected(text)@ == ComputeEventView::Rejected(text@),
        ComputeEvent::Nsm(step)@ == ComputeEventView::Nsm(step),
{
}

} // verus!
