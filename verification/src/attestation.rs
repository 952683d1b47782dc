//! Asking the Nitro Security Module for an attestation document.

use crate::crypto::{
    base64_alphabet, base64_bits, base64_bytes, base64_encode, base64_padding, base64_text,
    base64_value, byte_or_zero, is_base64, public_point, signature_of, valid_secret_key,
};
use crate::keys::{new_key, opt_bytes, reports, trial_message, KeyFault, KeyReport};
use vstd::prelude::*;
use vstd::slice::slice_to_vec;
use vstd::string::{is_ascii, is_ascii_spec_bytes, StringExecFns, StringSliceAdditionalSpecFns};

verus! {

broadcast use {vstd::string::group_string_axioms, vstd::slice::group_slice_axioms};

/// What an attestation document of this service says of itself.
pub open spec fn service_name() -> Seq<u8> {
    "Tradezone TEE Verifier".spec_bytes()
}

/// The user data of the service's attestation documents.
pub fn service_user_data() -> (r: &'static [u8])
    ensures
        r@ == service_name(),
        r@ == seq![
            84u8,
            114,
            97,
            100,
            101,
            122,
            111,
            110,
            101,
            32,
            84,
            69,
            69,
            32,
            86,
            101,
            114,
            105,
            102,
            105,
            101,
            114,
        ],
{
    proof {
        reveal_strlit("Tradezone TEE Verifier");
        assert(is_ascii("Tradezone TEE Verifier"));
        is_ascii_spec_bytes("Tradezone TEE Verifier");
        assert(service_name() =~= seq![
            84u8,
            114,
            97,
            100,
            101,
            122,
            111,
            110,
            101,
            32,
            84,
            69,
            69,
            32,
            86,
            101,
            114,
            105,
            102,
            105,
            101,
            114,
        ]);
    }
    "Tradezone TEE Verifier".as_bytes()
}

/// What a document is to vouch for besides the enclave itself.
#[derive(Debug)]
pub struct AttestationRequest {
    pub user_data: Option<Vec<u8>>,
    pub nonce: Option<Vec<u8>>,
    pub public_key: Option<Vec<u8>>,
}

/// A request, its fields as sequences.
pub struct RequestView {
    pub user_data: Option<Seq<u8>>,
    pub nonce: Option<Seq<u8>>,
    pub public_key: Option<Seq<u8>>,
}

impl View for AttestationRequest {
    type V = RequestView;

    open spec fn view(&self) -> RequestView {
        RequestView {
            user_data: opt_bytes(self.user_data),
            nonce: opt_bytes(self.nonce),
            public_key: opt_bytes(self.public_key),
        }
    }
}

/// A field that holds nothing is left out.
pub open spec fn field(data: Seq<u8>) -> Option<Seq<u8>> {
    if data.len() == 0 {
        None
    } else {
        Some(data)
    }
}

/// The request with these fields.
pub open spec fn request_of(user_data: Seq<u8>, nonce: Seq<u8>, pub_key: Seq<u8>) -> RequestView {
    RequestView { user_data: field(user_data), nonce: field(nonce), public_key: field(pub_key) }
}

/// The field holds exactly these bytes; it is left out exactly if there are none.
pub open spec fn carries(field: Option<Vec<u8>>, data: Seq<u8>) -> bool {
    &&& field is None <==> data.len() == 0
    &&& field matches Some(d) ==> d@ == data
}

fn field_of(data: &[u8]) -> (r: Option<Vec<u8>>)
    ensures
        opt_bytes(r) == field(data@),
        carries(r, data@),
{
    if data.len() == 0 {
        None
    } else {
        Some(slice_to_vec(data))
    }
}

/// The request for a document with these fields; empty ones are left out.
pub fn attestation_request(user_data: &[u8], nonce: &[u8], pub_key: &[u8]) -> (r:
    AttestationRequest)
    ensures
        r@ == request_of(user_data@, nonce@, pub_key@),
        carries(r.user_data, user_data@),
        carries(r.nonce, nonce@),
        carries(r.public_key, pub_key@),
{
    AttestationRequest {
        user_data: field_of(user_data),
        nonce: field_of(nonce),
        public_key: field_of(pub_key),
    }
}

/// The error codes of the security module.
#[derive(Clone, Copy, Debug, PartialEq, Eq, Structural)]
pub enum NsmErrorCode {
    Success,
    InvalidArgument,
    InvalidIndex,
    InvalidResponse,
    ReadOnlyIndex,
    InvalidOperation,
    BufferTooSmall,
    InputTooLarge,
    InternalError,
}

/// The name of an error code.
pub open spec fn code_text(code: NsmErrorCode) -> Seq<char> {
    match code {
        NsmErrorCode::Success => "Success"@,
        NsmErrorCode::InvalidArgument => "InvalidArgument"@,
        NsmErrorCode::InvalidIndex => "InvalidIndex"@,
        NsmErrorCode::InvalidResponse => "InvalidResponse"@,
        NsmErrorCode::ReadOnlyIndex => "ReadOnlyIndex"@,
        NsmErrorCode::InvalidOperation => "InvalidOperation"@,
        NsmErrorCode::BufferTooSmall => "BufferTooSmall"@,
        NsmErrorCode::InputTooLarge => "InputTooLarge"@,
        NsmErrorCode::InternalError => "InternalError"@,
    }
}

impl NsmErrorCode {
    /// The name of the code.
    pub fn text(&self) -> (r: &'static str)
        ensures
            r@ == code_text(*self),
    {
        match self {
            NsmErrorCode::Success => "Success",
            NsmErrorCode::InvalidArgument => "InvalidArgument",
            NsmErrorCode::InvalidIndex => "InvalidIndex",
            NsmErrorCode::InvalidResponse => "InvalidResponse",
            NsmErrorCode::ReadOnlyIndex => "ReadOnlyIndex",
            NsmErrorCode::InvalidOperation => "InvalidOperation",
            NsmErrorCode::BufferTooSmall => "BufferTooSmall",
            NsmErrorCode::InputTooLarge => "InputTooLarge",
            NsmErrorCode::InternalError => "InternalError",
        }
    }
}

/// What the security module answers.
#[derive(Debug)]
pub enum NsmResponse {
    /// The attestation document.
    Attestation(Vec<u8>),
    Error(NsmErrorCode),
    /// The answer to some other request.
    Other,
}

/// The document or the reason why there is none.
pub type Outcome = Result<Vec<u8>, String>;

/// An outcome, as bytes or characters.
pub type OutcomeView = Result<Seq<u8>, Seq<char>>;

/// The outcome with its document as a sequence, its reason as characters.
pub open spec fn outcome_view(o: Outcome) -> OutcomeView {
    match o {
        Ok(d) => Ok(d@),
        Err(e) => Err(e@),
    }
}

/// What an answer of the security module comes to.
pub open spec fn response_outcome(response: NsmResponse) -> OutcomeView {
    match response {
        NsmResponse::Attestation(d) => Ok(d@),
        NsmResponse::Error(code) => Err("NSM error: "@ + code_text(code)),
        NsmResponse::Other => Err("unexpected NSM response"@),
    }
}

/// What an answer of the security module comes to.
pub fn read_response(response: NsmResponse) -> (r: Outcome)
    ensures
        outcome_view(r) == response_outcome(response),
        match response {
            NsmResponse::Attestation(document) => r matches Ok(d) && d@ == document@,
            NsmResponse::Error(code) => r matches Err(e) && e@ == "NSM error: "@ + code_text(code),
            NsmResponse::Other => r matches Err(e) && e@ == "unexpected NSM response"@,
        },
{
    match response {
        NsmResponse::Attestation(document) => Ok(document),
        NsmResponse::Error(code) => {
            let mut e = String::from_str("NSM error: ");
            e.append(code.text());
            Err(e)
        },
        NsmResponse::Other => Err(String::from_str("unexpected NSM response")),
    }
}

/// An exchange with the security module.
#[derive(Debug)]
pub enum NsmSession {
    /// The driver is to be opened.
    Init(AttestationRequest),
    /// The request is to be sent through this descriptor.
    Process(i32, AttestationRequest),
    /// This descriptor is to be closed.
    Exit(i32, Outcome),
    /// The exchange is over.
    Done(Outcome),
}

/// An exchange, its contents as sequences.
pub enum NsmView {
    Init(RequestView),
    Process(i32, RequestView),
    Exit(i32, OutcomeView),
    Done(OutcomeView),
}

impl View for NsmSession {
    type V = NsmView;

    open spec fn view(&self) -> NsmView {
        match self {
            NsmSession::Init(q) => NsmView::Init(q@),
            NsmSession::Process(fd, q) => NsmView::Process(*fd, q@),
            NsmSession::Exit(fd, o) => NsmView::Exit(*fd, outcome_view(*o)),
            NsmSession::Done(o) => NsmView::Done(outcome_view(*o)),
        }
    }
}

/// What came of a step of an exchange.
#[derive(Debug)]
pub enum NsmEvent {
    /// Opening the driver gave this descriptor; a negative one means failure.
    Opened(i32),
    /// The security module answered.
    Answered(NsmResponse),
    /// The descriptor was closed.
    Closed,
}

/// `event` can come of the step that an exchange stands at.
pub open spec fn nsm_answers(session: NsmView, event: NsmEvent) -> bool {
    match session {
        NsmView::Init(_) => event is Opened,
        NsmView::Process(_, _) => event is Answered,
        NsmView::Exit(_, _) => event is Closed,
        NsmView::Done(_) => false,
    }
}

/// The exchange after an event.
pub open spec fn nsm_next(session: NsmView, event: NsmEvent) -> NsmView {
    match (session, event) {
        (NsmView::Init(q), NsmEvent::Opened(fd)) => if fd < 0 {
            NsmView::Done(Err("failed to initialize NSM driver"@))
        } else {
            NsmView::Process(fd, q)
        },
        (NsmView::Process(fd, _), NsmEvent::Answered(response)) => NsmView::Exit(
            fd,
            response_outcome(response),
        ),
        (NsmView::Exit(_, o), NsmEvent::Closed) => NsmView::Done(o),
        _ => session,
    }
}

impl NsmSession {
    /// Whether `event` can come of the step that is due.
    pub fn accepts(&self, event: &NsmEvent) -> (r: bool)
        ensures
            r == nsm_answers(self@, *event),
    {
        match (self, event) {
            (NsmSession::Init(_), NsmEvent::Opened(_)) => true,
            (NsmSession::Process(_, _), NsmEvent::Answered(_)) => true,
            (NsmSession::Exit(_, _), NsmEvent::Closed) => true,
            _ => false,
        }
    }

    /// The exchange after what came of its last step.
    pub fn on_event(self, event: NsmEvent) -> (r: Self)
        requires
            nsm_answers(self@, event),
        ensures
            r@ == nsm_next(self@, event),
            self matches NsmSession::Init(q) ==> (event matches NsmEvent::Opened(fd) && (if fd
                < 0 {
                r matches NsmSession::Done(Err(e)) && e@ == "failed to initialize NSM driver"@
            } else {
                r == NsmSession::Process(fd, q)
            })),
            self matches NsmSession::Process(fd, _) ==> (event matches NsmEvent::Answered(answer)
                && r matches NsmSession::Exit(same, o) && same == fd && outcome_view(o)
                == response_outcome(answer)),
            self matches NsmSession::Exit(_, o) ==> r == NsmSession::Done(o),
    {
        match (self, event) {
            (NsmSession::Init(q), NsmEvent::Opened(fd)) => if fd < 0 {
                NsmSession::Done(Err(String::from_str("failed to initialize NSM driver")))
            } else {
                NsmSession::Process(fd, q)
            },
            (NsmSession::Process(fd, _), NsmEvent::Answered(response)) => NsmSession::Exit(
                fd,
                read_response(response),
            ),
            (NsmSession::Exit(_, o), NsmEvent::Closed) => NsmSession::Done(o),
            (other, _) => other,
        }
    }
}

/// Begins to obtain an attestation document with these fields. `vsock` tells whether
/// this is an enclave, which has a security module to ask.
pub fn generate_attestation_doc(
    vsock: bool,
    user_data: &[u8],
    nonce: &[u8],
    pub_key: &[u8],
) -> (r: Result<NsmSession, String>)
    ensures
        match r {
            Ok(session) => {
                &&& vsock && session@ == NsmView::Init(request_of(user_data@, nonce@, pub_key@))
                &&& session matches NsmSession::Init(q)
                &&& carries(q.user_data, user_data@)
                &&& carries(q.nonce, nonce@)
                &&& carries(q.public_key, pub_key@)
            },
            Err(e) => !vsock && e@ == "attestation is not supported without the vsock feature"@,
        },
{
    if vsock {
        Ok(NsmSession::Init(attestation_request(user_data, nonce, pub_key)))
    } else {
        Err(String::from_str("attestation is not supported without the vsock feature"))
    }
}

/// What begins to answer a request for an attestation document: a fresh key, and the
/// exchange that has a document vouch for it, or why there is none.
#[derive(Debug)]
pub struct AttestationStart {
    pub report: KeyReport,
    pub exchange: Result<NsmSession, String>,
}

/// The request for a document that vouches for a public key.
pub open spec fn key_request(public_key: Seq<u8>) -> RequestView {
    request_of(service_name(), Seq::empty(), public_key)
}

/// Begins to obtain a document that vouches for a public key.
pub fn attest_key(vsock: bool, public_key: &[u8]) -> (r: Result<NsmSession, String>)
    ensures
        match r {
            Ok(session) => {
                &&& vsock && session@ == NsmView::Init(key_request(public_key@))
                &&& session matches NsmSession::Init(q)
                &&& q.user_data matches Some(d)
                &&& d@ == "Tradezone TEE Verifier".spec_bytes()
                &&& d@.len() == 22
                &&& q.nonce is None
                &&& carries(q.public_key, public_key@)
            },
            Err(e) => !vsock && e@ == "attestation is not supported without the vsock feature"@,
        },
{
    let nonce: Vec<u8> = Vec::new();
    proof {
        law_key_request(public_key@);
    }
    generate_attestation_doc(vsock, service_user_data(), nonce.as_slice(), public_key)
}

/// Begins to answer a request for an attestation document: makes a key at random,
/// tries it out, and has the document vouch for its public point.
pub fn handle_attestation(vsock: bool) -> (r: Result<AttestationStart, KeyFault>)
    ensures
        match r {
            Ok(start) => {
                let key = start.report.secret_key@;
                &&& valid_secret_key(key)
                &&& signature_of(key, trial_message()) is Some
                &&& reports(
                    start.report,
                    key,
                    public_point(key),
                    signature_of(key, trial_message())->0,
                )
                &&& start.report.public_key@.len() == 65
                &&& match start.exchange {
                    Ok(session) => {
                        &&& vsock && session@ == NsmView::Init(key_request(public_point(key)))
                        &&& session matches NsmSession::Init(q)
                        &&& q.user_data matches Some(d)
                        &&& d@ == "Tradezone TEE Verifier".spec_bytes()
                        &&& d@.len() == 22
                        &&& q.nonce is None
                        &&& q.public_key matches Some(k)
                        &&& k@ == start.report.public_key@
                        &&& k@ == public_point(key)
                    },
                    Err(e) => !vsock && e@
                        == "attestation is not supported without the vsock feature"@,
                }
            },
            Err(fault) => fault == KeyFault::Signing && exists|key: Seq<u8>|
                valid_secret_key(key) && #[trigger] signature_of(key, trial_message()) is None,
        },
{
    match new_key() {
        Ok(report) => {
            let exchange = attest_key(vsock, report.public_key.as_slice());
            Ok(AttestationStart { report, exchange })
        },
        Err(fault) => Err(fault),
    }
}

/// Whenever the driver opens, the request goes out once and unchanged through its
/// descriptor, that descriptor is closed before the exchange ends, and the outcome is
/// what the security module answered.
pub proof fn law_exchange(request: RequestView, fd: i32, response: NsmResponse)
    requires
        fd >= 0,
    ensures
        ({
            let opened = nsm_next(NsmView::Init(request), NsmEvent::Opened(fd));
            let answered = nsm_next(opened, NsmEvent::Answered(response));
            let closed = nsm_next(answered, NsmEvent::Closed);
            &&& opened == NsmView::Process(fd, request)
            &&& answered == NsmView::Exit(fd, response_outcome(response))
            &&& closed == NsmView::Done(response_outcome(response))
            &&& match response {
                NsmResponse::Attestation(d) => closed == NsmView::Done(Ok(d@)),
                NsmResponse::Error(code) => closed == NsmView::Done(
                    Err("NSM error: "@ + code_text(code)),
                ),
                NsmResponse::Other => closed == NsmView::Done(Err("unexpected NSM response"@)),
            }
        }),
{
}

/// A driver that does not open ends the exchange at once; nothing is sent or closed.
pub proof fn law_exchange_without_driver(request: RequestView, fd: i32)
    requires
        fd < 0,
    ensures
        nsm_next(NsmView::Init(request), NsmEvent::Opened(fd)) == NsmView::Done(
            Err("failed to initialize NSM driver"@),
        ),
{
}

/// Each character of the base64 alphabet stands for its place in it.
proof fn lemma_base64_value(k: int)
    requires
        0 <= k < 64,
    ensures
        base64_alphabet().len() == 64,
        base64_value(base64_alphabet()[k]) == Some(k as nat),
        base64_alphabet()[k] != '=',
{
    reveal_strlit("ABCDEFGHIJKLMNOPQRSTUVWXYZabcdefghijklmnopqrstuvwxyz0123456789+/");
}

/// The 24 bits of three bytes in quarters.
proof fn lemma_quarters(a: int, b: int, c: int)
    requires
        0 <= a < 256,
        0 <= b < 256,
        0 <= c < 256,
    ensures
        (65536 * a + 256 * b + c) / 262144 == a / 4,
        (65536 * a + 256 * b + c) / 4096 % 64 == a % 4 * 16 + b / 16,
        (65536 * a + 256 * b + c) / 64 % 64 == b % 16 * 4 + c / 64,
        (65536 * a + 256 * b + c) % 64 == c % 64,
{
    let group = 65536 * a + 256 * b + c;
    let (p, q) = (a / 4, a % 4);
    let (r, t) = (b / 16, b % 16);
    let (u, v) = (c / 64, c % 64);
    assert(group == 262144 * p + (65536 * q + 4096 * r + 256 * t + 64 * u + v));
    assert(group / 4096 == 64 * p + (16 * q + r));
    assert(group / 64 == 64 * (64 * p + 16 * q + r) + (4 * t + u));
}

/// The four characters of a group in base64 stand for the quarters of its 24 bits, or
/// are padding.
proof fn lemma_base64_bits(data: Seq<u8>, g: int)
    requires
        0 <= g,
        3 * g < data.len(),
    ensures
        ({
            let s = base64_text(data);
            let a = byte_or_zero(data, 3 * g);
            let b = byte_or_zero(data, 3 * g + 1);
            let c = byte_or_zero(data, 3 * g + 2);
            &&& 4 * g + 3 < s.len()
            &&& base64_value(s[4 * g]) == Some(a / 4)
            &&& base64_value(s[4 * g + 1]) == Some(a % 4 * 16 + b / 16)
            &&& 3 * g + 1 < data.len() ==> base64_value(s[4 * g + 2]) == Some(b % 16 * 4 + c / 64)
            &&& 3 * g + 1 >= data.len() ==> s[4 * g + 2] == '='
            &&& 3 * g + 2 < data.len() ==> base64_value(s[4 * g + 3]) == Some(c % 64)
            &&& 3 * g + 2 >= data.len() ==> s[4 * g + 3] == '='
        }),
{
    let a = byte_or_zero(data, 3 * g);
    let b = byte_or_zero(data, 3 * g + 1);
    let c = byte_or_zero(data, 3 * g + 2);
    let group = (65536 * a + 256 * b + c) as int;
    lemma_quarters(a as int, b as int, c as int);
    assert((4 * g) / 4 * 3 == 3 * g && (4 * g + 1) / 4 * 3 == 3 * g && (4 * g + 2) / 4 * 3 == 3 * g
        && (4 * g + 3) / 4 * 3 == 3 * g);
    assert((4 * g) % 4 == 0 && (4 * g + 1) % 4 == 1 && (4 * g + 2) % 4 == 2 && (4 * g + 3) % 4
        == 3);
    lemma_base64_value(group / 262144);
    lemma_base64_value(group / 4096 % 64);
    lemma_base64_value(group / 64 % 64);
    lemma_base64_value(group % 64);
}

/// What is written in base64 reads back as it was.
pub proof fn law_base64_reads_back(data: Seq<u8>)
    ensures
        base64_bytes(base64_text(data)) == Some(data),
{
    let s = base64_text(data);
    let n = data.len() as int;
    let pad = base64_padding(s);
    if n > 0 {
        let last = (n - 1) / 3;
        lemma_base64_bits(data, last);
        assert(s.len() == 4 * last + 4);
    }
    assert(s.len() / 4 * 3 - pad == n);
    assert forall|i: int| 0 <= i < s.len() - pad implies base64_value(#[trigger] s[i]) is Some by {
        lemma_base64_bits(data, i / 4);
        assert(i == 4 * (i / 4) || i == 4 * (i / 4) + 1 || i == 4 * (i / 4) + 2 || i == 4 * (i / 4)
            + 3);
    }
    assert(is_base64(s));
    let back = base64_bytes(s)->0;
    assert forall|i: int| 0 <= i < n implies back[i] == data[i] by {
        let g = i / 3;
        lemma_base64_bits(data, g);
        assert(i == 3 * g || i == 3 * g + 1 || i == 3 * g + 2);
        let a = byte_or_zero(data, 3 * g);
        let b = byte_or_zero(data, 3 * g + 1);
        let c = byte_or_zero(data, 3 * g + 2);
        assert(base64_bits(s, 4 * g) == a / 4);
        assert(base64_bits(s, 4 * g + 1) == a % 4 * 16 + b / 16);
        assert(base64_bits(s, 4 * g + 2) == b % 16 * 4 + c / 64);
        assert(base64_bits(s, 4 * g + 3) == c % 64);
        assert(a / 4 * 4 + (a % 4 * 16 + b / 16) / 16 == a);
        assert((a % 4 * 16 + b / 16) % 16 * 16 + (b % 16 * 4 + c / 64) / 4 == b);
        assert((b % 16 * 4 + c / 64) % 4 * 64 + c % 64 == c);
    }
    assert(back =~= data);
}

/// An answer to an HTTP request.
#[derive(Debug)]
pub struct HttpReply {
    pub status: u16,
    pub body: String,
}

/// The answer to a request for an attestation document: the document in base64, or
/// what went wrong as a server error.
pub fn attestation_reply(outcome: Outcome) -> (r: HttpReply)
    requires
        outcome matches Ok(document) ==> (document@.len() + 2) / 3 * 4 <= isize::MAX,
    ensures
        match outcome {
            Ok(document) => {
                &&& r.status == 200
                &&& r.body@ == base64_text(document@)
                &&& base64_bytes(r.body@) == Some(document@)
            },
            Err(e) => r.status == 500 && r.body@ == e@,
        },
{
    proof {
        if outcome is Ok {
            law_base64_reads_back(outcome->Ok_0@);
        }
    }
    match outcome {
        Ok(document) => HttpReply { status: 200, body: base64_encode(document.as_slice()) },
        Err(e) => HttpReply { status: 500, body: e },
    }
}

/// The request for a document about a key, field by field: the 22 bytes of the service's
/// name, no nonce, and the key itself; only a key of no bytes is left out.
pub proof fn law_key_request(public_key: Seq<u8>)
    ensures
        key_request(public_key).user_data == Some("Tradezone TEE Verifier".spec_bytes()),
        "Tradezone TEE Verifier".spec_bytes().len() == 22,
        key_request(public_key).nonce is None,
        public_key.len() > 0 ==> key_request(public_key).public_key == Some(public_key),
        public_key.len() == 0 ==> key_request(public_key).public_key is None,
{
    reveal_strlit("Tradezone TEE Verifier");
    assert(is_ascii("Tradezone TEE Verifier"));
    is_ascii_spec_bytes("Tradezone TEE Verifier");
}

/// Each field of a request is there exactly if it has any bytes, and has exactly those:
/// two requests are the same only if all their fields are.
pub proof fn law_request_keeps_its_fields(a: Seq<u8>, b: Seq<u8>, c: Seq<u8>)
    ensures
        request_of(a, b, c).user_data == if a.len() == 0 {
            None
        } else {
            Some(a)
        },
        request_of(a, b, c).nonce == if b.len() == 0 {
            None
        } else {
            Some(b)
        },
        request_of(a, b, c).public_key == if c.len() == 0 {
            None
        } else {
            Some(c)
        },
        forall|x: Seq<u8>, y: Seq<u8>, z: Seq<u8>| #[trigger]
            request_of(x, y, z) == request_of(a, b, c) ==> x == a && y == b && z == c,
{
    assert forall|x: Seq<u8>, y: Seq<u8>, z: Seq<u8>| #[trigger]
        request_of(x, y, z) == request_of(a, b, c) implies x == a && y == b && z == c by {
        let r = request_of(x, y, z);
        let s = request_of(a, b, c);
        assert(r.user_data == s.user_data && r.nonce == s.nonce && r.public_key == s.public_key);
        if x.len() == 0 {
            assert(x =~= a);
        }
        if y.len() == 0 {
            assert(y =~= b);
        }
        if z.len() == 0 {
            assert(z =~= c);
        }
    }
}

/// Opening may give any descriptor, the security module may answer anything, and closing
/// just happens; after that nothing comes.
pub proof fn law_outcomes_of_exchange_steps(
    request: RequestView,
    fd: i32,
    got: i32,
    response: NsmResponse,
    outcome: OutcomeView,
    event: NsmEvent,
)
    ensures
        nsm_answers(NsmView::Init(request), NsmEvent::Opened(got)),
        nsm_answers(NsmView::Process(fd, request), NsmEvent::Answered(response)),
        nsm_answers(NsmView::Exit(fd, outcome), NsmEvent::Closed),
        !nsm_answers(NsmView::Done(outcome), event),
{
}

} // verus!
