//! The host program: what its command line asks for, what it sends, what it reports.

use crate::options::arg_texts;
use crate::size::{GIB, KIB, MIB};
use crate::text::{
    decimal, ends_with, is_white_space, number, parse_number, push_decimal, same_text,
    strip_suffix, trim, trimmed, without_last, IntError,
};
use vstd::prelude::*;
use vstd::string::StringExecFns;

verus! {

broadcast use vstd::string::group_string_axioms;

/// The port at which an enclave answers HTTP requests.
pub const ENCLAVE_PORT: u16 = 8000;

/// The port at which an enclave takes WebSocket connections.
pub const ENCLAVE_WS_PORT: u16 = 8001;

/// An upload goes out in chunks of this many bytes.
pub const CHUNK_SIZE: usize = 0x10_0000;

/// How many frames a stream has if nothing else is asked for.
pub const DEFAULT_COUNT: usize = 100;

/// How large the frames of a stream are if nothing else is asked for.
pub const DEFAULT_FRAME_SIZE: usize = 0x400;

/// What uploads and streams are filled with.
pub const FILL: u8 = 0xAB;

/// The message for a number that cannot be read.
pub open spec fn int_error_text(e: IntError) -> Seq<char> {
    match e {
        IntError::Empty => "cannot parse integer from empty string"@,
        IntError::InvalidDigit => "invalid digit found in string"@,
        IntError::PosOverflow => "number too large to fit in target type"@,
    }
}

fn int_error(e: IntError) -> (r: String)
    ensures
        r@ == int_error_text(e),
{
    match e {
        IntError::Empty => String::from_str("cannot parse integer from empty string"),
        IntError::InvalidDigit => String::from_str("invalid digit found in string"),
        IntError::PosOverflow => String::from_str("number too large to fit in target type"),
    }
}

/// The digits of a trimmed size, and what one of its units counts; nothing if it has
/// no unit.
pub open spec fn unit_parts(s: Seq<char>) -> Option<(Seq<char>, nat)> {
    if ends_with(s, "GB"@) {
        Some((without_last(s, "GB"@.len()), GIB as nat))
    } else if ends_with(s, "MB"@) {
        Some((without_last(s, "MB"@.len()), MIB as nat))
    } else if ends_with(s, "KB"@) {
        Some((without_last(s, "KB"@.len()), KIB as nat))
    } else {
        None
    }
}

/// The bytes that a size such as `100KB` stands for, or what is said of a text that is
/// no size.
pub open spec fn host_size(s: Seq<char>) -> Result<nat, Seq<char>> {
    match unit_parts(trimmed(s)) {
        Some(parts) => match number(parts.0, usize::MAX as nat) {
            Ok(n) => Ok(n * parts.1),
            Err(e) => Err(int_error_text(e)),
        },
        None => Err(
            "invalid size '"@ + trimmed(s) + "': expected format like 100KB, 500MB, 1GB"@,
        ),
    }
}

/// The size, if `s` is one, fits in memory addresses.
pub open spec fn host_size_fits(s: Seq<char>) -> bool {
    host_size(s) matches Ok(v) ==> v <= usize::MAX
}

/// Reads a size with a unit `KB`, `MB` or `GB`. `None` if the byte count does not fit
/// in a `usize`.
pub fn checked_parse_size(s: &str) -> (r: Option<Result<usize, String>>)
    ensures
        r is None <==> !host_size_fits(s@),
        r is None <==> (host_size(s@) matches Ok(v) && v > usize::MAX),
        match r {
            Some(Ok(v)) => host_size(s@) == Ok::<nat, Seq<char>>(v as nat),
            Some(Err(e)) => host_size(s@) == Err::<nat, Seq<char>>(e@),
            None => true,
        },
{
    let s: &str = trim(s);
    let parts: Option<(&str, u64)> = match strip_suffix(s, "GB") {
        Some(n) => Some((n, GIB)),
        None => match strip_suffix(s, "MB") {
            Some(n) => Some((n, MIB)),
            None => match strip_suffix(s, "KB") {
                Some(n) => Some((n, KIB)),
                None => None,
            },
        },
    };
    match parts {
        Some((digits, unit)) => {
            assert(unit_parts(s@) == Some((digits@, unit as nat)));
            match parse_number(digits, usize::MAX as u64) {
                Ok(n) => {
                    let wide: u128 = (n as u128) * (unit as u128);
                    if wide > usize::MAX as u128 {
                        None
                    } else {
                        Some(Ok(wide as usize))
                    }
                },
                Err(e) => Some(Err(int_error(e))),
            }
        },
        None => {
            let mut e = String::from_str("invalid size '");
            e.append(s);
            e.append("': expected format like 100KB, 500MB, 1GB");
            Some(Err(e))
        },
    }
}

/// Reads a size with a unit `KB`, `MB` or `GB`, in powers of 1024.
pub fn parse_size(s: &str) -> (r: Result<usize, String>)
    requires
        host_size_fits(s@),
    ensures
        match r {
            Ok(v) => host_size(s@) == Ok::<nat, Seq<char>>(v as nat),
            Err(e) => host_size(s@) == Err::<nat, Seq<char>>(e@),
        },
{
    match checked_parse_size(s) {
        Some(r) => r,
        None => vstd::pervasive::unreached(),
    }
}

/// A number followed by `KB`, `MB` or `GB` counts KiB, MiB or GiB.
pub proof fn law_host_size_units(n: nat)
    requires
        n <= usize::MAX,
    ensures
        host_size(decimal(n) + "KB"@) == Ok::<nat, Seq<char>>(n * (KIB as nat)),
        host_size(decimal(n) + "MB"@) == Ok::<nat, Seq<char>>(n * (MIB as nat)),
        host_size(decimal(n) + "GB"@) == Ok::<nat, Seq<char>>(n * (GIB as nat)),
{
    reveal_strlit("KB");
    reveal_strlit("MB");
    reveal_strlit("GB");
    crate::text::law_decimal_reads_back(n, usize::MAX as nat);
    crate::text::lemma_decimal_digits(n);
    let d = decimal(n);
    assert("KB"@[0] == 'K' && "MB"@[0] == 'M' && "GB"@[0] == 'G');
    let k = d + "KB"@;
    let k_end = k.subrange(k.len() - 2, k.len() as int);
    assert(k_end =~= "KB"@);
    assert(k_end[0] == 'K');
    assert(without_last(k, 2) =~= d);
    assert(trimmed(k) == k);
    let m = d + "MB"@;
    let m_end = m.subrange(m.len() - 2, m.len() as int);
    assert(m_end =~= "MB"@);
    assert(m_end[0] == 'M');
    assert(without_last(m, 2) =~= d);
    assert(trimmed(m) == m);
    let g = d + "GB"@;
    assert(g.subrange(g.len() - 2, g.len() as int) =~= "GB"@);
    assert(without_last(g, 2) =~= d);
    assert(trimmed(g) == g);
}

/// What a command line asks the host program for, as far as it is settled before the
/// host connects.
#[derive(Debug)]
pub enum HostPlan {
    /// There are too few arguments: show how to use the program.
    Usage,
    /// An argument cannot be read, for this reason.
    Invalid(String),
    /// Send frames over a WebSocket to the enclave with this context id, if any.
    Stream { cid: Option<u32>, count: usize, frame_size: usize },
    /// Send an HTTP request to the enclave with this context id, if any.
    Http { cid: Option<u32> },
}

/// A plan, its text as characters.
pub enum HostPlanView {
    Usage,
    Invalid(Seq<char>),
    Stream { cid: Option<u32>, count: usize, frame_size: usize },
    Http { cid: Option<u32> },
}

impl View for HostPlan {
    type V = HostPlanView;

    open spec fn view(&self) -> HostPlanView {
        match self {
            HostPlan::Usage => HostPlanView::Usage,
            HostPlan::Invalid(e) => HostPlanView::Invalid(e@),
            HostPlan::Stream { cid, count, frame_size } => HostPlanView::Stream {
                cid: *cid,
                count: *count,
                frame_size: *frame_size,
            },
            HostPlan::Http { cid } => HostPlanView::Http { cid: *cid },
        }
    }
}

/// The context id, which only counts where the enclave is reached by vsock.
pub open spec fn cid_reading(vsock: bool, s: Seq<char>) -> Result<Option<u32>, Seq<char>> {
    if vsock {
        match number(s, u32::MAX as nat) {
            Ok(v) => Ok(Some(v as u32)),
            Err(_) => Err("invalid CID '"@ + s + "'"@),
        }
    } else {
        Ok(None)
    }
}

/// How many frames to send: the default if none is given, or if what is given is no
/// number.
pub open spec fn frame_count(args: Seq<Seq<char>>) -> usize {
    if args.len() > 3 {
        match number(args[3], usize::MAX as nat) {
            Ok(v) => v as usize,
            Err(_) => DEFAULT_COUNT,
        }
    } else {
        DEFAULT_COUNT
    }
}

/// How large frames are to be: the default if nothing is given.
pub open spec fn frame_size(args: Seq<Seq<char>>) -> Result<nat, Seq<char>> {
    if args.len() > 4 {
        host_size(args[4])
    } else {
        Ok(DEFAULT_FRAME_SIZE as nat)
    }
}

/// The command that sends frames, under either of its names.
pub open spec fn is_stream(command: Seq<char>) -> bool {
    command == "websocket"@ || command == "stream"@
}

/// Too few arguments: no command, or `websocket` without a count and a size. `stream`
/// has defaults for both.
pub open spec fn lacks_arguments(args: Seq<Seq<char>>) -> bool {
    args.len() < 3 || (args[2] == "websocket"@ && args.len() < 5)
}

/// What a command line asks for; nothing if a size on it does not fit.
pub open spec fn plan_of(vsock: bool, args: Seq<Seq<char>>) -> Option<HostPlanView> {
    if lacks_arguments(args) {
        Some(HostPlanView::Usage)
    } else {
        match cid_reading(vsock, args[1]) {
            Err(e) => Some(HostPlanView::Invalid(e)),
            Ok(cid) => if is_stream(args[2]) {
                match frame_size(args) {
                    Err(e) => Some(HostPlanView::Invalid(e)),
                    Ok(n) => if n <= usize::MAX {
                        Some(
                            HostPlanView::Stream {
                                cid,
                                count: frame_count(args),
                                frame_size: n as usize,
                            },
                        )
                    } else {
                        None
                    },
                }
            } else {
                Some(HostPlanView::Http { cid })
            },
        }
    }
}

fn read_cid(vsock: bool, s: &str) -> (r: Result<Option<u32>, String>)
    ensures
        match r {
            Ok(cid) => cid_reading(vsock, s@) == Ok::<Option<u32>, Seq<char>>(cid),
            Err(e) => cid_reading(vsock, s@) == Err::<Option<u32>, Seq<char>>(e@),
        },
{
    if vsock {
        match parse_number(s, u32::MAX as u64) {
            Ok(v) => {
                proof {
                    crate::text::lemma_number_bound(s@, u32::MAX as nat);
                }
                Ok(Some(v as u32))
            },
            Err(_) => {
                let mut e = String::from_str("invalid CID '");
                e.append(s);
                e.append("'");
                Err(e)
            },
        }
    } else {
        Ok(None)
    }
}

/// Settles what a command line asks for before the host connects. `None` if a size on
/// it does not fit in a `usize`.
pub fn plan_host(vsock: bool, args: &Vec<String>) -> (r: Option<HostPlan>)
    ensures
        match r {
            Some(plan) => plan_of(vsock, arg_texts(args@)) == Some(plan@),
            None => plan_of(vsock, arg_texts(args@)) is None,
        },
{
    let ghost all = arg_texts(args@);
    if args.len() < 3 {
        return Some(HostPlan::Usage);
    }
    assert(all[1] == args@[1]@ && all[2] == args@[2]@);
    let command: &str = args[2].as_str();
    let websocket: bool = same_text(command, "websocket");
    if websocket && args.len() < 5 {
        return Some(HostPlan::Usage);
    }
    let cid: Option<u32> = match read_cid(vsock, args[1].as_str()) {
        Ok(cid) => cid,
        Err(e) => {
            return Some(HostPlan::Invalid(e));
        },
    };
    if !websocket && !same_text(command, "stream") {
        return Some(HostPlan::Http { cid });
    }
    let count: usize = if args.len() > 3 {
        assert(all[3] == args@[3]@);
        match parse_number(args[3].as_str(), usize::MAX as u64) {
            Ok(v) => {
                proof {
                    crate::text::lemma_number_bound(args@[3]@, usize::MAX as nat);
                }
                v as usize
            },
            Err(_) => DEFAULT_COUNT,
        }
    } else {
        DEFAULT_COUNT
    };
    let frame_size: usize = if args.len() > 4 {
        assert(all[4] == args@[4]@);
        match checked_parse_size(args[4].as_str()) {
            Some(Ok(n)) => n,
            Some(Err(e)) => {
                return Some(HostPlan::Invalid(e));
            },
            None => {
                return None;
            },
        }
    } else {
        DEFAULT_FRAME_SIZE
    };
    Some(HostPlan::Stream { cid, count, frame_size })
}

/// Where an enclave is reached.
#[derive(Clone, Copy, Debug, PartialEq, Eq, Structural)]
pub enum Address {
    /// By vsock: context id and port.
    Vsock(u32, u16),
    /// By TCP on this machine: port.
    Local(u16),
}

/// The address at a port of the enclave with this context id; of a local one if there
/// is none.
pub open spec fn address_of(cid: Option<u32>, port: u16) -> Address {
    match cid {
        Some(cid) => Address::Vsock(cid, port),
        None => Address::Local(port),
    }
}

impl HostPlan {
    /// Where the plan connects to; `None` if it does not.
    pub fn address(&self) -> (r: Option<Address>)
        ensures
            r == match self@ {
                HostPlanView::Stream { cid, count, frame_size } => Some(
                    address_of(cid, ENCLAVE_WS_PORT),
                ),
                HostPlanView::Http { cid } => Some(address_of(cid, ENCLAVE_PORT)),
                _ => None,
            },
            match self {
                HostPlan::Stream { cid, count, frame_size } => r == Some(
                    match cid {
                        Some(c) => Address::Vsock(*c, 8001),
                        None => Address::Local(8001),
                    },
                ),
                HostPlan::Http { cid } => r == Some(
                    match cid {
                        Some(c) => Address::Vsock(*c, 8000),
                        None => Address::Local(8000),
                    },
                ),
                _ => r is None,
            },
    {
        let (cid, port): (Option<u32>, u16) = match self {
            HostPlan::Stream { cid, count: _, frame_size: _ } => (*cid, ENCLAVE_WS_PORT),
            HostPlan::Http { cid } => (*cid, ENCLAVE_PORT),
            _ => {
                return None;
            },
        };
        match cid {
            Some(cid) => Some(Address::Vsock(cid, port)),
            None => Some(Address::Local(port)),
        }
    }
}

/// An HTTP command of the host program.
#[derive(Debug)]
pub enum HttpCommand {
    /// Upload this many bytes in this many chunks.
    Upload { size: usize, chunks: usize },
    /// Ask for an attestation document.
    GenDoc,
    /// The command cannot be carried out, for this reason.
    Invalid(String),
    /// The command is not one, or lacks its argument; the program says so and stops.
    Refused(String),
}

/// A command, its text as characters.
pub enum HttpCommandView {
    Upload { size: usize, chunks: usize },
    GenDoc,
    Invalid(Seq<char>),
    Refused(Seq<char>),
}

impl View for HttpCommand {
    type V = HttpCommandView;

    open spec fn view(&self) -> HttpCommandView {
        match self {
            HttpCommand::Upload { size, chunks } => HttpCommandView::Upload {
                size: *size,
                chunks: *chunks,
            },
            HttpCommand::GenDoc => HttpCommandView::GenDoc,
            HttpCommand::Invalid(e) => HttpCommandView::Invalid(e@),
            HttpCommand::Refused(e) => HttpCommandView::Refused(e@),
        }
    }
}

/// The head of an HTTP request.
#[derive(Debug)]
pub struct RequestHead {
    pub method: &'static str,
    pub uri: &'static str,
    pub host: &'static str,
    pub content_type: Option<&'static str>,
}

impl HttpCommand {
    /// The head of the request that the command sends; `None` if it sends none.
    pub fn head(&self) -> (r: Option<RequestHead>)
        ensures
            match r {
                Some(head) => {
                    &&& head.host@ == "enclave"@
                    &&& self@ is Upload ==> head.method@ == "POST"@ && head.uri@ == "/upload"@
                        && (head.content_type matches Some(t) && t@ == "application/octet-stream"@)
                    &&& !(self@ is Upload) ==> self@ is GenDoc && head.method@ == "GET"@
                        && head.uri@ == "/attestation"@ && head.content_type is None
                },
                None => self@ is Invalid || self@ is Refused,
            },
    {
        match self {
            HttpCommand::Upload { size: _, chunks: _ } => Some(
                RequestHead {
                    method: "POST",
                    uri: "/upload",
                    host: "enclave",
                    content_type: Some("application/octet-stream"),
                },
            ),
            HttpCommand::GenDoc => Some(
                RequestHead {
                    method: "GET",
                    uri: "/attestation",
                    host: "enclave",
                    content_type: None,
                },
            ),
            _ => None,
        }
    }
}

/// The fewest chunks that hold `size` bytes.
pub open spec fn chunk_count(size: nat) -> nat {
    (size + CHUNK_SIZE as nat - 1) as nat / (CHUNK_SIZE as nat)
}

/// The fewest chunks that hold `size` bytes. All chunks are sent full, so that less
/// than one chunk more than `size` goes out.
pub fn num_chunks(size: usize) -> (r: usize)
    ensures
        r == chunk_count(size as nat),
        size <= r * CHUNK_SIZE < size + CHUNK_SIZE,
        size <= r * 1048576 < size + 1048576,
{
    if size % CHUNK_SIZE == 0 {
        size / CHUNK_SIZE
    } else {
        size / CHUNK_SIZE + 1
    }
}

/// What the HTTP command on a command line comes to; nothing if its size does not fit.
pub open spec fn command_of(args: Seq<Seq<char>>) -> Option<HttpCommandView> {
    if args[2] == "upload"@ {
        if args.len() < 4 {
            Some(HttpCommandView::Refused("upload requires a size argument"@))
        } else {
            match host_size(args[3]) {
                Err(e) => Some(HttpCommandView::Invalid(e)),
                Ok(n) => if n <= usize::MAX {
                    Some(
                        HttpCommandView::Upload {
                            size: n as usize,
                            chunks: chunk_count(n) as usize,
                        },
                    )
                } else {
                    None
                },
            }
        }
    } else if args[2] == "gen_doc"@ {
        Some(HttpCommandView::GenDoc)
    } else {
        Some(
            HttpCommandView::Refused(
                "unknown command '"@ + args[2] + "': expected upload or gen_doc"@,
            ),
        )
    }
}

/// Reads the HTTP command on a command line. `None` if its size does not fit in a
/// `usize`.
pub fn http_command(args: &Vec<String>) -> (r: Option<HttpCommand>)
    requires
        args@.len() >= 3,
    ensures
        match r {
            Some(command) => command_of(arg_texts(args@)) == Some(command@),
            None => command_of(arg_texts(args@)) is None,
        },
{
    let ghost all = arg_texts(args@);
    let name: &str = args[2].as_str();
    assert(all[2] == name@);
    if same_text(name, "upload") {
        if args.len() < 4 {
            return Some(HttpCommand::Refused(String::from_str("upload requires a size argument")));
        }
        assert(all[3] == args@[3]@);
        match checked_parse_size(args[3].as_str()) {
            Some(Ok(size)) => Some(HttpCommand::Upload { size, chunks: num_chunks(size) }),
            Some(Err(e)) => Some(HttpCommand::Invalid(e)),
            None => None,
        }
    } else if same_text(name, "gen_doc") {
        Some(HttpCommand::GenDoc)
    } else {
        let mut e = String::from_str("unknown command '");
        e.append(name);
        e.append("': expected upload or gen_doc");
        Some(HttpCommand::Refused(e))
    }
}

/// `n` bytes to upload or to stream.
pub open spec fn filled(n: nat) -> Seq<u8> {
    Seq::new(n, |i: int| FILL)
}

/// `n` bytes to upload or to stream.
pub fn payload(n: usize) -> (r: Vec<u8>)
    ensures
        r@ == filled(n as nat),
        r@.len() == n,
        forall|i: int| 0 <= i < n ==> #[trigger] r@[i] == 0xAB,
{
    let out: Vec<u8> = vec![FILL;n];
    assert(out@ =~= filled(n as nat));
    out
}

/// The line that announces an upload.
pub fn upload_line(size: usize, chunks: usize) -> (r: String)
    ensures
        r@ == "[host] Uploading "@ + decimal(size as nat) + " bytes ("@ + decimal(chunks as nat)
            + " chunks)..."@,
{
    let mut out = String::from_str("[host] Uploading ");
    push_decimal(&mut out, size as u64);
    out.append(" bytes (");
    push_decimal(&mut out, chunks as u64);
    out.append(" chunks)...");
    out
}

/// What the host program makes of the enclave's answer.
#[derive(Debug)]
pub enum Report {
    /// Print this document.
    Document(String),
    /// Say this and stop with an error.
    Failure(String),
    /// Print these two lines, then how long it took.
    Answer(String, String),
}

/// What the host program makes of the enclave's answer: the document that it asked
/// for, or why there is none; of an upload, status and answer.
pub fn report(gen_doc: bool, success: bool, status: &str, body: &str) -> (r: Report)
    ensures
        match r {
            Report::Document(t) => gen_doc && success && t@ == body@,
            Report::Failure(t) => gen_doc && !success && t@ == "[host] attestation failed ("@
                + status@ + "): "@ + body@,
            Report::Answer(a, b) => !gen_doc && a@ == "Status: "@ + status@ && b@ == "Response: "@
                + body@,
        },
{
    if gen_doc {
        if success {
            Report::Document(String::from_str(body))
        } else {
            let mut out = String::from_str("[host] attestation failed (");
            out.append(status);
            out.append("): ");
            out.append(body);
            Report::Failure(out)
        }
    } else {
        let mut first = String::from_str("Status: ");
        first.append(status);
        let mut second = String::from_str("Response: ");
        second.append(body);
        Report::Answer(first, second)
    }
}

/// What a text with a unit stands for: the number in front of it, times 1024, 1024 to the
/// second or 1024 to the third; else what is wrong with that number.
pub proof fn law_host_size_by_unit(d: Seq<char>)
    requires
        d.len() > 0 ==> !is_white_space(d[0]),
    ensures
        ({
            let n = number(d, usize::MAX as nat);
            let k = host_size(d + seq!['K', 'B']);
            let m = host_size(d + seq!['M', 'B']);
            let g = host_size(d + seq!['G', 'B']);
            &&& n matches Ok(v) ==> {
                &&& k == Ok::<nat, Seq<char>>(v * 1024)
                &&& m == Ok::<nat, Seq<char>>(v * 1048576)
                &&& g == Ok::<nat, Seq<char>>(v * 1073741824)
            }
            &&& n matches Err(e) ==> {
                let text = match e {
                    IntError::Empty => "cannot parse integer from empty string"@,
                    IntError::InvalidDigit => "invalid digit found in string"@,
                    IntError::PosOverflow => "number too large to fit in target type"@,
                };
                &&& k == Err::<nat, Seq<char>>(text)
                &&& m == Err::<nat, Seq<char>>(text)
                &&& g == Err::<nat, Seq<char>>(text)
            }
        }),
{
    lemma_unit_of(d, 'K');
    lemma_unit_of(d, 'M');
    lemma_unit_of(d, 'G');
}

proof fn lemma_unit_of(d: Seq<char>, u: char)
    requires
        d.len() > 0 ==> !is_white_space(d[0]),
        u == 'K' || u == 'M' || u == 'G',
    ensures
        ({
            let s = d + seq![u, 'B'];
            &&& trimmed(s) == s
            &&& unit_parts(s) == Some(
                (
                    d,
                    if u == 'K' {
                        1024nat
                    } else if u == 'M' {
                        1048576
                    } else {
                        1073741824
                    },
                ),
            )
        }),
{
    reveal_strlit("KB");
    reveal_strlit("MB");
    reveal_strlit("GB");
    let s = d + seq![u, 'B'];
    let end = s.subrange(s.len() - 2, s.len() as int);
    assert(end =~= seq![u, 'B']);
    assert("KB"@ =~= seq!['K', 'B'] && "MB"@ =~= seq!['M', 'B'] && "GB"@ =~= seq!['G', 'B']);
    assert(end[0] == u);
    assert(seq!['K', 'B'][0] == 'K' && seq!['M', 'B'][0] == 'M' && seq!['G', 'B'][0] == 'G');
    assert(without_last(s, 2) =~= d);
    assert(trimmed(s) == s);
}

/// A text without a unit is no size, and is named as such.
pub proof fn law_host_size_needs_a_unit(s: Seq<char>)
    requires
        ({
            let t = trimmed(s);
            &&& !ends_with(t, "KB"@)
            &&& !ends_with(t, "MB"@)
            &&& !ends_with(t, "GB"@)
        }),
    ensures
        host_size(s) == Err::<nat, Seq<char>>(
            "invalid size '"@ + trimmed(s) + "': expected format like 100KB, 500MB, 1GB"@,
        ),
{
}

/// What a command line comes to before the host connects. Three arguments are needed, and
/// five to name `websocket`; by vsock the first must be a context id. `websocket` and
/// `stream` send frames: as many as the count says, or 100 if there is none that reads as
/// a number; as large as the size says, or 1024 bytes if none is given. Everything else
/// goes out by HTTP.
pub proof fn law_host_plan(vsock: bool, args: Seq<Seq<char>>)
    ensures
        ({
            let plan = plan_of(vsock, args);
            let frames = args[2] == "websocket"@ || args[2] == "stream"@;
            let cid = number(args[1], 0xFFFF_FFFF);
            let enough = args.len() >= 3 && (args[2] == "websocket"@ ==> args.len() >= 5);
            let id = if vsock {
                Some(cid->Ok_0 as u32)
            } else {
                None
            };
            &&& !enough ==> plan == Some(HostPlanView::Usage)
            &&& enough && vsock && cid is Err ==> plan == Some(
                HostPlanView::Invalid("invalid CID '"@ + args[1] + "'"@),
            )
            &&& enough && (vsock ==> cid is Ok) && !frames ==> plan == Some(
                HostPlanView::Http { cid: id },
            )
            &&& enough && (vsock ==> cid is Ok) && frames ==> {
                &&& args.len() > 4 ==> match host_size(args[4]) {
                    Err(e) => plan == Some(HostPlanView::Invalid(e)),
                    Ok(n) => if n > usize::MAX {
                        plan is None
                    } else {
                        plan matches Some(HostPlanView::Stream { cid, count, frame_size }) && cid
                            == id && frame_size == n
                    },
                }
                &&& args.len() <= 4 ==> (plan matches Some(
                    HostPlanView::Stream { cid, count, frame_size },
                ) && cid == id && frame_size == 1024)
                &&& plan matches Some(HostPlanView::Stream { cid, count, frame_size }) ==> {
                    &&& args.len() <= 3 ==> count == 100
                    &&& args.len() > 3 ==> match number(args[3], usize::MAX as nat) {
                        Ok(v) => count == v,
                        Err(_) => count == 100,
                    }
                }
            }
        }),
{
    if args.len() > 3 {
        crate::text::lemma_number_bound(args[3], usize::MAX as nat);
    }
    if args.len() > 1 {
        crate::text::lemma_number_bound(args[1], u32::MAX as nat);
    }
}

/// What a command that goes out by HTTP comes to: an upload of exactly the bytes that its
/// size names, in the fewest chunks of 1048576 bytes that hold them; a document; or why it
/// is neither.
pub proof fn law_http_command(args: Seq<Seq<char>>)
    requires
        args.len() >= 3,
    ensures
        ({
            let command = command_of(args);
            &&& args[2] == "upload"@ && args.len() == 3 ==> command == Some(
                HttpCommandView::Refused("upload requires a size argument"@),
            )
            &&& args[2] == "upload"@ && args.len() > 3 ==> match host_size(args[3]) {
                Err(e) => command == Some(HttpCommandView::Invalid(e)),
                Ok(n) => if n > usize::MAX {
                    command is None
                } else {
                    command matches Some(HttpCommandView::Upload { size, chunks }) && size == n
                        && n <= chunks * 1048576 < n + 1048576
                },
            }
            &&& args[2] == "gen_doc"@ ==> command == Some(HttpCommandView::GenDoc)
            &&& args[2] != "upload"@ && args[2] != "gen_doc"@ ==> command == Some(
                HttpCommandView::Refused(
                    "unknown command '"@ + args[2] + "': expected upload or gen_doc"@,
                ),
            )
        }),
{
    reveal_strlit("upload");
    reveal_strlit("gen_doc");
    assert("upload"@.len() != "gen_doc"@.len());
}

/// What fits in a `usize` is read, and nothing that does not; no text that is no size is
/// too large.
pub proof fn law_host_sizes_that_fit(s: Seq<char>)
    ensures
        host_size_fits(s) <==> !(host_size(s) matches Ok(v) && v > usize::MAX),
{
}

} // verus!
