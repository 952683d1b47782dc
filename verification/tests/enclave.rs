use aws_nitro_enclaves_nsm_api::api::ErrorCode;
use base64::Engine;
use k256::ecdsa::signature::{Signer, Verifier};
use nitro_attest::attestation::{
    attest_key, attestation_reply, attestation_request, generate_attestation_doc,
    handle_attestation, read_response, NsmErrorCode, NsmEvent, NsmResponse, NsmSession,
};
use nitro_attest::binding::{
    attest_computation, binding_request, user_data_for, user_data_matches,
};
use nitro_attest::compute::{
    sample_output, ComputeAction, ComputeEvent, ComputePhase, ComputeSession, COMPUTE_PORT,
};
use nitro_attest::frame::{decode_answer, decode_frame, encode_answer, encode_frame};
use nitro_attest::host::{
    http_command, num_chunks, payload, plan_host, report, upload_line, Address, HostPlan,
    HttpCommand, Report,
};
use nitro_attest::io::{Io, IoEvent};
use nitro_attest::keys::{judge_trial, new_key, recover_secret_key, trial_text, try_key, KeyFault};
use nitro_attest::upload::{upload_json, Upload};
use nitro_attest::websocket::{WsAction, WsEvent, WsSession};
use nitro_attest::wire::same_bytes;
use sha2::Digest;

fn words(args: &[&str]) -> Vec<String> {
    args.iter().map(|a| a.to_string()).collect()
}

fn key_one() -> Vec<u8> {
    let mut key = vec![0u8; 32];
    key[31] = 1;
    key
}

const ORDER: &str = "fffffffffffffffffffffffffffffffebaaedce6af48a03bbfd25e8cd0364141";

#[test]
fn key_trial_of_the_smallest_key() {
    let r = try_key(key_one()).unwrap();
    assert_eq!(r.secret_key_hex, format!("{}1", "0".repeat(63)));
    assert_eq!(
        r.public_key_hex,
        "0479be667ef9dcbbac55a06295ce870b07029bfcdb2dce28d959f2815b16f81798\
         483ada7726a3c4655da4fbfc0e1108a8fd17b448a68554199c47d08ffb10d4b8"
    );
    assert_eq!(r.message_hex, "4920616d204f4b58");
    assert_eq!(r.public_key.len(), 65);
    assert_eq!(r.signature.len(), 64);
    let signer = k256::ecdsa::SigningKey::from_slice(&key_one()).unwrap();
    let expected: k256::ecdsa::Signature = signer.sign(b"I am OKX");
    assert_eq!(r.signature, expected.to_bytes().to_vec());
    assert_eq!(r.signature_hex, hex::encode(expected.to_bytes()));
    assert!(signer.verifying_key().verify(b"I am OKX", &expected).is_ok());
}

#[test]
fn key_trial_of_random_keys() {
    let a = new_key().unwrap();
    let b = new_key().unwrap();
    assert_ne!(a.secret_key, b.secret_key);
    for r in [a, b] {
        assert_eq!(r.secret_key.len(), 32);
        assert_eq!(recover_secret_key(&r.secret_key_hex), Some(r.secret_key.clone()));
        assert_eq!(r.public_key[0], 4);
        assert_eq!(try_key(r.secret_key).unwrap().signature, r.signature);
    }
}

#[test]
fn keys_that_cannot_be_recovered() {
    assert_eq!(recover_secret_key(""), None);
    assert_eq!(recover_secret_key("01"), None);
    assert_eq!(recover_secret_key(&"00".repeat(32)), None);
    assert_eq!(recover_secret_key(ORDER), None);
    assert_eq!(recover_secret_key(&"zz".repeat(32)), None);
    assert_eq!(recover_secret_key(&"0".repeat(63)), None);
    assert_eq!(recover_secret_key(&"é".repeat(32)), None);
    let largest = format!("{}0", &ORDER[..63]);
    assert_eq!(recover_secret_key(&largest), Some(hex::decode(&largest).unwrap()));
    assert_eq!(
        recover_secret_key(&largest.to_uppercase()),
        Some(hex::decode(&largest).unwrap())
    );
}

#[test]
fn key_trials_that_fail() {
    let fault = |recovered: Option<Vec<u8>>, signature: Option<Vec<u8>>, verified: bool| {
        judge_trial(key_one(), recovered, vec![4], signature, verified).unwrap_err()
    };
    assert_eq!(fault(None, None, false), KeyFault::Recovery);
    assert_eq!(fault(Some(vec![1]), Some(vec![7]), true), KeyFault::Mismatch);
    let mut other = key_one();
    other[0] = 1;
    assert_eq!(fault(Some(other), Some(vec![7]), true), KeyFault::Mismatch);
    assert_eq!(fault(Some(key_one()), None, true), KeyFault::Signing);
    assert_eq!(fault(Some(key_one()), Some(vec![7]), false), KeyFault::Verification);
    let r = judge_trial(key_one(), Some(key_one()), vec![4, 255], Some(vec![7]), true).unwrap();
    assert_eq!(r.public_key_hex, "04ff");
    assert_eq!(r.signature_hex, "07");
    assert_eq!(trial_text(), b"I am OKX");
}

#[test]
fn attestation_requests_leave_out_empty_fields() {
    let r = attestation_request(b"data", b"", b"key");
    assert_eq!(r.user_data, Some(b"data".to_vec()));
    assert_eq!(r.nonce, None);
    assert_eq!(r.public_key, Some(b"key".to_vec()));
    let r = attestation_request(b"", b"n", b"");
    assert_eq!((r.user_data, r.nonce, r.public_key), (None, Some(b"n".to_vec()), None));
}

#[test]
fn attestation_needs_vsock() {
    let e = generate_attestation_doc(false, b"a", b"b", b"c").unwrap_err();
    assert_eq!(e, "attestation is not supported without the vsock feature");
}

#[test]
fn attestation_exchange() {
    let s = attest_key(true, &[4, 5, 6]).unwrap();
    assert!(s.accepts(&NsmEvent::Opened(3)));
    assert!(!s.accepts(&NsmEvent::Closed));
    let s = s.on_event(NsmEvent::Opened(3));
    match &s {
        NsmSession::Process(3, r) => {
            assert_eq!(r.user_data, Some(b"Tradezone TEE Verifier".to_vec()));
            assert_eq!(r.nonce, None);
            assert_eq!(r.public_key, Some(vec![4, 5, 6]));
        }
        other => panic!("{:?}", other),
    }
    let s = s.on_event(NsmEvent::Answered(NsmResponse::Attestation(vec![1, 2])));
    assert!(matches!(s, NsmSession::Exit(3, _)));
    let s = s.on_event(NsmEvent::Closed);
    assert!(matches!(s, NsmSession::Done(Ok(d)) if d == vec![1, 2]));
}

#[test]
fn attestation_exchange_without_driver() {
    let s = generate_attestation_doc(true, b"", b"", b"").unwrap();
    let s = s.on_event(NsmEvent::Opened(-1));
    assert!(matches!(s, NsmSession::Done(Err(e)) if e == "failed to initialize NSM driver"));
}

#[test]
fn security_module_answers() {
    assert_eq!(read_response(NsmResponse::Attestation(vec![9])), Ok(vec![9]));
    assert_eq!(
        read_response(NsmResponse::Error(NsmErrorCode::InputTooLarge)),
        Err("NSM error: InputTooLarge".to_string())
    );
    assert_eq!(read_response(NsmResponse::Other), Err("unexpected NSM response".to_string()));
    let pairs = [
        (NsmErrorCode::Success, ErrorCode::Success),
        (NsmErrorCode::InvalidArgument, ErrorCode::InvalidArgument),
        (NsmErrorCode::InvalidIndex, ErrorCode::InvalidIndex),
        (NsmErrorCode::InvalidResponse, ErrorCode::InvalidResponse),
        (NsmErrorCode::ReadOnlyIndex, ErrorCode::ReadOnlyIndex),
        (NsmErrorCode::InvalidOperation, ErrorCode::InvalidOperation),
        (NsmErrorCode::BufferTooSmall, ErrorCode::BufferTooSmall),
        (NsmErrorCode::InputTooLarge, ErrorCode::InputTooLarge),
        (NsmErrorCode::InternalError, ErrorCode::InternalError),
    ];
    for (ours, theirs) in pairs {
        assert_eq!(ours.text(), format!("{:?}", theirs));
    }
}

#[test]
fn attestation_replies() {
    let r = attestation_reply(Ok(b"hello world~".to_vec()));
    assert_eq!((r.status, r.body.as_str()), (200, "aGVsbG8gd29ybGR+"));
    assert_eq!(attestation_reply(Ok(vec![])).body, "");
    assert_eq!(attestation_reply(Ok(vec![0xff])).body, "/w==");
    assert_eq!(attestation_reply(Ok(vec![0xfb, 0xff])).body, "+/8=");
    let r = attestation_reply(Err("nope".to_string()));
    assert_eq!((r.status, r.body.as_str()), (500, "nope"));
}

#[test]
fn attestation_vouches_for_the_key_that_was_tried() {
    let start = handle_attestation(true).unwrap();
    match start.exchange.unwrap() {
        NsmSession::Init(r) => assert_eq!(r.public_key, Some(start.report.public_key)),
        other => panic!("{:?}", other),
    }
    let start = handle_attestation(false).unwrap();
    let reply = attestation_reply(Err(start.exchange.unwrap_err()));
    assert_eq!(reply.status, 500);
}

fn answer_of(chunks: &[&[u8]]) -> String {
    let mut u = Upload::new();
    for c in chunks {
        assert!(u.on_chunk(Ok(c)));
    }
    u.answer()
}

#[test]
fn upload_answers() {
    assert_eq!(
        answer_of(&[b"abc"]),
        "{\"hash\":\"ba7816bf8f01cfea414140de5dae2223b00361a396177a9cb410ff61f20015ad\",\"size\":3}"
    );
    assert_eq!(
        answer_of(&[]),
        "{\"hash\":\"e3b0c44298fc1c149afbf4c8996fb92427ae41e4649b934ca495991b7852b855\",\"size\":0}"
    );
    assert_eq!(answer_of(&[b"a", b"", b"bc"]), answer_of(&[b"abc"]));
    assert_eq!(upload_json("00ff", 12), "{\"hash\":\"00ff\",\"size\":12}");
}

#[test]
fn upload_in_chunks_of_the_host() {
    let chunk = payload(1_048_576);
    let mut u = Upload::new();
    for _ in 0..3 {
        u.on_chunk(Ok(&chunk));
    }
    let (hash, size) = u.finish();
    assert_eq!(size, 3 * 1_048_576);
    assert_eq!(hash, hex::encode(sha2::Sha256::digest(payload(3 * 1_048_576))));
}

#[test]
fn upload_of_the_host_is_answered() {
    let command = http_command(&words(&["host", "16", "upload", "1025KB"]));
    let chunks: usize = match command {
        Some(HttpCommand::Upload { size: 1_049_600, chunks }) => chunks,
        other => panic!("{:?}", other),
    };
    let chunk = payload(1_048_576);
    let mut u = Upload::new();
    for _ in 0..chunks {
        u.on_chunk(Ok(&chunk));
    }
    let digest = hex::encode(sha2::Sha256::digest(vec![0xABu8; 2_097_152]));
    assert_eq!(u.answer(), format!("{{\"hash\":\"{}\",\"size\":2097152}}", digest));
}

#[test]
fn upload_ends_with_an_error() {
    let mut u = Upload::new();
    assert!(u.on_chunk(Ok(b"abc")));
    assert!(!u.on_chunk(Err("reset")));
    assert_eq!(u.answer(), answer_of(&[b"abc"]));
}

#[test]
fn websocket_reads_ever_more_slowly() {
    let mut s = WsSession::new();
    let events = [
        WsEvent::Binary(vec![0xab, 0x01]),
        WsEvent::Text("hi".to_string()),
        WsEvent::Other,
    ];
    let lines = [
        Some("[enclave] WS recv 2 bytes: ab01".to_string()),
        Some("[enclave] WS recv text: hi".to_string()),
        None,
    ];
    let mut n: u64 = 0;
    for (event, expected) in events.into_iter().zip(lines) {
        n += 1;
        match s.on_event(event) {
            WsAction::Wait { line, notice, secs } => {
                assert_eq!(line, expected);
                assert_eq!(secs, n);
                assert_eq!(notice, format!("[enclave] WS waiting {}s before next recv", n));
            }
            other => panic!("{:?}", other),
        }
    }
    assert_eq!(s.delay_secs, 4);
}

#[test]
fn websocket_ends() {
    let mut s = WsSession::new();
    match s.on_event(WsEvent::Close) {
        WsAction::Stop { line } => {
            assert_eq!(line, Some("[enclave] WS connection closed".to_string()))
        }
        other => panic!("{:?}", other),
    }
    match s.on_event(WsEvent::Error("gone".to_string())) {
        WsAction::Stop { line } => assert_eq!(line, Some("[enclave] WS error: gone".to_string())),
        other => panic!("{:?}", other),
    }
    assert_eq!(s.delay_secs, 1);
}

#[test]
fn frames_read_back() {
    assert_eq!(encode_frame(b"abc"), vec![0, 0, 0, 3, b'a', b'b', b'c']);
    assert_eq!(decode_frame(&encode_frame(b"abc")), Some((b"abc".to_vec(), 7)));
    assert_eq!(decode_frame(&[0, 0, 0, 1, 9, 8, 7]), Some((vec![9], 5)));
    assert_eq!(decode_frame(&[0, 0, 0, 0]), Some((vec![], 4)));
    assert_eq!(decode_frame(&[]), None);
    assert_eq!(decode_frame(&[0, 0, 0]), None);
    assert_eq!(decode_frame(&[0, 0, 0, 2, 1]), None);
    assert_eq!(decode_frame(&[0xff, 0xff, 0xff, 0xff, 1]), None);
}

#[test]
fn answers_are_two_frames() {
    let a = encode_answer(b"out", b"doc!");
    assert_eq!(a, vec![0, 0, 0, 3, b'o', b'u', b't', 0, 0, 0, 4, b'd', b'o', b'c', b'!']);
    assert_eq!(decode_answer(&a), Some((b"out".to_vec(), b"doc!".to_vec())));
    for n in 0..a.len() {
        assert_eq!(decode_answer(&a[..n]), None);
    }
}

const INPUT: &[u8] = b"{\n  \"values\": [1, 2, 3],\n  \"operation\": \"sum\"\n}\n";
const OUTPUT: &[u8] = b"{\"result\":6,\"processed\":true}";

#[test]
fn user_data_of_the_sample_run() {
    let user_data = user_data_for(INPUT, OUTPUT);
    assert_eq!(
        hex::encode(&user_data),
        "176646ebb4e3a465f59b93bd455f4c85111c7ede076ea3b4c0aba6670824376a"
    );
    assert!(user_data_matches(&user_data, INPUT, OUTPUT));
    assert_eq!(binding_request(INPUT, OUTPUT).user_data, Some(user_data));
    assert_eq!(binding_request(INPUT, OUTPUT).public_key, None);
}

#[test]
fn user_data_shows_tampering() {
    let user_data = user_data_for(INPUT, OUTPUT);
    assert!(!user_data_matches(&user_data, INPUT, b"{\"result\":999,\"processed\":true}"));
    assert!(!user_data_matches(&user_data[..31], INPUT, OUTPUT));
}

#[test]
fn bytes_compare() {
    assert!(same_bytes(b"", b""));
    assert!(same_bytes(b"ab", b"ab"));
    assert!(!same_bytes(b"ab", b"ac"));
    assert!(!same_bytes(b"ab", b"abc"));
}

#[test]
fn host_plans() {
    let plan = |vsock: bool, args: &[&str]| plan_host(vsock, &words(args));
    assert!(matches!(plan(true, &["host", "16"]), Some(HostPlan::Usage)));
    assert!(matches!(plan(true, &["host", "x", "upload"]), Some(HostPlan::Invalid(e)) if e == "invalid CID 'x'"));
    assert!(matches!(plan(true, &["host", "4294967296", "gen_doc"]), Some(HostPlan::Invalid(_))));
    assert!(matches!(plan(false, &["host", "x", "upload"]), Some(HostPlan::Http { cid: None })));
    assert!(matches!(plan(true, &["host", "16", "what"]), Some(HostPlan::Http { cid: Some(16) })));
    assert!(matches!(
        plan(true, &["host", "16", "stream"]),
        Some(HostPlan::Stream { cid: Some(16), count: 100, frame_size: 1024 })
    ));
    assert!(matches!(
        plan(false, &["host", "-", "stream", "7", "1MB"]),
        Some(HostPlan::Stream { cid: None, count: 7, frame_size: 1_048_576 })
    ));
    assert!(matches!(
        plan(false, &["host", "-", "stream", "seven"]),
        Some(HostPlan::Stream { cid: None, count: 100, frame_size: 1024 })
    ));
    assert!(matches!(
        plan(false, &["host", "-", "stream", "7", "1"]),
        Some(HostPlan::Invalid(e)) if e == "invalid size '1': expected format like 100KB, 500MB, 1GB"
    ));
    assert!(plan(false, &["host", "-", "stream", "7", &format!("{}KB", usize::MAX)]).is_none());
}

#[test]
fn http_commands() {
    let command = |args: &[&str]| http_command(&words(args));
    assert!(matches!(
        command(&["host", "16", "upload", "1025KB"]),
        Some(HttpCommand::Upload { size: 1_049_600, chunks: 2 })
    ));
    assert!(matches!(
        command(&["host", "16", "upload"]),
        Some(HttpCommand::Refused(e)) if e == "upload requires a size argument"
    ));
    assert!(matches!(
        command(&["host", "16", "upload", "KB"]),
        Some(HttpCommand::Invalid(e)) if e == "cannot parse integer from empty string"
    ));
    assert!(command(&["host", "16", "upload", &format!("{}GB", usize::MAX)]).is_none());
    assert!(matches!(command(&["host", "16", "gen_doc"]), Some(HttpCommand::GenDoc)));
    assert!(matches!(
        command(&["host", "16", "get"]),
        Some(HttpCommand::Refused(e)) if e == "unknown command 'get': expected upload or gen_doc"
    ));
}

#[test]
fn chunks_of_an_upload() {
    assert_eq!(num_chunks(0), 0);
    assert_eq!(num_chunks(1), 1);
    assert_eq!(num_chunks(1_048_576), 1);
    assert_eq!(num_chunks(1_048_577), 2);
    assert_eq!(num_chunks(usize::MAX), usize::MAX.div_ceil(1_048_576));
    assert_eq!(payload(3), vec![0xAB, 0xAB, 0xAB]);
    assert_eq!(upload_line(1_049_600, 2), "[host] Uploading 1049600 bytes (2 chunks)...");
}

#[test]
fn host_reports() {
    assert!(matches!(report(true, true, "200 OK", "ZG9j"), Report::Document(t) if t == "ZG9j"));
    assert!(matches!(
        report(true, false, "500 Internal Server Error", "no"),
        Report::Failure(t) if t == "[host] attestation failed (500 Internal Server Error): no"
    ));
    assert!(matches!(
        report(false, false, "404 Not Found", ""),
        Report::Answer(a, b) if a == "Status: 404 Not Found" && b == "Response: "
    ));
}

#[test]
fn attestation_reply_decodes_to_the_document() {
    for n in 0..70usize {
        let document: Vec<u8> = (0..n).map(|i| (i * 37 + n) as u8).collect();
        let reply = attestation_reply(Ok(document.clone()));
        assert_eq!(reply.status, 200);
        let decoded = base64::engine::general_purpose::STANDARD.decode(reply.body).unwrap();
        assert_eq!(decoded, document);
    }
}

#[test]
fn a_computation_is_attested() {
    match attest_computation(true, INPUT, OUTPUT) {
        Ok(NsmSession::Init(r)) => {
            assert_eq!(r.user_data, Some(user_data_for(INPUT, OUTPUT)));
            assert_eq!((r.nonce, r.public_key), (None, None));
        }
        other => panic!("{:?}", other),
    }
    assert_eq!(
        attest_computation(false, INPUT, OUTPUT).unwrap_err(),
        "attestation is not supported without the vsock feature"
    );
}

#[test]
fn frames_are_sent_under_either_name() {
    for name in ["websocket", "stream"] {
        assert!(matches!(
            plan_host(true, &words(&["host", "16", name, "7", "2KB"])),
            Some(HostPlan::Stream { cid: Some(16), count: 7, frame_size: 2048 })
        ));
    }
    for args in [&["host", "16", "websocket"][..], &["host", "x", "websocket", "7"][..]] {
        assert!(matches!(plan_host(true, &words(args)), Some(HostPlan::Usage)));
    }
    assert!(matches!(
        plan_host(false, &words(&["host", "16", "Websocket"])),
        Some(HostPlan::Http { cid: None })
    ));
}

#[test]
fn host_addresses() {
    let address = |vsock: bool, args: &[&str]| plan_host(vsock, &words(args)).unwrap().address();
    assert_eq!(
        address(true, &["host", "16", "websocket", "1", "1KB"]),
        Some(Address::Vsock(16, 8001))
    );
    assert_eq!(address(true, &["host", "16", "gen_doc"]), Some(Address::Vsock(16, 8000)));
    assert_eq!(address(false, &["host", "16", "stream"]), Some(Address::Local(8001)));
    assert_eq!(address(false, &["host", "16", "upload"]), Some(Address::Local(8000)));
    assert_eq!(address(true, &["host", "x", "upload"]), None);
    assert_eq!(address(true, &["host"]), None);
}

#[test]
fn request_heads() {
    let head = |args: &[&str]| http_command(&words(args)).unwrap().head();
    let h = head(&["host", "16", "upload", "1KB"]).unwrap();
    assert_eq!((h.method, h.uri, h.host), ("POST", "/upload", "enclave"));
    assert_eq!(h.content_type, Some("application/octet-stream"));
    let h = head(&["host", "16", "gen_doc"]).unwrap();
    assert_eq!((h.method, h.uri, h.host), ("GET", "/attestation", "enclave"));
    assert_eq!(h.content_type, None);
    assert!(head(&["host", "16", "get"]).is_none());
    assert!(head(&["host", "16", "upload", "1"]).is_none());
}

#[test]
fn websocket_waits_once_for_each_message_before_the_end() {
    let events = vec![
        WsEvent::Other,
        WsEvent::Text("a".to_string()),
        WsEvent::Binary(vec![1]),
        WsEvent::Close,
    ];
    let mut s = WsSession::new();
    let mut waits: Vec<u64> = Vec::new();
    let mut stops: usize = 0;
    for event in events {
        match s.on_event(event) {
            WsAction::Wait { line: _, notice: _, secs } => waits.push(secs),
            WsAction::Stop { line: _ } => stops += 1,
        }
    }
    assert_eq!(waits, vec![1, 2, 3]);
    assert_eq!(stops, 1);
    assert_eq!(s.delay_secs, 4);
}

/// A computation on `INPUT`, up to the point where the output is due.
fn computing(vsock: bool) -> ComputeSession {
    let s = ComputeSession::new(vsock);
    assert!(matches!(s.action(), ComputeAction::Io(Io::ReadExact(4))));
    let head = encode_frame(INPUT)[..4].to_vec();
    let s = s.on_event(ComputeEvent::Io(IoEvent::Bytes(head)));
    assert!(matches!(s.action(), ComputeAction::Io(Io::ReadExact(n)) if n == INPUT.len() as u64));
    assert!(!s.accepts(&ComputeEvent::Io(IoEvent::Bytes(vec![0]))));
    let s = s.on_event(ComputeEvent::Io(IoEvent::Bytes(INPUT.to_vec())));
    assert!(matches!(s.action(), ComputeAction::Compute));
    s
}

#[test]
fn a_computation_is_answered_with_its_document() {
    let mut s = computing(true).on_event(ComputeEvent::Output(OUTPUT.to_vec()));
    match &s.phase {
        ComputePhase::Attest(_, _, NsmSession::Init(r)) => {
            assert_eq!(r.user_data, Some(user_data_for(INPUT, OUTPUT)));
            assert_eq!((&r.nonce, &r.public_key), (&None, &None));
        }
        other => panic!("{:?}", other),
    }
    let steps = [
        NsmEvent::Opened(3),
        NsmEvent::Answered(NsmResponse::Attestation(b"doc!".to_vec())),
        NsmEvent::Closed,
    ];
    for step in steps {
        assert!(matches!(s.action(), ComputeAction::Attest));
        let event = ComputeEvent::Nsm(step);
        assert!(s.accepts(&event));
        s = s.on_event(event);
    }
    match s.action() {
        ComputeAction::Io(Io::Write(b)) => {
            assert_eq!(decode_answer(&b), Some((OUTPUT.to_vec(), b"doc!".to_vec())));
        }
        other => panic!("{:?}", other),
    }
    let s = s.on_event(ComputeEvent::Io(IoEvent::Written));
    assert!(matches!(s.action(), ComputeAction::Done));
    assert_eq!(COMPUTE_PORT, 5000);
}

#[test]
fn computations_that_fail() {
    let reason = |s: ComputeSession| match s.phase {
        ComputePhase::Failed(e) => e,
        other => panic!("{:?}", other),
    };
    let s = ComputeSession::new(true).on_event(ComputeEvent::Broken("EPIPE".to_string()));
    assert_eq!(reason(s), "EPIPE");
    let s = computing(true).on_event(ComputeEvent::Rejected("no JSON".to_string()));
    assert_eq!(reason(s), "no JSON");
    let s = computing(false).on_event(ComputeEvent::Output(OUTPUT.to_vec()));
    assert_eq!(reason(s), "attestation is not supported without the vsock feature");
    let s = computing(true).on_event(ComputeEvent::Output(OUTPUT.to_vec()));
    let s = s.on_event(ComputeEvent::Nsm(NsmEvent::Opened(-1)));
    assert_eq!(reason(s), "failed to initialize NSM driver");
}

#[test]
fn the_sample_computation() {
    assert_eq!(sample_output(&[1, 2, 3]).unwrap().as_bytes(), OUTPUT);
    assert_eq!(sample_output(&[]).unwrap(), "{\"result\":0,\"processed\":true}");
    assert_eq!(sample_output(&[5, -7]).unwrap(), "{\"result\":-2,\"processed\":true}");
    assert_eq!(
        sample_output(&[i64::MIN]).unwrap(),
        "{\"result\":-9223372036854775808,\"processed\":true}"
    );
    assert_eq!(sample_output(&[i64::MAX, 1]), None);
    assert!(sample_output(&[i64::MAX, 1, -1]).is_some());
}
