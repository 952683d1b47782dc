use nitro_attest::bench_enclave::{EnclaveAction, EnclavePhase, EnclaveSession};
use nitro_attest::bench_host::{BenchRun, Direction, HostAction, HostEvent, HostPhase};
use nitro_attest::control::{read_ack, write_ack, ControlMessage};
use nitro_attest::io::{Io, IoEvent};
use nitro_attest::launch::{
    launch_args, launch_outcome, terminate_all_args, terminate_args, LaunchEvent, LaunchSession,
};
use nitro_attest::options::{checked_parse_args, parse_args, round_banner};
use nitro_attest::transfer::Progress;

fn words(args: &[&str]) -> Vec<String> {
    args.iter().map(|a| a.to_string()).collect()
}

#[test]
fn control_message_reads_back() {
    let m = ControlMessage { total_bytes: 0x0102_0304_0506_0708, buffer_size: 65536, flags: 3 };
    let bytes = m.to_bytes();
    assert_eq!(
        bytes,
        vec![1, 2, 3, 4, 5, 6, 7, 8, 0, 0, 0, 0, 0, 1, 0, 0, 0, 0, 0, 0, 0, 0, 0, 3]
    );
    let mut buf = [0u8; 24];
    buf.copy_from_slice(&bytes);
    assert_eq!(ControlMessage::from_bytes(&buf), m);
    assert!(m.reverse_requested());
    assert_eq!(ControlMessage::from_bytes(&[0xff; 24]).total_bytes, u64::MAX);
}

#[test]
fn control_message_writes_back() {
    let mut buf = [0u8; 24];
    for i in 0..24 {
        buf[i] = (17 * i + 3) as u8;
    }
    assert_eq!(ControlMessage::from_bytes(&buf).to_bytes(), buf.to_vec());
}

#[test]
fn host_opens_with_its_plan() {
    let run = launched().on_event(HostEvent::Connected);
    match run.action() {
        HostAction::Io(Io::Write(b)) => {
            assert_eq!(b, ControlMessage::request(10, 4, true).to_bytes())
        }
        other => panic!("{:?}", other),
    }
}

#[test]
fn a_run_sees_a_bounded_number_of_events() {
    let total: u64 = 10;
    let mut run = launched();
    let mut seen: u64 = 2;
    while !matches!(run.action(), HostAction::Done | HostAction::Failed(_)) {
        let event = match run.action() {
            HostAction::Connect(_, _) if seen < 30 => HostEvent::Refused("busy".to_string()),
            HostAction::Connect(_, _) => HostEvent::Connected,
            HostAction::Sleep(_) => HostEvent::Slept,
            HostAction::Io(Io::ReadExact(n)) => {
                HostEvent::Io(IoEvent::Bytes(vec![0u8; n as usize]))
            }
            HostAction::Io(Io::ReadSome(_)) => HostEvent::Io(IoEvent::Count(1)),
            HostAction::Io(_) => HostEvent::Io(IoEvent::Written),
            HostAction::StartClock => HostEvent::ClockStarted,
            HostAction::ReadClock => HostEvent::Elapsed(1),
            HostAction::Terminate(_) => HostEvent::Terminated,
            other => panic!("{:?}", other),
        };
        assert!(run.accepts(&event));
        run = run.on_event(event);
        seen += 1;
    }
    assert!(matches!(run.action(), HostAction::Done));
    assert!(seen <= 49 + 2 * total);
}

#[test]
fn reverse_is_the_lowest_flag() {
    assert!(ControlMessage::request(1, 1, true).reverse_requested());
    assert!(!ControlMessage::request(1, 1, false).reverse_requested());
    assert!(!ControlMessage { total_bytes: 0, buffer_size: 0, flags: 2 }.reverse_requested());
    assert!(ControlMessage { total_bytes: 0, buffer_size: 0, flags: u64::MAX }.reverse_requested());
    assert_eq!(ControlMessage::request(7, 9, true).flags, 1);
}

#[test]
fn acknowledgement_reads_back() {
    assert_eq!(write_ack(258), vec![0, 0, 0, 0, 0, 0, 1, 2]);
    assert_eq!(read_ack(&write_ack(u64::MAX)), u64::MAX);
}

#[test]
fn transfer_pieces() {
    let mut p = Progress::start(10, 4);
    let mut pieces: Vec<u64> = Vec::new();
    while let Some(n) = p.next() {
        pieces.push(n);
        p = p.written();
    }
    assert_eq!(pieces, vec![4, 4, 2]);
    assert_eq!(p.moved, 10);
    assert_eq!(Progress::start(0, 4).next(), None);
    assert_eq!(Progress::start(3, 0).next(), Some(0));
}

#[test]
fn receiving_nothing_means_closed() {
    let p = Progress::start(10, 4);
    assert!(p.read(0).is_err());
    assert_eq!(p.read(3).unwrap().moved, 3);
    assert_eq!(p.read(3).unwrap().next(), Some(4));
}

/// Runs both sides against each other; every read brings at most `step` bytes.
fn run_both(total: u64, buffer: u64, reverse: bool, step: u64) -> (BenchRun, EnclaveSession) {
    let mut host = BenchRun::new(total, buffer, reverse);
    let mut enclave = EnclaveSession::new();
    let mut to_enclave: Vec<u8> = Vec::new();
    let mut to_host: Vec<u8> = Vec::new();
    let mut clock: u128 = 0;
    loop {
        let mut moved = false;
        let event = match host.action() {
            HostAction::Launch => Some(HostEvent::Launched(16, "i-1-enc2".to_string())),
            HostAction::Sleep(_) => Some(HostEvent::Slept),
            HostAction::Connect(cid, port) => {
                assert_eq!((cid, port), (16, 5001));
                Some(HostEvent::Connected)
            }
            HostAction::StartClock => {
                clock = 0;
                Some(HostEvent::ClockStarted)
            }
            HostAction::ReadClock => Some(HostEvent::Elapsed(clock)),
            HostAction::Terminate(id) => {
                assert_eq!(id, "i-1-enc2");
                Some(HostEvent::Terminated)
            }
            HostAction::Io(Io::Write(b)) => {
                to_enclave.extend_from_slice(&b);
                Some(HostEvent::Io(IoEvent::Written))
            }
            HostAction::Io(Io::WriteZeros(n)) => {
                to_enclave.extend(vec![0u8; n as usize]);
                Some(HostEvent::Io(IoEvent::Written))
            }
            HostAction::Io(Io::ReadExact(n)) => {
                if (to_host.len() as u64) < n {
                    None
                } else {
                    let b: Vec<u8> = to_host.drain(..n as usize).collect();
                    Some(HostEvent::Io(IoEvent::Bytes(b)))
                }
            }
            HostAction::Io(Io::ReadSome(n)) => {
                let k = n.min(step).min(to_host.len() as u64);
                to_host.drain(..k as usize);
                if k == 0 {
                    None
                } else {
                    Some(HostEvent::Io(IoEvent::Count(k)))
                }
            }
            HostAction::Done | HostAction::Failed(_) => None,
        };
        if let Some(event) = event {
            assert!(host.accepts(&event));
            host = host.on_event(event);
            moved = true;
            clock += 1;
        }
        let event = match enclave.action() {
            EnclaveAction::Io(Io::Write(b)) => {
                to_host.extend_from_slice(&b);
                Some(IoEvent::Written)
            }
            EnclaveAction::Io(Io::WriteZeros(n)) => {
                to_host.extend(vec![0u8; n as usize]);
                Some(IoEvent::Written)
            }
            EnclaveAction::Io(Io::ReadExact(n)) => {
                if (to_enclave.len() as u64) < n {
                    None
                } else {
                    Some(IoEvent::Bytes(to_enclave.drain(..n as usize).collect()))
                }
            }
            EnclaveAction::Io(Io::ReadSome(n)) => {
                let k = n.min(step).min(to_enclave.len() as u64);
                to_enclave.drain(..k as usize);
                if k == 0 {
                    None
                } else {
                    Some(IoEvent::Count(k))
                }
            }
            EnclaveAction::Done | EnclaveAction::Closed => None,
        };
        if let Some(event) = event {
            assert!(enclave.accepts(&event));
            enclave = enclave.on_event(&event);
            moved = true;
        }
        if !moved {
            assert!(to_enclave.is_empty());
            assert!(to_host.is_empty());
            return (host, enclave);
        }
    }
}

#[test]
fn both_sides_finish_in_both_directions() {
    for (total, buffer, step) in [(1000u64, 64u64, 7u64), (1000, 64, 64), (64, 64, 1), (1, 4096, 1), (0, 16, 1)] {
        let (host, enclave) = run_both(total, buffer, true, step);
        assert!(matches!(host.phase, HostPhase::Done));
        assert_eq!(enclave.phase, EnclavePhase::Done(Some(total)));
        assert_eq!(host.results.len(), 2);
        assert_eq!(host.results[0].direction, Direction::HostToEnclave);
        assert_eq!(host.results[1].direction, Direction::EnclaveToHost);
        for r in &host.results {
            assert_eq!(r.total_bytes, total);
            assert_eq!(r.buffer_size, buffer);
        }
    }
}

#[test]
fn both_sides_finish_in_one_direction() {
    let (host, enclave) = run_both(300, 100, false, 33);
    assert!(matches!(host.phase, HostPhase::Done));
    assert_eq!(enclave.phase, EnclavePhase::Done(None));
    assert_eq!(host.results.len(), 1);
    assert_eq!(host.results[0].direction.text(), "Host -> Enclave");
    assert_eq!(Direction::EnclaveToHost.text(), "Enclave -> Host");
}

#[test]
fn enclave_notices_a_closed_connection() {
    let s = EnclaveSession::new();
    let open = ControlMessage::request(10, 4, true).to_bytes();
    let s = s.on_event(&IoEvent::Bytes(open));
    assert!(matches!(s.action(), EnclaveAction::Io(Io::ReadSome(4))));
    assert!(!s.accepts(&IoEvent::Count(5)));
    assert!(!s.accepts(&IoEvent::Written));
    let s = s.on_event(&IoEvent::Count(4));
    let s = s.on_event(&IoEvent::Count(0));
    assert!(matches!(s.action(), EnclaveAction::Closed));
}

#[test]
fn nothing_arrives_through_an_empty_buffer() {
    let open = ControlMessage::request(10, 0, true).to_bytes();
    let s = EnclaveSession::new().on_event(&IoEvent::Bytes(open));
    assert!(matches!(s.action(), EnclaveAction::Io(Io::ReadSome(0))));
    assert!(!s.accepts(&IoEvent::Count(1)));
    assert!(matches!(s.on_event(&IoEvent::Count(0)).action(), EnclaveAction::Closed));
    let (host, enclave) = run_both(0, 0, true, 1);
    assert!(matches!(host.phase, HostPhase::Done));
    assert_eq!(enclave.phase, EnclavePhase::Done(Some(0)));
}

fn launched() -> BenchRun {
    let run = BenchRun::new(10, 4, true);
    let run = run.on_event(HostEvent::Launched(5, "id".to_string()));
    assert!(matches!(run.action(), HostAction::Sleep(2000)));
    run.on_event(HostEvent::Slept)
}

#[test]
fn host_gives_up_after_twenty_tries() {
    let mut run = launched();
    for attempt in 1..=20u32 {
        assert!(matches!(run.action(), HostAction::Connect(5, 5001)));
        run = run.on_event(HostEvent::Refused("ENODEV".to_string()));
        if attempt < 20 {
            assert!(matches!(run.action(), HostAction::Sleep(500)));
            run = run.on_event(HostEvent::Slept);
        }
    }
    assert!(matches!(run.action(), HostAction::Terminate(id) if id == "id"));
    let run = run.on_event(HostEvent::Terminated);
    match run.action() {
        HostAction::Failed(e) => assert_eq!(e, "Failed to connect after 20 attempts: ENODEV"),
        other => panic!("{:?}", other),
    }
}

#[test]
fn host_terminates_when_it_has_no_socket() {
    let run = launched().on_event(HostEvent::Failed("EMFILE".to_string()));
    assert!(matches!(run.action(), HostAction::Terminate(_)));
    let run = run.on_event(HostEvent::Terminated);
    assert!(matches!(run.action(), HostAction::Failed(e) if e == "EMFILE"));
}

#[test]
fn host_fails_at_once_when_a_transfer_breaks() {
    let run = launched().on_event(HostEvent::Connected);
    let run = run.on_event(HostEvent::Failed("EPIPE".to_string()));
    assert!(matches!(run.action(), HostAction::Failed(e) if e == "EPIPE"));
    let run = BenchRun::new(1, 1, false).on_event(HostEvent::Failed("no image".to_string()));
    assert!(matches!(run.action(), HostAction::Failed(e) if e == "no image"));
}

#[test]
fn host_notices_a_closed_connection() {
    let run = launched().on_event(HostEvent::Connected);
    let mut run = run.on_event(HostEvent::Io(IoEvent::Written));
    run = run.on_event(HostEvent::ClockStarted);
    while let HostAction::Io(Io::WriteZeros(_)) = run.action() {
        run = run.on_event(HostEvent::Io(IoEvent::Written));
    }
    run = run.on_event(HostEvent::Io(IoEvent::Bytes(write_ack(10))));
    assert!(matches!(run.phase, HostPhase::StopForward(10)));
    run = run.on_event(HostEvent::Elapsed(77));
    assert_eq!(run.results[0].nanos, 77);
    run = run.on_event(HostEvent::ClockStarted);
    run = run.on_event(HostEvent::Io(IoEvent::Count(0)));
    assert!(matches!(run.action(), HostAction::Failed(e) if e == "Connection closed"));
}

#[test]
fn options_by_default() {
    let c = parse_args(&words(&["bench-host", "bench-enclave.eif"])).unwrap();
    assert_eq!(c.eif_path, "bench-enclave.eif");
    assert_eq!(c.total_bytes, 1_073_741_824);
    assert_eq!(c.buffer_sizes, vec![65536]);
    assert!(c.reverse);
    assert_eq!(c.summary(), "Total: 1.0 GiB, Buffer sizes: 64.0 KiB, Reverse: true");
}

#[test]
fn options_in_full() {
    let c = parse_args(&words(&[
        "bench-host", "x.eif", "--size", "512M", "--buffer-sizes", "4K,64K, 256K", "--no-reverse",
    ]))
    .unwrap();
    assert_eq!(c.total_bytes, 512 * 1024 * 1024);
    assert_eq!(c.buffer_sizes, vec![4096, 65536, 262144]);
    assert!(!c.reverse);
    assert_eq!(
        c.summary(),
        "Total: 512.0 MiB, Buffer sizes: 4.0 KiB, 64.0 KiB, 256.0 KiB, Reverse: false"
    );
    let c = parse_args(&words(&["b", "x", "--size", "1", "--size", "2"])).unwrap();
    assert_eq!(c.total_bytes, 2);
}

#[test]
fn options_that_are_wrong() {
    let fails = |args: &[&str]| parse_args(&words(args)).unwrap_err();
    assert_eq!(fails(&["b"]), "Missing EIF path");
    assert_eq!(fails(&[]), "Missing EIF path");
    assert_eq!(fails(&["b", "x", "--size"]), "--size requires a value");
    assert_eq!(fails(&["b", "x", "--buffer-sizes"]), "--buffer-sizes requires a value");
    assert_eq!(fails(&["b", "x", "--fast"]), "Unknown option: --fast");
    assert_eq!(fails(&["b", "x", "--size", "--no-reverse"]), "Invalid size: --no-reverse");
    assert_eq!(fails(&["b", "x", "--buffer-sizes", "4K,,1K"]), "Invalid size: ");
    assert_eq!(fails(&["b", "x", "--buffer-sizes", "4K, q"]), "Invalid size: q");
    assert_eq!(fails(&["b", "x", "--buffer-sizes", "z,17179869184G"]), "Invalid size: z");
    assert!(checked_parse_args(&words(&["b", "x", "--size", "17179869184G"])).is_none());
    assert!(checked_parse_args(&words(&["b", "x", "--buffer-sizes", "17179869184G,z"])).is_none());
    assert!(checked_parse_args(&words(&["b", "x", "--fast", "--size", "17179869184G"])).is_some());
}

#[test]
fn round_banners() {
    assert_eq!(round_banner(0, 1, 65536), None);
    assert_eq!(
        round_banner(1, 3, 65536),
        Some("--- Round 2/3: buffer_size=64.0 KiB ---".to_string())
    );
}

#[test]
fn nitro_cli_arguments() {
    assert_eq!(
        launch_args("a b.eif"),
        words(&["run-enclave", "--eif-path", "a b.eif", "--cpu-count", "2", "--memory", "256"])
    );
    assert_eq!(terminate_all_args(), words(&["terminate-enclave", "--all"]));
    assert_eq!(terminate_args("i-1"), words(&["terminate-enclave", "--enclave-id", "i-1"]));
    assert_eq!(launch_outcome(true, "noise"), Ok(()));
    assert_eq!(launch_outcome(false, "E36"), Err("Failed to run enclave: E36".to_string()));
}

/// A launch of `b.eif` after both calls of `nitro-cli`, with what was called.
fn two_calls(stop: LaunchEvent, start: LaunchEvent) -> (LaunchSession, Vec<Vec<String>>) {
    let mut launch = LaunchSession::new("b.eif");
    let mut called: Vec<Vec<String>> = Vec::new();
    for event in [stop, start] {
        called.push(launch.command().unwrap());
        assert!(launch.accepts(&event));
        launch = launch.on_event(event);
    }
    assert_eq!(launch.command(), None);
    (launch, called)
}

fn exited(success: bool, stderr: &str) -> LaunchEvent {
    LaunchEvent::Exited(success, stderr.to_string())
}

#[test]
fn a_launch_stops_everything_first() {
    let stops = [
        exited(true, ""),
        exited(false, "nothing runs"),
        LaunchEvent::NotRun("no nitro-cli".to_string()),
    ];
    for stop in stops {
        let (launch, called) = two_calls(stop, exited(true, "noise"));
        let expected = vec![
            words(&["terminate-enclave", "--all"]),
            words(&["run-enclave", "--eif-path", "b.eif", "--cpu-count", "2", "--memory", "256"]),
        ];
        assert_eq!(called, expected);
        assert!(!launch.accepts(&exited(true, "")));
        let launch = launch.on_event(LaunchEvent::Output(16, "i-1".to_string()));
        assert!(matches!(launch, LaunchSession::Launched(16, id) if id == "i-1"));
    }
}

#[test]
fn launches_that_fail() {
    let (launch, _) = two_calls(exited(true, ""), exited(false, "E36"));
    assert!(matches!(launch, LaunchSession::Failed(e) if e == "Failed to run enclave: E36"));
    let (launch, _) = two_calls(exited(true, ""), LaunchEvent::NotRun("ENOENT".to_string()));
    assert!(matches!(launch, LaunchSession::Failed(e) if e == "ENOENT"));
    let (launch, _) = two_calls(exited(true, ""), exited(true, ""));
    let launch = launch.on_event(LaunchEvent::Unreadable("EOF".to_string()));
    assert!(matches!(launch, LaunchSession::Failed(e) if e == "EOF"));
}

#[test]
fn the_third_try_connects() {
    let mut run = launched();
    let mut tries: Vec<(u32, u32)> = Vec::new();
    let mut waits: Vec<u64> = Vec::new();
    loop {
        let event = match run.action() {
            HostAction::Connect(cid, port) => {
                tries.push((cid, port));
                if tries.len() == 3 {
                    HostEvent::Connected
                } else {
                    HostEvent::Refused("ECONNRESET".to_string())
                }
            }
            HostAction::Sleep(millis) => {
                waits.push(millis);
                HostEvent::Slept
            }
            _ => break,
        };
        run = run.on_event(event);
    }
    assert!(matches!(run.phase, HostPhase::Control));
    assert_eq!(tries, vec![(5, 5001); 3]);
    assert_eq!(waits, vec![500, 500]);
}
