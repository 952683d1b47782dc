//! The host side of one benchmark run: launch, connect, transfer, terminate.

use crate::control::{
    ack_bytes, law_ack_reads_back, law_message_layout, message_bytes, read_ack, request_message,
    write_ack, ControlMessage, VSOCK_PORT,
};
use crate::io::{io_answers, io_input, io_output, zeros, Io, IoEvent, IoEventView, IoView};
use crate::text::{decimal, push_decimal};
use crate::transfer::Progress;
use crate::wire::be_value;
use vstd::prelude::*;
use vstd::string::StringExecFns;

verus! {

broadcast use vstd::string::group_string_axioms;

/// How often a connection is tried.
pub const MAX_ATTEMPTS: u32 = 20;

/// The wait between two tries, in milliseconds.
pub const RETRY_MILLIS: u64 = 500;

/// The wait between launch and first try, in milliseconds.
pub const SETTLE_MILLIS: u64 = 2000;

/// Which way a measured transfer went.
#[derive(Clone, Copy, Debug, PartialEq, Eq, Structural)]
pub enum Direction {
    HostToEnclave,
    EnclaveToHost,
}

/// The name of a direction.
pub open spec fn direction_text(d: Direction) -> Seq<char> {
    match d {
        Direction::HostToEnclave => "Host -> Enclave"@,
        Direction::EnclaveToHost => "Enclave -> Host"@,
    }
}

impl Direction {
    /// The name of the direction.
    pub fn text(&self) -> (r: &'static str)
        ensures
            r@ == direction_text(*self),
    {
        match self {
            Direction::HostToEnclave => "Host -> Enclave",
            Direction::EnclaveToHost => "Enclave -> Host",
        }
    }
}

/// One measured transfer.
#[derive(Clone, Copy, Debug, PartialEq, Eq, Structural)]
pub struct BenchResult {
    pub direction: Direction,
    pub buffer_size: u64,
    pub total_bytes: u64,
    pub nanos: u128,
}

/// What a run is to measure.
#[derive(Clone, Copy, Debug, PartialEq, Eq, Structural)]
pub struct BenchPlan {
    pub total_bytes: u64,
    pub buffer_size: u64,
    pub reverse: bool,
}

/// Where the host stands in a run.
#[derive(Debug)]
pub enum HostPhase {
    /// The enclave is to be launched.
    Launch,
    /// The enclave boots.
    Settle,
    /// A connection is tried for the given time.
    Connect(u32),
    /// The wait before the given try.
    Pause(u32),
    /// No connection came about; the enclave is to be terminated.
    Abort(String),
    /// The control message is to be sent.
    Control,
    /// The clock of the first transfer is to be started.
    StartForward,
    /// Data goes to the enclave.
    Send(Progress),
    /// The enclave has yet to acknowledge the data.
    AwaitAck,
    /// The enclave acknowledged the given count; the clock is to be read.
    StopForward(u64),
    /// The clock of the second transfer is to be started.
    StartReverse,
    /// Data arrives from the enclave.
    Receive(Progress),
    /// All data has arrived; its size is to be acknowledged.
    AckBack(u64),
    /// The given count has been acknowledged; the clock is to be read.
    StopReverse(u64),
    /// Everything is measured; the enclave is to be terminated.
    Terminate,
    /// The run is over.
    Done,
    /// The run failed.
    Failed(String),
}

/// A phase, its texts as characters.
pub enum HostPhaseView {
    Launch,
    Settle,
    Connect(u32),
    Pause(u32),
    Abort(Seq<char>),
    Control,
    StartForward,
    Send(Progress),
    AwaitAck,
    StopForward(u64),
    StartReverse,
    Receive(Progress),
    AckBack(u64),
    StopReverse(u64),
    Terminate,
    Done,
    Failed(Seq<char>),
}

impl View for HostPhase {
    type V = HostPhaseView;

    open spec fn view(&self) -> HostPhaseView {
        match self {
            HostPhase::Launch => HostPhaseView::Launch,
            HostPhase::Settle => HostPhaseView::Settle,
            HostPhase::Connect(n) => HostPhaseView::Connect(*n),
            HostPhase::Pause(n) => HostPhaseView::Pause(*n),
            HostPhase::Abort(e) => HostPhaseView::Abort(e@),
            HostPhase::Control => HostPhaseView::Control,
            HostPhase::StartForward => HostPhaseView::StartForward,
            HostPhase::Send(p) => HostPhaseView::Send(*p),
            HostPhase::AwaitAck => HostPhaseView::AwaitAck,
            HostPhase::StopForward(n) => HostPhaseView::StopForward(*n),
            HostPhase::StartReverse => HostPhaseView::StartReverse,
            HostPhase::Receive(p) => HostPhaseView::Receive(*p),
            HostPhase::AckBack(n) => HostPhaseView::AckBack(*n),
            HostPhase::StopReverse(n) => HostPhaseView::StopReverse(*n),
            HostPhase::Terminate => HostPhaseView::Terminate,
            HostPhase::Done => HostPhaseView::Done,
            HostPhase::Failed(e) => HostPhaseView::Failed(e@),
        }
    }
}

/// What the host does next.
#[derive(Debug)]
pub enum HostAction {
    /// Launch the enclave.
    Launch,
    /// Wait this many milliseconds.
    Sleep(u64),
    /// Open a socket and connect it to the enclave with this context id, at this port.
    Connect(u32, u32),
    /// Use the connection.
    Io(Io),
    StartClock,
    ReadClock,
    /// Terminate the enclave with this name.
    Terminate(String),
    /// The run is over.
    Done,
    /// The run failed, for this reason.
    Failed(String),
}

/// An action, as the bytes and characters it is about.
pub enum HostActionView {
    Launch,
    Sleep(nat),
    Connect(u32, u32),
    Io(IoView),
    StartClock,
    ReadClock,
    Terminate(Seq<char>),
    Done,
    Failed(Seq<char>),
}

impl View for HostAction {
    type V = HostActionView;

    open spec fn view(&self) -> HostActionView {
        match self {
            HostAction::Launch => HostActionView::Launch,
            HostAction::Sleep(ms) => HostActionView::Sleep(*ms as nat),
            HostAction::Connect(cid, port) => HostActionView::Connect(*cid, *port),
            HostAction::Io(io) => HostActionView::Io(io@),
            HostAction::StartClock => HostActionView::StartClock,
            HostAction::ReadClock => HostActionView::ReadClock,
            HostAction::Terminate(id) => HostActionView::Terminate(id@),
            HostAction::Done => HostActionView::Done,
            HostAction::Failed(e) => HostActionView::Failed(e@),
        }
    }
}

/// What came of an action.
#[derive(Debug)]
pub enum HostEvent {
    /// The enclave runs, with this context id and this name.
    Launched(u32, String),
    /// The wait is over.
    Slept,
    /// The connection stands.
    Connected,
    /// The enclave did not take the connection.
    Refused(String),
    /// The connection did what it was asked.
    Io(IoEvent),
    /// The clock runs.
    ClockStarted,
    /// The clock shows this many nanoseconds.
    Elapsed(u128),
    /// The enclave was told to stop.
    Terminated,
    /// The action could not be performed.
    Failed(String),
}

/// An event, as the bytes and characters it is about.
pub enum HostEventView {
    Launched(u32, Seq<char>),
    Slept,
    Connected,
    Refused(Seq<char>),
    Io(IoEventView),
    ClockStarted,
    Elapsed(u128),
    Terminated,
    Failed(Seq<char>),
}

impl View for HostEvent {
    type V = HostEventView;

    open spec fn view(&self) -> HostEventView {
        match self {
            HostEvent::Launched(cid, id) => HostEventView::Launched(*cid, id@),
            HostEvent::Slept => HostEventView::Slept,
            HostEvent::Connected => HostEventView::Connected,
            HostEvent::Refused(e) => HostEventView::Refused(e@),
            HostEvent::Io(event) => HostEventView::Io(event@),
            HostEvent::ClockStarted => HostEventView::ClockStarted,
            HostEvent::Elapsed(n) => HostEventView::Elapsed(*n),
            HostEvent::Terminated => HostEventView::Terminated,
            HostEvent::Failed(e) => HostEventView::Failed(e@),
        }
    }
}

/// A run: its plan, its enclave once launched, its phase, and what it measured.
#[derive(Debug)]
pub struct BenchRun {
    pub plan: BenchPlan,
    pub cid: u32,
    pub enclave_id: String,
    pub phase: HostPhase,
    pub results: Vec<BenchResult>,
}

/// A run, its texts and lists as sequences.
pub struct RunView {
    pub plan: BenchPlan,
    pub cid: u32,
    pub enclave_id: Seq<char>,
    pub phase: HostPhaseView,
    pub results: Seq<BenchResult>,
}

impl View for BenchRun {
    type V = RunView;

    open spec fn view(&self) -> RunView {
        RunView {
            plan: self.plan,
            cid: self.cid,
            enclave_id: self.enclave_id@,
            phase: self.phase@,
            results: self.results@,
        }
    }
}

/// What a run does next.
pub open spec fn host_action(run: RunView) -> HostActionView {
    match run.phase {
        HostPhaseView::Launch => HostActionView::Launch,
        HostPhaseView::Settle => HostActionView::Sleep(SETTLE_MILLIS as nat),
        HostPhaseView::Connect(_) => HostActionView::Connect(run.cid, VSOCK_PORT),
        HostPhaseView::Pause(_) => HostActionView::Sleep(RETRY_MILLIS as nat),
        HostPhaseView::Abort(_) => HostActionView::Terminate(run.enclave_id),
        HostPhaseView::Control => HostActionView::Io(
            IoView::Write(message_bytes(plan_message(run.plan))),
        ),
        HostPhaseView::StartForward => HostActionView::StartClock,
        HostPhaseView::Send(p) => HostActionView::Io(IoView::Write(zeros(p.next_piece()))),
        HostPhaseView::AwaitAck => HostActionView::Io(IoView::ReadExact(8)),
        HostPhaseView::StopForward(_) => HostActionView::ReadClock,
        HostPhaseView::StartReverse => HostActionView::StartClock,
        HostPhaseView::Receive(p) => HostActionView::Io(IoView::ReadSome(p.next_piece())),
        HostPhaseView::AckBack(n) => HostActionView::Io(IoView::Write(ack_bytes(n))),
        HostPhaseView::StopReverse(_) => HostActionView::ReadClock,
        HostPhaseView::Terminate => HostActionView::Terminate(run.enclave_id),
        HostPhaseView::Done => HostActionView::Done,
        HostPhaseView::Failed(e) => HostActionView::Failed(e),
    }
}

/// The control message of a plan.
pub open spec fn plan_message(plan: BenchPlan) -> ControlMessage {
    request_message(plan.total_bytes, plan.buffer_size, plan.reverse)
}

/// `event` can come of `action`.
pub open spec fn host_answers(action: HostActionView, event: HostEventView) -> bool {
    match action {
        HostActionView::Launch => event is Launched || event is Failed,
        HostActionView::Sleep(_) => event is Slept,
        HostActionView::Connect(_, _) => event is Connected || event is Refused || event is Failed,
        HostActionView::Io(io) => event is Failed || (event matches HostEventView::Io(e)
            && io_answers(io, e)),
        HostActionView::StartClock => event is ClockStarted,
        HostActionView::ReadClock => event is Elapsed,
        HostActionView::Terminate(_) => event is Terminated,
        HostActionView::Done => false,
        HostActionView::Failed(_) => false,
    }
}

/// Sending goes on until everything is out.
pub open spec fn host_sending(p: Progress) -> HostPhaseView {
    if p.complete() {
        HostPhaseView::AwaitAck
    } else {
        HostPhaseView::Send(p)
    }
}

/// Receiving goes on until everything is there.
pub open spec fn host_receiving(p: Progress) -> HostPhaseView {
    if p.complete() {
        HostPhaseView::AckBack(p.moved)
    } else {
        HostPhaseView::Receive(p)
    }
}

/// The transfer of a plan, in either direction, before its first byte.
pub open spec fn plan_start(plan: BenchPlan) -> Progress {
    Progress::start_of(plan.total_bytes, plan.buffer_size)
}

/// What is said when the last try failed.
pub open spec fn refused_text(e: Seq<char>) -> Seq<char> {
    "Failed to connect after "@ + decimal(MAX_ATTEMPTS as nat) + " attempts: "@ + e
}

/// The phase that follows an event.
pub open spec fn host_next_phase(run: RunView, event: HostEventView) -> HostPhaseView {
    match (run.phase, event) {
        (HostPhaseView::Launch, HostEventView::Launched(_, _)) => HostPhaseView::Settle,
        (HostPhaseView::Launch, HostEventView::Failed(e)) => HostPhaseView::Failed(e),
        (HostPhaseView::Settle, HostEventView::Slept) => HostPhaseView::Connect(1),
        (HostPhaseView::Connect(_), HostEventView::Connected) => HostPhaseView::Control,
        (HostPhaseView::Connect(n), HostEventView::Refused(e)) => if n < MAX_ATTEMPTS {
            HostPhaseView::Pause((n + 1) as u32)
        } else {
            HostPhaseView::Abort(refused_text(e))
        },
        (HostPhaseView::Connect(_), HostEventView::Failed(e)) => HostPhaseView::Abort(e),
        (HostPhaseView::Pause(n), HostEventView::Slept) => HostPhaseView::Connect(n),
        (HostPhaseView::Abort(e), HostEventView::Terminated) => HostPhaseView::Failed(e),
        (_, HostEventView::Failed(e)) => HostPhaseView::Failed(e),
        (HostPhaseView::Control, HostEventView::Io(_)) => HostPhaseView::StartForward,
        (HostPhaseView::StartForward, HostEventView::ClockStarted) => host_sending(
            plan_start(run.plan),
        ),
        (HostPhaseView::Send(p), HostEventView::Io(_)) => host_sending(
            p.after(p.next_piece() as u64),
        ),
        (HostPhaseView::AwaitAck, HostEventView::Io(IoEventView::Bytes(b))) =>
            HostPhaseView::StopForward(be_value(b) as u64),
        (HostPhaseView::StopForward(_), HostEventView::Elapsed(_)) => if run.plan.reverse {
            HostPhaseView::StartReverse
        } else {
            HostPhaseView::Terminate
        },
        (HostPhaseView::StartReverse, HostEventView::ClockStarted) => host_receiving(
            plan_start(run.plan),
        ),
        (HostPhaseView::Receive(p), HostEventView::Io(IoEventView::Count(n))) => if n == 0 {
            HostPhaseView::Failed("Connection closed"@)
        } else {
            host_receiving(p.after(n as u64))
        },
        (HostPhaseView::AckBack(n), HostEventView::Io(_)) => HostPhaseView::StopReverse(n),
        (HostPhaseView::StopReverse(_), HostEventView::Elapsed(_)) => HostPhaseView::Terminate,
        (HostPhaseView::Terminate, HostEventView::Terminated) => HostPhaseView::Done,
        _ => run.phase,
    }
}

/// What a clock reading adds to the results.
pub open spec fn measured(plan: BenchPlan, direction: Direction, nanos: u128) -> BenchResult {
    BenchResult {
        direction,
        buffer_size: plan.buffer_size,
        total_bytes: plan.total_bytes,
        nanos,
    }
}

/// The results after an event.
pub open spec fn host_next_results(run: RunView, event: HostEventView) -> Seq<BenchResult> {
    match (run.phase, event) {
        (HostPhaseView::StopForward(_), HostEventView::Elapsed(t)) => run.results.push(
            measured(run.plan, Direction::HostToEnclave, t),
        ),
        (HostPhaseView::StopReverse(_), HostEventView::Elapsed(t)) => run.results.push(
            measured(run.plan, Direction::EnclaveToHost, t),
        ),
        _ => run.results,
    }
}

/// The run after an event.
pub open spec fn host_next(run: RunView, event: HostEventView) -> RunView {
    RunView {
        plan: run.plan,
        cid: match (run.phase, event) {
            (HostPhaseView::Launch, HostEventView::Launched(cid, _)) => cid,
            _ => run.cid,
        },
        enclave_id: match (run.phase, event) {
            (HostPhaseView::Launch, HostEventView::Launched(_, id)) => id,
            _ => run.enclave_id,
        },
        phase: host_next_phase(run, event),
        results: host_next_results(run, event),
    }
}

/// A transfer that is under way for a plan.
pub open spec fn plan_under_way(plan: BenchPlan, p: Progress) -> bool {
    &&& p.wf()
    &&& !p.complete()
    &&& p.total == plan.total_bytes
    &&& p.buffer_size == plan.buffer_size
}

/// The states that a run can be in.
pub open spec fn run_wf(run: RunView) -> bool {
    match run.phase {
        HostPhaseView::Connect(n) => 1 <= n <= MAX_ATTEMPTS,
        HostPhaseView::Pause(n) => 2 <= n <= MAX_ATTEMPTS,
        HostPhaseView::Send(p) => plan_under_way(run.plan, p),
        HostPhaseView::StartReverse => run.plan.reverse,
        HostPhaseView::Receive(p) => run.plan.reverse && plan_under_way(run.plan, p),
        HostPhaseView::AckBack(n) => run.plan.reverse && n == run.plan.total_bytes,
        HostPhaseView::StopReverse(n) => run.plan.reverse && n == run.plan.total_bytes,
        _ => true,
    }
}

/// A run that has not begun.
pub open spec fn fresh_run(plan: BenchPlan) -> RunView {
    RunView {
        plan,
        cid: 0,
        enclave_id: Seq::empty(),
        phase: HostPhaseView::Launch,
        results: Seq::empty(),
    }
}

impl BenchRun {
    /// A run that has not begun.
    pub fn new(total_bytes: u64, buffer_size: u64, reverse: bool) -> (r: Self)
        ensures
            r@ == fresh_run(BenchPlan { total_bytes, buffer_size, reverse }),
            run_wf(r@),
    {
        BenchRun {
            plan: BenchPlan { total_bytes, buffer_size, reverse },
            cid: 0,
            enclave_id: String::new(),
            phase: HostPhase::Launch,
            results: Vec::new(),
        }
    }

    /// What to do next.
    pub fn action(&self) -> (r: HostAction)
        requires
            run_wf(self@),
        ensures
            r@ == host_action(self@),
    {
        match &self.phase {
            HostPhase::Launch => HostAction::Launch,
            HostPhase::Settle => HostAction::Sleep(SETTLE_MILLIS),
            HostPhase::Connect(_) => HostAction::Connect(self.cid, VSOCK_PORT),
            HostPhase::Pause(_) => HostAction::Sleep(RETRY_MILLIS),
            HostPhase::Abort(_) => HostAction::Terminate(self.enclave_id.clone()),
            HostPhase::Control => {
                let m = ControlMessage::request(
                    self.plan.total_bytes,
                    self.plan.buffer_size,
                    self.plan.reverse,
                );
                HostAction::Io(Io::Write(m.to_bytes()))
            },
            HostPhase::StartForward => HostAction::StartClock,
            HostPhase::Send(p) => match p.next() {
                Some(n) => HostAction::Io(Io::WriteZeros(n)),
                None => HostAction::Done,
            },
            HostPhase::AwaitAck => HostAction::Io(Io::ReadExact(8)),
            HostPhase::StopForward(_) => HostAction::ReadClock,
            HostPhase::StartReverse => HostAction::StartClock,
            HostPhase::Receive(p) => match p.next() {
                Some(n) => HostAction::Io(Io::ReadSome(n)),
                None => HostAction::Done,
            },
            HostPhase::AckBack(n) => HostAction::Io(Io::Write(write_ack(*n))),
            HostPhase::StopReverse(_) => HostAction::ReadClock,
            HostPhase::Terminate => HostAction::Terminate(self.enclave_id.clone()),
            HostPhase::Done => HostAction::Done,
            HostPhase::Failed(e) => HostAction::Failed(e.clone()),
        }
    }

    /// Whether `event` can come of what is to be done next.
    pub fn accepts(&self, event: &HostEvent) -> (r: bool)
        requires
            run_wf(self@),
        ensures
            r == host_answers(host_action(self@), event@),
    {
        match (self.action(), event) {
            (HostAction::Launch, HostEvent::Launched(_, _)) => true,
            (HostAction::Launch, HostEvent::Failed(_)) => true,
            (HostAction::Sleep(_), HostEvent::Slept) => true,
            (HostAction::Connect(_, _), HostEvent::Connected) => true,
            (HostAction::Connect(_, _), HostEvent::Refused(_)) => true,
            (HostAction::Connect(_, _), HostEvent::Failed(_)) => true,
            (HostAction::Io(_), HostEvent::Failed(_)) => true,
            (HostAction::Io(io), HostEvent::Io(e)) => io.answered_by(e),
            (HostAction::StartClock, HostEvent::ClockStarted) => true,
            (HostAction::ReadClock, HostEvent::Elapsed(_)) => true,
            (HostAction::Terminate(_), HostEvent::Terminated) => true,
            _ => false,
        }
    }

    /// The run after what came of the last action.
    pub fn on_event(self, event: HostEvent) -> (r: Self)
        requires
            run_wf(self@),
            host_answers(host_action(self@), event@),
        ensures
            r@ == host_next(self@, event@),
            run_wf(r@),
            r.plan == self.plan,
            match event {
                HostEvent::Elapsed(t) => {
                    &&& r.results@.len() == self.results@.len() + 1
                    &&& r.results@.drop_last() == self.results@
                    &&& r.results@.last().nanos == t
                    &&& r.results@.last().total_bytes == self.plan.total_bytes
                    &&& r.results@.last().buffer_size == self.plan.buffer_size
                },
                _ => r.results@ == self.results@,
            },
    {
        let ghost before = self@;
        let ghost what = event@;
        let plan: BenchPlan = self.plan;
        let mut cid: u32 = self.cid;
        let mut enclave_id: String = self.enclave_id;
        let mut results: Vec<BenchResult> = self.results;
        let phase: HostPhase = match (self.phase, event) {
            (HostPhase::Launch, HostEvent::Launched(c, id)) => {
                cid = c;
                enclave_id = id;
                HostPhase::Settle
            },
            (HostPhase::Settle, HostEvent::Slept) => HostPhase::Connect(1),
            (HostPhase::Connect(_), HostEvent::Connected) => HostPhase::Control,
            (HostPhase::Connect(n), HostEvent::Refused(e)) => if n < MAX_ATTEMPTS {
                HostPhase::Pause(n + 1)
            } else {
                HostPhase::Abort(refused(e.as_str()))
            },
            (HostPhase::Connect(_), HostEvent::Failed(e)) => HostPhase::Abort(e),
            (HostPhase::Pause(n), HostEvent::Slept) => HostPhase::Connect(n),
            (HostPhase::Abort(e), HostEvent::Terminated) => HostPhase::Failed(e),
            (_, HostEvent::Failed(e)) => HostPhase::Failed(e),
            (HostPhase::Control, HostEvent::Io(_)) => HostPhase::StartForward,
            (HostPhase::StartForward, HostEvent::ClockStarted) => send_on(
                Progress::start(plan.total_bytes, plan.buffer_size),
            ),
            (HostPhase::Send(p), HostEvent::Io(_)) => send_on(p.written()),
            (HostPhase::AwaitAck, HostEvent::Io(IoEvent::Bytes(b))) => HostPhase::StopForward(
                read_ack(b.as_slice()),
            ),
            (HostPhase::StopForward(_), HostEvent::Elapsed(nanos)) => {
                results.push(
                    BenchResult {
                        direction: Direction::HostToEnclave,
                        buffer_size: plan.buffer_size,
                        total_bytes: plan.total_bytes,
                        nanos,
                    },
                );
                if plan.reverse {
                    HostPhase::StartReverse
                } else {
                    HostPhase::Terminate
                }
            },
            (HostPhase::StartReverse, HostEvent::ClockStarted) => receive_on(
                Progress::start(plan.total_bytes, plan.buffer_size),
            ),
            (HostPhase::Receive(p), HostEvent::Io(IoEvent::Count(n))) => match p.read(n) {
                Ok(q) => receive_on(q),
                Err(_) => HostPhase::Failed(String::from_str("Connection closed")),
            },
            (HostPhase::AckBack(n), HostEvent::Io(_)) => HostPhase::StopReverse(n),
            (HostPhase::StopReverse(_), HostEvent::Elapsed(nanos)) => {
                results.push(
                    BenchResult {
                        direction: Direction::EnclaveToHost,
                        buffer_size: plan.buffer_size,
                        total_bytes: plan.total_bytes,
                        nanos,
                    },
                );
                HostPhase::Terminate
            },
            (HostPhase::Terminate, HostEvent::Terminated) => HostPhase::Done,
            (other, _) => other,
        };
        let r = BenchRun { plan, cid, enclave_id, phase, results };
        assert(r@.results =~= host_next(before, what).results);
        assert(what is Elapsed ==> r.results@.drop_last() =~= before.results);
        r
    }
}

fn send_on(p: Progress) -> (r: HostPhase)
    requires
        p.wf(),
    ensures
        r@ == host_sending(p),
{
    match p.next() {
        Some(_) => HostPhase::Send(p),
        None => HostPhase::AwaitAck,
    }
}

fn receive_on(p: Progress) -> (r: HostPhase)
    requires
        p.wf(),
    ensures
        r@ == host_receiving(p),
{
    match p.next() {
        Some(_) => HostPhase::Receive(p),
        None => HostPhase::AckBack(p.moved),
    }
}

fn refused(e: &str) -> (r: String)
    ensures
        r@ == refused_text(e@),
{
    let mut out = String::from_str("Failed to connect after ");
    push_decimal(&mut out, MAX_ATTEMPTS as u64);
    out.append(" attempts: ");
    out.append(e);
    out
}

/// The run of a plan after a list of events.
pub open spec fn host_run(plan: BenchPlan, events: Seq<HostEventView>) -> RunView
    decreases events.len(),
{
    if events.len() == 0 {
        fresh_run(plan)
    } else {
        host_next(host_run(plan, events.drop_last()), events.last())
    }
}

/// Each event is one that can come of what the host did.
pub open spec fn host_answered(plan: BenchPlan, events: Seq<HostEventView>) -> bool
    decreases events.len(),
{
    events.len() == 0 || {
        &&& host_answered(plan, events.drop_last())
        &&& host_answers(host_action(host_run(plan, events.drop_last())), events.last())
    }
}

/// The bytes that an answered action put on the connection.
pub open spec fn step_output(action: HostActionView, event: HostEventView) -> Seq<u8> {
    match (action, event) {
        (HostActionView::Io(io), HostEventView::Io(_)) => io_output(io),
        _ => Seq::empty(),
    }
}

/// How many bytes an event took off the connection.
pub open spec fn step_input(event: HostEventView) -> nat {
    match event {
        HostEventView::Io(e) => io_input(e),
        _ => 0,
    }
}

/// The bytes that the host wrote.
pub open spec fn host_output(plan: BenchPlan, events: Seq<HostEventView>) -> Seq<u8>
    decreases events.len(),
{
    if events.len() == 0 {
        Seq::empty()
    } else {
        host_output(plan, events.drop_last()) + step_output(
            host_action(host_run(plan, events.drop_last())),
            events.last(),
        )
    }
}

/// How many bytes the host read.
pub open spec fn host_input(events: Seq<HostEventView>) -> nat
    decreases events.len(),
{
    if events.len() == 0 {
        0
    } else {
        host_input(events.drop_last()) + step_input(events.last())
    }
}

/// How many tries to connect were refused.
pub open spec fn refusals(events: Seq<HostEventView>) -> nat
    decreases events.len(),
{
    if events.len() == 0 {
        0
    } else {
        refusals(events.drop_last()) + if events.last() is Refused {
            1nat
        } else {
            0
        }
    }
}

/// How often the enclave was told to stop.
pub open spec fn terminations(events: Seq<HostEventView>) -> nat
    decreases events.len(),
{
    if events.len() == 0 {
        0
    } else {
        terminations(events.drop_last()) + if events.last() is Terminated {
            1nat
        } else {
            0
        }
    }
}

/// The results are one measurement of the plan for each of the directions.
pub open spec fn results_are(
    plan: BenchPlan,
    results: Seq<BenchResult>,
    directions: Seq<Direction>,
) -> bool {
    &&& results.len() == directions.len()
    &&& forall|i: int|
        0 <= i < results.len() ==> #[trigger] results[i] == measured(
            plan,
            directions[i],
            results[i].nanos,
        )
}

/// The directions that a plan measures.
pub open spec fn plan_directions(plan: BenchPlan) -> Seq<Direction> {
    if plan.reverse {
        seq![Direction::HostToEnclave, Direction::EnclaveToHost]
    } else {
        seq![Direction::HostToEnclave]
    }
}

/// What the host has written, read and measured, phase by phase.
pub open spec fn host_account(
    run: RunView,
    read: nat,
    written: Seq<u8>,
    refused: nat,
    stopped: nat,
) -> bool {
    let total = run.plan.total_bytes;
    let opened = message_bytes(plan_message(run.plan));
    let sent = opened + zeros(total as nat);
    let forward = seq![Direction::HostToEnclave];
    let idle = read == 0 && written.len() == 0 && run.results.len() == 0;
    match run.phase {
        HostPhaseView::Launch => idle && refused == 0 && stopped == 0,
        HostPhaseView::Settle => idle && refused == 0 && stopped == 0,
        HostPhaseView::Connect(n) => idle && refused == n - 1 && stopped == 0,
        HostPhaseView::Pause(n) => idle && refused == n - 1 && stopped == 0,
        HostPhaseView::Abort(_) => idle && refused <= MAX_ATTEMPTS && stopped == 0,
        HostPhaseView::Failed(_) => refused <= MAX_ATTEMPTS && stopped <= 1,
        HostPhaseView::Control => idle && refused < MAX_ATTEMPTS && stopped == 0,
        HostPhaseView::StartForward => {
            &&& refused < MAX_ATTEMPTS
            &&& stopped == 0
            &&& read == 0
            &&& written == opened
            &&& run.results.len() == 0
        },
        HostPhaseView::Send(p) => {
            &&& refused < MAX_ATTEMPTS
            &&& stopped == 0
            &&& read == 0
            &&& written == opened + zeros(p.moved as nat)
            &&& run.results.len() == 0
        },
        HostPhaseView::AwaitAck => {
            &&& refused < MAX_ATTEMPTS
            &&& stopped == 0
            &&& read == 0
            &&& written == sent
            &&& run.results.len() == 0
        },
        HostPhaseView::StopForward(_) => {
            &&& refused < MAX_ATTEMPTS
            &&& stopped == 0
            &&& read == 8
            &&& written == sent
            &&& run.results.len() == 0
        },
        HostPhaseView::StartReverse => {
            &&& refused < MAX_ATTEMPTS
            &&& stopped == 0
            &&& read == 8
            &&& written == sent
            &&& results_are(run.plan, run.results, forward)
        },
        HostPhaseView::Receive(p) => {
            &&& refused < MAX_ATTEMPTS
            &&& stopped == 0
            &&& read == 8 + p.moved
            &&& written == sent
            &&& results_are(run.plan, run.results, forward)
        },
        HostPhaseView::AckBack(_) => {
            &&& refused < MAX_ATTEMPTS
            &&& stopped == 0
            &&& read == 8 + total
            &&& written == sent
            &&& results_are(run.plan, run.results, forward)
        },
        HostPhaseView::StopReverse(_) => {
            &&& refused < MAX_ATTEMPTS
            &&& stopped == 0
            &&& read == 8 + total
            &&& written == sent + ack_bytes(total)
            &&& results_are(run.plan, run.results, forward)
        },
        HostPhaseView::Terminate => {
            &&& refused < MAX_ATTEMPTS
            &&& stopped == 0
            &&& host_complete(run, read, written)
        },
        HostPhaseView::Done => {
            &&& refused < MAX_ATTEMPTS
            &&& stopped == 1
            &&& host_complete(run, read, written)
        },
    }
}

/// Everything that the plan asks for has been written, read and measured.
pub open spec fn host_complete(run: RunView, read: nat, written: Seq<u8>) -> bool {
    let total = run.plan.total_bytes;
    let sent = message_bytes(plan_message(run.plan)) + zeros(total as nat);
    &&& read == 8 + if run.plan.reverse {
        total as nat
    } else {
        0
    }
    &&& written == if run.plan.reverse {
        sent + ack_bytes(total)
    } else {
        sent
    }
    &&& results_are(run.plan, run.results, plan_directions(run.plan))
}

/// However the enclave answers, the host sends the control message and then exactly
/// the planned bytes; it starts each clock before the first byte of that direction
/// and reads it after the acknowledgement; it gives up after the last allowed try;
/// and a run that is done measured each planned direction once and terminated its
/// enclave once.
pub proof fn law_host_run(plan: BenchPlan, events: Seq<HostEventView>)
    requires
        host_answered(plan, events),
    ensures
        run_wf(host_run(plan, events)),
        host_run(plan, events).plan == plan,
        host_account(
            host_run(plan, events),
            host_input(events),
            host_output(plan, events),
            refusals(events),
            terminations(events),
        ),
    decreases events.len(),
{
    if events.len() > 0 {
        let before = events.drop_last();
        law_host_run(plan, before);
        let run = host_run(plan, before);
        let event = events.last();
        let out = host_output(plan, before);
        let opened = message_bytes(plan_message(plan));
        assert(out + Seq::<u8>::empty() =~= out);
        match (run.phase, event) {
            (HostPhaseView::Control, HostEventView::Io(_)) => {
                assert(out + opened =~= opened);
            },
            (HostPhaseView::StartForward, _) => {
                assert(opened + zeros(0) =~= opened);
            },
            (HostPhaseView::Send(p), HostEventView::Io(_)) => {
                let n = p.next_piece();
                assert(out + zeros(n) =~= opened + zeros(p.moved as nat + n));
            },
            _ => {},
        }
    }
}

/// Every run that failed to connect terminated its enclave before it failed.
pub proof fn law_failed_connect_terminates(plan: BenchPlan, events: Seq<HostEventView>)
    requires
        host_answered(plan, events),
        events.len() > 0,
        host_run(plan, events.drop_last()).phase is Abort,
    ensures
        host_action(host_run(plan, events.drop_last())) == HostActionView::Terminate(
            host_run(plan, events).enclave_id,
        ),
        host_run(plan, events).phase is Failed,
        terminations(events) == 1,
{
    law_host_run(plan, events.drop_last());
}

/// A run that fails at anything but connecting does not terminate its enclave.
pub proof fn law_other_failures_do_not_terminate(plan: BenchPlan, events: Seq<HostEventView>)
    requires
        host_answered(plan, events),
        events.len() > 0,
        host_run(plan, events).phase is Failed,
        !(host_run(plan, events.drop_last()).phase is Abort),
    ensures
        terminations(events) == 0,
{
    law_host_run(plan, events.drop_last());
}

/// A refused try is followed by a wait and another try until the last allowed one,
/// whose refusal ends the run.
pub proof fn law_tries_are_limited(plan: BenchPlan, events: Seq<HostEventView>, e: Seq<char>)
    requires
        host_answered(plan, events),
        events.len() > 0,
        events.last() == HostEventView::Refused(e),
    ensures
        refusals(events) <= MAX_ATTEMPTS,
        refusals(events) < MAX_ATTEMPTS ==> host_action(host_run(plan, events))
            == HostActionView::Sleep(RETRY_MILLIS as nat) && host_run(plan, events).phase
            == HostPhaseView::Pause((refusals(events) + 1) as u32),
        refusals(events) == MAX_ATTEMPTS ==> host_run(plan, events).phase == HostPhaseView::Abort(
            refused_text(e),
        ),
{
    law_host_run(plan, events.drop_last());
}

/// What the host did, action by action.
pub open spec fn host_actions(plan: BenchPlan, events: Seq<HostEventView>) -> Seq<HostActionView>
    decreases events.len(),
{
    if events.len() == 0 {
        Seq::empty()
    } else {
        host_actions(plan, events.drop_last()).push(
            host_action(host_run(plan, events.drop_last())),
        )
    }
}

/// The launch, and the wait for the enclave to boot.
pub open spec fn boot_actions() -> Seq<HostActionView> {
    seq![HostActionView::Launch, HostActionView::Sleep(SETTLE_MILLIS as nat)]
}

/// Tries to connect that were refused, each with the wait after it.
pub open spec fn refused_tries(cid: u32, n: nat) -> Seq<HostActionView>
    decreases n,
{
    if n == 0 {
        Seq::empty()
    } else {
        refused_tries(cid, (n - 1) as nat) + seq![
            HostActionView::Connect(cid, VSOCK_PORT),
            HostActionView::Sleep(RETRY_MILLIS as nat),
        ]
    }
}

/// The launch, the boot wait, `n` refused tries with the wait after each, and one try
/// more.
pub open spec fn tried(cid: u32, n: nat) -> Seq<HostActionView> {
    boot_actions() + refused_tries(cid, n) + seq![HostActionView::Connect(cid, VSOCK_PORT)]
}

/// Up to the connection the host does nothing but launch, wait, and try: every try
/// goes to the enclave's context id and the benchmark's port, and a wait stands between
/// two tries and nowhere else. If the `k`-th try is the first to succeed, there were `k`
/// tries and `k - 1` waits; a host that gave up made no wait after its last try.
pub proof fn law_connecting(plan: BenchPlan, events: Seq<HostEventView>)
    requires
        host_answered(plan, events),
    ensures
        ({
            let run = host_run(plan, events);
            let done = host_actions(plan, events);
            match run.phase {
                HostPhaseView::Launch => done == Seq::<HostActionView>::empty(),
                HostPhaseView::Settle => done == seq![HostActionView::Launch],
                HostPhaseView::Connect(n) => done == boot_actions() + refused_tries(
                    run.cid,
                    (n - 1) as nat,
                ),
                HostPhaseView::Pause(n) => done == tried(run.cid, (n - 2) as nat),
                HostPhaseView::Control => done == tried(run.cid, refusals(events)),
                HostPhaseView::Abort(_) => done == tried(
                    run.cid,
                    if refusals(events) < MAX_ATTEMPTS {
                        refusals(events)
                    } else {
                        (MAX_ATTEMPTS - 1) as nat
                    },
                ),
                _ => true,
            }
        }),
    decreases events.len(),
{
    if events.len() > 0 {
        let before = events.drop_last();
        law_connecting(plan, before);
        law_host_run(plan, before);
        let run = host_run(plan, before);
        match run.phase {
            HostPhaseView::Settle => {
                assert(host_actions(plan, events) =~= boot_actions() + refused_tries(
                    run.cid,
                    0,
                ));
            },
            HostPhaseView::Connect(n) => {
                assert(host_actions(plan, events) =~= tried(run.cid, (n - 1) as nat));
            },
            HostPhaseView::Pause(n) => {
                assert(host_actions(plan, events) =~= boot_actions() + refused_tries(
                    run.cid,
                    (n - 1) as nat,
                ));
            },
            _ => {},
        }
    }
}

/// A bound on how many events are still to come in a run.
pub open spec fn events_left(run: RunView) -> nat {
    let total = run.plan.total_bytes as nat;
    match run.phase {
        HostPhaseView::Done => 0,
        HostPhaseView::Failed(_) => 0,
        HostPhaseView::Abort(_) => 1,
        HostPhaseView::Terminate => 1,
        HostPhaseView::StopReverse(_) => 2,
        HostPhaseView::AckBack(_) => 3,
        HostPhaseView::Receive(p) => 3 + (total - p.moved) as nat,
        HostPhaseView::StartReverse => 4 + total,
        HostPhaseView::StopForward(_) => 5 + total,
        HostPhaseView::AwaitAck => 6 + total,
        HostPhaseView::Send(p) => 6 + total + (total - p.moved) as nat,
        HostPhaseView::StartForward => 7 + 2 * total,
        HostPhaseView::Control => 8 + 2 * total,
        HostPhaseView::Connect(n) => 9 + 2 * total + 2 * (MAX_ATTEMPTS - n) as nat,
        HostPhaseView::Pause(n) => 10 + 2 * total + 2 * (MAX_ATTEMPTS - n) as nat,
        HostPhaseView::Settle => 8 + 2 * total + 2 * MAX_ATTEMPTS as nat,
        HostPhaseView::Launch => 9 + 2 * total + 2 * MAX_ATTEMPTS as nat,
    }
}

/// With a buffer that holds anything, or nothing to transfer, every run ends: it cannot
/// see more events than a number fixed by its plan.
pub proof fn law_host_run_ends(plan: BenchPlan, events: Seq<HostEventView>)
    requires
        host_answered(plan, events),
        plan.buffer_size > 0 || plan.total_bytes == 0,
    ensures
        events.len() + events_left(host_run(plan, events)) <= events_left(fresh_run(plan)),
    decreases events.len(),
{
    if events.len() > 0 {
        law_host_run_ends(plan, events.drop_last());
        law_host_run(plan, events.drop_last());
        law_host_run(plan, events);
    }
}

/// What the clock showed, reading by reading.
pub open spec fn clock_readings(events: Seq<HostEventView>) -> Seq<u128>
    decreases events.len(),
{
    if events.len() == 0 {
        Seq::empty()
    } else {
        match events.last() {
            HostEventView::Elapsed(t) => clock_readings(events.drop_last()).push(t),
            _ => clock_readings(events.drop_last()),
        }
    }
}

/// How often the clock was started.
pub open spec fn clock_starts(events: Seq<HostEventView>) -> nat
    decreases events.len(),
{
    if events.len() == 0 {
        0
    } else {
        clock_starts(events.drop_last()) + if events.last() is ClockStarted {
            1nat
        } else {
            0
        }
    }
}

/// There is one result for each clock reading, in order: its time is exactly what the
/// clock showed, its sizes are those that were asked for, and the first is of the way to
/// the enclave, the second of the way back. A run that is done has read the clock once, or
/// twice if the way back was asked for.
pub proof fn law_results_are_the_clock_readings(plan: BenchPlan, events: Seq<HostEventView>)
    requires
        host_answered(plan, events),
    ensures
        ({
            let results = host_run(plan, events).results;
            let readings = clock_readings(events);
            &&& results.len() == readings.len()
            &&& forall|i: int|
                0 <= i < results.len() ==> {
                    &&& (#[trigger] results[i]).nanos == readings[i]
                    &&& results[i].total_bytes == plan.total_bytes
                    &&& results[i].buffer_size == plan.buffer_size
                    &&& i == 0 ==> results[i].direction is HostToEnclave
                    &&& i == 1 ==> results[i].direction is EnclaveToHost
                    &&& i < 2
                }
            &&& host_run(plan, events).phase is Done ==> readings.len() == if plan.reverse {
                2nat
            } else {
                1
            }
        }),
    decreases events.len(),
{
    if events.len() > 0 {
        law_results_are_the_clock_readings(plan, events.drop_last());
        law_host_run(plan, events.drop_last());
        law_host_run(plan, events);
    }
}

/// The clock is started once before each transfer.
proof fn lemma_clock_starts(plan: BenchPlan, events: Seq<HostEventView>)
    requires
        host_answered(plan, events),
    ensures
        match host_run(plan, events).phase {
            HostPhaseView::Send(_) => clock_starts(events) == 1,
            HostPhaseView::AwaitAck => clock_starts(events) == 1,
            HostPhaseView::StopForward(_) => clock_starts(events) == 1,
            HostPhaseView::StartReverse => clock_starts(events) == 1,
            HostPhaseView::Receive(_) => clock_starts(events) == 2,
            HostPhaseView::AckBack(_) => clock_starts(events) == 2,
            HostPhaseView::StopReverse(_) => clock_starts(events) == 2,
            HostPhaseView::Terminate => clock_starts(events) == if plan.reverse {
                2nat
            } else {
                1
            },
            HostPhaseView::Done => clock_starts(events) == if plan.reverse {
                2nat
            } else {
                1
            },
            HostPhaseView::Failed(_) => true,
            _ => clock_starts(events) == 0,
        },
    decreases events.len(),
{
    if events.len() > 0 {
        lemma_clock_starts(plan, events.drop_last());
        law_host_run(plan, events.drop_last());
    }
}

/// Whether the connection came about.
pub open spec fn connected(events: Seq<HostEventView>) -> bool
    decreases events.len(),
{
    events.len() > 0 && (events.last() is Connected || connected(events.drop_last()))
}

proof fn lemma_connected(plan: BenchPlan, events: Seq<HostEventView>)
    requires
        host_answered(plan, events),
    ensures
        match host_run(plan, events).phase {
            HostPhaseView::Launch => !connected(events),
            HostPhaseView::Settle => !connected(events),
            HostPhaseView::Connect(_) => !connected(events),
            HostPhaseView::Pause(_) => !connected(events),
            HostPhaseView::Abort(_) => !connected(events),
            HostPhaseView::Failed(_) => true,
            _ => connected(events),
        },
    decreases events.len(),
{
    if events.len() > 0 {
        lemma_connected(plan, events.drop_last());
        law_host_run(plan, events.drop_last());
    }
}

/// What the host does once it is connected follows from the plan and from how much it has
/// written, read and timed since. It sends 24 bytes that spell total, buffer size and
/// whether data is to come back; starts the clock; sends zero bytes, a buffer at a time or
/// what is left; reads eight bytes, whatever they say; reads the clock. If data is to come
/// back, it starts the clock again, reads as many bytes, a buffer at a time or what is
/// left; sends eight bytes that spell how many; and reads the clock. Last, it terminates
/// the enclave.
pub proof fn law_host_does_next(plan: BenchPlan, events: Seq<HostEventView>)
    requires
        host_answered(plan, events),
        connected(events),
        !(host_run(plan, events).phase is Failed),
    ensures
        ({
            let total = plan.total_bytes;
            let buffer = plan.buffer_size;
            let put = host_output(plan, events);
            let got = host_input(events);
            let timed = clock_readings(events).len();
            let starts = clock_starts(events);
            let does = host_action(host_run(plan, events));
            &&& put.len() == 0 ==> {
                &&& does matches HostActionView::Io(IoView::Write(w))
                &&& w.len() == 24
                &&& be_value(w.subrange(0, 8)) == total
                &&& be_value(w.subrange(8, 16)) == buffer
                &&& be_value(w.subrange(16, 24)) == if plan.reverse {
                    1nat
                } else {
                    0
                }
            }
            &&& put.len() > 0 ==> put.len() >= 24
            &&& put.len() >= 24 && starts == 0 ==> put.len() == 24 && does
                == HostActionView::StartClock
            &&& starts == 1 && put.len() < 24 + total ==> {
                &&& does matches HostActionView::Io(IoView::Write(w))
                &&& w.len() <= buffer && w.len() <= 24 + total - put.len()
                &&& w.len() == buffer || w.len() == 24 + total - put.len()
                &&& forall|i: int| 0 <= i < w.len() ==> w[i] == 0
            }
            &&& starts == 1 && put.len() == 24 + total && got == 0 ==> does == HostActionView::Io(
                IoView::ReadExact(8),
            )
            &&& starts == 1 && got > 0 && timed == 0 ==> got == 8 && does
                == HostActionView::ReadClock
            &&& starts == 1 && timed == 1 && plan.reverse ==> does == HostActionView::StartClock
            &&& starts == 2 && got < 8 + total ==> {
                &&& does matches HostActionView::Io(IoView::ReadSome(n))
                &&& n <= buffer && n <= 8 + total - got
                &&& n == buffer || n == 8 + total - got
            }
            &&& starts == 2 && got >= 8 + total && put.len() == 24 + total ==> {
                &&& does matches HostActionView::Io(IoView::Write(w))
                &&& w.len() == 8 && be_value(w) == total
            }
            &&& starts == 2 && put.len() > 24 + total && timed == 1 ==> does
                == HostActionView::ReadClock
            &&& timed == if plan.reverse {
                2nat
            } else {
                1
            } ==> does == if terminations(events) == 0 {
                HostActionView::Terminate(host_run(plan, events).enclave_id)
            } else {
                HostActionView::Done
            }
        }),
{
    law_host_run(plan, events);
    law_results_are_the_clock_readings(plan, events);
    lemma_clock_starts(plan, events);
    lemma_connected(plan, events);
    law_message_layout(plan_message(plan));
    law_ack_reads_back(plan.total_bytes);
}

/// The host begins by launching; what it learns there is what it connects to and what it
/// terminates, to the end.
pub proof fn law_launched_enclave_is_used(plan: BenchPlan, events: Seq<HostEventView>)
    requires
        host_answered(plan, events),
    ensures
        events.len() == 0 ==> host_action(host_run(plan, events)) == HostActionView::Launch,
        events.len() > 0 ==> events[0] is Launched || events[0] is Failed,
        events.len() > 0 ==> (events[0] matches HostEventView::Launched(cid, id) ==> {
            &&& host_run(plan, events).cid == cid
            &&& host_run(plan, events).enclave_id == id
            &&& !(host_run(plan, events).phase is Launch)
            &&& host_action(host_run(plan, events)) matches HostActionView::Connect(c, port) ==> c
                == cid && port == 5001
            &&& host_action(host_run(plan, events)) matches HostActionView::Terminate(e) ==> e
                == id
        }),
    decreases events.len(),
{
    if events.len() > 0 {
        let before = events.drop_last();
        law_launched_enclave_is_used(plan, before);
        if before.len() == 0 {
            assert(before =~= Seq::<HostEventView>::empty());
        } else {
            assert(before[0] == events[0]);
        }
    }
}

/// An event that makes a run fail, at once or once the enclave is terminated.
pub open spec fn is_setback(event: HostEventView) -> bool {
    event is Failed || event == HostEventView::Io(IoEventView::Count(0))
}

/// A run fails only if an action could not be performed, the connection was closed, or
/// twenty tries were refused; nothing else makes it fail.
pub proof fn law_run_fails_only_for_a_reason(plan: BenchPlan, events: Seq<HostEventView>)
    requires
        host_answered(plan, events),
        host_run(plan, events).phase is Failed || host_run(plan, events).phase is Abort,
    ensures
        refusals(events) == 20 || exists|i: int|
            0 <= i < events.len() && is_setback(#[trigger] events[i]),
    decreases events.len(),
{
    if events.len() > 0 {
        let before = events.drop_last();
        law_host_run(plan, before);
        law_host_run(plan, events);
        if is_setback(events.last()) {
            assert(is_setback(events[events.len() - 1]));
        } else if host_run(plan, before).phase is Abort {
            law_run_fails_only_for_a_reason(plan, before);
            if refusals(before) != 20 {
                let i = choose|i: int| 0 <= i < before.len() && is_setback(#[trigger] before[i]);
                assert(is_setback(events[i]));
            }
        }
    }
}

/// The reason for a failure is the one that was given: that of the action that could not
/// be performed, of the last refusal, or that the connection was closed.
pub proof fn law_reasons_are_kept(plan: BenchPlan, events: Seq<HostEventView>)
    requires
        host_answered(plan, events),
        events.len() > 0,
    ensures
        ({
            let before = host_run(plan, events.drop_last()).phase;
            let after = host_run(plan, events).phase;
            &&& events.last() matches HostEventView::Failed(e) ==> after == if before is Connect {
                HostPhaseView::Abort(e)
            } else {
                HostPhaseView::Failed(e)
            }
            &&& events.last() == HostEventView::Io(IoEventView::Count(0)) ==> after
                == HostPhaseView::Failed("Connection closed"@)
            &&& before matches HostPhaseView::Abort(e) ==> after == HostPhaseView::Failed(e)
            &&& events.last() matches HostEventView::Refused(e) ==> (after
                matches HostPhaseView::Abort(reason) ==> reason
                == "Failed to connect after 20 attempts: "@ + e)
        }),
{
    law_host_run(plan, events.drop_last());
    match events.last() {
        HostEventView::Refused(e) => {
            reveal_strlit("Failed to connect after ");
            reveal_strlit(" attempts: ");
            reveal_strlit("Failed to connect after 20 attempts: ");
            crate::text::law_decimal_digit_by_digit(2, 0);
            crate::text::law_decimal_digit_by_digit(0, 2);
            assert(decimal(20) =~= seq!['2', '0']);
            assert("Failed to connect after "@ + decimal(20) + " attempts: "@
                =~= "Failed to connect after 20 attempts: "@);
            assert(refused_text(e) =~= "Failed to connect after 20 attempts: "@ + e);
        },
        _ => {},
    }
}

/// Twenty tries, half a second between two of them, two seconds before the first.
pub proof fn law_tries_in_numbers(plan: BenchPlan, events: Seq<HostEventView>)
    requires
        host_answered(plan, events),
        events.len() > 0,
    ensures
        refusals(events) <= 20,
        events.last() is Launched ==> host_action(host_run(plan, events)) == HostActionView::Sleep(
            2000,
        ),
        events.last() is Refused ==> host_action(host_run(plan, events)) == if refusals(events)
            < 20 {
            HostActionView::Sleep(500)
        } else {
            HostActionView::Terminate(host_run(plan, events).enclave_id)
        },
        events.last() is Slept ==> host_action(host_run(plan, events)) == HostActionView::Connect(
            host_run(plan, events).cid,
            5001,
        ),
{
    law_host_run(plan, events);
    law_host_run(plan, events.drop_last());
}

/// Actions and events are what they carry.
pub proof fn law_actions_and_events(
    n: u64,
    cid: u32,
    port: u32,
    t: u128,
    text: String,
    io: Io,
    event: IoEvent,
)
    ensures
        HostAction::Sleep(n)@ == HostActionView::Sleep(n as nat),
        HostAction::Connect(cid, port)@ == HostActionView::Connect(cid, port),
        HostAction::Io(io)@ == HostActionView::Io(io@),
        HostAction::Terminate(text)@ == HostActionView::Terminate(text@),
        HostAction::Failed(text)@ == HostActionView::Failed(text@),
        HostEvent::Launched(cid, text)@ == HostEventView::Launched(cid, text@),
        HostEvent::Refused(text)@ == HostEventView::Refused(text@),
        HostEvent::Io(event)@ == HostEventView::Io(event@),
        HostEvent::Elapsed(t)@ == HostEventView::Elapsed(t),
        HostEvent::Failed(text)@ == HostEventView::Failed(text@),
{
}

/// The enclave's count is taken as its eight bytes spell it, whatever it is.
pub proof fn law_count_is_taken_as_spelled(
    plan: BenchPlan,
    events: Seq<HostEventView>,
    b: Seq<u8>,
)
    requires
        host_answered(plan, events),
        events.len() > 0,
        events.last() == HostEventView::Io(IoEventView::Bytes(b)),
    ensures
        b.len() == 8,
        host_run(plan, events).phase == HostPhaseView::StopForward(be_value(b) as u64),
        be_value(b) <= u64::MAX,
{
    law_host_run(plan, events.drop_last());
    crate::wire::lemma_be_value_bound(b);
    crate::wire::lemma_be_limits();
}

/// What can come of an action, and nothing else: a launch, a connection and its use may
/// fail; a try to connect may be refused; waits, clocks and termination just happen.
pub proof fn law_outcomes_of_actions(
    cid: u32,
    port: u32,
    c: u32,
    n: nat,
    t: u128,
    text: Seq<char>,
    id: Seq<char>,
    io: IoView,
    e: IoEventView,
    event: HostEventView,
)
    ensures
        host_answers(HostActionView::Launch, HostEventView::Launched(c, id)),
        host_answers(HostActionView::Launch, HostEventView::Failed(text)),
        host_answers(HostActionView::Sleep(n), HostEventView::Slept),
        host_answers(HostActionView::Connect(cid, port), HostEventView::Connected),
        host_answers(HostActionView::Connect(cid, port), HostEventView::Refused(text)),
        host_answers(HostActionView::Connect(cid, port), HostEventView::Failed(text)),
        host_answers(HostActionView::Io(io), HostEventView::Io(e)) == io_answers(io, e),
        host_answers(HostActionView::Io(io), HostEventView::Failed(text)),
        host_answers(HostActionView::StartClock, HostEventView::ClockStarted),
        host_answers(HostActionView::ReadClock, HostEventView::Elapsed(t)),
        host_answers(HostActionView::Terminate(id), HostEventView::Terminated),
        !host_answers(HostActionView::Done, event),
        !host_answers(HostActionView::Failed(text), event),
{
}

} // verus!
