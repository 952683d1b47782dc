//! How `nitro-cli` is called to start and stop enclaves.

use crate::options::arg_texts;
use crate::text::{decimal, decimal_text, law_decimal_digit_by_digit};
use vstd::prelude::*;
use vstd::string::StringExecFns;

verus! {

broadcast use vstd::string::group_string_axioms;

pub const ENCLAVE_CPU_COUNT: u32 = 2;

pub const ENCLAVE_MEMORY_MB: u32 = 256;

/// The arguments that start an enclave from an image.
pub open spec fn launch_words(eif_path: Seq<char>) -> Seq<Seq<char>> {
    seq![
        "run-enclave"@,
        "--eif-path"@,
        eif_path,
        "--cpu-count"@,
        decimal(ENCLAVE_CPU_COUNT as nat),
        "--memory"@,
        decimal(ENCLAVE_MEMORY_MB as nat),
    ]
}

/// The arguments that start an enclave from an image.
pub fn launch_args(eif_path: &str) -> (r: Vec<String>)
    ensures
        arg_texts(r@) == launch_words(eif_path@),
        arg_texts(r@) == seq![
            "run-enclave"@,
            "--eif-path"@,
            eif_path@,
            "--cpu-count"@,
            "2"@,
            "--memory"@,
            "256"@,
        ],
{
    proof {
        law_launch_words(eif_path@);
    }
    let mut out: Vec<String> = Vec::new();
    out.push(String::from_str("run-enclave"));
    out.push(String::from_str("--eif-path"));
    out.push(String::from_str(eif_path));
    out.push(String::from_str("--cpu-count"));
    out.push(decimal_text(ENCLAVE_CPU_COUNT as u64));
    out.push(String::from_str("--memory"));
    out.push(decimal_text(ENCLAVE_MEMORY_MB as u64));
    assert(arg_texts(out@) =~= launch_words(eif_path@));
    out
}

/// The arguments that stop every enclave.
pub open spec fn terminate_all_words() -> Seq<Seq<char>> {
    seq!["terminate-enclave"@, "--all"@]
}

/// The arguments that stop every enclave.
pub fn terminate_all_args() -> (r: Vec<String>)
    ensures
        arg_texts(r@) == terminate_all_words(),
        arg_texts(r@) == seq!["terminate-enclave"@, "--all"@],
{
    let mut out: Vec<String> = Vec::new();
    out.push(String::from_str("terminate-enclave"));
    out.push(String::from_str("--all"));
    assert(arg_texts(out@) =~= terminate_all_words());
    out
}

/// The arguments that stop one enclave.
pub fn terminate_args(enclave_id: &str) -> (r: Vec<String>)
    ensures
        arg_texts(r@) == seq!["terminate-enclave"@, "--enclave-id"@, enclave_id@],
{
    let mut out: Vec<String> = Vec::new();
    out.push(String::from_str("terminate-enclave"));
    out.push(String::from_str("--enclave-id"));
    out.push(String::from_str(enclave_id));
    assert(arg_texts(out@) =~= seq!["terminate-enclave"@, "--enclave-id"@, enclave_id@]);
    out
}

/// The reason why a launch failed, from what `nitro-cli` said on its error stream.
pub open spec fn launch_failure(stderr: Seq<char>) -> Seq<char> {
    "Failed to run enclave: "@ + stderr
}

/// Whether a launch counts: what `nitro-cli` said on its error stream is the reason
/// if it does not.
pub fn launch_outcome(success: bool, stderr: &str) -> (r: Result<(), String>)
    ensures
        match r {
            Ok(_) => success,
            Err(e) => !success && e@ == launch_failure(stderr@) && e@
                == "Failed to run enclave: "@ + stderr@,
        },
{
    if success {
        Ok(())
    } else {
        let mut e = String::from_str("Failed to run enclave: ");
        e.append(stderr);
        Err(e)
    }
}

/// The launch of one enclave: two calls of `nitro-cli`, then what the second printed.
#[derive(Debug)]
pub enum LaunchSession {
    /// Every enclave that still runs is to be stopped; then this image is to be started.
    StopAll(String),
    /// This image is to be started.
    Start(String),
    /// What the start printed is to be read.
    ReadOutput,
    /// The enclave runs, with this context id and this name.
    Launched(u32, String),
    /// The launch failed, for this reason.
    Failed(String),
}

/// A launch, its texts as characters.
pub enum LaunchView {
    StopAll(Seq<char>),
    Start(Seq<char>),
    ReadOutput,
    Launched(u32, Seq<char>),
    Failed(Seq<char>),
}

impl View for LaunchSession {
    type V = LaunchView;

    open spec fn view(&self) -> LaunchView {
        match self {
            LaunchSession::StopAll(image) => LaunchView::StopAll(image@),
            LaunchSession::Start(image) => LaunchView::Start(image@),
            LaunchSession::ReadOutput => LaunchView::ReadOutput,
            LaunchSession::Launched(cid, id) => LaunchView::Launched(*cid, id@),
            LaunchSession::Failed(e) => LaunchView::Failed(e@),
        }
    }
}

/// What came of a step of a launch.
#[derive(Debug)]
pub enum LaunchEvent {
    /// The command ran; whether it succeeded, and what it said on its error stream.
    Exited(bool, String),
    /// The command could not be run.
    NotRun(String),
    /// The output names this context id and this enclave.
    Output(u32, String),
    /// The output cannot be read.
    Unreadable(String),
}

/// An event, its texts as characters.
pub enum LaunchEventView {
    Exited(bool, Seq<char>),
    NotRun(Seq<char>),
    Output(u32, Seq<char>),
    Unreadable(Seq<char>),
}

impl View for LaunchEvent {
    type V = LaunchEventView;

    open spec fn view(&self) -> LaunchEventView {
        match self {
            LaunchEvent::Exited(success, stderr) => LaunchEventView::Exited(*success, stderr@),
            LaunchEvent::NotRun(e) => LaunchEventView::NotRun(e@),
            LaunchEvent::Output(cid, id) => LaunchEventView::Output(*cid, id@),
            LaunchEvent::Unreadable(e) => LaunchEventView::Unreadable(e@),
        }
    }
}

/// The arguments with which `nitro-cli` is to be called next, if it is.
pub open spec fn launch_command(launch: LaunchView) -> Option<Seq<Seq<char>>> {
    match launch {
        LaunchView::StopAll(_) => Some(terminate_all_words()),
        LaunchView::Start(image) => Some(launch_words(image)),
        _ => None,
    }
}

/// `event` can come of the step that a launch stands at.
pub open spec fn launch_answers(launch: LaunchView, event: LaunchEventView) -> bool {
    match launch {
        LaunchView::StopAll(_) => event is Exited || event is NotRun,
        LaunchView::Start(_) => event is Exited || event is NotRun,
        LaunchView::ReadOutput => event is Output || event is Unreadable,
        LaunchView::Launched(_, _) => false,
        LaunchView::Failed(_) => false,
    }
}

/// The launch after an event. What came of stopping every enclave does not matter.
pub open spec fn launch_next(launch: LaunchView, event: LaunchEventView) -> LaunchView {
    match (launch, event) {
        (LaunchView::StopAll(image), _) => LaunchView::Start(image),
        (LaunchView::Start(_), LaunchEventView::NotRun(e)) => LaunchView::Failed(e),
        (LaunchView::Start(_), LaunchEventView::Exited(success, stderr)) => if success {
            LaunchView::ReadOutput
        } else {
            LaunchView::Failed(launch_failure(stderr))
        },
        (LaunchView::ReadOutput, LaunchEventView::Output(cid, id)) => LaunchView::Launched(cid, id),
        (LaunchView::ReadOutput, LaunchEventView::Unreadable(e)) => LaunchView::Failed(e),
        _ => launch,
    }
}

impl LaunchSession {
    /// A launch from an image that has not begun.
    pub fn new(eif_path: &str) -> (r: Self)
        ensures
            r@ == LaunchView::StopAll(eif_path@),
    {
        LaunchSession::StopAll(String::from_str(eif_path))
    }

    /// The arguments with which to call `nitro-cli` next; `None` if it is not to be
    /// called.
    pub fn command(&self) -> (r: Option<Vec<String>>)
        ensures
            match r {
                Some(args) => launch_command(self@) == Some(arg_texts(args@)),
                None => launch_command(self@) is None,
            },
    {
        match self {
            LaunchSession::StopAll(_) => Some(terminate_all_args()),
            LaunchSession::Start(image) => Some(launch_args(image.as_str())),
            _ => None,
        }
    }

    /// Whether `event` can come of the step that is due.
    pub fn accepts(&self, event: &LaunchEvent) -> (r: bool)
        ensures
            r == launch_answers(self@, event@),
    {
        match (self, event) {
            (LaunchSession::StopAll(_), LaunchEvent::Exited(_, _)) => true,
            (LaunchSession::StopAll(_), LaunchEvent::NotRun(_)) => true,
            (LaunchSession::Start(_), LaunchEvent::Exited(_, _)) => true,
            (LaunchSession::Start(_), LaunchEvent::NotRun(_)) => true,
            (LaunchSession::ReadOutput, LaunchEvent::Output(_, _)) => true,
            (LaunchSession::ReadOutput, LaunchEvent::Unreadable(_)) => true,
            _ => false,
        }
    }

    /// The launch after what came of its last step.
    pub fn on_event(self, event: LaunchEvent) -> (r: Self)
        requires
            launch_answers(self@, event@),
        ensures
            r@ == launch_next(self@, event@),
            self matches LaunchSession::StopAll(image) ==> r == LaunchSession::Start(image),
            self is Start ==> match event {
                LaunchEvent::NotRun(e) => r matches LaunchSession::Failed(f) && f@ == e@,
                LaunchEvent::Exited(success, stderr) => if success {
                    r is ReadOutput
                } else {
                    r matches LaunchSession::Failed(f) && f@ == "Failed to run enclave: "@
                        + stderr@
                },
                _ => true,
            },
            self is ReadOutput ==> match event {
                LaunchEvent::Output(cid, id) => r matches LaunchSession::Launched(c, i) && c == cid
                    && i@ == id@,
                LaunchEvent::Unreadable(e) => r matches LaunchSession::Failed(f) && f@ == e@,
                _ => true,
            },
    {
        match (self, event) {
            (LaunchSession::StopAll(image), _) => LaunchSession::Start(image),
            (LaunchSession::Start(_), LaunchEvent::NotRun(e)) => LaunchSession::Failed(e),
            (LaunchSession::Start(_), LaunchEvent::Exited(success, stderr)) =>
                match launch_outcome(success, stderr.as_str()) {
                    Ok(_) => LaunchSession::ReadOutput,
                    Err(e) => LaunchSession::Failed(e),
                },
            (LaunchSession::ReadOutput, LaunchEvent::Output(cid, id)) => LaunchSession::Launched(
                cid,
                id,
            ),
            (LaunchSession::ReadOutput, LaunchEvent::Unreadable(e)) => LaunchSession::Failed(e),
            (other, _) => other,
        }
    }
}

/// The launch from an image after a list of events.
pub open spec fn launch_run(image: Seq<char>, events: Seq<LaunchEventView>) -> LaunchView
    decreases events.len(),
{
    if events.len() == 0 {
        LaunchView::StopAll(image)
    } else {
        launch_next(launch_run(image, events.drop_last()), events.last())
    }
}

/// Each event is one that can come of the step before it.
pub open spec fn launch_answered(image: Seq<char>, events: Seq<LaunchEventView>) -> bool
    decreases events.len(),
{
    events.len() == 0 || {
        &&& launch_answered(image, events.drop_last())
        &&& launch_answers(launch_run(image, events.drop_last()), events.last())
    }
}

/// The calls of `nitro-cli` that a launch made, in order.
pub open spec fn commands_run(image: Seq<char>, events: Seq<LaunchEventView>) -> Seq<
    Seq<Seq<char>>,
>
    decreases events.len(),
{
    if events.len() == 0 {
        Seq::empty()
    } else {
        match launch_command(launch_run(image, events.drop_last())) {
            Some(words) => commands_run(image, events.drop_last()).push(words),
            None => commands_run(image, events.drop_last()),
        }
    }
}

/// A launch calls `nitro-cli` exactly twice, whatever comes of the calls: first to stop
/// every enclave, then to start the image; nothing else is ever run.
pub proof fn law_launch_runs_two_commands(image: Seq<char>, events: Seq<LaunchEventView>)
    requires
        launch_answered(image, events),
    ensures
        match launch_run(image, events) {
            LaunchView::StopAll(i) => {
                &&& i == image
                &&& events.len() == 0
                &&& commands_run(image, events) == Seq::<Seq<Seq<char>>>::empty()
            },
            LaunchView::Start(i) => {
                &&& i == image
                &&& events.len() == 1
                &&& commands_run(image, events) == seq![terminate_all_words()]
            },
            LaunchView::ReadOutput => {
                &&& events.len() == 2
                &&& commands_run(image, events) == seq![terminate_all_words(), launch_words(image)]
            },
            _ => {
                &&& events.len() == 2 || events.len() == 3
                &&& commands_run(image, events) == seq![terminate_all_words(), launch_words(image)]
            },
        },
    decreases events.len(),
{
    if events.len() > 0 {
        law_launch_runs_two_commands(image, events.drop_last());
    }
}

/// What came of stopping every enclave is ignored: the launch fails exactly if the image
/// cannot be started, its start fails, or the output of the start cannot be read; else
/// it gives what that output names.
pub proof fn law_launch_outcome(
    image: Seq<char>,
    stop: LaunchEventView,
    start: LaunchEventView,
    read: LaunchEventView,
)
    requires
        stop is Exited || stop is NotRun,
        start is Exited || start is NotRun,
        read is Output || read is Unreadable,
    ensures
        ({
            let started = launch_run(image, seq![stop, start]);
            let ended = launch_run(image, seq![stop, start, read]);
            match start {
                LaunchEventView::Exited(success, stderr) => if success {
                    match read {
                        LaunchEventView::Output(cid, id) => ended == LaunchView::Launched(cid, id),
                        LaunchEventView::Unreadable(e) => ended == LaunchView::Failed(e),
                        _ => true,
                    }
                } else {
                    started == LaunchView::Failed(launch_failure(stderr))
                },
                LaunchEventView::NotRun(e) => started == LaunchView::Failed(e),
                _ => true,
            }
        }),
{
    reveal_with_fuel(launch_run, 4);
    assert(seq![stop, start, read].drop_last() =~= seq![stop, start]);
    assert(seq![stop, start].drop_last() =~= seq![stop]);
    assert(seq![stop].drop_last() =~= Seq::<LaunchEventView>::empty());
}

/// The words of both calls: every enclave is stopped; the image is started with two CPUs
/// and 256 MB.
pub proof fn law_launch_words(image: Seq<char>)
    ensures
        terminate_all_words() == seq!["terminate-enclave"@, "--all"@],
        launch_words(image) == seq![
            "run-enclave"@,
            "--eif-path"@,
            image,
            "--cpu-count"@,
            "2"@,
            "--memory"@,
            "256"@,
        ],
{
    reveal_strlit("2");
    reveal_strlit("256");
    law_decimal_digit_by_digit(0, 2);
    law_decimal_digit_by_digit(2, 5);
    law_decimal_digit_by_digit(25, 6);
    assert(decimal(2) =~= "2"@);
    assert(decimal(256) =~= "256"@);
}

/// Either call may be run, with whatever outcome, or not; what it printed may be readable
/// or not; after that nothing comes.
pub proof fn law_outcomes_of_launch_steps(
    image: Seq<char>,
    success: bool,
    text: Seq<char>,
    cid: u32,
    id: Seq<char>,
    event: LaunchEventView,
)
    ensures
        launch_answers(LaunchView::StopAll(image), LaunchEventView::Exited(success, text)),
        launch_answers(LaunchView::StopAll(image), LaunchEventView::NotRun(text)),
        launch_answers(LaunchView::Start(image), LaunchEventView::Exited(success, text)),
        launch_answers(LaunchView::Start(image), LaunchEventView::NotRun(text)),
        launch_answers(LaunchView::ReadOutput, LaunchEventView::Output(cid, id)),
        launch_answers(LaunchView::ReadOutput, LaunchEventView::Unreadable(text)),
        !launch_answers(LaunchView::Launched(cid, id), event),
        !launch_answers(LaunchView::Failed(text), event),
{
}

} // verus!
