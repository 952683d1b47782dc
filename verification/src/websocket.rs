//! The enclave's side of a WebSocket connection: it reads ever more slowly.

use crate::crypto::{hex_bytes, hex_encode, hex_text};
use crate::keys::law_hex_reads_back;
use crate::text::{decimal, push_decimal};
use vstd::prelude::*;
use vstd::string::StringExecFns;

verus! {

broadcast use vstd::string::group_string_axioms;

/// What a connection brings.
#[derive(Debug)]
pub enum WsEvent {
    Binary(Vec<u8>),
    Text(String),
    Close,
    /// A message that carries no data.
    Other,
    Error(String),
}

/// An event, as bytes or characters.
pub enum WsEventView {
    Binary(Seq<u8>),
    Text(Seq<char>),
    Close,
    Other,
    Error(Seq<char>),
}

impl View for WsEvent {
    type V = WsEventView;

    open spec fn view(&self) -> WsEventView {
        match self {
            WsEvent::Binary(d) => WsEventView::Binary(d@),
            WsEvent::Text(t) => WsEventView::Text(t@),
            WsEvent::Close => WsEventView::Close,
            WsEvent::Other => WsEventView::Other,
            WsEvent::Error(e) => WsEventView::Error(e@),
        }
    }
}

/// What there is to log of an event.
pub open spec fn event_line(event: WsEventView) -> Option<Seq<char>> {
    match event {
        WsEventView::Binary(d) => Some(
            "[enclave] WS recv "@ + decimal(d.len()) + " bytes: "@ + hex_text(d),
        ),
        WsEventView::Text(t) => Some("[enclave] WS recv text: "@ + t),
        WsEventView::Close => Some("[enclave] WS connection closed"@),
        WsEventView::Other => None,
        WsEventView::Error(e) => Some("[enclave] WS error: "@ + e),
    }
}

/// The event ends the connection.
pub open spec fn ends(event: WsEventView) -> bool {
    event is Close || event is Error
}

/// The next wait after an event, in seconds.
pub open spec fn delay_after(delay: nat, event: WsEventView) -> nat {
    if ends(event) {
        delay
    } else {
        delay + 1
    }
}

/// What is logged before a wait.
pub open spec fn wait_line(secs: nat) -> Seq<char> {
    "[enclave] WS waiting "@ + decimal(secs) + "s before next recv"@
}

/// A connection: how long the next wait will be, in seconds.
#[derive(Clone, Copy, Debug, PartialEq, Eq, Structural)]
pub struct WsSession {
    pub delay_secs: u64,
}

/// What to do after an event.
#[derive(Debug)]
pub enum WsAction {
    /// Log the lines, wait this many seconds, and read on.
    Wait { line: Option<String>, notice: String, secs: u64 },
    /// Log the line and let go of the connection.
    Stop { line: Option<String> },
}

/// The line, if there is one, as characters.
pub open spec fn line_view(line: Option<String>) -> Option<Seq<char>> {
    match line {
        Some(t) => Some(t@),
        None => None,
    }
}

/// An action, its texts as characters.
pub enum WsActionView {
    Wait { line: Option<Seq<char>>, notice: Seq<char>, secs: nat },
    Stop { line: Option<Seq<char>> },
}

impl View for WsAction {
    type V = WsActionView;

    open spec fn view(&self) -> WsActionView {
        match self {
            WsAction::Wait { line, notice, secs } => WsActionView::Wait {
                line: line_view(*line),
                notice: notice@,
                secs: *secs as nat,
            },
            WsAction::Stop { line } => WsActionView::Stop { line: line_view(*line) },
        }
    }
}

/// What a connection does after an event.
pub open spec fn ws_action(delay: nat, event: WsEventView) -> WsActionView {
    if ends(event) {
        WsActionView::Stop { line: event_line(event) }
    } else {
        WsActionView::Wait { line: event_line(event), notice: wait_line(delay), secs: delay }
    }
}

/// What is logged of an event: all of its data in hexadecimal, with how many bytes these
/// are; all of its text; that the connection was closed; the error; of anything else,
/// nothing.
pub open spec fn logs(event: WsEvent, line: Option<String>) -> bool {
    match event {
        WsEvent::Binary(d) => line matches Some(t) && t@ == "[enclave] WS recv "@ + decimal(
            d@.len(),
        ) + " bytes: "@ + hex_text(d@),
        WsEvent::Text(text) => line matches Some(t) && t@ == "[enclave] WS recv text: "@ + text@,
        WsEvent::Close => line matches Some(t) && t@ == "[enclave] WS connection closed"@,
        WsEvent::Error(e) => line matches Some(t) && t@ == "[enclave] WS error: "@ + e@,
        WsEvent::Other => line is None,
    }
}

impl WsSession {
    /// A connection that has just been accepted: the first wait is one second.
    pub fn new() -> (r: Self)
        ensures
            r.delay_secs == 1,
    {
        WsSession { delay_secs: 1 }
    }

    /// Takes note of what the connection brought.
    pub fn on_event(&mut self, event: WsEvent) -> (r: WsAction)
        requires
            old(self).delay_secs < u64::MAX,
            event matches WsEvent::Binary(d) ==> 2 * d@.len() <= isize::MAX,
        ensures
            r@ == ws_action(old(self).delay_secs as nat, event@),
            match event {
                WsEvent::Close => r is Stop && final(self).delay_secs == old(self).delay_secs,
                WsEvent::Error(_) => r is Stop && final(self).delay_secs == old(self).delay_secs,
                _ => {
                    &&& r matches WsAction::Wait { line, notice, secs }
                    &&& secs == old(self).delay_secs
                    &&& notice@ == "[enclave] WS waiting "@ + decimal(secs as nat)
                        + "s before next recv"@
                    &&& final(self).delay_secs == old(self).delay_secs + 1
                },
            },
            logs(event, match r {
                WsAction::Wait { line, notice, secs } => line,
                WsAction::Stop { line } => line,
            }),
            final(self).delay_secs == delay_after(old(self).delay_secs as nat, event@),
    {
        let mut stop: bool = false;
        let ghost seen = event@;
        let line: Option<String> = match event {
            WsEvent::Binary(data) => {
                let mut t = String::from_str("[enclave] WS recv ");
                push_decimal(&mut t, data.len() as u64);
                t.append(" bytes: ");
                t.append(hex_encode(data.as_slice()).as_str());
                Some(t)
            },
            WsEvent::Text(text) => {
                let mut t = String::from_str("[enclave] WS recv text: ");
                t.append(text.as_str());
                Some(t)
            },
            WsEvent::Close => {
                stop = true;
                Some(String::from_str("[enclave] WS connection closed"))
            },
            WsEvent::Other => None,
            WsEvent::Error(e) => {
                stop = true;
                let mut t = String::from_str("[enclave] WS error: ");
                t.append(e.as_str());
                Some(t)
            },
        };
        assert(line_view(line) == event_line(seen));
        assert(logs(event, line));
        if stop {
            return WsAction::Stop { line };
        }
        let secs: u64 = self.delay_secs;
        let mut notice = String::from_str("[enclave] WS waiting ");
        push_decimal(&mut notice, secs);
        notice.append("s before next recv");
        self.delay_secs = secs + 1;
        WsAction::Wait { line, notice, secs }
    }
}

/// How many events come before the first that ends the connection, or in all if none
/// does.
pub open spec fn before_end(events: Seq<WsEventView>) -> nat
    decreases events.len(),
{
    if events.len() == 0 || ends(events[0]) {
        0
    } else {
        1 + before_end(events.subrange(1, events.len() as int))
    }
}

/// What a connection does after each of a list of events, from a first wait on. Nothing
/// is read after an event that ends it.
pub open spec fn ws_run(events: Seq<WsEventView>, delay: nat) -> Seq<WsActionView>
    decreases events.len(),
{
    if events.len() == 0 {
        Seq::empty()
    } else if ends(events[0]) {
        seq![ws_action(delay, events[0])]
    } else {
        seq![ws_action(delay, events[0])] + ws_run(
            events.subrange(1, events.len() as int),
            delay_after(delay, events[0]),
        )
    }
}

/// The next wait after a list of events, up to the one that ends the connection.
pub open spec fn delay_run(events: Seq<WsEventView>, delay: nat) -> nat
    decreases events.len(),
{
    if events.len() == 0 || ends(events[0]) {
        delay
    } else {
        delay_run(events.subrange(1, events.len() as int), delay_after(delay, events[0]))
    }
}

/// The waits of a run, in seconds.
pub open spec fn waits(actions: Seq<WsActionView>) -> Seq<nat>
    decreases actions.len(),
{
    if actions.len() == 0 {
        Seq::empty()
    } else {
        (match actions[0] {
            WsActionView::Wait { line, notice, secs } => seq![secs],
            WsActionView::Stop { line } => Seq::empty(),
        }) + waits(actions.subrange(1, actions.len() as int))
    }
}

/// What a connection does, event by event: each event before the first that ends it is
/// logged and followed by a wait, that one is logged and followed by nothing, and what
/// comes after it is not read. The next wait has grown by one second for each.
pub proof fn law_connection_run(events: Seq<WsEventView>, delay: nat)
    ensures
        before_end(events) <= events.len(),
        ws_run(events, delay).len() == if before_end(events) < events.len() {
            before_end(events) + 1
        } else {
            before_end(events)
        },
        forall|i: int|
            0 <= i < before_end(events) ==> !ends(events[i]) && #[trigger] ws_run(events, delay)[i]
                == (WsActionView::Wait {
                line: event_line(events[i]),
                notice: wait_line((delay + i) as nat),
                secs: (delay + i) as nat,
            }),
        before_end(events) < events.len() ==> ends(events[before_end(events) as int]) && ws_run(
            events,
            delay,
        )[before_end(events) as int] == (WsActionView::Stop {
            line: event_line(events[before_end(events) as int]),
        }),
        delay_run(events, delay) == delay + before_end(events),
    decreases events.len(),
{
    if events.len() > 0 && !ends(events[0]) {
        let rest = events.subrange(1, events.len() as int);
        law_connection_run(rest, delay + 1);
        let all = ws_run(events, delay);
        assert forall|i: int| 0 <= i < before_end(events) implies !ends(events[i])
            && #[trigger] all[i] == (WsActionView::Wait {
            line: event_line(events[i]),
            notice: wait_line((delay + i) as nat),
            secs: (delay + i) as nat,
        }) by {
            if i > 0 {
                assert(all[i] == ws_run(rest, delay + 1)[i - 1]);
                assert(events[i] == rest[i - 1]);
            }
        }
    }
}

/// There is exactly one wait for each event before the first that ends the connection,
/// and each is one second longer than the one before it.
pub proof fn law_waits_grow(events: Seq<WsEventView>, delay: nat)
    ensures
        waits(ws_run(events, delay)) == Seq::new(
            before_end(events),
            |i: int| (delay + i) as nat,
        ),
    decreases events.len(),
{
    let all = ws_run(events, delay);
    let grown = Seq::new(before_end(events), |i: int| (delay + i) as nat);
    if events.len() > 0 {
        let rest = events.subrange(1, events.len() as int);
        if ends(events[0]) {
            assert(all[0] is Stop);
            assert(all.subrange(1, all.len() as int) =~= Seq::<WsActionView>::empty());
            assert(waits(Seq::<WsActionView>::empty()) =~= Seq::<nat>::empty());
        } else {
            law_waits_grow(rest, delay + 1);
            assert(all[0] == ws_action(delay, events[0]));
            assert(all.subrange(1, all.len() as int) =~= ws_run(rest, delay + 1));
            assert(waits(all) == seq![delay] + waits(ws_run(rest, delay + 1)));
        }
    }
    assert(waits(all) =~= grown);
}

/// A connection ends at a close message or an error and at nothing else: after any binary,
/// text or other message, whatever it holds, it waits for the current delay, and the next
/// delay is one second longer.
pub proof fn law_only_close_and_errors_end(
    data: Seq<u8>,
    text: Seq<char>,
    reason: Seq<char>,
    delay: nat,
)
    ensures
        ws_action(delay, WsEventView::Binary(data)) matches WsActionView::Wait { line, notice, secs }
            && secs == delay,
        delay_after(delay, WsEventView::Binary(data)) == delay + 1,
        ws_action(delay, WsEventView::Text(text)) matches WsActionView::Wait { line, notice, secs }
            && secs == delay,
        delay_after(delay, WsEventView::Text(text)) == delay + 1,
        ws_action(delay, WsEventView::Other) matches WsActionView::Wait { line, notice, secs }
            && secs == delay,
        delay_after(delay, WsEventView::Other) == delay + 1,
        ws_action(delay, WsEventView::Close) is Stop,
        delay_after(delay, WsEventView::Close) == delay,
        ws_action(delay, WsEventView::Error(reason)) is Stop,
        delay_after(delay, WsEventView::Error(reason)) == delay,
{
}

/// As long as neither a close message nor an error comes, every message is followed by a
/// wait: one second after the first, one more after each further one.
pub proof fn law_all_messages_are_read(events: Seq<WsEventView>)
    requires
        forall|i: int|
            0 <= i < events.len() ==> !(#[trigger] events[i] is Close) && !(events[i] is Error),
    ensures
        ws_run(events, 1).len() == events.len(),
        forall|i: int|
            0 <= i < events.len() ==> (#[trigger] ws_run(events, 1)[i] matches WsActionView::Wait {
                line,
                notice,
                secs,
            } && secs == i + 1),
        delay_run(events, 1) == 1 + events.len(),
{
    lemma_nothing_ends(events);
    law_connection_run(events, 1);
}

proof fn lemma_nothing_ends(events: Seq<WsEventView>)
    requires
        forall|i: int|
            0 <= i < events.len() ==> !(#[trigger] events[i] is Close) && !(events[i] is Error),
    ensures
        before_end(events) == events.len(),
    decreases events.len(),
{
    if events.len() > 0 {
        let rest = events.subrange(1, events.len() as int);
        assert forall|i: int| 0 <= i < rest.len() implies !(#[trigger] rest[i] is Close) && !(
        rest[i] is Error) by {
            assert(rest[i] == events[i + 1]);
        }
        assert(!(events[0] is Close));
        lemma_nothing_ends(rest);
    }
}

/// The log line of a binary message holds all of its data: what follows its length reads
/// back as exactly that.
pub proof fn law_log_line_holds_the_data(data: Seq<u8>)
    ensures
        event_line(WsEventView::Binary(data)) matches Some(line) && {
            let from = "[enclave] WS recv "@.len() + decimal(data.len()).len() + " bytes: "@.len();
            hex_bytes(line.subrange(from as int, line.len() as int)) == Some(data)
        },
{
    let line = event_line(WsEventView::Binary(data))->0;
    let from = "[enclave] WS recv "@.len() + decimal(data.len()).len() + " bytes: "@.len();
    law_hex_reads_back(data);
    assert(line.subrange(from as int, line.len() as int) =~= hex_text(data));
}

} // verus!
