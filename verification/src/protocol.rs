//! Host and enclave fit together.

use crate::bench_enclave::{
    enclave_answered, enclave_io, enclave_output, enclave_run, law_enclave_run, opening,
    total_input, EnclavePhase,
};
use crate::bench_host::{
    host_action, host_answered, host_input, host_output, host_run, law_host_run, plan_message,
    BenchPlan, HostActionView, HostEventView, RunView,
};
use crate::binding::bound_user_data;
use crate::compute::{
    bytes_read, bytes_written, compute_answered, compute_run, document_in, law_compute_run,
    output_in, requests_in, ComputeEventView,
};
use crate::control::{
    ack_bytes, law_ack_reads_back, law_message_reads_back, message_bytes, message_of, wants_reverse,
};
use crate::frame::{frame, holds_answer, law_answer_reads_back, payload_of, rest_of};
use crate::host::{chunk_count, filled, CHUNK_SIZE};
use crate::io::{IoEventView, IoView};
use crate::upload::{arrived, arriving, joined, law_chunks_do_not_matter, upload_answer};
use crate::wire::{be_bytes, be_value};
use vstd::prelude::*;

verus! {

/// The control message opens what the host writes, and tells the enclave the plan.
pub proof fn law_host_opens_with_its_plan(plan: BenchPlan, events: Seq<HostEventView>)
    requires
        host_answered(plan, events),
        host_run(plan, events).phase is Done,
    ensures
        host_output(plan, events).len() >= 24,
        message_of(host_output(plan, events).subrange(0, 24)) == plan_message(plan),
{
    law_host_run(plan, events);
    law_message_reads_back(plan_message(plan));
    assert(host_output(plan, events).subrange(0, 24) =~= message_bytes(plan_message(plan)));
}

/// When host and enclave are both done with a plan, each has read exactly as many
/// bytes as the other wrote, the enclave's acknowledgement reads as the planned
/// total, and so does the host's, if data went back.
pub proof fn law_sides_agree(
    plan: BenchPlan,
    host_events: Seq<HostEventView>,
    enclave_events: Seq<IoEventView>,
)
    requires
        host_answered(plan, host_events),
        host_run(plan, host_events).phase is Done,
        enclave_answered(enclave_events),
        enclave_run(enclave_events) is Done,
        opening(enclave_events) == plan_message(plan),
    ensures
        total_input(enclave_events) == host_output(plan, host_events).len(),
        host_input(host_events) == enclave_output(enclave_events).len(),
        be_value(enclave_output(enclave_events).subrange(0, 8)) == plan.total_bytes,
        plan.reverse ==> be_value(
            host_output(plan, host_events).subrange(
                24 + plan.total_bytes,
                host_output(plan, host_events).len() as int,
            ),
        ) == plan.total_bytes,
{
    law_host_run(plan, host_events);
    law_enclave_run(enclave_events);
    law_message_reads_back(plan_message(plan));
    law_ack_reads_back(plan.total_bytes);
    let total = plan.total_bytes;
    let ack = ack_bytes(total);
    let back = enclave_output(enclave_events);
    assert(wants_reverse(plan_message(plan)) == plan.reverse);
    assert(back.subrange(0, 8) =~= ack);
    let out = host_output(plan, host_events);
    if plan.reverse {
        assert(out.subrange(24 + total, out.len() as int) =~= ack);
    }
}

/// A request that has to wait for bytes when this many are on the way.
pub open spec fn starved(io: IoView, pending: int) -> bool {
    match io {
        IoView::ReadExact(n) => pending < n,
        IoView::ReadSome(n) => n > 0 && pending == 0,
        IoView::Write(_) => false,
    }
}

/// The host waits for bytes when this many are on the way to it.
pub open spec fn host_waits(run: RunView, pending: int) -> bool {
    host_action(run) matches HostActionView::Io(io) && starved(io, pending)
}

/// The enclave waits for bytes when this many are on the way to it.
pub open spec fn enclave_waits(phase: EnclavePhase, pending: int) -> bool {
    enclave_io(phase) matches Some(io) && starved(io, pending)
}

/// Host and enclave never wait for each other, and neither waits for one that is done:
/// as long as each side has read only what the other wrote, one that waits for bytes
/// waits for what the other is about to write, or the other has failed.
pub proof fn law_no_deadlock(
    plan: BenchPlan,
    host_events: Seq<HostEventView>,
    enclave_events: Seq<IoEventView>,
)
    requires
        host_answered(plan, host_events),
        enclave_answered(enclave_events),
        enclave_events.len() > 0 ==> opening(enclave_events) == plan_message(plan),
        total_input(enclave_events) <= host_output(plan, host_events).len(),
        host_input(host_events) <= enclave_output(enclave_events).len(),
    ensures
        ({
            let run = host_run(plan, host_events);
            let phase = enclave_run(enclave_events);
            let to_enclave = host_output(plan, host_events).len() - total_input(enclave_events);
            let to_host = enclave_output(enclave_events).len() - host_input(host_events);
            &&& enclave_waits(phase, to_enclave) ==> !host_waits(run, to_host)
            &&& enclave_waits(phase, to_enclave) ==> !(run.phase is Terminate || run.phase is Done)
            &&& host_waits(run, to_host) ==> !(phase is Done)
        }),
{
    law_host_run(plan, host_events);
    law_enclave_run(enclave_events);
    law_message_reads_back(plan_message(plan));
    law_ack_reads_back(plan.total_bytes);
    assert(wants_reverse(plan_message(plan)) == plan.reverse);
}

/// Whoever sends an input and reads the answer gets the output and the document, and the
/// document was requested once, with exactly the user data by which it is checked: the
/// digest of that input and that output.
pub proof fn law_answer_is_attested(vsock: bool, events: Seq<ComputeEventView>, input: Seq<u8>)
    requires
        compute_answered(vsock, events),
        compute_run(vsock, events) is Done,
        bytes_read(events) == frame(input),
    ensures
        ({
            let written = bytes_written(vsock, events);
            &&& holds_answer(written)
            &&& output_in(events) == Some(payload_of(written))
            &&& document_in(events) == Some(payload_of(rest_of(written)))
            &&& requests_in(vsock, events).len() == 1
            &&& requests_in(vsock, events)[0].user_data == Some(
                bound_user_data(input, payload_of(written)),
            )
        }),
{
    law_compute_run(vsock, events);
    law_answer_reads_back(output_in(events)->0, document_in(events)->0);
    let sent = payload_of(bytes_read(events));
    assert(frame(input).len() == frame(sent).len());
    assert(frame(input).subrange(4, frame(input).len() as int) =~= input) by {
        lemma_frame_len(input);
    }
    assert(frame(sent).subrange(4, frame(sent).len() as int) =~= sent) by {
        lemma_frame_len(sent);
    }
}

proof fn lemma_frame_len(payload: Seq<u8>)
    ensures
        frame(payload).len() == 4 + payload.len(),
{
    reveal_with_fuel(be_bytes, 5);
}

/// The chunks in which the host uploads `size` bytes.
pub open spec fn upload_chunks(size: nat) -> Seq<Seq<u8>> {
    Seq::new(chunk_count(size), |i: int| filled(CHUNK_SIZE as nat))
}

proof fn lemma_joined_full_chunks(n: nat)
    ensures
        joined(Seq::new(n, |i: int| filled(CHUNK_SIZE as nat))) == filled(n * CHUNK_SIZE as nat),
    decreases n,
{
    let chunks = Seq::new(n, |i: int| filled(CHUNK_SIZE as nat));
    if n > 0 {
        let rest = Seq::new((n - 1) as nat, |i: int| filled(CHUNK_SIZE as nat));
        lemma_joined_full_chunks((n - 1) as nat);
        assert(chunks.subrange(1, chunks.len() as int) =~= rest);
        assert(joined(chunks) =~= filled(n * CHUNK_SIZE as nat));
    } else {
        assert(joined(chunks) =~= filled(0));
    }
}

/// The enclave answers an upload of the host with digest and size of what the host
/// sent: only full chunks, at least as many bytes as were asked for, and less than one
/// chunk more.
pub proof fn law_upload_is_answered(size: nat)
    ensures
        upload_answer(arrived(Seq::empty(), arriving(upload_chunks(size)))) == upload_answer(
            filled(chunk_count(size) * CHUNK_SIZE as nat),
        ),
        size <= chunk_count(size) * CHUNK_SIZE < size + CHUNK_SIZE,
{
    let chunks = upload_chunks(size);
    lemma_joined_full_chunks(chunk_count(size));
    law_chunks_do_not_matter(chunks, chunks);
}

} // verus!
