//! Length-prefixed frames between host and enclave.

use crate::wire::{
    be_bytes, be_value, law_be_bytes_of_value, law_be_value_of_bytes, lemma_be_limits, lemma_be_value_bound,
    push_be, read_be,
};
use vstd::prelude::*;
use vstd::slice::slice_subrange;
use vstd::slice::slice_to_vec;

verus! {

broadcast use vstd::slice::group_slice_axioms;

/// The bytes of a frame: the payload's length in four big-endian bytes, then the
/// payload.
pub open spec fn frame(payload: Seq<u8>) -> Seq<u8> {
    be_bytes(payload.len(), 4) + payload
}

/// The length that the first four bytes announce.
pub open spec fn announced(buf: Seq<u8>) -> nat {
    be_value(buf.subrange(0, 4))
}

/// `buf` begins with a whole frame.
pub open spec fn holds_frame(buf: Seq<u8>) -> bool {
    buf.len() >= 4 && buf.len() >= 4 + announced(buf)
}

/// The payload of the frame that `buf` begins with.
pub open spec fn payload_of(buf: Seq<u8>) -> Seq<u8> {
    buf.subrange(4, 4 + announced(buf) as int)
}

/// What follows the frame that `buf` begins with.
pub open spec fn rest_of(buf: Seq<u8>) -> Seq<u8> {
    buf.subrange(4 + announced(buf) as int, buf.len() as int)
}

/// Wraps a payload in a frame. The payload's length must fit in four bytes, and the
/// frame in memory.
pub fn encode_frame(payload: &[u8]) -> (r: Vec<u8>)
    requires
        payload@.len() < 0x1_0000_0000,
        payload@.len() + 4 <= isize::MAX,
    ensures
        r@ == frame(payload@),
        r@.len() == 4 + payload@.len(),
        be_value(r@.subrange(0, 4)) == payload@.len(),
        r@.subrange(4, r@.len() as int) == payload@,
{
    let mut out: Vec<u8> = Vec::new();
    push_be(&mut out, payload.len() as u64, 4);
    push_bytes(&mut out, payload);
    assert(out@ =~= frame(payload@));
    proof {
        law_frame_layout(payload@);
    }
    out
}

fn push_bytes(out: &mut Vec<u8>, bytes: &[u8])
    ensures
        final(out)@ == old(out)@ + bytes@,
{
    let mut tail: Vec<u8> = slice_to_vec(bytes);
    out.append(&mut tail);
}

/// Reads the frame that `buf` begins with: its payload, and how many bytes it takes.
/// `None` if the frame is not all there.
pub fn decode_frame(buf: &[u8]) -> (r: Option<(Vec<u8>, usize)>)
    ensures
        match r {
            Some((payload, taken)) => {
                &&& holds_frame(buf@)
                &&& payload@ == payload_of(buf@)
                &&& taken == 4 + announced(buf@)
                &&& payload@ == buf@.subrange(4, taken as int)
                &&& be_value(buf@.subrange(0, 4)) == payload@.len()
            },
            None => !holds_frame(buf@),
        },
{
    let len: usize = buf.len();
    if len < 4 {
        return None;
    }
    let n: u64 = read_be(buf, 0, 4);
    proof {
        lemma_be_value_bound(buf@.subrange(0, 4));
        lemma_be_limits();
    }
    if ((len - 4) as u64) < n {
        return None;
    }
    let end: usize = 4 + n as usize;
    Some((slice_to_vec(slice_subrange(buf, 4, end)), end))
}

/// The two frames of an answer: the output, then the attestation document.
pub open spec fn answer(output: Seq<u8>, document: Seq<u8>) -> Seq<u8> {
    frame(output) + frame(document)
}

/// Wraps an output and its attestation document in two frames.
pub fn encode_answer(output: &[u8], document: &[u8]) -> (r: Vec<u8>)
    requires
        output@.len() < 0x1_0000_0000,
        document@.len() < 0x1_0000_0000,
        output@.len() + document@.len() + 8 <= isize::MAX,
    ensures
        r@ == answer(output@, document@),
{
    let mut out: Vec<u8> = encode_frame(output);
    let mut second: Vec<u8> = encode_frame(document);
    out.append(&mut second);
    out
}

/// `buf` begins with the two frames of an answer.
pub open spec fn holds_answer(buf: Seq<u8>) -> bool {
    holds_frame(buf) && holds_frame(rest_of(buf))
}

/// Reads the output and the attestation document out of two frames. `None` if they
/// are not all there.
pub fn decode_answer(buf: &[u8]) -> (r: Option<(Vec<u8>, Vec<u8>)>)
    ensures
        match r {
            Some((output, document)) => {
                &&& holds_answer(buf@)
                &&& output@ == payload_of(buf@)
                &&& document@ == payload_of(rest_of(buf@))
            },
            None => !holds_answer(buf@),
        },
{
    match decode_frame(buf) {
        None => None,
        Some((output, taken)) => {
            let rest: &[u8] = slice_subrange(buf, taken, buf.len());
            match decode_frame(rest) {
                None => None,
                Some((document, _)) => Some((output, document)),
            }
        },
    }
}

/// A frame reads back as its payload, whatever follows it, and what follows is left.
pub proof fn law_frame_reads_back(payload: Seq<u8>, rest: Seq<u8>)
    requires
        payload.len() < 0x1_0000_0000,
    ensures
        holds_frame(frame(payload) + rest),
        payload_of(frame(payload) + rest) == payload,
        rest_of(frame(payload) + rest) == rest,
{
    lemma_be_limits();
    law_be_value_of_bytes(payload.len(), 4);
    let buf = frame(payload) + rest;
    assert(buf.subrange(0, 4) =~= be_bytes(payload.len(), 4));
    assert(payload_of(buf) =~= payload);
    assert(rest_of(buf) =~= rest);
}

/// No part of a frame that is short of the whole reads as a frame.
pub proof fn law_cut_frame_is_incomplete(payload: Seq<u8>, n: nat)
    requires
        payload.len() < 0x1_0000_0000,
        n < frame(payload).len(),
    ensures
        !holds_frame(frame(payload).subrange(0, n as int)),
{
    lemma_be_limits();
    law_be_value_of_bytes(payload.len(), 4);
    let buf = frame(payload).subrange(0, n as int);
    if n >= 4 {
        assert(buf.subrange(0, 4) =~= be_bytes(payload.len(), 4));
    }
}

/// An answer reads back as its output and its document.
pub proof fn law_answer_reads_back(output: Seq<u8>, document: Seq<u8>)
    requires
        output.len() < 0x1_0000_0000,
        document.len() < 0x1_0000_0000,
    ensures
        holds_answer(answer(output, document)),
        payload_of(answer(output, document)) == output,
        payload_of(rest_of(answer(output, document))) == document,
{
    law_frame_reads_back(output, frame(document));
    law_frame_reads_back(document, Seq::empty());
    assert(frame(document) + Seq::<u8>::empty() =~= frame(document));
}

/// A frame is four bytes that spell how long its payload is, then the payload.
pub proof fn law_frame_layout(payload: Seq<u8>)
    requires
        payload.len() < 0x1_0000_0000,
    ensures
        frame(payload).len() == 4 + payload.len(),
        be_value(frame(payload).subrange(0, 4)) == payload.len(),
        frame(payload).subrange(4, frame(payload).len() as int) == payload,
{
    lemma_be_limits();
    law_be_value_of_bytes(payload.len(), 4);
    let f = frame(payload);
    assert(f.subrange(0, 4) =~= be_bytes(payload.len(), 4));
    assert(f.subrange(4, f.len() as int) =~= payload);
}

/// Bytes begin with a whole frame exactly if they are a frame with something behind it.
pub proof fn law_frames_are_found(buf: Seq<u8>)
    ensures
        holds_frame(buf) ==> payload_of(buf).len() < 0x1_0000_0000 && buf == frame(payload_of(buf))
            + rest_of(buf),
        !holds_frame(buf) ==> forall|payload: Seq<u8>, rest: Seq<u8>|
            payload.len() < 0x1_0000_0000 ==> buf != #[trigger] (frame(payload) + rest),
{
    lemma_be_limits();
    if holds_frame(buf) {
        lemma_be_value_bound(buf.subrange(0, 4));
        law_be_bytes_of_value(buf.subrange(0, 4));
        assert(frame(payload_of(buf)) + rest_of(buf) =~= buf);
    } else {
        assert forall|payload: Seq<u8>, rest: Seq<u8>|
            payload.len() < 0x1_0000_0000 implies buf != #[trigger] (frame(payload) + rest) by {
            law_frame_reads_back(payload, rest);
        }
    }
}

/// An answer is the frame of the output, then the frame of the document, and nothing else.
pub proof fn law_answer_layout(output: Seq<u8>, document: Seq<u8>)
    requires
        output.len() < 0x1_0000_0000,
        document.len() < 0x1_0000_0000,
    ensures
        ({
            let a = answer(output, document);
            let n = 4 + output.len() as int;
            &&& a.len() == n + 4 + document.len()
            &&& be_value(a.subrange(0, 4)) == output.len()
            &&& a.subrange(4, n) == output
            &&& be_value(a.subrange(n, n + 4)) == document.len()
            &&& a.subrange(n + 4, a.len() as int) == document
        }),
{
    law_frame_layout(output);
    law_frame_layout(document);
    let a = answer(output, document);
    let n = 4 + output.len() as int;
    assert(a.subrange(0, 4) =~= frame(output).subrange(0, 4));
    assert(a.subrange(4, n) =~= frame(output).subrange(4, n));
    assert(a.subrange(n, n + 4) =~= frame(document).subrange(0, 4));
    assert(a.subrange(n + 4, a.len() as int) =~= frame(document).subrange(
        4,
        frame(document).len() as int,
    ));
}

} // verus!
