//! What ties an attestation document to one computation.

use crate::attestation::{
    attestation_request, generate_attestation_doc, AttestationRequest, NsmSession, NsmView,
    RequestView,
};
use crate::crypto::{sha256, sha256_finish, sha256_start, sha256_update, SHA256_LIMIT};
use crate::wire::same_bytes;
use vstd::prelude::*;

verus! {

/// The user data that binds a document to an input and its output: the digest of the
/// two, one after the other.
pub open spec fn bound_user_data(input: Seq<u8>, output: Seq<u8>) -> Seq<u8> {
    sha256(input + output)
}

/// The user data for a document about `output`, computed from `input`.
pub fn user_data_for(input: &[u8], output: &[u8]) -> (r: Vec<u8>)
    requires
        input@.len() + output@.len() < SHA256_LIMIT,
    ensures
        r@ == bound_user_data(input@, output@),
        r@ == sha256(input@ + output@),
        r@.len() == 32,
{
    let mut hasher = sha256_start();
    sha256_update(&mut hasher, input);
    sha256_update(&mut hasher, output);
    assert(Seq::<u8>::empty() + input@ + output@ =~= input@ + output@);
    sha256_finish(hasher)
}

/// Whether a document with this user data is about this input and this output.
pub fn user_data_matches(user_data: &[u8], input: &[u8], output: &[u8]) -> (r: bool)
    requires
        input@.len() + output@.len() < SHA256_LIMIT,
    ensures
        r == (user_data@ == bound_user_data(input@, output@)),
        r == (user_data@ == sha256(input@ + output@)),
{
    let digest = user_data_for(input, output);
    same_bytes(digest.as_slice(), user_data)
}

/// The request for a document that is bound to an input and its output, and to
/// nothing else.
pub open spec fn bound_request(input: Seq<u8>, output: Seq<u8>) -> RequestView {
    RequestView {
        user_data: Some(bound_user_data(input, output)),
        nonce: None,
        public_key: None,
    }
}

/// The request for a document that is bound to an input and its output, and to
/// nothing else.
pub fn binding_request(input: &[u8], output: &[u8]) -> (r: AttestationRequest)
    requires
        input@.len() + output@.len() < SHA256_LIMIT,
    ensures
        r@ == bound_request(input@, output@),
        r.user_data matches Some(d) && d@ == sha256(input@ + output@),
        r.nonce is None && r.public_key is None,
{
    let digest = user_data_for(input, output);
    let nothing: Vec<u8> = Vec::new();
    attestation_request(digest.as_slice(), nothing.as_slice(), nothing.as_slice())
}

/// Begins to obtain a document that is bound to an input and its output. `vsock` tells
/// whether this is an enclave, which has a security module to ask.
pub fn attest_computation(vsock: bool, input: &[u8], output: &[u8]) -> (r: Result<
    NsmSession,
    String,
>)
    requires
        input@.len() + output@.len() < SHA256_LIMIT,
    ensures
        match r {
            Ok(session) => {
                &&& vsock && session@ == NsmView::Init(bound_request(input@, output@))
                &&& session matches NsmSession::Init(q)
                &&& q.user_data matches Some(d)
                &&& d@ == sha256(input@ + output@)
                &&& q.nonce is None && q.public_key is None
            },
            Err(e) => !vsock && e@ == "attestation is not supported without the vsock feature"@,
        },
{
    let digest = user_data_for(input, output);
    let nothing: Vec<u8> = Vec::new();
    generate_attestation_doc(vsock, digest.as_slice(), nothing.as_slice(), nothing.as_slice())
}

/// A document that matches two different outputs of one input exhibits two different
/// messages with one SHA-256 digest.
pub proof fn law_tampering_needs_a_collision(
    user_data: Seq<u8>,
    input: Seq<u8>,
    output: Seq<u8>,
    tampered: Seq<u8>,
)
    requires
        user_data == bound_user_data(input, output),
        user_data == bound_user_data(input, tampered),
        output != tampered,
    ensures
        input + output != input + tampered,
        sha256(input + output) == sha256(input + tampered),
{
    let a = input + output;
    let b = input + tampered;
    if a == b {
        assert(a.subrange(input.len() as int, a.len() as int) =~= output);
        assert(b.subrange(input.len() as int, b.len() as int) =~= tampered);
    }
}

/// A document is bound by the digest of the input with the output behind it, and carries
/// nothing else; what is bound depends on the two only through that digest.
pub proof fn law_bound_request(input: Seq<u8>, output: Seq<u8>)
    ensures
        bound_user_data(input, output) == sha256(input + output),
        bound_request(input, output).user_data == Some(sha256(input + output)),
        bound_request(input, output).nonce is None,
        bound_request(input, output).public_key is None,
        bound_user_data(Seq::empty(), input + output) == bound_user_data(input, output),
{
    assert(Seq::<u8>::empty() + (input + output) =~= input + output);
}

} // verus!
