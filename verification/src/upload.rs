//! Hashing an uploaded body while it streams in.

use crate::crypto::{
    absorbed, hex_bytes, hex_digit, hex_encode, hex_text, json_object, json_object_text, json_plain, sha256,
    sha256_finish, sha256_start, sha256_update, SHA256_LIMIT,
};
use crate::keys::law_hex_reads_back;
use crate::text::{decimal, law_decimal_reads_back, number, IntError};
use vstd::prelude::*;

verus! {

broadcast use vstd::string::group_string_axioms;

/// An upload under way: the hash of what has arrived, and how much that is.
pub struct Upload {
    pub hasher: sha2::Sha256,
    pub size: u64,
}

impl View for Upload {
    type V = Seq<u8>;

    /// What has arrived.
    open spec fn view(&self) -> Seq<u8> {
        absorbed(self.hasher)
    }
}

/// What the stream brought: more of the body, or `None` for an error.
pub open spec fn chunk_view(chunk: Result<&[u8], &str>) -> Option<Seq<u8>> {
    match chunk {
        Ok(data) => Some(data@),
        Err(_) => None,
    }
}

/// What has arrived after the stream brought something.
pub open spec fn after_chunk(before: Seq<u8>, chunk: Option<Seq<u8>>) -> Seq<u8> {
    match chunk {
        Some(data) => before + data,
        None => before,
    }
}

/// The answer to an upload of `body`: its digest in hexadecimal, and its size.
pub open spec fn upload_answer(body: Seq<u8>) -> Seq<char> {
    json_object("hash"@, hex_text(sha256(body)), "size"@, body.len())
}

impl Upload {
    /// The size is that of what has arrived.
    pub open spec fn wf(self) -> bool {
        self@.len() == self.size && self.size < SHA256_LIMIT
    }

    /// An upload of which nothing has arrived.
    pub fn new() -> (r: Self)
        ensures
            r@ == Seq::<u8>::empty(),
            r.wf(),
    {
        Upload { hasher: sha256_start(), size: 0 }
    }

    /// Takes in what the stream brought next. Returns whether to read on: an error ends
    /// the upload with what has arrived.
    pub fn on_chunk(&mut self, chunk: Result<&[u8], &str>) -> (r: bool)
        requires
            old(self).wf(),
            chunk matches Ok(data) ==> old(self)@.len() + data@.len() < SHA256_LIMIT,
        ensures
            final(self).wf(),
            final(self)@ == after_chunk(old(self)@, chunk_view(chunk)),
            r == (chunk is Ok),
            match chunk {
                Ok(data) => r && final(self)@ == old(self)@ + data@,
                Err(_) => !r && final(self)@ == old(self)@,
            },
    {
        match chunk {
            Ok(data) => {
                self.size = self.size + data.len() as u64;
                sha256_update(&mut self.hasher, data);
                true
            },
            Err(_) => false,
        }
    }

    /// The digest of what has arrived, in hexadecimal, and its size.
    pub fn finish(self) -> (r: (String, u64))
        requires
            self.wf(),
        ensures
            r.0@ == hex_text(sha256(self@)),
            hex_bytes(r.0@) == Some(sha256(self@)),
            r.0@.len() == 64,
            json_plain(r.0@),
            r.1 == self@.len(),
    {
        proof {
            lemma_hex_is_plain(sha256(self@));
            law_hex_reads_back(sha256(self@));
        }
        let digest = sha256_finish(self.hasher);
        (hex_encode(digest.as_slice()), self.size)
    }

    /// The answer to the upload.
    pub fn answer(self) -> (r: String)
        requires
            self.wf(),
        ensures
            r@ == upload_answer(self@),
            answers(r@, self@),
    {
        let ghost body = self@;
        let (hash, size): (String, u64) = self.finish();
        proof {
            assert(hex_text(sha256(body)).len() == 2 * sha256(body).len());
            law_answer_reads_back(body);
        }
        upload_json(hash.as_str(), size)
    }
}

/// The answer to an upload, from the digest's text and the size.
pub fn upload_json(hash: &str, size: u64) -> (r: String)
    requires
        json_plain(hash@),
    ensures
        r@ == json_object("hash"@, hash@, "size"@, size as nat),
        r@ == "{\"hash\":\""@ + hash@ + "\",\"size\":"@ + decimal(size as nat) + "}"@,
{
    proof {
        reveal_strlit("hash");
        reveal_strlit("size");
        lemma_answer_text(hash@, size as nat);
    }
    json_object_text("hash", hash, "size", size)
}

/// Hexadecimal digits need no escapes in JSON.
proof fn lemma_hex_is_plain(data: Seq<u8>)
    ensures
        json_plain(hex_text(data)),
{
    let s = hex_text(data);
    assert forall|i: int| 0 <= i < s.len() implies 0x20 <= #[trigger] s[i] as int && s[i] as int
        <= 0x7e && s[i] != '"' && s[i] != '\\' by {
        let d = if i % 2 == 0 {
            (data[i / 2] / 16) as nat
        } else {
            (data[i / 2] % 16) as nat
        };
        assert(s[i] == hex_digit(d));
    }
}

/// What has arrived after some events of the stream; `None` is an error, which ends
/// the upload.
pub open spec fn arrived(before: Seq<u8>, events: Seq<Option<Seq<u8>>>) -> Seq<u8>
    decreases events.len(),
{
    if events.len() == 0 || events[0] is None {
        before
    } else {
        arrived(after_chunk(before, events[0]), events.subrange(1, events.len() as int))
    }
}

/// The body that chunks make up.
pub open spec fn joined(chunks: Seq<Seq<u8>>) -> Seq<u8>
    decreases chunks.len(),
{
    if chunks.len() == 0 {
        Seq::empty()
    } else {
        chunks[0] + joined(chunks.subrange(1, chunks.len() as int))
    }
}

/// Chunks, each of which arrives.
pub open spec fn arriving(chunks: Seq<Seq<u8>>) -> Seq<Option<Seq<u8>>> {
    chunks.map_values(|c: Seq<u8>| Some(c))
}

proof fn lemma_arrived_is_joined(
    before: Seq<u8>,
    chunks: Seq<Seq<u8>>,
    rest: Seq<Option<Seq<u8>>>,
)
    requires
        rest.len() == 0 || rest[0] is None,
    ensures
        arrived(before, arriving(chunks) + rest) == before + joined(chunks),
    decreases chunks.len(),
{
    let events = arriving(chunks) + rest;
    if chunks.len() > 0 {
        let tail = chunks.subrange(1, chunks.len() as int);
        assert(events[0] == Some(chunks[0]));
        assert(events.subrange(1, events.len() as int) =~= arriving(tail) + rest);
        lemma_arrived_is_joined(before + chunks[0], tail, rest);
        assert(before + chunks[0] + joined(tail) =~= before + (chunks[0] + joined(tail)));
    } else {
        assert(events =~= rest);
        assert(before + joined(chunks) =~= before);
    }
}

/// How a body is cut into chunks does not matter to the answer.
pub proof fn law_chunks_do_not_matter(a: Seq<Seq<u8>>, b: Seq<Seq<u8>>)
    requires
        joined(a) == joined(b),
    ensures
        upload_answer(arrived(Seq::empty(), arriving(a))) == upload_answer(joined(a)),
        upload_answer(arrived(Seq::empty(), arriving(a))) == upload_answer(
            arrived(Seq::empty(), arriving(b)),
        ),
{
    let none = Seq::<Option<Seq<u8>>>::empty();
    let nothing = Seq::<u8>::empty();
    lemma_arrived_is_joined(nothing, a, none);
    lemma_arrived_is_joined(nothing, b, none);
    assert(arriving(a) + none =~= arriving(a));
    assert(arriving(b) + none =~= arriving(b));
    assert(nothing + joined(a) =~= joined(a));
}

/// An error cuts the upload short: the answer is that to what had arrived before it.
pub proof fn law_error_ends_the_upload(a: Seq<Seq<u8>>, rest: Seq<Option<Seq<u8>>>)
    requires
        rest.len() > 0,
        rest[0] is None,
    ensures
        upload_answer(arrived(Seq::empty(), arriving(a) + rest)) == upload_answer(joined(a)),
{
    let nothing = Seq::<u8>::empty();
    lemma_arrived_is_joined(nothing, a, rest);
    assert(nothing + joined(a) =~= joined(a));
}

/// The text is a JSON object with a hash and a size: 64 hexadecimal digits that read as
/// the digest of the body, and a number that reads as how many bytes it has.
pub open spec fn answers(text: Seq<char>, body: Seq<u8>) -> bool {
    let n = text.len() as int;
    &&& n > 83
    &&& text.subrange(0, 9) == "{\"hash\":\""@
    &&& hex_bytes(text.subrange(9, 73)) == Some(sha256(body))
    &&& text.subrange(73, 82) == "\",\"size\":"@
    &&& number(text.subrange(82, n - 1), body.len()) == Ok::<nat, IntError>(body.len())
    &&& text[n - 1] == '}'
}

proof fn lemma_answer_text(hash: Seq<char>, size: nat)
    ensures
        json_object("hash"@, hash, "size"@, size) == "{\"hash\":\""@ + hash + "\",\"size\":"@
            + decimal(size) + "}"@,
{
    reveal_strlit("hash");
    reveal_strlit("size");
    reveal_strlit("{\"hash\":\"");
    reveal_strlit("\",\"size\":");
    reveal_strlit("}");
    assert(seq!['{', '"'] + "hash"@ + seq!['"', ':', '"'] =~= "{\"hash\":\""@);
    assert(seq!['"', ',', '"'] + "size"@ + seq!['"', ':'] =~= "\",\"size\":"@);
    assert(json_object("hash"@, hash, "size"@, size) =~= "{\"hash\":\""@ + hash
        + "\",\"size\":"@ + decimal(size) + "}"@);
}

/// The answer to a body reads back: its hash as the digest of exactly that body, its size
/// as how many bytes the body has, however many these are.
pub proof fn law_answer_reads_back(body: Seq<u8>)
    requires
        sha256(body).len() == 32,
    ensures
        answers(upload_answer(body), body),
{
    let hash = hex_text(sha256(body));
    let digits = decimal(body.len());
    lemma_answer_text(hash, body.len());
    law_hex_reads_back(sha256(body));
    law_decimal_reads_back(body.len(), body.len());
    crate::text::lemma_decimal_digits(body.len());
    reveal_strlit("{\"hash\":\"");
    reveal_strlit("\",\"size\":");
    reveal_strlit("}");
    let text = upload_answer(body);
    let n = text.len() as int;
    assert(text.subrange(0, 9) =~= "{\"hash\":\""@);
    assert(text.subrange(9, 73) =~= hash);
    assert(text.subrange(73, 82) =~= "\",\"size\":"@);
    assert(text.subrange(82, n - 1) =~= digits);
}

/// Bodies of different lengths get answers that differ in what follows the hash.
pub proof fn law_answers_tell_lengths_apart(a: Seq<u8>, b: Seq<u8>)
    requires
        sha256(a).len() == 32,
        sha256(b).len() == 32,
        a.len() != b.len(),
    ensures
        upload_answer(a).subrange(82, upload_answer(a).len() - 1) != upload_answer(b).subrange(
            82,
            upload_answer(b).len() - 1,
        ),
{
    law_answer_reads_back(a);
    law_answer_reads_back(b);
    let more = if a.len() < b.len() {
        b.len()
    } else {
        a.len()
    };
    law_decimal_reads_back(a.len(), more);
    law_decimal_reads_back(b.len(), more);
    lemma_size_text(a);
    lemma_size_text(b);
}

proof fn lemma_size_text(body: Seq<u8>)
    requires
        sha256(body).len() == 32,
    ensures
        upload_answer(body).subrange(82, upload_answer(body).len() - 1) == decimal(body.len()),
{
    let hash = hex_text(sha256(body));
    lemma_answer_text(hash, body.len());
    law_hex_reads_back(sha256(body));
    reveal_strlit("{\"hash\":\"");
    reveal_strlit("\",\"size\":");
    reveal_strlit("}");
    let text = upload_answer(body);
    assert(text.subrange(82, text.len() - 1) =~= decimal(body.len()));
}

/// What arrives is put behind what had arrived, and an error adds nothing: after chunks
/// that arrive one by one, all of them are there, in order.
pub proof fn law_everything_arrives(before: Seq<u8>, data: Seq<u8>, chunks: Seq<Seq<u8>>)
    ensures
        after_chunk(before, Some(data)) == before + data,
        after_chunk(before, None) == before,
        joined(chunks.push(data)) == joined(chunks) + data,
        joined(Seq::empty()) == Seq::<u8>::empty(),
    decreases chunks.len(),
{
    let all = chunks.push(data);
    if chunks.len() > 0 {
        let tail = chunks.subrange(1, chunks.len() as int);
        law_everything_arrives(before, data, tail);
        assert(all.subrange(1, all.len() as int) =~= tail.push(data));
        assert(chunks[0] + (joined(tail) + data) =~= chunks[0] + joined(tail) + data);
    } else {
        assert(all.subrange(1, all.len() as int) =~= Seq::<Seq<u8>>::empty());
        assert(joined(Seq::<Seq<u8>>::empty()) =~= Seq::<u8>::empty());
        assert(chunks =~= Seq::<Seq<u8>>::empty());
        assert(all[0] == data);
        assert(joined(all) =~= joined(chunks) + data);
    }
}

} // verus!
