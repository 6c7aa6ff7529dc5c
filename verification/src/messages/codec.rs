//! The framing of messages on a connection: each message is one line of JSON.

use bytes::BytesMut;
use std::collections::HashMap;
use std::ops::Deref;
use vstd::prelude::*;
use vstd::string::*;
use vstd::utf8::*;

use crate::messages::buffer::{appended, bytes_of, room, write_all};

verus! {

/// A worker's heart beat, by which it also makes itself known.
#[derive(Debug, Clone, PartialEq)]
pub struct Register {
    pub name: String,
}

/// A task as a worker gets it.
#[derive(Debug, Clone, PartialEq)]
pub struct PowRequest {
    pub id: String,
    pub challenge: [u8; 32],
    pub start_nonce: u32,
    pub end_nonce: u32,
    pub difficulty: u64,
    pub pow_difficulty: [u8; 32],
    pub node_id: [u8; 32],
    pub pow_flags: String,
}

/// What a `PowRequest` says.
#[verifier::ext_equal]
pub struct PowRequestView {
    pub id: Seq<char>,
    pub challenge: Seq<u8>,
    pub start_nonce: u32,
    pub end_nonce: u32,
    pub difficulty: u64,
    pub pow_difficulty: Seq<u8>,
    pub node_id: Seq<u8>,
    pub pow_flags: Seq<char>,
}

impl View for PowRequest {
    type V = PowRequestView;

    open spec fn view(&self) -> PowRequestView {
        PowRequestView {
            id: self.id@,
            challenge: self.challenge@,
            start_nonce: self.start_nonce,
            end_nonce: self.end_nonce,
            difficulty: self.difficulty,
            pow_difficulty: self.pow_difficulty@,
            node_id: self.node_id@,
            pow_flags: self.pow_flags@,
        }
    }
}

/// What a `PowRequest` says are all of its fields.
pub proof fn request_says_all_its_fields(request: PowRequest)
    ensures
        request@.id == request.id@,
        request@.challenge == request.challenge@,
        request@.start_nonce == request.start_nonce,
        request@.end_nonce == request.end_nonce,
        request@.difficulty == request.difficulty,
        request@.pow_difficulty == request.pow_difficulty@,
        request@.node_id == request.node_id@,
        request@.pow_flags == request.pow_flags@,
{
}

/// The proofs of work of a task, by nonce group.
#[derive(Debug, Clone, PartialEq)]
pub struct PowResponse {
    pub id: String,
    pub ciphers_pows: HashMap<u32, u64>,
}

/// What goes over the connection between the proxy and a worker.
#[derive(Debug, Clone, PartialEq)]
pub enum PowMessage {
    Register(Register),
    Request(PowRequest),
    Response(PowResponse),
}

/// The byte that ends a frame.
pub const NEWLINE: u8 = 10;

/// The index of the first newline in `bytes` at or after `from`.
pub open spec fn line_end(bytes: Seq<u8>, from: nat) -> Option<nat>
    decreases bytes.len() - from,
{
    if from >= bytes.len() {
        None
    } else if bytes[from as int] == NEWLINE {
        Some(from)
    } else {
        line_end(bytes, from + 1)
    }
}

/// No byte of `bytes` is a newline.
pub open spec fn newline_free(bytes: Seq<u8>) -> bool {
    forall|i: int| 0 <= i < bytes.len() ==> bytes[i] != NEWLINE
}

/// Frames messages on a stream of bytes. It remembers how far the bytes of an unfinished frame
/// have been searched.
pub struct PoWMessageCodec {
    cursor: usize,
}

/// Why a message could not be framed.
#[derive(Debug, Clone, Copy, PartialEq, Eq, Structural)]
pub enum EncodeError {
    /// The buffer cannot hold the frame.
    BufferFull,
}

impl View for PoWMessageCodec {
    type V = nat;

    /// How far the buffer has been searched for a newline.
    closed spec fn view(&self) -> nat {
        self.cursor as nat
    }
}

impl Default for PoWMessageCodec {
    fn default() -> (codec: Self)
        ensures
            codec@ == 0,
    {
        PoWMessageCodec { cursor: 0 }
    }
}

/// The buffer after the frame of `json` was written to it: the text, and a newline if the text
/// fitted.
pub open spec fn framed(contents: Seq<u8>, json: Seq<u8>) -> Seq<u8> {
    if json.len() <= room(contents.len()) {
        appended(contents + json, seq![NEWLINE])
    } else {
        appended(contents, json)
    }
}

/// What decoding gives that starts at `cursor` of `bytes`: the frame, how far the bytes that are
/// left have been searched, and these bytes.
pub open spec fn decoded(cursor: nat, bytes: Seq<u8>) -> (Option<Seq<u8>>, nat, Seq<u8>) {
    match line_end(bytes, cursor) {
        Some(end) => (Some(bytes.take(end as int)), 0, bytes.skip(end as int + 1)),
        None => (
            None,
            if cursor < bytes.len() {
                bytes.len()
            } else {
                cursor
            },
            bytes,
        ),
    }
}

/// The bytes of a frame, if there is one.
pub open spec fn frame_bytes(frame: Option<BytesMut>) -> Option<Seq<u8>> {
    match frame {
        Some(data) => Some(bytes_of(data)),
        None => None,
    }
}

impl PoWMessageCodec {
    /// Appends the JSON text of a message and a newline to `dst`.
    pub fn encode(&mut self, json: &str, dst: &mut BytesMut) -> (result: Result<(), EncodeError>)
        ensures
            final(self)@ == old(self)@,
            bytes_of(*final(dst)) == framed(bytes_of(*old(dst)), json.spec_bytes()),
            result is Ok <==> json.spec_bytes().len() + 1 <= room(bytes_of(*old(dst)).len()),
            result is Ok ==> bytes_of(*final(dst)) == bytes_of(*old(dst)) + json.spec_bytes()
                + seq![NEWLINE],
            bytes_of(*old(dst)).len() <= isize::MAX ==> (result is Ok <==> bytes_of(
                *old(dst),
            ).len() + json.spec_bytes().len() + 1 <= isize::MAX),
            result is Ok ==> bytes_of(*final(dst)) == bytes_of(*old(dst)) + json.spec_bytes()
                + seq![10u8],
            result is Err && bytes_of(*old(dst)).len() <= isize::MAX ==> bytes_of(*final(dst)) == (
            bytes_of(*old(dst)) + json.spec_bytes() + seq![10u8]).take(isize::MAX as int),
    {
        if !write_all(dst, json.as_bytes()) {
            return Err(EncodeError::BufferFull);
        }
        let newline: [u8; 1] = [NEWLINE];
        assert(newline@ =~= seq![NEWLINE]);
        if !write_all(dst, newline.as_slice()) {
            return Err(EncodeError::BufferFull);
        }
        Ok(())
    }

    /// Takes the first frame out of `src` and returns the text of its message, without the
    /// newline; where no frame is complete, remembers that the bytes were searched.
    pub fn decode(&mut self, src: &mut BytesMut) -> (frame: Option<BytesMut>)
        ensures
            (frame_bytes(frame), final(self)@, bytes_of(*final(src))) == decoded(
                old(self)@,
                bytes_of(*old(src)),
            ),
            frame matches Some(data) ==> {
                let end = bytes_of(data).len() as int;
                &&& old(self)@ <= end < bytes_of(*old(src)).len()
                &&& bytes_of(*old(src))[end] == 10
                &&& forall|i: int| old(self)@ <= i < end ==> bytes_of(*old(src))[i] != 10
                &&& bytes_of(data) == bytes_of(*old(src)).take(end)
                &&& bytes_of(*final(src)) == bytes_of(*old(src)).skip(end + 1)
                &&& final(self)@ == 0
            },
            frame is None ==> {
                &&& forall|i: int|
                    old(self)@ <= i < bytes_of(*old(src)).len() ==> bytes_of(*old(src))[i] != 10
                &&& bytes_of(*final(src)) == bytes_of(*old(src))
                &&& final(self)@ == if old(self)@ < bytes_of(*old(src)).len() {
                    bytes_of(*old(src)).len()
                } else {
                    old(self)@
                }
            },
    {
        let mut i: usize = self.cursor;
        let ghost from = self.cursor as nat;
        let ghost contents = bytes_of(*src);
        while i < src.len()
            invariant
                from <= i,
                from < contents.len() ==> i <= contents.len(),
                from >= contents.len() ==> i == from,
                contents == bytes_of(*src),
                contents == bytes_of(*old(src)),
                from == old(self)@,
                line_end(contents, from) == line_end(contents, i as nat),
            decreases contents.len() - i,
        {
            let byte: u8 = (*src).deref()[i];
            if byte == NEWLINE {
                self.cursor = 0;
                let mut data: BytesMut = src.split_to(i + 1);
                data.truncate(i);
                assert(bytes_of(data) =~= contents.take(i as int));
                proof {
                    lemma_line_end(contents, from);
                }
                return Some(data);
            }
            i = i + 1;
        }
        proof {
            lemma_line_end(contents, from);
        }
        self.cursor = i;
        None
    }
}

/// What a codec keeps of the bytes it has searched: no newline stands before its cursor.
pub open spec fn searched(cursor: nat, bytes: Seq<u8>) -> bool {
    &&& cursor <= bytes.len()
    &&& newline_free(bytes.take(cursor as int))
}

/// The frames that can be taken out of `bytes`, in order.
pub open spec fn frames(bytes: Seq<u8>) -> Seq<Seq<u8>>
    decreases bytes.len(),
{
    match line_end(bytes, 0) {
        Some(end) => if end < bytes.len() {
            seq![bytes.take(end as int)] + frames(bytes.skip(end as int + 1))
        } else {
            seq![]
        },
        None => seq![],
    }
}

/// What is left of `bytes` once its frames have been taken out: the start of the next frame.
pub open spec fn leftover(bytes: Seq<u8>) -> Seq<u8>
    decreases bytes.len(),
{
    match line_end(bytes, 0) {
        Some(end) => if end < bytes.len() {
            leftover(bytes.skip(end as int + 1))
        } else {
            bytes
        },
        None => bytes,
    }
}

/// The bytes of a sequence of texts, each ended by a newline.
pub open spec fn lines(texts: Seq<Seq<u8>>) -> Seq<u8>
    decreases texts.len(),
{
    if texts.len() == 0 {
        seq![]
    } else {
        texts[0] + seq![NEWLINE] + lines(texts.drop_first())
    }
}

proof fn lemma_line_end(bytes: Seq<u8>, from: nat)
    ensures
        match line_end(bytes, from) {
            Some(end) => {
                &&& from <= end < bytes.len()
                &&& bytes[end as int] == NEWLINE
                &&& forall|i: int| from <= i < end ==> bytes[i] != NEWLINE
            },
            None => forall|i: int| from <= i < bytes.len() ==> bytes[i] != NEWLINE,
        },
    decreases bytes.len() - from,
{
    if from < bytes.len() && bytes[from as int] != NEWLINE {
        lemma_line_end(bytes, from + 1);
    }
}

/// A newline that no other precedes from `from` on is the one that `line_end` finds.
proof fn lemma_line_end_is(bytes: Seq<u8>, from: nat, end: nat)
    requires
        from <= end < bytes.len(),
        bytes[end as int] == NEWLINE,
        forall|i: int| from <= i < end ==> bytes[i] != NEWLINE,
    ensures
        line_end(bytes, from) == Some(end),
{
    lemma_line_end(bytes, from);
}

/// The newline that `line_end` finds is the first one, and it finds one wherever there is one.
pub proof fn line_ends_at_the_first_newline(bytes: Seq<u8>, from: nat, newline: int)
    requires
        from <= newline < bytes.len(),
        bytes[newline] == 10,
    ensures
        line_end(bytes, from) matches Some(end) && from <= end <= newline && bytes[end as int]
            == 10,
{
    lemma_line_end(bytes, from);
}

/// Where the codec keeps its promise on the bytes that it has searched, the frame that it finds
/// does not depend on how far it has searched.
pub proof fn search_may_resume(cursor: nat, bytes: Seq<u8>)
    requires
        searched(cursor, bytes),
    ensures
        line_end(bytes, cursor) == line_end(bytes, 0),
{
    lemma_line_end(bytes, cursor);
    assert forall|i: int| 0 <= i < cursor implies bytes[i] != NEWLINE by {
        assert(bytes.take(cursor as int)[i] == bytes[i]);
    }
    match line_end(bytes, cursor) {
        Some(end) => lemma_line_end_is(bytes, 0, end),
        None => lemma_line_end(bytes, 0),
    }
}

/// A fresh codec has searched nothing; a decoded frame leaves the codec fresh; a search without
/// a result covers all bytes; and bytes that arrive at the end undo none of it.
pub proof fn search_is_kept(cursor: nat, bytes: Seq<u8>, more: Seq<u8>)
    requires
        searched(cursor, bytes),
    ensures
        searched(0, bytes),
        line_end(bytes, cursor) is None ==> searched(bytes.len(), bytes),
        searched(cursor, bytes + more),
{
    search_may_resume(cursor, bytes);
    lemma_line_end(bytes, 0);
    assert((bytes + more).take(cursor as int) =~= bytes.take(cursor as int));
}

/// A frame is the text and a newline behind what the buffer holds, cut off where the buffer is
/// full.
pub proof fn frame_is_text_and_newline(contents: Seq<u8>, json: Seq<u8>)
    requires
        contents.len() <= isize::MAX,
    ensures
        contents.len() + json.len() + 1 <= isize::MAX ==> framed(contents, json) == contents + json
            + seq![10u8],
        contents.len() + json.len() + 1 > isize::MAX ==> framed(contents, json) == (contents + json
            + seq![10u8]).take(isize::MAX as int),
{
    let whole = contents + json + seq![10u8];
    if contents.len() + json.len() + 1 <= isize::MAX {
        assert(framed(contents, json) =~= whole);
    } else {
        assert(framed(contents, json) =~= whole.take(isize::MAX as int));
    }
}

/// Decoding gives a frame exactly if a newline has come, and then the bytes before the first one;
/// it loses nothing but that newline, and what it has searched stays searched.
pub proof fn decoding_loses_nothing(cursor: nat, bytes: Seq<u8>)
    requires
        searched(cursor, bytes),
    ensures
        ({
            let (frame, searched_to, rest) = decoded(cursor, bytes);
            &&& frame is None <==> newline_free(bytes)
            &&& frame is None ==> rest == bytes && searched_to == bytes.len()
            &&& frame matches Some(text) ==> {
                &&& newline_free(text)
                &&& bytes == text + seq![10u8] + rest
                &&& searched_to == 0
            }
            &&& searched(searched_to, rest)
        }),
{
    search_may_resume(cursor, bytes);
    lemma_line_end(bytes, 0);
    let (frame, searched_to, rest) = decoded(cursor, bytes);
    if let Some(text) = frame {
        assert(bytes =~= text + seq![10u8] + rest);
    } else {
        assert(bytes.take(bytes.len() as int) =~= bytes);
    }
}

/// What was encoded is what is decoded: a text without newlines that stands first in the buffer
/// and was ended by a newline comes out as the first frame, and leaves what follows it.
pub proof fn decode_gives_back_encoded(text: Seq<u8>, rest: Seq<u8>)
    requires
        newline_free(text),
    ensures
        ({
            let bytes = text + seq![NEWLINE] + rest;
            &&& line_end(bytes, 0) == Some(text.len())
            &&& bytes.take(text.len() as int) == text
            &&& bytes.skip(text.len() as int + 1) == rest
        }),
{
    let bytes = text + seq![NEWLINE] + rest;
    assert forall|i: int| 0 <= i < text.len() implies bytes[i] != NEWLINE by {
        assert(bytes[i] == text[i]);
    }
    lemma_line_end_is(bytes, 0, text.len());
    assert(bytes.take(text.len() as int) =~= text);
    assert(bytes.skip(text.len() as int + 1) =~= rest);
}

proof fn lemma_scalar_bytes(scalar: u32)
    requires
        is_scalar(scalar),
        scalar != 10,
    ensures
        newline_free(encode_scalar(scalar)),
{
    assert(scalar <= 0x7F && scalar != 10 ==> (scalar & 0x7F) as u8 != 10) by (bit_vector);
    assert(0xC0u8 | ((scalar >> 6) & 0x1F) as u8 != 10) by (bit_vector);
    assert(0xE0u8 | ((scalar >> 12) & 0x0F) as u8 != 10) by (bit_vector);
    assert(0xF0u8 | ((scalar >> 18) & 0x7) as u8 != 10) by (bit_vector);
    assert(0x80u8 | (scalar & 0x3F) as u8 != 10) by (bit_vector);
    assert(0x80u8 | ((scalar >> 6) & 0x3F) as u8 != 10) by (bit_vector);
    assert(0x80u8 | ((scalar >> 12) & 0x3F) as u8 != 10) by (bit_vector);
}

/// The bytes of a text without line feeds hold no newline, whatever characters it is made of.
pub proof fn text_bytes_are_newline_free(text: Seq<char>)
    requires
        forall|i: int| 0 <= i < text.len() ==> text[i] != '\n',
    ensures
        newline_free(encode_utf8(text)),
    decreases text.len(),
{
    if text.len() > 0 {
        let tail = text.drop_first();
        assert forall|i: int| 0 <= i < tail.len() implies tail[i] != '\n' by {
            assert(tail[i] == text[i + 1]);
        }
        text_bytes_are_newline_free(tail);
        let first: char = text[0];
        char_is_scalar(first);
        char_u32_cast(first, first as u32);
        assert(first as u32 == 10 ==> first == '\n');
        lemma_scalar_bytes(text[0] as u32);
        let head = encode_scalar(text[0] as u32);
        assert forall|i: int| 0 <= i < encode_utf8(text).len() implies encode_utf8(text)[i]
            != NEWLINE by {
            if i < head.len() {
                assert(encode_utf8(text)[i] == head[i]);
            } else {
                assert(encode_utf8(text)[i] == encode_utf8(tail)[i - head.len()]);
            }
        }
    }
}

/// All texts that were encoded come out, in the order in which they went in, and nothing is left.
pub proof fn frames_of_lines(texts: Seq<Seq<u8>>)
    requires
        forall|i: int| 0 <= i < texts.len() ==> newline_free(#[trigger] texts[i]),
    ensures
        frames(lines(texts)) == texts,
        leftover(lines(texts)) == Seq::<u8>::empty(),
    decreases texts.len(),
{
    if texts.len() == 0 {
        assert(frames(lines(texts)) =~= texts);
    } else {
        let tail = texts.drop_first();
        assert forall|i: int| 0 <= i < tail.len() implies newline_free(#[trigger] tail[i]) by {
            assert(tail[i] == texts[i + 1]);
        }
        frames_of_lines(tail);
        decode_gives_back_encoded(texts[0], lines(tail));
        assert(frames(lines(texts)) =~= seq![texts[0]] + tail);
        assert(seq![texts[0]] + tail =~= texts);
    }
}

/// Encoding one text after the others adds its line to theirs.
pub proof fn encoding_adds_a_line(texts: Seq<Seq<u8>>, text: Seq<u8>)
    ensures
        lines(texts.push(text)) == lines(texts) + text + seq![NEWLINE],
    decreases texts.len(),
{
    let longer = texts.push(text);
    if texts.len() == 0 {
        assert(longer.drop_first() =~= texts);
        assert(lines(longer) =~= lines(texts) + text + seq![NEWLINE]);
    } else {
        encoding_adds_a_line(texts.drop_first(), text);
        assert(longer.drop_first() =~= texts.drop_first().push(text));
        assert(lines(longer) =~= lines(texts) + text + seq![NEWLINE]);
    }
}

/// Decoding takes out the first frame and leaves the others, however far the bytes have been
/// searched; where it finds none there is none.
pub proof fn decode_takes_the_first_frame(cursor: nat, bytes: Seq<u8>)
    requires
        searched(cursor, bytes),
    ensures
        match line_end(bytes, cursor) {
            Some(end) => {
                &&& frames(bytes) == seq![bytes.take(end as int)] + frames(
                    bytes.skip(end as int + 1),
                )
                &&& leftover(bytes) == leftover(bytes.skip(end as int + 1))
            },
            None => {
                &&& frames(bytes) == Seq::<Seq<u8>>::empty()
                &&& leftover(bytes) == bytes
            },
        },
{
    search_may_resume(cursor, bytes);
    lemma_line_end(bytes, 0);
}

/// Texts that were encoded one after the other into an empty buffer are decoded one by one, in
/// that order: with `taken` of them decoded, the next call gives the next one and leaves the
/// others, and once all are decoded the buffer is empty and a further call gives none.
pub proof fn texts_are_decoded_one_by_one(texts: Seq<Seq<u8>>, taken: nat)
    requires
        forall|i: int| 0 <= i < texts.len() ==> newline_free(#[trigger] texts[i]),
        taken <= texts.len(),
    ensures
        decoded(0, lines(texts.skip(taken as int))) == if taken < texts.len() {
            (
                Some(texts[taken as int]),
                0nat,
                lines(texts.skip(taken as int + 1)),
            )
        } else {
            (None, 0nat, Seq::<u8>::empty())
        },
{
    let rest = texts.skip(taken as int);
    if taken < texts.len() {
        assert(rest[0] == texts[taken as int]);
        assert(rest.drop_first() =~= texts.skip(taken as int + 1));
        decode_gives_back_encoded(rest[0], lines(rest.drop_first()));
    } else {
        assert(lines(rest) =~= Seq::<u8>::empty());
    }
}

/// Messages come through the codec as they went in, wherever they are written as texts without
/// newlines, by `write`, that `read` reads back: with `taken` of them decoded, the next frame is
/// read as the next message, and once all are decoded there is no frame.
pub proof fn messages_come_through(
    messages: Seq<PowMessage>,
    write: spec_fn(PowMessage) -> Seq<u8>,
    read: spec_fn(Seq<u8>) -> Option<PowMessage>,
    taken: nat,
)
    requires
        forall|i: int|
            0 <= i < messages.len() ==> newline_free(write(#[trigger] messages[i])) && read(
                write(messages[i]),
            ) == Some(messages[i]),
        taken <= messages.len(),
    ensures
        ({
            let texts = messages.map_values(write);
            let (frame, cursor, rest) = decoded(0, lines(texts.skip(taken as int)));
            if taken < messages.len() {
                &&& frame matches Some(text)
                &&& read(text) == Some(messages[taken as int])
                &&& cursor == 0
                &&& rest == lines(texts.skip(taken as int + 1))
            } else {
                &&& frame is None
                &&& cursor == 0
                &&& rest == Seq::<u8>::empty()
            }
        }),
{
    let texts = messages.map_values(write);
    assert forall|i: int| 0 <= i < texts.len() implies newline_free(#[trigger] texts[i]) by {
        assert(texts[i] == write(messages[i]));
    }
    texts_are_decoded_one_by_one(texts, taken);
}

/// How the bytes of a stream are cut into pieces on their way does not matter: the frames of the
/// whole are those of the first piece, followed by those of what it left together with the next.
pub proof fn frames_do_not_depend_on_chunks(first: Seq<u8>, second: Seq<u8>)
    ensures
        frames(first + second) == frames(first) + frames(leftover(first) + second),
        leftover(first + second) == leftover(leftover(first) + second),
    decreases first.len(),
{
    lemma_line_end(first, 0);
    match line_end(first, 0) {
        Some(end) => {
            let whole = first + second;
            lemma_line_end_is(whole, 0, end);
            let rest = first.skip(end as int + 1);
            frames_do_not_depend_on_chunks(rest, second);
            assert(whole.take(end as int) =~= first.take(end as int));
            assert(whole.skip(end as int + 1) =~= rest + second);
            assert(frames(whole) =~= frames(first) + frames(leftover(first) + second));
        },
        None => {
            assert(frames(first + second) =~= frames(first) + frames(leftover(first) + second));
        },
    }
}

/// What is left once all frames have been taken out holds no newline.
pub proof fn leftover_is_newline_free(bytes: Seq<u8>)
    ensures
        newline_free(leftover(bytes)),
    decreases bytes.len(),
{
    lemma_line_end(bytes, 0);
    match line_end(bytes, 0) {
        Some(end) => leftover_is_newline_free(bytes.skip(end as int + 1)),
        None => {},
    }
}

} // verus!
