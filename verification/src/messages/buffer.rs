//! The byte buffer between a socket and the codec: `bytes::BytesMut`.

use bytes::{BufMut, BytesMut};
use std::io::Write;
use vstd::prelude::*;

verus! {

/// Declares `bytes::BytesMut`.
#[verifier::external_type_specification]
#[verifier::external_body]
pub struct ExBytesMut(BytesMut);

/// The bytes that a buffer holds.
pub uninterp spec fn bytes_of(buffer: BytesMut) -> Seq<u8>;

/// `BytesMut::len` is the number of bytes in the buffer; an allocation, and so a buffer, is never
/// longer than `isize::MAX`.
pub assume_specification[ BytesMut::len ](buffer: &BytesMut) -> (length: usize)
    ensures
        length == bytes_of(*buffer).len(),
        length <= isize::MAX,
;

/// `BytesMut::deref` gives the buffer's bytes as a slice.
pub assume_specification[ <BytesMut as std::ops::Deref>::deref ](buffer: &BytesMut) -> (slice:
    &[u8])
    ensures
        slice@ == bytes_of(*buffer),
;

/// `BytesMut::split_to` takes the first `at` bytes out of the buffer and returns them. It panics
/// if the buffer is shorter.
pub assume_specification[ BytesMut::split_to ](buffer: &mut BytesMut, at: usize) -> (front:
    BytesMut)
    requires
        at <= bytes_of(*old(buffer)).len(),
    ensures
        bytes_of(front) == bytes_of(*old(buffer)).take(at as int),
        bytes_of(*final(buffer)) == bytes_of(*old(buffer)).skip(at as int),
;

/// `BytesMut::truncate` keeps the first `len` bytes; it has no effect on a buffer that is no
/// longer than that.
pub assume_specification[ BytesMut::truncate ](buffer: &mut BytesMut, len: usize)
    ensures
        bytes_of(*final(buffer)) == if len <= bytes_of(*old(buffer)).len() {
            bytes_of(*old(buffer)).take(len as int)
        } else {
            bytes_of(*old(buffer))
        },
;

/// How many bytes still fit into a buffer that holds `held` bytes: a buffer takes at most
/// `isize::MAX`.
pub open spec fn room(held: nat) -> int {
    if held <= isize::MAX {
        isize::MAX - held
    } else {
        0
    }
}

/// `contents` after as many of `bytes` as fit were appended.
pub open spec fn appended(contents: Seq<u8>, bytes: Seq<u8>) -> Seq<u8> {
    if bytes.len() <= room(contents.len()) {
        contents + bytes
    } else {
        contents + bytes.take(room(contents.len()))
    }
}

/// Calls `write_all` on `BytesMut::writer`. The writer takes as many bytes as fit and reports
/// that none fit by taking none, at which `write_all` fails: it succeeds exactly if all fit. That
/// the memory for them cannot be had is not considered.
#[verifier::external_body]
pub(crate) fn write_all(buffer: &mut BytesMut, bytes: &[u8]) -> (ok: bool)
    ensures
        ok == (bytes@.len() <= room(bytes_of(*old(buffer)).len())),
        bytes_of(*final(buffer)) == appended(bytes_of(*old(buffer)), bytes@),
{
    buffer.writer().write_all(bytes).is_ok()
}

} // verus!
