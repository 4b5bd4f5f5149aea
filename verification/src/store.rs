//! Store requests and replies as the xeniface driver frames them: the text
//! of a read or directory reply, and the path handed to a watch request.
use crate::payload::{
    lemma_single_payload_string, nul_fields, nul_free, parse_nul_list, parse_nul_string, payload_of,
    strip_nul, terminated,
};
use vstd::prelude::*;
use vstd::string::*;
use vstd::utf8::*;

verus! {

/// The text that std's `String::from_utf8_lossy` makes of `bytes`: their
/// UTF-8 decoding, each invalid sequence replaced by U+FFFD.
pub uninterp spec fn lossy_text(bytes: Seq<u8>) -> Seq<char>;

/// std's `String::from_utf8_lossy`, made an owned `String`. Its result is
/// named `lossy_text`; std documents that valid UTF-8 is decoded unchanged,
/// which the second clause states.
#[verifier::external_body]
fn from_utf8_lossy(bytes: &[u8]) -> (text: String)
    ensures
        text@ == lossy_text(bytes@),
        valid_utf8(bytes@) ==> text@ == decode_utf8(bytes@),
{
    String::from_utf8_lossy(bytes).into_owned()
}

/// The part of a reply buffer that the driver filled: its first `len`
/// bytes, or the whole buffer when `len` is past its end.
pub open spec fn reply_bytes(buffer: Seq<u8>, len: u32) -> Seq<u8> {
    if len <= buffer.len() {
        buffer.take(len as int)
    } else {
        buffer
    }
}

/// The filled part of a reply buffer is exactly its first `len` bytes when
/// `len` is within the buffer: `len` bytes long, each equal to the buffer's
/// byte at the same position; past the end it is the whole buffer.
pub proof fn lemma_reply_bytes_prefix(buffer: Seq<u8>, len: u32)
    ensures
        len <= buffer.len() ==> reply_bytes(buffer, len).len() == len,
        len <= buffer.len() ==> forall|i: int|
            0 <= i < len ==> #[trigger] reply_bytes(buffer, len)[i] == buffer[i],
        len > buffer.len() ==> reply_bytes(buffer, len) == buffer,
{
}


/// The bytes of the value of a read reply: none for an empty reply, else the
/// reply without its terminating NUL.
pub open spec fn read_value_bytes(reply: Seq<u8>) -> Seq<u8> {
    if reply.len() == 0 {
        Seq::empty()
    } else {
        strip_nul(reply)
    }
}

/// The entries of a directory reply held in the first `len` bytes of
/// `buffer`: each NUL-separated field, decoded as UTF-8 with invalid
/// sequences replaced.
pub fn store_directory_reply(buffer: Vec<u8>, len: u32) -> (entries: Vec<String>)
    ensures
        entries@.map_values(|e: String| e@) == nul_fields(reply_bytes(buffer@, len)).map_values(
            |f: Seq<u8>| lossy_text(f),
        ),
        len <= buffer@.len() ==> entries@.map_values(|e: String| e@) == nul_fields(
            buffer@.take(len as int),
        ).map_values(|f: Seq<u8>| lossy_text(f)),
        len > buffer@.len() ==> entries@.map_values(|e: String| e@) == nul_fields(
            buffer@,
        ).map_values(|f: Seq<u8>| lossy_text(f)),
        forall|i: int|
            0 <= i < entries@.len() && valid_utf8(nul_fields(reply_bytes(buffer@, len))[i])
                ==> #[trigger] entries@[i]@ == decode_utf8(nul_fields(reply_bytes(buffer@, len))[i]),
{
    let mut reply = buffer;
    reply.truncate(len as usize);
    let fields = parse_nul_list(reply.as_slice());
    let ghost wanted = nul_fields(reply_bytes(buffer@, len));
    proof {
        assert(reply@ =~= reply_bytes(buffer@, len));
        assert(fields@.map_values(|f: &[u8]| f@) == wanted);
    }
    let mut entries: Vec<String> = Vec::new();
    let mut i: usize = 0;
    while i < fields.len()
        invariant
            i <= fields@.len(),
            fields@.map_values(|f: &[u8]| f@) == wanted,
            entries@.len() == i,
            entries@.map_values(|e: String| e@) == wanted.take(i as int).map_values(
                |f: Seq<u8>| lossy_text(f),
            ),
            forall|k: int|
                0 <= k < entries@.len() && valid_utf8(wanted[k]) ==> #[trigger] entries@[k]@
                    == decode_utf8(wanted[k]),
        decreases fields@.len() - i,
    {
        let text = from_utf8_lossy(fields[i]);
        let ghost before = entries@;
        let ghost t = text;
        entries.push(text);
        proof {
            assert(entries@[i as int] == t);
            assert(fields@.map_values(|f: &[u8]| f@)[i as int] == fields@[i as int]@);
            assert(wanted.take(i + 1) =~= wanted.take(i as int).push(wanted[i as int]));
            assert(entries@.map_values(|e: String| e@) =~= before.map_values(|e: String| e@).push(
                t@,
            ));
            assert(wanted.take(i + 1).map_values(|f: Seq<u8>| lossy_text(f)) =~= wanted.take(
                i as int,
            ).map_values(|f: Seq<u8>| lossy_text(f)).push(lossy_text(wanted[i as int])));
        }
        i += 1;
    }
    proof {
        assert(wanted.take(fields@.len() as int) =~= wanted);
    }
    entries
}

/// The value of a read reply held in the first `len` bytes of `buffer`,
/// decoded as UTF-8 with invalid sequences replaced; empty for an empty reply.
pub fn store_read_reply(buffer: Vec<u8>, len: u32) -> (value: String)
    ensures
        value@ == lossy_text(read_value_bytes(reply_bytes(buffer@, len))),
        len <= buffer@.len() ==> value@ == lossy_text(read_value_bytes(buffer@.take(len as int))),
        len > buffer@.len() ==> value@ == lossy_text(read_value_bytes(buffer@)),
        valid_utf8(read_value_bytes(reply_bytes(buffer@, len))) ==> value@ == decode_utf8(
            read_value_bytes(reply_bytes(buffer@, len)),
        ),
{
    let mut reply = buffer;
    reply.truncate(len as usize);
    proof {
        assert(reply@ =~= reply_bytes(buffer@, len));
    }
    let empty: [u8; 0] = [];
    let bytes: &[u8] = match parse_nul_string(reply.as_slice()) {
        Some(s) => s,
        None => {
            let e: &[u8] = empty.as_slice();
            assert(e@ =~= Seq::<u8>::empty());
            e
        },
    };
    from_utf8_lossy(bytes)
}

/// A reply that holds a string framed as a request frames one string (its
/// UTF-8 bytes and a NUL) gives back the bytes of that string as the value,
/// and they decode to the string itself.
pub proof fn lemma_framed_string_reply(s: Seq<char>)
    ensures
        read_value_bytes(payload_of(seq![encode_utf8(s)])) == encode_utf8(s),
        valid_utf8(encode_utf8(s)),
        decode_utf8(encode_utf8(s)) == s,
{
    lemma_single_payload_string(encode_utf8(s));
    assert(payload_of(seq![encode_utf8(s)]).len() > 0) by {
        assert(seq![encode_utf8(s)].drop_first() =~= Seq::<Seq<u8>>::empty());
        assert(terminated(seq![encode_utf8(s)].drop_first()) == Seq::<u8>::empty());
        assert(payload_of(seq![encode_utf8(s)]) =~= encode_utf8(s).push(0u8));
    }
    encode_utf8_valid_utf8(s);
    encode_utf8_decode_utf8(s);
}

/// Why the path of a watch request cannot be handed to the driver.
#[derive(Clone, Copy, Debug, PartialEq, Eq)]
pub enum WatchPathError {
    /// The path holds a NUL byte, so it is no C string.
    InteriorNul,
}

/// The path of a watch request as the driver takes it: the path's bytes as a
/// C string with its terminating NUL, and that string's length as the driver's
/// 32-bit length field holds it. A path with a NUL byte in it is refused.
pub fn add_watch_path(path: &str) -> (r: Result<(Vec<u8>, u32), WatchPathError>)
    ensures
        r is Err <==> !nul_free(path.spec_bytes()),
        r matches Ok((bytes, len)) ==> bytes@ == path.spec_bytes().push(0u8) && len == (
        bytes@.len() as u32),
{
    let src = path.as_bytes();
    let mut bytes: Vec<u8> = Vec::new();
    let mut i: usize = 0;
    while i < src.len()
        invariant
            i <= src@.len(),
            src@ == path.spec_bytes(),
            bytes@ == src@.take(i as int),
            forall|k: int| 0 <= k < i ==> src@[k] != 0,
        decreases src@.len() - i,
    {
        if src[i] == 0 {
            return Err(WatchPathError::InteriorNul);
        }
        bytes.push(src[i]);
        assert(src@.take(i + 1) =~= src@.take(i as int).push(src@[i as int]));
        i += 1;
    }
    bytes.push(0u8);
    assert(src@.take(i as int) =~= src@);
    let len = bytes.len() as u32;
    Ok((bytes, len))
}

} // verus!
