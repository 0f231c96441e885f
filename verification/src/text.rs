//! Length-prefixed text.
//!
//! The two dialects frame a string differently: the modern one puts a varint
//! in front of it, the legacy one a 16-bit big-endian number. Behind either
//! prefix stand that many bytes of UTF-8.
//!
//! No reader takes a peer's word for a length: one above
//! [`MAX_STRING_BYTES`], or below zero, is refused before a byte is read.
use vstd::prelude::*;
use vstd::utf8::{decode_utf8, encode_utf8, valid_utf8};
use crate::reader::{Input, Reader};
use crate::scalar::{be_bytes, be_value, lemma_scalar_round_trip, read, scalar_bytes, scalar_read};
use crate::varint::{
    groups, lemma_varint_round_trip, read_varint, varint_bytes, varint_read, write_varint,
};

verus! {

/// The most bytes that a string may announce.
pub const MAX_STRING_BYTES: usize = 255;

/// What reading the body of a string does once its prefix has given `len`.
///
/// - `len` in range and that many bytes left, valid UTF-8: the text, and the
///   input behind it.
/// - The bytes are not valid UTF-8: they are consumed, the input is marked as
///   malformed, and the text is empty.
/// - Fewer bytes are left: the input is drained and marked as truncated, and
///   the text is empty.
/// - `len` out of range: nothing is consumed, the input is marked as
///   malformed, and the text is empty.
pub open spec fn text_read(len: int, input: Input) -> (Seq<char>, Input) {
    if 0 <= len <= MAX_STRING_BYTES {
        let (bytes, rest) = input.take(len as nat);
        match bytes {
            Some(bytes) => if valid_utf8(bytes) {
                (decode_utf8(bytes), rest)
            } else {
                (Seq::empty(), rest.reject())
            },
            None => (Seq::empty(), rest),
        }
    } else {
        (Seq::empty(), input.reject())
    }
}

/// What reading a modern string does to the input, and what it yields.
pub open spec fn string_read(input: Input) -> (Seq<char>, Input) {
    let (len, rest) = varint_read(input);
    text_read(len as int, rest)
}

/// What reading a legacy string does to the input, and what it yields.
pub open spec fn legacy_string_read(input: Input) -> (Seq<char>, Input) {
    let (len, rest) = scalar_read::<i16>(input);
    text_read(len as int, rest)
}

/// The modern form of `text`. The prefix is the byte length cut to 32 bits.
pub open spec fn string_bytes(text: Seq<char>) -> Seq<u8> {
    varint_bytes(encode_utf8(text).len() as i32) + encode_utf8(text)
}

/// The legacy form of a `text` of at most 32767 bytes.
pub open spec fn legacy_string_bytes(text: Seq<char>) -> Seq<u8> {
    be_bytes(encode_utf8(text).len(), 2) + encode_utf8(text)
}

/// `String::from_utf8` of the standard library: the text that `bytes` encode,
/// where they are valid UTF-8, and nothing where they are not.
#[verifier::external_body]
fn string_from_utf8(bytes: Vec<u8>) -> (out: Option<String>)
    ensures
        out is Some <==> valid_utf8(bytes@),
        out matches Some(text) ==> text@ == decode_utf8(bytes@),
{
    String::from_utf8(bytes).ok()
}

fn read_text(r: &mut Reader, len: i32) -> (text: String)
    ensures
        (text@, final(r)@) == text_read(len as int, old(r)@),
{
    if len < 0 || len > MAX_STRING_BYTES as i32 {
        r.reject();
        return String::new();
    }
    match r.read_exact(len as usize) {
        Some(bytes) => match string_from_utf8(bytes) {
            Some(text) => text,
            None => {
                r.reject();
                String::new()
            },
        },
        None => String::new(),
    }
}

/// Reads a modern string.
pub fn read_string(r: &mut Reader) -> (text: String)
    ensures
        (text@, final(r)@) == string_read(old(r)@),
{
    let len: i32 = read_varint(r);
    read_text(r, len)
}

/// Reads a legacy string.
pub fn read_legacy_string(r: &mut Reader) -> (text: String)
    ensures
        (text@, final(r)@) == legacy_string_read(old(r)@),
{
    let len: i16 = read(r);
    read_text(r, len as i32)
}

/// Appends `bytes` to `w`.
pub fn write_bytes(w: &mut Vec<u8>, bytes: &[u8])
    ensures
        final(w)@ == old(w)@ + bytes@,
{
    w.extend_from_slice(bytes);
    assert(w@ =~= old(w)@ + bytes@);
}

/// Appends the modern form of `s` to `w`.
pub fn write_string(w: &mut Vec<u8>, s: &str)
    ensures
        final(w)@ == old(w)@ + string_bytes(s@),
{
    let bytes = s.as_bytes();
    let len: usize = bytes.len();
    write_varint(w, #[verifier::truncate] (len as i32));
    write_bytes(w, bytes);
    assert(w@ == old(w)@ + string_bytes(s@));
}

/// Round trip: reading what `write_string` wrote gives the text back, for
/// every text of at most [`MAX_STRING_BYTES`] bytes, and leaves what follows
/// it untouched.
pub proof fn lemma_string_round_trip(text: Seq<char>, rest: Input)
    requires
        encode_utf8(text).len() <= MAX_STRING_BYTES,
    ensures
        string_read(Input { bytes: string_bytes(text) + rest.bytes, ..rest }) == (text, rest),
{
    let body = encode_utf8(text);
    let len = body.len() as i32;
    let behind = Input { bytes: body + rest.bytes, ..rest };
    assert(string_bytes(text) + rest.bytes == varint_bytes(len) + behind.bytes);
    lemma_varint_round_trip(len, behind);
    assert(behind.bytes.take(body.len() as int) == body);
    assert(behind.advance(body.len()) =~= rest);
    vstd::utf8::encode_utf8_valid_utf8(text);
    vstd::utf8::encode_utf8_decode_utf8(text);
}

/// Round trip of the legacy form, on the same terms.
pub proof fn lemma_legacy_string_round_trip(text: Seq<char>, rest: Input)
    requires
        encode_utf8(text).len() <= MAX_STRING_BYTES,
    ensures
        legacy_string_read(Input { bytes: legacy_string_bytes(text) + rest.bytes, ..rest }) == (
            text,
            rest,
        ),
{
    let body = encode_utf8(text);
    let len = body.len() as i16;
    let behind = Input { bytes: body + rest.bytes, ..rest };
    assert(legacy_string_bytes(text) + rest.bytes == scalar_bytes(len) + behind.bytes);
    lemma_scalar_round_trip(len, behind);
    assert(behind.bytes.take(body.len() as int) == body);
    assert(behind.advance(body.len()) =~= rest);
    vstd::utf8::encode_utf8_valid_utf8(text);
    vstd::utf8::encode_utf8_decode_utf8(text);
}

/// No string that a reader hands out is longer than [`MAX_STRING_BYTES`]
/// bytes, whatever length the peer announced.
pub proof fn lemma_text_bounded(len: int, input: Input)
    ensures
        encode_utf8(text_read(len, input).0).len() <= MAX_STRING_BYTES,
{
    if 0 <= len <= MAX_STRING_BYTES {
        if let Some(bytes) = input.take(len as nat).0 {
            if valid_utf8(bytes) {
                vstd::utf8::decode_utf8_encode_utf8(bytes);
            }
        }
    }
}

/// The legacy reader does not take a modern string for one of its own: it
/// reads the varint and the first byte of the text as a length, finds it out
/// of range, and refuses.
pub proof fn lemma_modern_string_refused_by_legacy_reader(text: Seq<char>, rest: Input)
    requires
        1 <= encode_utf8(text).len() <= MAX_STRING_BYTES,
    ensures
        ({
            let all = string_bytes(text) + rest.bytes;
            legacy_string_read(Input { bytes: all, ..rest }) == (
                Seq::<char>::empty(),
                Input { bytes: all.skip(2), ..rest }.reject(),
            )
        }),
{
    let body = encode_utf8(text);
    let len = body.len();
    let all = string_bytes(text) + rest.bytes;
    let input = Input { bytes: all, ..rest };
    let prefix = groups(len);
    assert(varint_bytes(len as i32) == prefix);
    reveal_with_fuel(groups, 2);
    let pair = all.take(2);
    assert(pair.drop_last() == seq![all[0]]);
    assert(seq![all[0]].drop_last() == Seq::<u8>::empty());
    reveal_with_fuel(be_value, 3);
    assert(be_value(pair) == 256 * all[0] + all[1]);
    if len < 128 {
        assert(all[0] == len);
    } else {
        assert(all[0] == len % 128 + 128);
    }
    assert(input.advance(2) =~= Input { bytes: all.skip(2), ..rest });
}

/// The modern reader does not take a legacy string for one of its own either:
/// the high byte of the legacy length, which is zero, reads as the length of
/// an empty string.
pub proof fn lemma_legacy_string_emptied_by_modern_reader(text: Seq<char>, rest: Input)
    requires
        encode_utf8(text).len() <= MAX_STRING_BYTES,
    ensures
        ({
            let all = legacy_string_bytes(text) + rest.bytes;
            string_read(Input { bytes: all, ..rest }) == (
                Seq::<char>::empty(),
                Input { bytes: all.skip(1), ..rest },
            )
        }),
{
    let body = encode_utf8(text);
    let all = legacy_string_bytes(text) + rest.bytes;
    let input = Input { bytes: all, ..rest };
    reveal_with_fuel(be_bytes, 3);
    assert(all[0] == 0);
    let one = all.take(1);
    assert(one.drop_first() == Seq::<u8>::empty());
    reveal_with_fuel(crate::varint::group_sum, 2);
    let behind = input.advance(1);
    assert(varint_read(input) == (0i32, behind));
    assert(behind.bytes.take(0) == Seq::<u8>::empty());
    assert(behind.advance(0) =~= behind);
    assert(behind =~= Input { bytes: all.skip(1), ..rest });
}

} // verus!
