//! Player identities. A UUID is held as its 128-bit number, the one that its
//! sixteen bytes spell with the most significant byte first.
use vstd::prelude::*;
use crate::reader::Input;
use crate::scalar::{
    be_bytes, be_value, lemma_be_bytes_len, lemma_be_bytes_of_value, lemma_be_value_bound, pow256,
    scalar_read,
};

verus! {

/// The lower-case hexadecimal digit of a number below sixteen.
pub open spec fn hex_digit(nibble: int) -> char {
    if nibble < 10 {
        (48 + nibble) as char
    } else {
        (87 + nibble) as char
    }
}

/// The hexadecimal digits of `bytes`, two for each byte, high half first.
pub open spec fn hex(bytes: Seq<u8>) -> Seq<char> {
    Seq::new(
        2 * bytes.len(),
        |i: int|
            hex_digit(
                if i % 2 == 0 {
                    bytes[i / 2] as int / 16
                } else {
                    bytes[i / 2] as int % 16
                },
            ),
    )
}

/// The text of a UUID of the sixteen `bytes`: its digits in groups of eight,
/// four, four, four and twelve, with a hyphen between two groups.
pub open spec fn hyphenated(bytes: Seq<u8>) -> Seq<char> {
    let digits = hex(bytes);
    digits.subrange(0, 8) + seq!['-'] + digits.subrange(8, 12) + seq!['-'] + digits.subrange(
        12,
        16,
    ) + seq!['-'] + digits.subrange(16, 20) + seq!['-'] + digits.subrange(20, 32)
}

/// The number of the UUID whose bytes are those of `raw` in reverse.
pub open spec fn uuid_from_le(raw: u128) -> nat {
    be_value(be_bytes(raw as nat, 16).reverse())
}

/// The text of the UUID with the number `uuid`.
pub open spec fn uuid_text(uuid: u128) -> Seq<char> {
    hyphenated(be_bytes(uuid as nat, 16))
}

/// `Uuid::from_u128_le` of the uuid crate, with the result handed back as a
/// number by `Uuid::as_u128`. The crate stores the little-endian bytes of
/// `raw` as the UUID's bytes, and reads a UUID's number off its bytes with the
/// most significant first.
#[verifier::external_body]
pub(crate) fn uuid_from_u128_le(raw: u128) -> (uuid: u128)
    ensures
        uuid == uuid_from_le(raw),
{
    uuid::Uuid::from_u128_le(raw).as_u128()
}

/// `Uuid::to_string` of the uuid crate, on the UUID that `Uuid::from_u128`
/// makes of `uuid`. The crate prints a UUID as lower-case hexadecimal digits
/// with hyphens behind the eighth, twelfth, sixteenth and twentieth.
#[verifier::external_body]
pub(crate) fn uuid_to_string(uuid: u128) -> (text: String)
    ensures
        text@ == uuid_text(uuid),
{
    uuid::Uuid::from_u128(uuid).to_string()
}

/// The UUID that is read off the wire: where sixteen bytes are left, the
/// number that they spell when read from the last byte to the first; where
/// fewer are left, zero, which stands for the nil UUID.
pub proof fn lemma_uuid_of_wire(input: Input)
    ensures
        uuid_from_le(scalar_read::<u128>(input).0) == if input.bytes.len() >= 16 {
            be_value(input.bytes.take(16).reverse())
        } else {
            0
        },
{
    if input.bytes.len() >= 16 {
        let bytes = input.bytes.take(16);
        lemma_be_value_bound(bytes);
        reveal_with_fuel(pow256, 17);
        lemma_be_bytes_of_value(bytes);
    } else {
        let zeros = be_bytes(0, 16);
        lemma_be_bytes_len(0, 16);
        reveal_with_fuel(be_bytes, 17);
        assert forall|i: int| 0 <= i < 16 implies zeros[i] == 0 by {}
        lemma_zeros(zeros.reverse());
    }
}

proof fn lemma_zeros(bytes: Seq<u8>)
    requires
        forall|i: int| 0 <= i < bytes.len() ==> bytes[i] == 0,
    ensures
        be_value(bytes) == 0,
    decreases bytes.len(),
{
    if bytes.len() > 0 {
        lemma_zeros(bytes.drop_last());
    }
}

} // verus!
