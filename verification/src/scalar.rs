//! Fixed-width scalars. On the wire a scalar is its bytes, most significant
//! first; signed types are in two's complement.
//!
//! A read that falls short yields the zero of the type, and the reader keeps
//! the mark: a zero alone does not say whether the peer sent it.
use vstd::prelude::*;
use crate::reader::{Input, Reader};

verus! {

/// 256 to the power of `n`.
pub open spec fn pow256(n: nat) -> nat
    decreases n,
{
    if n == 0 {
        1
    } else {
        256 * pow256((n - 1) as nat)
    }
}

/// The number that `bytes` spell, most significant byte first.
pub open spec fn be_value(bytes: Seq<u8>) -> nat
    decreases bytes.len(),
{
    if bytes.len() == 0 {
        0
    } else {
        256 * be_value(bytes.drop_last()) + bytes.last() as nat
    }
}

/// The `width` low bytes of `n`, most significant first.
pub open spec fn be_bytes(n: nat, width: nat) -> Seq<u8>
    decreases width,
{
    if width == 0 {
        Seq::empty()
    } else {
        be_bytes(n / 256, (width - 1) as nat).push((n % 256) as u8)
    }
}

/// A type that travels as a fixed number of bytes.
pub trait Scalar: Copy + Sized {
    /// The number of bytes that a value takes.
    spec fn width() -> nat;

    /// The value that the unsigned number `n` stands for.
    spec fn from_wire(n: nat) -> Self;

    /// The unsigned number that stands for the value.
    spec fn to_wire(self) -> nat;

    /// A value and its number determine each other.
    proof fn lemma_wire(value: Self)
        ensures
            1 <= Self::width() <= 16,
            value.to_wire() < pow256(Self::width()),
            Self::from_wire(value.to_wire()) == value,
    ;

    /// Every number below `256^width` stands for a value.
    proof fn lemma_wire_number(n: nat)
        requires
            n < pow256(Self::width()),
        ensures
            Self::from_wire(n).to_wire() == n,
    ;

    /// The number of bytes that a value takes.
    fn size() -> (n: usize)
        ensures
            n == Self::width(),
            1 <= n <= 16,
    ;

    /// The value that `n` stands for.
    fn decode(n: u128) -> (value: Self)
        requires
            n < pow256(Self::width()),
        ensures
            value == Self::from_wire(n as nat),
    ;

    /// The number that stands for the value.
    fn encode(self) -> (n: u128)
        ensures
            n == self.to_wire(),
    ;
}

impl Scalar for u8 {
    open spec fn width() -> nat {
        1
    }

    open spec fn from_wire(n: nat) -> u8 {
        n as u8
    }

    open spec fn to_wire(self) -> nat {
        self as nat
    }

    proof fn lemma_wire(value: u8) {
        reveal_with_fuel(pow256, 2);
    }

    proof fn lemma_wire_number(n: nat) {
        reveal_with_fuel(pow256, 2);
    }

    fn size() -> (n: usize) {
        1
    }

    fn decode(n: u128) -> (value: u8) {
        proof {
            reveal_with_fuel(pow256, 2);
        }
        n as u8
    }

    fn encode(self) -> (n: u128) {
        self as u128
    }
}

impl Scalar for u16 {
    open spec fn width() -> nat {
        2
    }

    open spec fn from_wire(n: nat) -> u16 {
        n as u16
    }

    open spec fn to_wire(self) -> nat {
        self as nat
    }

    proof fn lemma_wire(value: u16) {
        reveal_with_fuel(pow256, 3);
    }

    proof fn lemma_wire_number(n: nat) {
        reveal_with_fuel(pow256, 3);
    }

    fn size() -> (n: usize) {
        2
    }

    fn decode(n: u128) -> (value: u16) {
        proof {
            reveal_with_fuel(pow256, 3);
        }
        n as u16
    }

    fn encode(self) -> (n: u128) {
        self as u128
    }
}

impl Scalar for u32 {
    open spec fn width() -> nat {
        4
    }

    open spec fn from_wire(n: nat) -> u32 {
        n as u32
    }

    open spec fn to_wire(self) -> nat {
        self as nat
    }

    proof fn lemma_wire(value: u32) {
        reveal_with_fuel(pow256, 5);
    }

    proof fn lemma_wire_number(n: nat) {
        reveal_with_fuel(pow256, 5);
    }

    fn size() -> (n: usize) {
        4
    }

    fn decode(n: u128) -> (value: u32) {
        proof {
            reveal_with_fuel(pow256, 5);
        }
        n as u32
    }

    fn encode(self) -> (n: u128) {
        self as u128
    }
}

impl Scalar for u64 {
    open spec fn width() -> nat {
        8
    }

    open spec fn from_wire(n: nat) -> u64 {
        n as u64
    }

    open spec fn to_wire(self) -> nat {
        self as nat
    }

    proof fn lemma_wire(value: u64) {
        reveal_with_fuel(pow256, 9);
    }

    proof fn lemma_wire_number(n: nat) {
        reveal_with_fuel(pow256, 9);
    }

    fn size() -> (n: usize) {
        8
    }

    fn decode(n: u128) -> (value: u64) {
        proof {
            reveal_with_fuel(pow256, 9);
        }
        n as u64
    }

    fn encode(self) -> (n: u128) {
        self as u128
    }
}

impl Scalar for u128 {
    open spec fn width() -> nat {
        16
    }

    open spec fn from_wire(n: nat) -> u128 {
        n as u128
    }

    open spec fn to_wire(self) -> nat {
        self as nat
    }

    proof fn lemma_wire(value: u128) {
        reveal_with_fuel(pow256, 17);
    }

    proof fn lemma_wire_number(n: nat) {
        reveal_with_fuel(pow256, 17);
    }

    fn size() -> (n: usize) {
        16
    }

    fn decode(n: u128) -> (value: u128) {
        n
    }

    fn encode(self) -> (n: u128) {
        self
    }
}

impl Scalar for i8 {
    open spec fn width() -> nat {
        1
    }

    open spec fn from_wire(n: nat) -> i8 {
        if n < 0x80 {
            n as i8
        } else {
            (n - 0x100) as i8
        }
    }

    open spec fn to_wire(self) -> nat {
        if self < 0 {
            (self + 0x100) as nat
        } else {
            self as nat
        }
    }

    proof fn lemma_wire(value: i8) {
        reveal_with_fuel(pow256, 2);
    }

    proof fn lemma_wire_number(n: nat) {
        reveal_with_fuel(pow256, 2);
    }

    fn size() -> (n: usize) {
        1
    }

    fn decode(n: u128) -> (value: i8) {
        proof {
            reveal_with_fuel(pow256, 2);
        }
        if n < 0x80 {
            n as i8
        } else {
            (n as i16 - 0x100) as i8
        }
    }

    fn encode(self) -> (n: u128) {
        if self < 0 {
            (self as i16 + 0x100) as u128
        } else {
            self as u128
        }
    }
}

impl Scalar for i16 {
    open spec fn width() -> nat {
        2
    }

    open spec fn from_wire(n: nat) -> i16 {
        if n < 0x8000 {
            n as i16
        } else {
            (n - 0x1_0000) as i16
        }
    }

    open spec fn to_wire(self) -> nat {
        if self < 0 {
            (self + 0x1_0000) as nat
        } else {
            self as nat
        }
    }

    proof fn lemma_wire(value: i16) {
        reveal_with_fuel(pow256, 3);
    }

    proof fn lemma_wire_number(n: nat) {
        reveal_with_fuel(pow256, 3);
    }

    fn size() -> (n: usize) {
        2
    }

    fn decode(n: u128) -> (value: i16) {
        proof {
            reveal_with_fuel(pow256, 3);
        }
        if n < 0x8000 {
            n as i16
        } else {
            (n as i32 - 0x1_0000) as i16
        }
    }

    fn encode(self) -> (n: u128) {
        if self < 0 {
            (self as i32 + 0x1_0000) as u128
        } else {
            self as u128
        }
    }
}

impl Scalar for i32 {
    open spec fn width() -> nat {
        4
    }

    open spec fn from_wire(n: nat) -> i32 {
        if n < 0x8000_0000 {
            n as i32
        } else {
            (n - 0x1_0000_0000) as i32
        }
    }

    open spec fn to_wire(self) -> nat {
        if self < 0 {
            (self + 0x1_0000_0000) as nat
        } else {
            self as nat
        }
    }

    proof fn lemma_wire(value: i32) {
        reveal_with_fuel(pow256, 5);
    }

    proof fn lemma_wire_number(n: nat) {
        reveal_with_fuel(pow256, 5);
    }

    fn size() -> (n: usize) {
        4
    }

    fn decode(n: u128) -> (value: i32) {
        proof {
            reveal_with_fuel(pow256, 5);
        }
        if n < 0x8000_0000 {
            n as i32
        } else {
            (n as i64 - 0x1_0000_0000) as i32
        }
    }

    fn encode(self) -> (n: u128) {
        if self < 0 {
            (self as i64 + 0x1_0000_0000) as u128
        } else {
            self as u128
        }
    }
}

impl Scalar for i64 {
    open spec fn width() -> nat {
        8
    }

    open spec fn from_wire(n: nat) -> i64 {
        if n < 0x8000_0000_0000_0000 {
            n as i64
        } else {
            (n - 0x1_0000_0000_0000_0000) as i64
        }
    }

    open spec fn to_wire(self) -> nat {
        if self < 0 {
            (self + 0x1_0000_0000_0000_0000) as nat
        } else {
            self as nat
        }
    }

    proof fn lemma_wire(value: i64) {
        reveal_with_fuel(pow256, 9);
    }

    proof fn lemma_wire_number(n: nat) {
        reveal_with_fuel(pow256, 9);
    }

    fn size() -> (n: usize) {
        8
    }

    fn decode(n: u128) -> (value: i64) {
        proof {
            reveal_with_fuel(pow256, 9);
        }
        if n < 0x8000_0000_0000_0000 {
            n as i64
        } else {
            (n as i128 - 0x1_0000_0000_0000_0000) as i64
        }
    }

    fn encode(self) -> (n: u128) {
        if self < 0 {
            (self as i128 + 0x1_0000_0000_0000_0000) as u128
        } else {
            self as u128
        }
    }
}

impl Scalar for i128 {
    open spec fn width() -> nat {
        16
    }

    open spec fn from_wire(n: nat) -> i128 {
        if n < 0x8000_0000_0000_0000_0000_0000_0000_0000 {
            n as i128
        } else {
            (n - 0x1_0000_0000_0000_0000_0000_0000_0000_0000) as i128
        }
    }

    open spec fn to_wire(self) -> nat {
        if self < 0 {
            (self + 0x1_0000_0000_0000_0000_0000_0000_0000_0000) as nat
        } else {
            self as nat
        }
    }

    proof fn lemma_wire(value: i128) {
        reveal_with_fuel(pow256, 17);
    }

    proof fn lemma_wire_number(n: nat) {
        reveal_with_fuel(pow256, 17);
    }

    fn size() -> (n: usize) {
        16
    }

    fn decode(n: u128) -> (value: i128) {
        if n < 0x8000_0000_0000_0000_0000_0000_0000_0000 {
            n as i128
        } else {
            (n - 0x8000_0000_0000_0000_0000_0000_0000_0000) as i128 + i128::MIN
        }
    }

    fn encode(self) -> (n: u128) {
        if self < 0 {
            (self - i128::MIN) as u128 + 0x8000_0000_0000_0000_0000_0000_0000_0000
        } else {
            self as u128
        }
    }
}

/// What reading one scalar does to the input, and what it yields: the value
/// that the next `width` bytes spell, or, where fewer are left, zero and the
/// drained input.
pub open spec fn scalar_read<T: Scalar>(input: Input) -> (T, Input) {
    let (bytes, rest) = input.take(T::width());
    match bytes {
        Some(bytes) => (T::from_wire(be_value(bytes)), rest),
        None => (T::from_wire(0), rest),
    }
}

/// The bytes of `value` on the wire.
pub open spec fn scalar_bytes<T: Scalar>(value: T) -> Seq<u8> {
    be_bytes(value.to_wire(), T::width())
}

/// The number that `bytes` spell is below `256^len`.
pub proof fn lemma_be_value_bound(bytes: Seq<u8>)
    ensures
        be_value(bytes) < pow256(bytes.len()),
    decreases bytes.len(),
{
    if bytes.len() > 0 {
        lemma_be_value_bound(bytes.drop_last());
    }
}

/// `256^n` grows with `n`.
pub proof fn lemma_pow256_grows(a: nat, b: nat)
    requires
        a <= b,
    ensures
        1 <= pow256(a) <= pow256(b),
    decreases b,
{
    if b > 0 {
        if a < b {
            lemma_pow256_grows(a, (b - 1) as nat);
        } else {
            lemma_pow256_grows((a - 1) as nat, (b - 1) as nat);
        }
    }
}

/// `be_bytes` gives `width` bytes.
pub proof fn lemma_be_bytes_len(n: nat, width: nat)
    ensures
        be_bytes(n, width).len() == width,
    decreases width,
{
    if width > 0 {
        lemma_be_bytes_len(n / 256, (width - 1) as nat);
    }
}

/// The bytes of a number that fits spell that number.
pub proof fn lemma_be_value_of_bytes(n: nat, width: nat)
    requires
        n < pow256(width),
    ensures
        be_value(be_bytes(n, width)) == n,
    decreases width,
{
    if width > 0 {
        let head = be_bytes(n / 256, (width - 1) as nat);
        lemma_be_value_of_bytes(n / 256, (width - 1) as nat);
        assert(be_bytes(n, width).drop_last() == head);
    }
}

/// The number that bytes spell, written out again, gives the same bytes.
pub proof fn lemma_be_bytes_of_value(bytes: Seq<u8>)
    ensures
        be_bytes(be_value(bytes), bytes.len()) == bytes,
    decreases bytes.len(),
{
    if bytes.len() > 0 {
        lemma_be_bytes_of_value(bytes.drop_last());
        assert(bytes.drop_last().push(bytes.last()) == bytes);
    }
}

/// The number that at most sixteen bytes spell.
pub fn be_number(bytes: &Vec<u8>) -> (n: u128)
    requires
        bytes.len() <= 16,
    ensures
        n == be_value(bytes@),
{
    let mut n: u128 = 0;
    let mut i: usize = 0;
    assert(bytes@.take(0) == Seq::<u8>::empty());
    while i < bytes.len()
        invariant
            i <= bytes.len() <= 16,
            n == be_value(bytes@.take(i as int)),
        decreases bytes.len() - i,
    {
        proof {
            let next = bytes@.take(i + 1);
            assert(next.drop_last() == bytes@.take(i as int));
            lemma_be_value_bound(next);
            lemma_pow256_grows(next.len(), 16);
            reveal_with_fuel(pow256, 17);
        }
        n = n * 256 + bytes[i] as u128;
        i = i + 1;
    }
    assert(bytes@.take(i as int) == bytes@);
    n
}

/// Appends the `width` low bytes of `n` to `w`, most significant first.
pub fn push_be(w: &mut Vec<u8>, n: u128, width: usize)
    ensures
        final(w)@ == old(w)@ + be_bytes(n as nat, width as nat),
    decreases width,
{
    if width > 0 {
        push_be(w, n / 256, width - 1);
        w.push((n % 256) as u8);
        assert(w@ == old(w)@ + be_bytes(n as nat, width as nat));
    } else {
        assert(w@ == old(w)@ + be_bytes(n as nat, 0));
    }
}

/// Reads one scalar.
pub fn read<T: Scalar>(r: &mut Reader) -> (value: T)
    ensures
        (value, final(r)@) == scalar_read::<T>(old(r)@),
{
    proof {
        reveal_with_fuel(pow256, 1);
        lemma_pow256_grows(0, T::width());
    }
    match r.read_exact(T::size()) {
        Some(bytes) => {
            proof {
                lemma_be_value_bound(bytes@);
            }
            T::decode(be_number(&bytes))
        },
        None => T::decode(0),
    }
}

/// Appends the bytes of `value` to `w`.
pub fn write<T: Scalar>(w: &mut Vec<u8>, value: &T)
    ensures
        final(w)@ == old(w)@ + scalar_bytes(*value),
{
    push_be(w, (*value).encode(), T::size());
}

/// Round trip: reading what `write` wrote gives the value back and leaves
/// what follows it untouched.
pub proof fn lemma_scalar_round_trip<T: Scalar>(value: T, rest: Input)
    ensures
        scalar_read::<T>(Input { bytes: scalar_bytes(value) + rest.bytes, ..rest }) == (
            value,
            rest,
        ),
{
    let bytes = scalar_bytes(value);
    let input = Input { bytes: bytes + rest.bytes, ..rest };
    T::lemma_wire(value);
    lemma_be_bytes_len(value.to_wire(), T::width());
    lemma_be_value_of_bytes(value.to_wire(), T::width());
    assert(input.bytes.take(T::width() as int) == bytes);
    assert(input.advance(T::width()) =~= rest);
}

/// A scalar that was read is written out as the very bytes it was read from.
pub proof fn lemma_scalar_echo<T: Scalar>(bytes: Seq<u8>)
    requires
        bytes.len() == T::width(),
    ensures
        scalar_bytes(T::from_wire(be_value(bytes))) == bytes,
{
    lemma_be_value_bound(bytes);
    T::lemma_wire_number(be_value(bytes));
    lemma_be_bytes_of_value(bytes);
}

} // verus!
