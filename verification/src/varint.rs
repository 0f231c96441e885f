//! Variable-length integers: seven payload bits per byte, least significant
//! group first, the high bit of a byte saying that another byte follows.
//!
//! A 32-bit value takes one to five bytes. The reader never looks at a sixth:
//! five bytes that all announce a successor are refused.
use vstd::prelude::*;
use crate::reader::{Input, Reader};

verus! {

/// The most bytes that an encoded value may take.
pub const VARINT_MAX_BYTES: usize = 5;

/// 128 to the power of `n`.
pub open spec fn pow128(n: nat) -> nat
    decreases n,
{
    if n == 0 {
        1
    } else {
        128 * pow128((n - 1) as nat)
    }
}

/// How many bytes at the front of `bytes` announce a successor.
pub open spec fn continuation_run(bytes: Seq<u8>) -> nat
    decreases bytes.len(),
{
    if bytes.len() > 0 && bytes[0] >= 128 {
        1 + continuation_run(bytes.drop_first())
    } else {
        0
    }
}

/// The number that the payload bits of `bytes` spell, least significant
/// group first.
pub open spec fn group_sum(bytes: Seq<u8>) -> nat
    decreases bytes.len(),
{
    if bytes.len() == 0 {
        0
    } else {
        (bytes[0] % 128) as nat + 128 * group_sum(bytes.drop_first())
    }
}

/// The low 32 bits of `n`, read as a signed number.
pub open spec fn wrap_i32(n: nat) -> i32 {
    let low = n % 0x1_0000_0000;
    if low < 0x8000_0000 {
        low as i32
    } else {
        (low - 0x1_0000_0000) as i32
    }
}

/// The 32 bits of `value`, read as an unsigned number.
pub open spec fn unsigned32(value: i32) -> nat {
    if value < 0 {
        (value + 0x1_0000_0000) as nat
    } else {
        value as nat
    }
}

/// The groups of `n`, each but the last with its high bit set.
pub open spec fn groups(n: nat) -> Seq<u8>
    decreases n,
{
    if n < 128 {
        seq![n as u8]
    } else {
        seq![(n % 128 + 128) as u8] + groups(n / 128)
    }
}

/// The encoding of `value`.
pub open spec fn varint_bytes(value: i32) -> Seq<u8> {
    groups(unsigned32(value))
}

/// What reading one value does to the input, and what it yields.
///
/// - A byte without the high bit among the first five ends the value: the
///   bytes up to it are consumed and their payload bits, cut to 32, are the
///   result.
/// - Five bytes with the high bit: they are consumed, the input is marked as
///   malformed, and the result is 0.
/// - The input ends first: it is drained and marked as truncated, and the
///   result is 0.
pub open spec fn varint_read(input: Input) -> (i32, Input) {
    let run = continuation_run(input.bytes);
    if run >= VARINT_MAX_BYTES {
        (0i32, input.advance(VARINT_MAX_BYTES as nat).reject())
    } else if run < input.bytes.len() {
        (wrap_i32(group_sum(input.bytes.take((run + 1) as int))), input.advance(run + 1))
    } else {
        (0i32, input.drain())
    }
}

proof fn lemma_run_split(bytes: Seq<u8>, k: nat)
    requires
        k <= bytes.len(),
        forall|j: int| 0 <= j < k ==> bytes[j] >= 128,
    ensures
        continuation_run(bytes) == k + continuation_run(bytes.skip(k as int)),
    decreases k,
{
    if k == 0 {
        assert(bytes.skip(0) == bytes);
    } else {
        let rest = bytes.drop_first();
        assert forall|j: int| 0 <= j < k - 1 implies rest[j] >= 128 by {
            assert(rest[j] == bytes[j + 1]);
        }
        lemma_run_split(rest, (k - 1) as nat);
        assert(rest.skip(k - 1) == bytes.skip(k as int));
    }
}

proof fn lemma_group_sum_push(bytes: Seq<u8>, byte: u8)
    ensures
        group_sum(bytes.push(byte)) == group_sum(bytes) + (byte % 128) * pow128(bytes.len()),
    decreases bytes.len(),
{
    let all = bytes.push(byte);
    let group = (byte % 128) as nat;
    if bytes.len() == 0 {
        assert(all.drop_first() == Seq::<u8>::empty());
        assert(group_sum(all) == group + 128 * group_sum(all.drop_first()));
        assert(group * pow128(0) == group) by (nonlinear_arith)
            requires
                pow128(0) == 1,
        ;
    } else {
        let below = pow128((bytes.len() - 1) as nat);
        lemma_group_sum_push(bytes.drop_first(), byte);
        assert(all.drop_first() == bytes.drop_first().push(byte));
        assert(group_sum(all.drop_first()) == group_sum(bytes.drop_first()) + group * below);
        assert(128 * (group * below) == group * (128 * below)) by (nonlinear_arith);
    }
}

/// Reads one value.
pub fn read_varint(r: &mut Reader) -> (value: i32)
    ensures
        (value, final(r)@) == varint_read(old(r)@),
{
    let ghost start = r@;
    let mut sum: u64 = 0;
    let mut scale: u64 = 1;
    let mut count: usize = 0;
    assert(start.advance(0) =~= start);
    assert(start.bytes.take(0) == Seq::<u8>::empty());
    while count < VARINT_MAX_BYTES
        invariant
            count <= VARINT_MAX_BYTES,
            count <= start.bytes.len(),
            forall|j: int| 0 <= j < count ==> start.bytes[j] >= 128,
            r@ == start.advance(count as nat),
            sum == group_sum(start.bytes.take(count as int)),
            count < VARINT_MAX_BYTES ==> scale == pow128(count as nat) && sum < scale,
            start == old(r)@,
        decreases VARINT_MAX_BYTES - count,
    {
        proof {
            lemma_run_split(start.bytes, count as nat);
            reveal_with_fuel(pow128, 6);
        }
        match r.read_byte() {
            None => {
                assert(continuation_run(start.bytes.skip(count as int)) == 0);
                return 0;
            },
            Some(byte) => {
                proof {
                    assert(byte == start.bytes[count as int]);
                    lemma_group_sum_push(start.bytes.take(count as int), byte);
                    assert(start.bytes.take(count as int).push(byte) == start.bytes.take(
                        count + 1,
                    ));
                    assert(start.advance(count as nat).advance(1) =~= start.advance(
                        (count + 1) as nat,
                    ));
                    assert((byte % 128) * scale + sum < 128 * scale) by (nonlinear_arith)
                        requires
                            sum < scale,
                            byte % 128 <= 127,
                    ;
                }
                sum = sum + (byte % 128) as u64 * scale;
                count = count + 1;
                if byte < 128 {
                    proof {
                        assert(continuation_run(start.bytes.skip(count - 1)) == 0);
                    }
                    let low: u64 = sum % 0x1_0000_0000;
                    if low < 0x8000_0000 {
                        return low as i32;
                    } else {
                        return (low as i64 - 0x1_0000_0000) as i32;
                    }
                }
                if count < VARINT_MAX_BYTES {
                    scale = scale * 128;
                }
            },
        }
    }
    proof {
        lemma_run_split(start.bytes, count as nat);
    }
    r.reject();
    0
}

/// Appends the encoding of `value` to `w`.
pub fn write_varint(w: &mut Vec<u8>, value: i32)
    ensures
        final(w)@ == old(w)@ + varint_bytes(value),
{
    let ghost start = w@;
    let mut rest: u64 = if value < 0 {
        (value as i64 + 0x1_0000_0000) as u64
    } else {
        value as u64
    };
    while rest >= 128
        invariant
            w@ + groups(rest as nat) == start + varint_bytes(value),
        decreases rest,
    {
        let ghost before = w@;
        w.push((rest % 128 + 128) as u8);
        proof {
            assert(groups(rest as nat) == seq![(rest % 128 + 128) as u8] + groups(
                (rest / 128) as nat,
            ));
            assert(before.push((rest % 128 + 128) as u8) + groups((rest / 128) as nat) == before
                + groups(rest as nat));
        }
        rest = rest / 128;
    }
    let ghost before = w@;
    w.push(rest as u8);
    assert(before.push(rest as u8) == before + groups(rest as nat));
}

/// The shape of an encoding: `n`, below `128^k`, takes at most `k` groups; all
/// but the last announce a successor, and together they spell `n`.
pub proof fn lemma_groups_shape(n: nat, k: nat)
    requires
        k >= 1,
        n < pow128(k),
    ensures
        1 <= groups(n).len() <= k,
        forall|j: int| 0 <= j < groups(n).len() - 1 ==> groups(n)[j] >= 128,
        groups(n).last() < 128,
        group_sum(groups(n)) == n,
    decreases n,
{
    let g = groups(n);
    if n < 128 {
        assert(g.drop_first() == Seq::<u8>::empty());
        assert(group_sum(g) == (g[0] % 128) + 128 * group_sum(g.drop_first()));
    } else {
        reveal_with_fuel(pow128, 2);
        let tail = groups(n / 128);
        lemma_groups_shape(n / 128, (k - 1) as nat);
        assert(g.drop_first() == tail);
        assert(g[0] == n % 128 + 128);
        assert(group_sum(g) == (g[0] % 128) + 128 * group_sum(g.drop_first()));
        assert(g.last() == tail.last());
        assert forall|j: int| 0 <= j < g.len() - 1 implies g[j] >= 128 by {
            if j > 0 {
                assert(g[j] == tail[j - 1]);
            }
        }
    }
}

/// An encoding is one to five bytes long.
pub proof fn lemma_varint_len(value: i32)
    ensures
        1 <= varint_bytes(value).len() <= VARINT_MAX_BYTES,
{
    reveal_with_fuel(pow128, 6);
    lemma_groups_shape(unsigned32(value), 5);
}

/// Round trip: reading what `write_varint` wrote gives the value back, for
/// every 32-bit value, and leaves what follows the encoding untouched.
pub proof fn lemma_varint_round_trip(value: i32, rest: Input)
    ensures
        varint_read(Input { bytes: varint_bytes(value) + rest.bytes, ..rest }) == (value, rest),
{
    reveal_with_fuel(pow128, 6);
    let n = unsigned32(value);
    let g = groups(n);
    let all = g + rest.bytes;
    let input = Input { bytes: all, ..rest };
    lemma_groups_shape(n, 5);
    let run = (g.len() - 1) as nat;
    assert forall|j: int| 0 <= j < run implies all[j] >= 128 by {
        assert(all[j] == g[j]);
    }
    lemma_run_split(all, run);
    assert(all.skip(run as int)[0] == g.last());
    assert(continuation_run(all.skip(run as int)) == 0);
    assert(all.take((run + 1) as int) == g);
    assert(all.skip((run + 1) as int) == rest.bytes);
    assert(input.advance(run + 1) =~= rest);
}

/// Five bytes that all announce a successor are refused: the result is 0, the
/// five bytes are gone, and the input is marked as malformed.
pub proof fn lemma_varint_overlong(input: Input)
    requires
        input.bytes.len() >= VARINT_MAX_BYTES,
        forall|j: int| 0 <= j < VARINT_MAX_BYTES ==> input.bytes[j] >= 128,
    ensures
        varint_read(input) == (0i32, input.advance(VARINT_MAX_BYTES as nat).reject()),
{
    lemma_run_split(input.bytes, VARINT_MAX_BYTES as nat);
}

} // verus!
