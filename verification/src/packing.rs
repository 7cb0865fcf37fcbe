//! How bits are laid out in bytes: within a byte the most significant bit
//! comes first.  All of this is specification; the reader and the writer
//! state their contracts over it.

use crate::bit::Bit;
use vstd::prelude::*;

verus! {

/// The mask that selects bit `i` of a byte: `0x80` for bit 0 down to `0x01`
/// for bit 7.
pub open spec fn mask(i: int) -> u8 {
    if i == 0 {
        0x80
    } else if i == 1 {
        0x40
    } else if i == 2 {
        0x20
    } else if i == 3 {
        0x10
    } else if i == 4 {
        0x08
    } else if i == 5 {
        0x04
    } else if i == 6 {
        0x02
    } else {
        0x01
    }
}

/// Bit `i` of `byte`, counted from the most significant end.
pub open spec fn bit_at(byte: u8, i: int) -> Bit {
    if byte & mask(i) != 0 {
        Bit::One
    } else {
        Bit::Zero
    }
}

/// The byte whose eight bits, most significant first, are `bits[0]` to
/// `bits[7]`.
pub open spec fn byte_of(bits: Seq<Bit>) -> u8 {
    (128 * bits[0].weight() + 64 * bits[1].weight() + 32 * bits[2].weight() + 16
        * bits[3].weight() + 8 * bits[4].weight() + 4 * bits[5].weight() + 2 * bits[6].weight()
        + bits[7].weight()) as u8
}

/// The bits of `bytes` in reading order: eight per byte.
pub open spec fn unpack(bytes: Seq<u8>) -> Seq<Bit> {
    Seq::new(8 * bytes.len(), |k: int| bit_at(bytes[k / 8], k % 8))
}

/// The whole bytes that `bits` fill, in order.  Up to seven bits at the end
/// that do not fill a byte are left out.
pub open spec fn pack(bits: Seq<Bit>) -> Seq<u8> {
    Seq::new(bits.len() / 8, |j: int| byte_of(bits.subrange(8 * j, 8 * j + 8)))
}

/// How many bits have to follow `n` bits to reach the next multiple of 8.
pub open spec fn padding_len(n: nat) -> nat {
    ((8 - n % 8) % 8) as nat
}

/// The bit that fills an incomplete last byte under a pad policy.
pub open spec fn pad_bit(pad_zero: bool) -> Bit {
    if pad_zero {
        Bit::Zero
    } else {
        Bit::One
    }
}

/// `n` copies of `bit`.
pub open spec fn repeat(bit: Bit, n: nat) -> Seq<Bit> {
    Seq::new(n, |k: int| bit)
}

/// `bits`, followed by as many copies of `pad` as reach the next multiple
/// of 8.  Nothing is ever taken away.
pub open spec fn padded(bits: Seq<Bit>, pad: Bit) -> Seq<Bit> {
    bits + repeat(pad, padding_len(bits.len()))
}

/// A byte assembled from eight bits holds exactly those bits.
pub proof fn lemma_bit_at_byte_of(bits: Seq<Bit>, i: int)
    requires
        0 <= i < 8,
    ensures
        bit_at(byte_of(bits), i) == bits[i],
{
    let b0 = bits[0].weight() as u8;
    let b1 = bits[1].weight() as u8;
    let b2 = bits[2].weight() as u8;
    let b3 = bits[3].weight() as u8;
    let b4 = bits[4].weight() as u8;
    let b5 = bits[5].weight() as u8;
    let b6 = bits[6].weight() as u8;
    let b7 = bits[7].weight() as u8;
    let byte = (128 * b0 + 64 * b1 + 32 * b2 + 16 * b3 + 8 * b4 + 4 * b5 + 2 * b6 + b7) as u8;
    assert(byte == byte_of(bits));
    assert((byte & 0x80 != 0) == (b0 == 1) && (byte & 0x40 != 0) == (b1 == 1) && (byte & 0x20 != 0)
        == (b2 == 1) && (byte & 0x10 != 0) == (b3 == 1) && (byte & 0x08 != 0) == (b4 == 1) && (byte
        & 0x04 != 0) == (b5 == 1) && (byte & 0x02 != 0) == (b6 == 1) && (byte & 0x01 != 0) == (b7
        == 1)) by (bit_vector)
        requires
            b0 <= 1,
            b1 <= 1,
            b2 <= 1,
            b3 <= 1,
            b4 <= 1,
            b5 <= 1,
            b6 <= 1,
            b7 <= 1,
            byte == (128 * b0 + 64 * b1 + 32 * b2 + 16 * b3 + 8 * b4 + 4 * b5 + 2 * b6 + b7) as u8,
    ;
}

/// Assembling the eight bits of a byte gives the byte back.
pub proof fn lemma_byte_of_bits(byte: u8)
    ensures
        byte_of(Seq::new(8, |i: int| bit_at(byte, i))) == byte,
{
    let bits = Seq::new(8, |i: int| bit_at(byte, i));
    let b0 = bits[0].weight() as u8;
    let b1 = bits[1].weight() as u8;
    let b2 = bits[2].weight() as u8;
    let b3 = bits[3].weight() as u8;
    let b4 = bits[4].weight() as u8;
    let b5 = bits[5].weight() as u8;
    let b6 = bits[6].weight() as u8;
    let b7 = bits[7].weight() as u8;
    assert(byte == (128 * b0 + 64 * b1 + 32 * b2 + 16 * b3 + 8 * b4 + 4 * b5 + 2 * b6 + b7) as u8)
        by (bit_vector)
        requires
            b0 == (if byte & 0x80 != 0 { 1u8 } else { 0u8 }),
            b1 == (if byte & 0x40 != 0 { 1u8 } else { 0u8 }),
            b2 == (if byte & 0x20 != 0 { 1u8 } else { 0u8 }),
            b3 == (if byte & 0x10 != 0 { 1u8 } else { 0u8 }),
            b4 == (if byte & 0x08 != 0 { 1u8 } else { 0u8 }),
            b5 == (if byte & 0x04 != 0 { 1u8 } else { 0u8 }),
            b6 == (if byte & 0x02 != 0 { 1u8 } else { 0u8 }),
            b7 == (if byte & 0x01 != 0 { 1u8 } else { 0u8 }),
    ;
}

/// Unpacking the bytes that a whole number of bytes' worth of bits were
/// packed into gives the bits back.
pub proof fn lemma_unpack_pack(bits: Seq<Bit>)
    requires
        bits.len() % 8 == 0,
    ensures
        unpack(pack(bits)) == bits,
{
    let bytes = pack(bits);
    assert(8 * bytes.len() == bits.len());
    assert forall|k: int| 0 <= k < bits.len() implies #[trigger] unpack(bytes)[k] == bits[k] by {
        let j = k / 8;
        let group = bits.subrange(8 * j, 8 * j + 8);
        lemma_bit_at_byte_of(group, k % 8);
        assert(group[k % 8] == bits[k]);
    }
    assert(unpack(bytes) =~= bits);
}

/// Packing the bits of a byte sequence gives the bytes back.
pub proof fn lemma_pack_unpack(bytes: Seq<u8>)
    ensures
        pack(unpack(bytes)) == bytes,
{
    let bits = unpack(bytes);
    assert(bits.len() / 8 == bytes.len());
    assert forall|j: int| 0 <= j < bytes.len() implies #[trigger] pack(bits)[j] == bytes[j] by {
        let group = bits.subrange(8 * j, 8 * j + 8);
        assert forall|i: int| 0 <= i < 8 implies #[trigger] group[i] == bit_at(bytes[j], i) by {
            assert((8 * j + i) / 8 == j);
            assert((8 * j + i) % 8 == i);
        }
        assert(group =~= Seq::new(8, |i: int| bit_at(bytes[j], i)));
        lemma_byte_of_bits(bytes[j]);
    }
    assert(pack(bits) =~= bytes);
}

/// Passing `n` bytes passes their `8 * n` bits.
pub proof fn lemma_unpack_skip(bytes: Seq<u8>, n: int)
    requires
        0 <= n <= bytes.len(),
    ensures
        unpack(bytes.skip(n)) == unpack(bytes).skip(8 * n),
{
    let rest = bytes.skip(n);
    assert forall|k: int| 0 <= k < 8 * rest.len() implies #[trigger] unpack(rest)[k] == unpack(
        bytes,
    ).skip(8 * n)[k] by {
        assert((8 * n + k) / 8 == n + k / 8);
        assert((8 * n + k) % 8 == k % 8);
    }
    assert(unpack(rest) =~= unpack(bytes).skip(8 * n));
}

/// Packing goes through a join that falls on a byte boundary.
pub proof fn lemma_pack_concat(a: Seq<Bit>, b: Seq<Bit>)
    requires
        a.len() % 8 == 0,
    ensures
        pack(a + b) == pack(a) + pack(b),
{
    let whole = a + b;
    let split = a.len() as int / 8;
    assert(whole.len() / 8 == a.len() / 8 + b.len() / 8);
    assert forall|j: int| 0 <= j < whole.len() / 8 implies #[trigger] pack(whole)[j] == (pack(a)
        + pack(b))[j] by {
        if j < split {
            assert(whole.subrange(8 * j, 8 * j + 8) =~= a.subrange(8 * j, 8 * j + 8));
        } else {
            let t = j - split;
            assert(whole.subrange(8 * j, 8 * j + 8) =~= b.subrange(8 * t, 8 * t + 8));
        }
    }
    assert(pack(whole) =~= pack(a) + pack(b));
}

/// Padding brings a sequence of `n` bits to the length `8 * ceil(n / 8)`.
pub proof fn lemma_padded_len(bits: Seq<Bit>, pad: Bit)
    ensures
        padded(bits, pad).len() == bits.len() + padding_len(bits.len()),
        padded(bits, pad).len() % 8 == 0,
        padded(bits, pad).len() == 8 * ((bits.len() + 7) / 8),
        padding_len(bits.len()) < 8,
        bits.len() % 8 == 0 ==> padded(bits, pad) == bits,
{
    if bits.len() % 8 == 0 {
        assert(padded(bits, pad) =~= bits);
    }
}

/// Flushing in parts.  Bytes packed from the first `cut` bits, where `cut`
/// falls on a byte boundary, followed by the bytes packed from the rest
/// after padding, are the bytes packed from all the bits after padding.
pub proof fn lemma_pack_in_parts(bits: Seq<Bit>, cut: int, pad: Bit)
    requires
        0 <= cut <= bits.len(),
        cut % 8 == 0,
    ensures
        pack(bits.take(cut)) + pack(padded(bits.skip(cut), pad)) == pack(padded(bits, pad)),
{
    assert(padding_len(bits.skip(cut).len()) == padding_len(bits.len()));
    assert(bits.take(cut) + padded(bits.skip(cut), pad) =~= padded(bits, pad));
    lemma_pack_concat(bits.take(cut), padded(bits.skip(cut), pad));
}

/// Round trip.  Bits that are padded under a pad policy, packed into bytes
/// and unpacked again come back unchanged and in order, followed by the
/// pad bits and by nothing else: `(8 - n % 8) % 8` copies of `Zero` where
/// the policy pads with zero, of `One` where it pads with one.  What
/// comes back is `8 * ceil(n / 8)` bits long.
///
/// The bytes are those that `write_buf` offers a sink for a queue of
/// `bits`, and the bits that come back are the stream of a reader whose
/// source delivers those bytes.
pub proof fn lemma_round_trip(bits: Seq<Bit>, pad_zero: bool)
    ensures
        unpack(pack(padded(bits, pad_bit(pad_zero)))) == bits + repeat(
            pad_bit(pad_zero),
            padding_len(bits.len()),
        ),
        unpack(pack(padded(bits, pad_bit(pad_zero)))).len() == 8 * ((bits.len() + 7) / 8),
        pad_zero ==> pad_bit(pad_zero) == Bit::Zero,
        !pad_zero ==> pad_bit(pad_zero) == Bit::One,
{
    lemma_padded_len(bits, pad_bit(pad_zero));
    lemma_unpack_pack(padded(bits, pad_bit(pad_zero)));
}

} // verus!
