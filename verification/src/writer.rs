//! The bit writer: a queue of pending bits in front of a byte sink.

use crate::bit::Bit;
use crate::packing::{
    byte_of, lemma_pack_concat, lemma_padded_len, pack, pad_bit, padded, padding_len, repeat,
};
use crate::stream::{accepted, flushed_once, unfailing, ByteSink, SinkCall};
use std::collections::VecDeque;
use vstd::arithmetic::power2::{lemma2_to64, lemma_pow2_unfold, pow2};
use vstd::prelude::*;

verus! {

/// The capacity, in bytes, that a writer is made with unless told otherwise.
pub const DEFAULT_BUF_SIZE: usize = 1024;

/// The number of queued bits at which `write` flushes before it queues
/// another: `DEFAULT_BUF_SIZE` bytes' worth, 8192.
pub const THRESHOLD: usize = 8192;

/// Writes bits to a byte sink.  Bits wait in a queue; `write_buf` pads the
/// queue to whole bytes and hands them to the sink, and `write` does so by
/// itself once `THRESHOLD` bits are waiting.
#[derive(Debug)]
pub struct BitWriter<W: ByteSink> {
    inner: W,
    buf: VecDeque<Bit>,
    /// Whether an incomplete last byte is filled with `Zero` (else with `One`).
    pub pad_zero: bool,
}

impl<W: ByteSink> View for BitWriter<W> {
    type V = Seq<Bit>;

    /// The queued bits, oldest first.
    closed spec fn view(&self) -> Seq<Bit> {
        self.buf@
    }
}

/// The number that `bits` spell in binary, most significant digit first.
spec fn numeral(bits: Seq<Bit>) -> nat
    decreases bits.len(),
{
    if bits.len() == 0 {
        0
    } else {
        2 * numeral(bits.drop_last()) + bits.last().weight()
    }
}

/// One more digit doubles the number and adds the digit.
proof fn lemma_numeral_step(bits: Seq<Bit>, k: int)
    requires
        0 < k <= bits.len(),
    ensures
        numeral(bits.take(k)) == 2 * numeral(bits.take(k - 1)) + bits[k - 1].weight(),
        numeral(bits.take(0)) == 0,
{
    assert(bits.take(k).drop_last() =~= bits.take(k - 1));
}

/// `n` digits spell a number below `2^n`.
proof fn lemma_numeral_bound(bits: Seq<Bit>)
    ensures
        numeral(bits) < pow2(bits.len()),
    decreases bits.len(),
{
    lemma2_to64();
    if bits.len() > 0 {
        lemma_numeral_bound(bits.drop_last());
        lemma_pow2_unfold(bits.len());
    }
}

/// Eight digits spell the byte that holds them.
proof fn lemma_numeral_byte(bits: Seq<Bit>)
    requires
        bits.len() == 8,
    ensures
        numeral(bits) == byte_of(bits),
{
    lemma_numeral_step(bits, 1);
    lemma_numeral_step(bits, 2);
    lemma_numeral_step(bits, 3);
    lemma_numeral_step(bits, 4);
    lemma_numeral_step(bits, 5);
    lemma_numeral_step(bits, 6);
    lemma_numeral_step(bits, 7);
    lemma_numeral_step(bits, 8);
    assert(bits.take(8) =~= bits);
}

/// How many times a writer that started with an empty queue has flushed by
/// itself once `n` bits have been written to it: once for every
/// `THRESHOLD` bits that another bit followed.
pub open spec fn flushes(n: nat) -> nat {
    if n == 0 {
        0
    } else {
        ((n - 1) / THRESHOLD as int) as nat
    }
}

impl<W: ByteSink> BitWriter<W> {
    /// The sink the writer writes to.
    pub closed spec fn sink(&self) -> W {
        self.inner
    }

    /// The pad policy: whether an incomplete last byte is filled with
    /// `Zero`.
    pub closed spec fn pads_zero(&self) -> bool {
        self.pad_zero
    }

    /// The queue never holds more than `THRESHOLD` bits.
    pub open spec fn wf(&self) -> bool {
        self@.len() <= THRESHOLD
    }

    /// A writer with the default capacity and nothing queued.  Nothing is
    /// written to `inner` yet.
    pub fn new(inner: W, pad_zero: bool) -> (w: Self)
        ensures
            w@ == Seq::<Bit>::empty(),
            w.pads_zero() == pad_zero,
            w.sink() == inner,
            w.wf(),
    {
        BitWriter::with_capacity(DEFAULT_BUF_SIZE, inner, pad_zero)
    }

    /// A writer whose queue has room for `capacity` bytes' worth of bits
    /// from the start.  The capacity is a matter of allocation only.
    pub fn with_capacity(capacity: usize, inner: W, pad_zero: bool) -> (w: Self)
        requires
            capacity * 8 <= isize::MAX,
        ensures
            w@ == Seq::<Bit>::empty(),
            w.pads_zero() == pad_zero,
            w.sink() == inner,
            w.wf(),
    {
        BitWriter { inner, buf: VecDeque::with_capacity(capacity * 8), pad_zero }
    }

    /// Whether no bit is queued.
    pub fn is_empty(&self) -> (r: bool)
        ensures
            r == (self@.len() == 0),
    {
        self.buf.len() == 0
    }

    /// The number of queued bits.
    pub fn buf_len(&self) -> (r: usize)
        ensures
            r == self@.len(),
    {
        self.buf.len()
    }

    /// Queues one bit.  A queue that already holds `THRESHOLD` bits is
    /// flushed first, as by `write_buf`; if that fails, the failure is
    /// returned and the bit is not queued.
    pub fn write(&mut self, bit: Bit) -> (r: Result<(), W::Error>)
        requires
            old(self).wf(),
        ensures
            final(self).wf(),
            final(self).pads_zero() == old(self).pads_zero(),
            old(self)@.len() < THRESHOLD ==> {
                &&& r is Ok
                &&& final(self)@ == old(self)@.push(bit)
                &&& final(self).sink() == old(self).sink()
            },
            old(self)@.len() == THRESHOLD ==> {
                &&& accepted(old(self).sink(), final(self).sink(), pack(old(self)@))
                &&& flushed_once(old(self).sink(), final(self).sink(), pack(old(self)@), r)
                &&& unfailing(old(self).sink()) ==> r is Ok
                &&& r is Ok ==> final(self)@ == seq![bit]
                &&& r is Err ==> final(self)@ == Seq::<Bit>::empty()
            },
    {
        if self.buf.len() == THRESHOLD {
            proof {
                lemma_padded_len(self@, pad_bit(self.pads_zero()));
            }
            match self.write_buf() {
                Ok(done) => {
                    self.buf.push_back(bit);
                    assert(self@ =~= seq![bit]);
                    Ok(done)
                },
                Err(err) => Err(err),
            }
        } else {
            self.buf.push_back(bit);
            Ok(())
        }
    }

    /// Writes `bits` in order, one `write` each, and stops at the first
    /// failure.  Bits written before a failure stay written.
    pub fn write_bits(&mut self, bits: &Vec<Bit>) -> (r: Result<(), W::Error>)
        requires
            old(self).wf(),
        ensures
            final(self).wf(),
            final(self).pads_zero() == old(self).pads_zero(),
            W::modelled() ==> {
                &&& final(self).sink().reliable() == old(self).sink().reliable()
                &&& old(self).sink().written().is_prefix_of(final(self).sink().written())
                &&& old(self).sink().history().is_prefix_of(final(self).sink().history())
                &&& match r {
                    Ok(_) => final(self).sink().history().len() == old(self).sink().history().len()
                        + 2 * flushes((old(self)@ + bits@).len()),
                    Err(e) => {
                        &&& final(self).sink().history().len() > 0
                        &&& final(self).sink().history().last().failure() == Some(e)
                    },
                }
            },
            old(self)@.len() + bits@.len() <= THRESHOLD ==> r is Ok && final(self).sink() == old(
                self,
            ).sink(),
            ({
                let all = old(self)@ + bits@;
                let cut = THRESHOLD * flushes(all.len());
                &&& r is Ok ==> final(self)@ == all.skip(cut)
                &&& r is Err ==> final(self)@ == Seq::<Bit>::empty()
                &&& unfailing(old(self).sink()) ==> {
                    &&& r is Ok
                    &&& final(self).sink().written() == old(self).sink().written() + pack(
                        all.take(cut),
                    )
                }
            }),
    {
        let mut i: usize = 0;
        assert(old(self)@ + bits@.take(0) =~= old(self)@);
        assert(old(self)@.skip(0) =~= old(self)@);
        assert(old(self)@.take(0) =~= Seq::<Bit>::empty());
        assert(old(self).sink().written() + pack(Seq::<Bit>::empty()) =~= old(
            self,
        ).sink().written());
        while i < bits.len()
            invariant
                i <= bits@.len(),
                self.wf(),
                self.pads_zero() == old(self).pads_zero(),
                W::modelled() ==> {
                    &&& self.sink().reliable() == old(self).sink().reliable()
                    &&& old(self).sink().written().is_prefix_of(self.sink().written())
                    &&& old(self).sink().history().is_prefix_of(self.sink().history())
                    &&& self.sink().history().len() == old(self).sink().history().len() + 2
                        * flushes((old(self)@ + bits@.take(i as int)).len())
                },
                old(self)@.len() + i <= THRESHOLD ==> self.sink() == old(self).sink(),
                ({
                    let all = old(self)@ + bits@.take(i as int);
                    let cut = THRESHOLD * flushes(all.len());
                    &&& cut <= all.len()
                    &&& self@ == all.skip(cut)
                    &&& unfailing(old(self).sink()) ==> self.sink().written() == old(
                        self,
                    ).sink().written() + pack(all.take(cut))
                }),
            decreases bits@.len() - i,
        {
            let ghost all = old(self)@ + bits@.take(i as int);
            let ghost cut = THRESHOLD * flushes(all.len());
            let ghost next = old(self)@ + bits@.take(i + 1);
            let ghost before = self.sink();
            let bit = bits[i];
            assert(next =~= all.push(bit));
            match self.write(bit) {
                Ok(_) => {},
                Err(err) => {
                    return Err(err);
                },
            }
            proof {
                if all.len() - cut == THRESHOLD {
                    assert(THRESHOLD * flushes(next.len()) == all.len());
                    assert(cut % 8 == 0);
                    lemma_pack_concat(all.take(cut), all.skip(cut));
                    assert(all.take(cut) + all.skip(cut) =~= all);
                    assert(next.take(all.len() as int) =~= all);
                    assert(next.skip(all.len() as int) =~= seq![bit]);
                    if unfailing(before) {
                        let grown = pack(all.skip(cut));
                        assert(grown.take(grown.len() as int) =~= grown);
                    }
                } else {
                    assert(flushes(next.len()) == flushes(all.len()));
                    assert(next.skip(cut) =~= all.skip(cut).push(bit));
                    assert(next.take(cut) =~= all.take(cut));
                }
            }
            i += 1;
        }
        assert(bits@.take(bits@.len() as int) =~= bits@);
        Ok(())
    }

    /// Pads the queue to whole bytes, hands the bytes to the sink in one
    /// `write` and, if that succeeded, flushes the sink once.  The queue
    /// is empty afterwards, whatever the sink did: what a short write or a
    /// failure leaves out is lost.  The failure of either call is returned
    /// as it came, and nothing is tried again.
    pub fn write_buf(&mut self) -> (r: Result<(), W::Error>)
        ensures
            final(self)@ == Seq::<Bit>::empty(),
            final(self).wf(),
            final(self).pads_zero() == old(self).pads_zero(),
            accepted(
                old(self).sink(),
                final(self).sink(),
                pack(padded(old(self)@, pad_bit(old(self).pads_zero()))),
            ),
            flushed_once(
                old(self).sink(),
                final(self).sink(),
                pack(padded(old(self)@, pad_bit(old(self).pads_zero()))),
                r,
            ),
            unfailing(old(self).sink()) ==> r is Ok,
    {
        proof {
            lemma_padded_len(self@, pad_bit(self.pads_zero()));
        }
        writer_pad_buf(self);
        let bytes = writer_buf_to_bytes(self);
        assert(self@ =~= Seq::<Bit>::empty());
        match self.inner.write(bytes.as_slice()) {
            Ok(_) => self.inner.flush(),
            Err(err) => {
                assert(W::modelled() ==> self.sink().written() =~= old(self).sink().written()
                    + bytes@.take(0));
                Err(err)
            },
        }
    }

    /// Drops the newest bits until the queue ends on a byte boundary.  The
    /// dropped bits are never written.
    pub fn discard_non_byte(&mut self)
        ensures
            final(self)@ == old(self)@.take(8 * (old(self)@.len() as int / 8)),
            final(self).sink() == old(self).sink(),
            final(self).pads_zero() == old(self).pads_zero(),
            old(self).wf() ==> final(self).wf(),
    {
        while self.buf.len() % 8 != 0
            invariant
                8 * (old(self)@.len() as int / 8) <= self@.len() <= old(self)@.len(),
                self@ == old(self)@.take(self@.len() as int),
                self.sink() == old(self).sink(),
                self.pads_zero() == old(self).pads_zero(),
            decreases self@.len(),
        {
            let _ = self.buf.pop_back();
        }
    }

    /// Ends the writer: one last `write_buf`, whose outcome is not
    /// reported, and the sink is handed back.
    pub fn finish(self) -> (sink: W)
        ensures
            accepted(self.sink(), sink, pack(padded(self@, pad_bit(self.pads_zero())))),
            exists|r: Result<(), W::Error>| #[trigger]
                flushed_once(self.sink(), sink, pack(padded(self@, pad_bit(self.pads_zero()))), r),
    {
        let mut writer = self;
        let _ = writer.write_buf();
        writer.inner
    }

    /// The pad policy: whether an incomplete last byte is filled with
    /// `Zero`.
    pub fn pad_zero(&self) -> (r: bool)
        ensures
            r == self.pads_zero(),
    {
        self.pad_zero
    }

    /// Changes the pad policy.  Neither the queue nor the sink is touched.
    pub fn set_pad_zero(&mut self, pad_zero: bool)
        ensures
            final(self)@ == old(self)@,
            final(self).sink() == old(self).sink(),
            final(self).pads_zero() == pad_zero,
    {
        self.pad_zero = pad_zero;
    }

    /// The sink, to look at.
    pub fn get_ref(&self) -> (sink: &W)
        ensures
            *sink == self.sink(),
    {
        &self.inner
    }
}

/// Takes every complete byte off the front of the queue and returns the
/// bytes in order.  Up to seven bits stay behind.
pub fn writer_buf_to_bytes<W: ByteSink>(writer: &mut BitWriter<W>) -> (bytes: Vec<u8>)
    ensures
        bytes@ == pack(old(writer)@),
        final(writer)@ == old(writer)@.skip(8 * (old(writer)@.len() as int / 8)),
        final(writer).sink() == old(writer).sink(),
        final(writer).pads_zero() == old(writer).pads_zero(),
        old(writer).wf() ==> final(writer).wf(),
{
    let mut bytes: Vec<u8> = Vec::new();
    while writer.buf.len() >= 8
        invariant
            8 * bytes@.len() <= old(writer)@.len(),
            writer@ == old(writer)@.skip(8 * bytes@.len() as int),
            bytes@ == pack(old(writer)@).take(bytes@.len() as int),
            writer.sink() == old(writer).sink(),
            writer.pads_zero() == old(writer).pads_zero(),
        decreases writer@.len(),
    {
        let ghost queue = writer@;
        let mut byte: u8 = 0;
        for i in 0..8
            invariant
                queue.len() >= 8,
                writer@ == queue.skip(i as int),
                i < 8 ==> byte == 2 * numeral(queue.take(i as int)) && byte < 255,
                i == 8 ==> byte == numeral(queue.take(8)),
                writer.sink() == old(writer).sink(),
                writer.pads_zero() == old(writer).pads_zero(),
        {
            let bit = writer.buf.pop_front().unwrap().value();
            proof {
                lemma_numeral_step(queue, i + 1);
                lemma_numeral_bound(queue.take(i as int));
                lemma_numeral_bound(queue.take(i + 1));
                lemma2_to64();
                assert(bit == queue[i as int].weight());
            }
            let ghost even = byte;
            byte |= bit;
            assert(byte == even + bit) by (bit_vector)
                requires
                    byte == even | bit,
                    even % 2 == 0,
                    bit <= 1,
            ;
            if i < 7 {
                let ghost low = byte;
                byte = byte << 1;
                assert(byte == 2 * low) by (bit_vector)
                    requires
                        byte == low << 1,
                        low < 128,
                ;
            }
            assert(writer@ == queue.skip(i + 1));
        }
        proof {
            let j = bytes@.len() as int;
            let group = old(writer)@.subrange(8 * j, 8 * j + 8);
            assert(queue.take(8) =~= group);
            lemma_numeral_byte(group);
            assert(writer@ =~= old(writer)@.skip(8 * (j + 1)));
        }
        bytes.push(byte);
        assert(bytes@ =~= pack(old(writer)@).take(bytes@.len() as int));
    }
    assert(bytes@ =~= pack(old(writer)@));
    bytes
}

/// Fills the queue up to the next whole byte with the pad bit.  A queue
/// that ends on a byte boundary stays as it is.
pub fn writer_pad_buf<W: ByteSink>(writer: &mut BitWriter<W>)
    ensures
        final(writer)@ == padded(old(writer)@, pad_bit(old(writer).pads_zero())),
        final(writer).sink() == old(writer).sink(),
        final(writer).pads_zero() == old(writer).pads_zero(),
        old(writer).wf() ==> final(writer).wf(),
{
    let pad = match writer.pad_zero {
        true => Bit::Zero,
        false => Bit::One,
    };
    let ghost start = writer@.len() as int;
    let ghost target = start + padding_len(writer@.len());
    assert(target % 8 == 0 && start <= target < start + 8);
    assert(writer@ =~= old(writer)@ + repeat(pad, 0));
    while writer.buf.len() % 8 != 0
        invariant
            start == old(writer)@.len(),
            target == start + padding_len(old(writer)@.len()),
            target % 8 == 0,
            writer@.len() <= target,
            writer@ == old(writer)@ + repeat(pad, (writer@.len() - start) as nat),
            pad == pad_bit(old(writer).pads_zero()),
            writer.sink() == old(writer).sink(),
            writer.pads_zero() == old(writer).pads_zero(),
        decreases target - writer@.len(),
    {
        let ghost before = writer@;
        writer.buf.push_back(pad);
        assert(writer@ =~= old(writer)@ + repeat(pad, (before.len() + 1 - start) as nat));
    }
}

} // verus!
