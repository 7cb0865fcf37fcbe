//! The bit reader: a cursor that walks the bits of a byte source.

use crate::bit::Bit;
use crate::packing::{bit_at, lemma_unpack_skip, mask, unpack};
use crate::stream::{ByteSource, SourceCall};
use vstd::prelude::*;

verus! {

/// Why a read returned no bit.
#[derive(Debug, PartialEq, Eq)]
pub enum ReadError<E> {
    /// The snapshot is empty: there are no more bits.
    EndOfStream,
    /// The source failed.  Its error is passed on as it came.
    Source(E),
}

/// The most bytes a snapshot holds, so that every bit position in it fits
/// a `usize`.  A longer view is cut to this length and the rest is
/// fetched again later.
pub const MAX_SNAPSHOT: usize = usize::MAX / 8;

/// The length of the snapshot that a view of `shown` bytes is kept as.
pub open spec fn snapshot_len(shown: nat) -> nat {
    if shown <= MAX_SNAPSHOT {
        shown
    } else {
        MAX_SNAPSHOT as nat
    }
}

/// Reads bits from a byte source.
///
/// The reader keeps a snapshot, its own copy of the bytes that the source
/// showed last, and a bit position in it.  When the last bit of the
/// snapshot has been read, the reader passes the snapshot's bytes in the
/// source and fetches the next snapshot at once.
///
/// A new reader holds no snapshot, though making it fetches from the
/// source once to let a failure show early.  The first `read` fetches
/// again, and that snapshot is the first to be read from.
///
/// A fetch that fails changes neither the snapshot nor the position: the
/// snapshot is replaced only by a successful fetch.  The reader remembers
/// that the snapshot's bytes are passed already, and the next fetch does
/// not pass them again.
#[derive(Debug)]
pub struct BitReader<R: ByteSource> {
    inner: R,
    buf: Vec<u8>,
    pos: usize,
    init_read: bool,
    passed: bool,
}

/// The first bit of a stream that starts inside a snapshot is the bit at
/// that position of the snapshot; what follows it starts one position
/// on, and after the snapshot's last bit it is the bits beyond the
/// snapshot.
proof fn lemma_stream_head(snapshot: Seq<u8>, rest: Seq<u8>, pos: int)
    requires
        0 <= pos < 8 * snapshot.len(),
    ensures
        unpack(snapshot + rest).skip(pos).len() > 0,
        unpack(snapshot + rest).skip(pos)[0] == bit_at(snapshot[pos / 8], pos % 8),
        unpack(snapshot + rest).skip(pos).skip(1) == unpack(snapshot + rest).skip(pos + 1),
        pos + 1 == 8 * snapshot.len() ==> unpack(snapshot + rest).skip(pos).skip(1) == unpack(rest),
{
    let all = snapshot + rest;
    assert(all[pos / 8] == snapshot[pos / 8]);
    assert(unpack(all).skip(pos)[0] == unpack(all)[pos]);
    assert(unpack(all).skip(pos).skip(1) =~= unpack(all).skip(pos + 1));
    if pos + 1 == 8 * snapshot.len() {
        lemma_unpack_skip(all, snapshot.len() as int);
        assert(all.skip(snapshot.len() as int) =~= rest);
    }
}

/// A snapshot taken from the start of the bytes beyond the last one,
/// together with what lies beyond it, is those bytes again.
proof fn lemma_refilled(before: Seq<u8>, beyond: Seq<u8>, snapshot: Seq<u8>)
    requires
        snapshot.len() <= beyond.len(),
        snapshot =~= beyond.take(snapshot.len() as int),
    ensures
        snapshot + beyond.skip(snapshot.len() as int) == beyond,
        before.len() == 0 ==> unpack(before + beyond).skip(0) == unpack(beyond).skip(0),
{
    assert(snapshot + beyond.skip(snapshot.len() as int) =~= beyond);
    if before.len() == 0 {
        assert(before + beyond =~= beyond);
    }
}

impl<R: ByteSource> BitReader<R> {
    /// The source the reader reads from.
    pub closed spec fn source(&self) -> R {
        self.inner
    }

    /// The bytes of the current snapshot.
    pub closed spec fn snapshot(&self) -> Seq<u8> {
        self.buf@
    }

    /// The position of the next bit, counted from the start of the snapshot.
    pub closed spec fn position(&self) -> nat {
        self.pos as nat
    }

    /// Whether a snapshot has been fetched for reading.
    pub closed spec fn loaded(&self) -> bool {
        self.init_read
    }

    /// Whether the snapshot's bytes have been passed in the source
    /// already, by a fetch that then failed.
    pub closed spec fn passed(&self) -> bool {
        self.passed
    }

    /// The bytes a modelled source has pending beyond the snapshot.
    pub open spec fn rest(&self) -> Seq<u8> {
        if self.passed() {
            self.source().pending()
        } else {
            self.source().pending().skip(self.snapshot().len() as int)
        }
    }

    /// The calls that took a modelled source from its state in `pre` to
    /// its state in `post`, and the outcome `r` they add up to: one
    /// `consume` of the snapshot's length, unless its bytes were passed
    /// already, and then one `fill` and no more.  The outcome is the
    /// fill's failure as it came, if it failed.
    pub open spec fn fetched_once(pre: Self, post: Self, r: Result<(), R::Error>) -> bool {
        let before = if pre.passed() {
            pre.source().history()
        } else {
            pre.source().history().push(SourceCall::Consume { n: pre.snapshot().len() })
        };
        let after = post.source().history();
        R::modelled() ==> {
            &&& after.len() == before.len() + 1
            &&& after.drop_last() =~= before
            &&& after.last() matches SourceCall::Fill { result }
            &&& match result {
                Ok(_) => r is Ok,
                Err(e) => r == Err::<(), R::Error>(e),
            }
        }
    }

    /// The bit at the current position of the snapshot.
    pub open spec fn current_bit(&self) -> Bit {
        bit_at(self.snapshot()[self.position() as int / 8], self.position() as int % 8)
    }

    /// How many bits the reader can hand out before it has to turn to the
    /// source: all that the snapshot still holds but the last.
    pub open spec fn buffered(&self) -> nat {
        if self.loaded() && self.snapshot().len() > 0 {
            (8 * self.snapshot().len() - self.position() - 1) as nat
        } else {
            0
        }
    }

    /// Every bit still to come from a modelled source, in reading order:
    /// those of the snapshot from the position on, then those of the bytes
    /// beyond it.
    pub open spec fn stream(&self) -> Seq<Bit> {
        unpack(self.snapshot() + self.rest()).skip(self.position() as int)
    }

    /// The reader's invariant.  The position lies inside the snapshot,
    /// or is 0 where there is none.  Over a modelled source, a snapshot
    /// whose bytes are not passed yet is the start of what the source has
    /// pending, and once fetched it is all that the source has shown, up
    /// to `MAX_SNAPSHOT` bytes; a fetched snapshot is empty only at the
    /// end of the stream.
    pub open spec fn wf(&self) -> bool {
        &&& self.snapshot().len() <= MAX_SNAPSHOT
        &&& self.snapshot().len() == 0 ==> self.position() == 0
        &&& self.snapshot().len() > 0 ==> self.position() < 8 * self.snapshot().len()
        &&& !self.loaded() ==> self.snapshot().len() == 0
        &&& R::modelled() ==> {
            &&& !self.passed() ==> {
                &&& self.snapshot().len() <= self.source().shown()
                &&& self.snapshot().len() <= self.source().pending().len()
                &&& self.snapshot() =~= self.source().pending().take(
                    self.snapshot().len() as int,
                )
                &&& self.loaded() ==> self.snapshot().len() == snapshot_len(
                    self.source().shown(),
                )
            }
            &&& self.loaded() && self.snapshot().len() == 0 ==> self.source().pending().len() == 0
        }
    }

    /// A reader over `inner`.  The source is asked for a view once, and
    /// its failure is the only way for this to fail; the view itself is
    /// not kept, so the new reader holds no snapshot.
    pub fn new(inner: R) -> (r: Result<BitReader<R>, R::Error>)
        ensures
            r matches Ok(reader) ==> {
                &&& reader.wf()
                &&& !reader.loaded()
                &&& !reader.passed()
                &&& reader.snapshot().len() == 0
                &&& reader.position() == 0
                &&& R::modelled() ==> {
                    &&& reader.source().pending() == inner.pending()
                    &&& reader.source().reliable() == inner.reliable()
                    &&& reader.stream() == unpack(inner.pending())
                    &&& reader.source().history().len() == inner.history().len() + 1
                    &&& reader.source().history().drop_last() == inner.history()
                    &&& reader.source().history().last() matches SourceCall::Fill { result }
                        && result is Ok
                    &&& reader.source().shown() == 0 <==> inner.pending().len() == 0
                }
            },
            R::modelled() && inner.reliable() ==> r is Ok,
    {
        let mut source = inner;
        match source.fill() {
            Ok(_) => {
                let reader = BitReader {
                    inner: source,
                    buf: Vec::new(),
                    pos: 0,
                    init_read: false,
                    passed: false,
                };
                assert(reader.snapshot() + reader.rest() =~= reader.source().pending());
                assert(reader.stream() =~= unpack(reader.source().pending()));
                assert(R::modelled() ==> reader.source().history().drop_last()
                    =~= inner.history());
                Ok(reader)
            },
            Err(err) => Err(err),
        }
    }

    /// Reads the next bit.
    ///
    /// A reader that has fetched no snapshot yet fetches one first.  With
    /// an empty snapshot the read fails with `EndOfStream`.  Otherwise the
    /// bit at the position is taken from the snapshot, most significant
    /// bit of a byte first, and the position moves on; from the last bit
    /// of the snapshot it moves to the first bit of the next snapshot,
    /// which is fetched at once.  The fetch is made once.  If it fails,
    /// its failure is returned in place of the bit and the reader stays
    /// where it was, so that the bit is there for the next read.
    #[verifier::spinoff_prover]
    pub fn read(&mut self) -> (r: Result<Bit, ReadError<R::Error>>)
        requires
            old(self).wf(),
        ensures
            final(self).wf(),
            old(self).loaded() && old(self).snapshot().len() == 0 ==> {
                &&& r == Err::<Bit, ReadError<R::Error>>(ReadError::EndOfStream)
                &&& *final(self) == *old(self)
            },
            old(self).buffered() > 0 ==> {
                &&& r == Ok::<Bit, ReadError<R::Error>>(old(self).current_bit())
                &&& final(self).snapshot() == old(self).snapshot()
                &&& final(self).position() == old(self).position() + 1
                &&& final(self).source() == old(self).source()
                &&& final(self).loaded()
                &&& final(self).passed() == old(self).passed()
            },
            match r {
                Ok(bit) => {
                    &&& final(self).loaded()
                    &&& old(self).loaded() ==> {
                        &&& bit == old(self).current_bit()
                        &&& old(self).buffered() == 0 ==> final(self).position() == 0
                    }
                    &&& !old(self).loaded() ==> {
                        &&& final(self).snapshot().len() > 0
                        &&& final(self).position() == 1
                        &&& bit == bit_at(final(self).snapshot()[0], 0)
                    }
                },
                Err(ReadError::EndOfStream) => {
                    &&& final(self).loaded()
                    &&& final(self).snapshot().len() == 0
                    &&& old(self).loaded() ==> old(self).snapshot().len() == 0
                },
                Err(ReadError::Source(_)) => {
                    &&& final(self).snapshot() == old(self).snapshot()
                    &&& final(self).position() == old(self).position()
                    &&& final(self).loaded() == old(self).loaded()
                    &&& final(self).passed()
                    &&& old(self).buffered() == 0
                },
            },
            old(self).buffered() == 0 && !(old(self).loaded() && old(self).snapshot().len() == 0)
                ==> Self::fetched_once(
                *old(self),
                *final(self),
                match r {
                    Err(ReadError::Source(e)) => Err(e),
                    _ => Ok(()),
                },
            ),
            R::modelled() ==> {
                &&& final(self).source().reliable() == old(self).source().reliable()
                &&& match r {
                    Ok(bit) => {
                        &&& old(self).stream().len() > 0
                        &&& bit == old(self).stream()[0]
                        &&& final(self).stream() == old(self).stream().skip(1)
                    },
                    Err(ReadError::EndOfStream) => {
                        &&& old(self).stream().len() == 0
                        &&& final(self).stream() == old(self).stream()
                    },
                    Err(ReadError::Source(_)) => {
                        &&& !old(self).source().reliable()
                        &&& final(self).stream() == old(self).stream()
                    },
                }
            },
    {
        if !self.init_read {
            match reader_fill_buf(self) {
                Ok(_) => {
                    assert(R::modelled() ==> self.stream() == old(self).stream()) by {
                        if R::modelled() {
                            lemma_refilled(old(self).snapshot(), old(self).rest(), self.snapshot());
                            assert(self.snapshot() + self.rest() == old(self).rest());
                        }
                    }
                },
                Err(err) => {
                    assert(R::modelled() ==> self.rest() == old(self).rest());
                    return Err(ReadError::Source(err));
                },
            }
        }
        if self.is_empty() {
            assert(R::modelled() ==> self.stream().len() == 0) by {
                if R::modelled() {
                    assert(self.snapshot() + self.rest() =~= Seq::<u8>::empty());
                }
            }
            return Err(ReadError::EndOfStream);
        }
        let ghost start = *self;
        let mut byte_offset = self.pos / 8;
        let mut bit_offset = self.pos % 8;
        let byte = self.buf[byte_offset];
        let shift: u8 = (7 - bit_offset) as u8;
        let m: u8 = 1u8 << shift;
        assert(m == mask(bit_offset as int)) by {
            assert(m == (if shift == 7 {
                0x80u8
            } else if shift == 6 {
                0x40u8
            } else if shift == 5 {
                0x20u8
            } else if shift == 4 {
                0x10u8
            } else if shift == 3 {
                0x08u8
            } else if shift == 2 {
                0x04u8
            } else if shift == 1 {
                0x02u8
            } else {
                0x01u8
            })) by (bit_vector)
                requires
                    m == 1u8 << shift,
                    shift < 8,
            ;
        }
        let bit = Bit::from(byte & m);
        assert(bit == start.current_bit());
        proof {
            lemma_stream_head(start.snapshot(), start.rest(), start.position() as int);
        }
        bit_offset += 1;
        if bit_offset > 7 {
            match reader_update(self, byte_offset + 1) {
                Ok(byte_o) => {
                    byte_offset = byte_o;
                },
                Err(err) => {
                    assert(R::modelled() ==> self.rest() == start.rest());
                    return Err(ReadError::Source(err));
                },
            }
            bit_offset = 0;
        }
        self.pos = byte_offset * 8 + bit_offset;
        assert(R::modelled() ==> self.stream() == start.stream().skip(1)) by {
            if R::modelled() {
                if start.position() + 1 == 8 * start.snapshot().len() {
                    lemma_refilled(start.snapshot(), start.rest(), self.snapshot());
                    assert(self.snapshot() + self.rest() == start.rest());
                    assert(self.stream() =~= unpack(start.rest()));
                }
            }
        }
        Ok(bit)
    }

    /// Reads `n` bits, one `read` each, and returns them in order.  The
    /// first failure ends the call and is returned alone: the bits read
    /// before it are dropped.
    pub fn read_multi(&mut self, n: usize) -> (r: Result<Vec<Bit>, ReadError<R::Error>>)
        requires
            old(self).wf(),
        ensures
            final(self).wf(),
            match r {
                Ok(bits) => bits@.len() == n,
                Err(ReadError::EndOfStream) => {
                    &&& final(self).loaded()
                    &&& final(self).snapshot().len() == 0
                },
                Err(ReadError::Source(_)) => final(self).passed(),
            },
            n <= old(self).buffered() ==> {
                &&& r matches Ok(bits) && bits@ == unpack(old(self).snapshot()).subrange(
                    old(self).position() as int,
                    old(self).position() + n,
                )
                &&& final(self).snapshot() == old(self).snapshot()
                &&& final(self).position() == old(self).position() + n
                &&& final(self).source() == old(self).source()
                &&& final(self).loaded() == old(self).loaded()
                &&& final(self).passed() == old(self).passed()
            },
            R::modelled() ==> {
                &&& final(self).source().reliable() == old(self).source().reliable()
                &&& old(self).source().history().is_prefix_of(final(self).source().history())
                &&& match r {
                    Ok(bits) => {
                        &&& n <= old(self).stream().len()
                        &&& bits@ == old(self).stream().take(n as int)
                        &&& final(self).stream() == old(self).stream().skip(n as int)
                    },
                    Err(ReadError::EndOfStream) => {
                        &&& old(self).stream().len() < n
                        &&& final(self).stream().len() == 0
                    },
                    Err(ReadError::Source(e)) => {
                        let gone = old(self).stream().len() - final(self).stream().len();
                        &&& !old(self).source().reliable()
                        &&& 0 <= gone < n
                        &&& final(self).stream() == old(self).stream().skip(gone)
                        &&& final(self).source().history().len() > 0
                        &&& final(self).source().history().last() == (SourceCall::Fill {
                            result: Err::<Seq<u8>, R::Error>(e),
                        })
                    },
                }
            },
    {
        let mut output: Vec<Bit> = Vec::new();
        let mut i: usize = 0;
        assert(old(self).stream().skip(0) =~= old(self).stream());
        while i < n
            invariant
                i <= n,
                self.wf(),
                output@.len() == i,
                n <= old(self).buffered() ==> {
                    &&& self.snapshot() == old(self).snapshot()
                    &&& self.position() == old(self).position() + i
                    &&& self.source() == old(self).source()
                    &&& self.loaded() == old(self).loaded()
                    &&& self.passed() == old(self).passed()
                    &&& output@ == unpack(old(self).snapshot()).subrange(
                        old(self).position() as int,
                        old(self).position() + i,
                    )
                },
                R::modelled() ==> {
                    &&& self.source().reliable() == old(self).source().reliable()
                    &&& old(self).source().history().is_prefix_of(self.source().history())
                    &&& i <= old(self).stream().len()
                    &&& output@ == old(self).stream().take(i as int)
                    &&& self.stream() == old(self).stream().skip(i as int)
                },
            decreases n - i,
        {
            let ghost before = *self;
            match self.read() {
                Ok(bit) => {
                    output.push(bit);
                },
                Err(err) => {
                    return Err(err);
                },
            }
            proof {
                if R::modelled() {
                    let s = old(self).stream();
                    assert(s.take(i + 1) =~= s.take(i as int).push(s[i as int]));
                    assert(self.stream() =~= s.skip(i + 1));
                }
                if n <= old(self).buffered() {
                    let u = unpack(old(self).snapshot());
                    let k = old(self).position() as int;
                    assert(u.subrange(k, k + i + 1) =~= u.subrange(k, k + i).push(u[k + i]));
                }
            }
            i += 1;
        }
        Ok(output)
    }

    /// Whether the snapshot is empty.  This is so for a reader that holds
    /// no snapshot yet, whatever the source holds; once a snapshot has been
    /// fetched from a modelled source it is so only at the end of the
    /// stream.
    pub fn is_empty(&self) -> (r: bool)
        ensures
            r == (self.snapshot().len() == 0),
            !self.loaded() && self.wf() ==> r,
            R::modelled() && self.loaded() && self.wf() ==> r == (self.stream().len() == 0),
    {
        self.buf.len() == 0
    }

    /// The length of the snapshot in bytes.
    pub fn buf_len(&self) -> (r: usize)
        ensures
            r == self.snapshot().len(),
    {
        self.buf.len()
    }

    /// The source, to look at.
    pub fn get_ref(&self) -> (source: &R)
        ensures
            *source == self.source(),
    {
        &self.inner
    }
}

/// Passes the snapshot's bytes in the source, unless a fetch that failed
/// has passed them already, and fetches the next snapshot, once, to be
/// read from its first bit.  If the fetch fails, its failure is returned as
/// it came and the reader keeps its snapshot and its position.
pub fn reader_fill_buf<R: ByteSource>(reader: &mut BitReader<R>) -> (r: Result<(), R::Error>)
    requires
        old(reader).wf(),
    ensures
        final(reader).wf(),
        match r {
            Ok(_) => {
                &&& final(reader).loaded()
                &&& final(reader).position() == 0
                &&& !final(reader).passed()
            },
            Err(_) => {
                &&& final(reader).snapshot() == old(reader).snapshot()
                &&& final(reader).position() == old(reader).position()
                &&& final(reader).loaded() == old(reader).loaded()
                &&& final(reader).passed()
            },
        },
        BitReader::fetched_once(*old(reader), *final(reader), r),
        R::modelled() ==> {
            &&& final(reader).source().pending() == old(reader).rest()
            &&& final(reader).source().reliable() == old(reader).source().reliable()
            &&& old(reader).source().reliable() ==> r is Ok
        },
{
    if !reader.passed {
        let n = reader.buf.len();
        reader.inner.consume(n);
        reader.passed = true;
    }
    match reader.inner.fill() {
        Ok(view) => {
            let mut view = view;
            if view.len() > MAX_SNAPSHOT {
                view.truncate(MAX_SNAPSHOT);
            }
            assert(R::modelled() ==> view@ =~= reader.source().pending().take(view@.len() as int));
            reader.buf = view;
            reader.pos = 0;
            reader.init_read = true;
            reader.passed = false;
            Ok(())
        },
        Err(err) => Err(err),
    }
}

/// Settles where reading goes on after the byte before `byte_offset`:
/// at `byte_offset` while that lies in the snapshot, else at byte 0 of the
/// next snapshot, which is fetched as by `reader_fill_buf`.
pub fn reader_update<R: ByteSource>(reader: &mut BitReader<R>, byte_offset: usize) -> (r: Result<
    usize,
    R::Error,
>)
    requires
        old(reader).wf(),
    ensures
        final(reader).wf(),
        byte_offset < old(reader).snapshot().len() ==> r == Ok::<usize, R::Error>(byte_offset)
            && *final(reader) == *old(reader),
        byte_offset >= old(reader).snapshot().len() ==> {
            &&& match r {
                Ok(at) => {
                    &&& at == 0
                    &&& final(reader).loaded()
                    &&& final(reader).position() == 0
                    &&& !final(reader).passed()
                },
                Err(_) => {
                    &&& final(reader).snapshot() == old(reader).snapshot()
                    &&& final(reader).position() == old(reader).position()
                    &&& final(reader).loaded() == old(reader).loaded()
                    &&& final(reader).passed()
                },
            }
            &&& BitReader::fetched_once(
                *old(reader),
                *final(reader),
                match r {
                    Ok(_) => Ok(()),
                    Err(e) => Err(e),
                },
            )
            &&& R::modelled() ==> {
                &&& final(reader).source().pending() == old(reader).rest()
                &&& final(reader).source().reliable() == old(reader).source().reliable()
                &&& old(reader).source().reliable() ==> r is Ok
            }
        },
{
    let buf_len = reader.buf.len();
    if byte_offset >= buf_len {
        match reader_fill_buf(reader) {
            Ok(_) => {
                reader.pos = 0;
                Ok(0)
            },
            Err(err) => Err(err),
        }
    } else {
        Ok(byte_offset)
    }
}

} // verus!
