//! The two byte streams a bit cursor sits on: a buffered source to read
//! from and a sink to write to.
//!
//! Each trait carries a model of the stream in specification functions, so
//! that the reader and the writer can say what they read and wrote, which
//! calls they made and what became of each answer.  A type that keeps to
//! the model says so in `modelled`, and its methods are then held to the
//! contracts below; the streams in [`crate::memory`] are such types.  A
//! type that says nothing, as one written outside verification does,
//! promises nothing, and nothing is assumed of it.

use vstd::prelude::*;

verus! {

/// One call of a source, with its answer.
pub enum SourceCall<E> {
    /// A `fill`, with the view it returned or the error it failed with.
    Fill { result: Result<Seq<u8>, E> },
    /// A `consume` of `n` bytes.
    Consume { n: nat },
}

/// One call of a sink, with its answer.
pub enum SinkCall<E> {
    /// A `write` that offered `offered`, with the number of bytes it
    /// accepted or the error it failed with.
    Write { offered: Seq<u8>, result: Result<usize, E> },
    /// A `flush`, with its outcome.
    Flush { outcome: Result<(), E> },
}

impl<E> SinkCall<E> {
    /// The error the call failed with, if it failed.
    pub open spec fn failure(self) -> Option<E> {
        match self {
            SinkCall::Write { offered, result: Err(e) } => Some(e),
            SinkCall::Flush { outcome: Err(e) } => Some(e),
            _ => None,
        }
    }
}

/// A buffered source of bytes.
///
/// `fill` hands out a view of the next bytes without passing them;
/// `consume` passes bytes that a view has shown.
pub trait ByteSource {
    /// What a failed `fill` returns.
    type Error;

    /// Whether this type keeps to the model.
    open spec fn modelled() -> bool {
        false
    }

    /// Every byte the source has still to deliver, in order.
    open spec fn pending(&self) -> Seq<u8> {
        Seq::empty()
    }

    /// How many of the pending bytes the latest view has shown and
    /// `consume` has not yet passed.
    open spec fn shown(&self) -> nat {
        0
    }

    /// Whether `fill` never fails.
    open spec fn reliable(&self) -> bool {
        false
    }

    /// Every call made so far, oldest first.
    open spec fn history(&self) -> Seq<SourceCall<Self::Error>> {
        Seq::empty()
    }

    /// Returns a copy of the bytes that are ready, which are the first of
    /// the pending ones, and passes none of them.  The view is empty only at
    /// the end of the stream.  After a failure nothing counts as shown.
    fn fill(&mut self) -> (r: Result<Vec<u8>, Self::Error>)
        ensures
            Self::modelled() ==> {
                &&& final(self).pending() == old(self).pending()
                &&& final(self).reliable() == old(self).reliable()
                &&& old(self).reliable() ==> r is Ok
                &&& final(self).history() == old(self).history().push(
                    SourceCall::Fill {
                        result: match r {
                            Ok(view) => Ok(view@),
                            Err(e) => Err(e),
                        },
                    },
                )
                &&& match r {
                    Ok(view) => {
                        &&& view@.len() <= old(self).pending().len()
                        &&& view@ == old(self).pending().take(view@.len() as int)
                        &&& (view@.len() == 0 <==> old(self).pending().len() == 0)
                        &&& final(self).shown() == view@.len()
                    },
                    Err(_) => final(self).shown() == 0,
                }
            },
    ;

    /// Passes the first `n` pending bytes, which a view must have shown.
    fn consume(&mut self, n: usize)
        requires
            Self::modelled() ==> n <= old(self).shown() && n <= old(self).pending().len(),
        ensures
            Self::modelled() ==> {
                &&& final(self).pending() == old(self).pending().skip(n as int)
                &&& final(self).shown() == old(self).shown() - n
                &&& final(self).reliable() == old(self).reliable()
                &&& final(self).history() == old(self).history().push(
                    SourceCall::Consume { n: n as nat },
                )
            },
    ;
}

/// A sink for bytes.
pub trait ByteSink {
    /// What a failed `write` or `flush` returns.
    type Error;

    /// Whether this type keeps to the model.
    open spec fn modelled() -> bool {
        false
    }

    /// Every byte the sink has accepted so far, in order.
    open spec fn written(&self) -> Seq<u8> {
        Seq::empty()
    }

    /// Whether `write` always accepts all it is offered and neither `write`
    /// nor `flush` ever fails.
    open spec fn reliable(&self) -> bool {
        false
    }

    /// Every call made so far, oldest first.
    open spec fn history(&self) -> Seq<SinkCall<Self::Error>> {
        Seq::empty()
    }

    /// Offers `bytes`.  The sink accepts the first `k` of them, where `k`
    /// is the number returned and may be less than `bytes.len()`; on
    /// failure it accepts none.
    fn write(&mut self, bytes: &[u8]) -> (r: Result<usize, Self::Error>)
        ensures
            Self::modelled() ==> {
                &&& final(self).reliable() == old(self).reliable()
                &&& old(self).reliable() ==> r is Ok && r->Ok_0 == bytes@.len()
                &&& final(self).history() == old(self).history().push(
                    SinkCall::Write { offered: bytes@, result: r },
                )
                &&& match r {
                    Ok(k) => {
                        &&& k <= bytes@.len()
                        &&& final(self).written() == old(self).written() + bytes@.take(k as int)
                    },
                    Err(_) => final(self).written() == old(self).written(),
                }
            },
    ;

    /// Forces what the sink has accepted to its destination.  This changes
    /// nothing in what counts as written.
    fn flush(&mut self) -> (r: Result<(), Self::Error>)
        ensures
            Self::modelled() ==> {
                &&& final(self).written() == old(self).written()
                &&& final(self).reliable() == old(self).reliable()
                &&& old(self).reliable() ==> r is Ok
                &&& final(self).history() == old(self).history().push(
                    SinkCall::Flush { outcome: r },
                )
            },
    ;
}

/// What a modelled sink has to show for having been offered `bytes` once:
/// it accepted the first few of them and nothing else, and all of them if
/// it is reliable.
pub open spec fn accepted<W: ByteSink>(before: W, after: W, bytes: Seq<u8>) -> bool {
    let k = after.written().len() - before.written().len();
    W::modelled() ==> {
        &&& 0 <= k <= bytes.len()
        &&& after.written() == before.written() + bytes.take(k)
        &&& after.reliable() == before.reliable()
        &&& before.reliable() ==> k == bytes.len()
    }
}

/// The calls that took a modelled sink from `before` to `after`, and the
/// outcome `r` they add up to: one `write` that offered `bytes`, and,
/// only where that write succeeded, one `flush` after it.  The outcome is
/// the write's failure if it failed, else the flush's outcome, both as
/// they came.
pub open spec fn flushed_once<W: ByteSink>(
    before: W,
    after: W,
    bytes: Seq<u8>,
    r: Result<(), W::Error>,
) -> bool {
    let h0 = before.history();
    let h1 = after.history();
    let n = h0.len() as int;
    W::modelled() ==> {
        &&& h1.len() > n
        &&& h1.take(n) =~= h0
        &&& h1[n] matches SinkCall::Write { offered, result }
        &&& offered =~= bytes
        &&& match result {
            Err(e) => h1.len() == n + 1 && r == Err::<(), W::Error>(e),
            Ok(_) => h1.len() == n + 2 && h1[n + 1] == (SinkCall::Flush { outcome: r }),
        }
    }
}

/// Whether a sink is modelled and, by its model, never fails.
pub open spec fn unfailing<W: ByteSink>(sink: W) -> bool {
    W::modelled() && sink.reliable()
}

} // verus!
