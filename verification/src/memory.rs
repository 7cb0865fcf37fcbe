//! Streams that live in memory: a source that reads from a byte vector and
//! a sink that collects into one.

use crate::stream::{ByteSink, ByteSource, SinkCall, SourceCall};
use vstd::prelude::*;

verus! {

/// A byte source over a vector.  Each view shows at most `chunk_size()`
/// bytes, the way a buffered reader of that capacity would.
pub struct MemorySource {
    data: Vec<u8>,
    next: usize,
    shown: usize,
    chunk: usize,
    calls: Ghost<Seq<SourceCall<()>>>,
}

impl MemorySource {
    /// What has been shown lies inside the data, and a view shows at least
    /// one byte while any is left.
    #[verifier::type_invariant]
    spec fn inv(self) -> bool {
        &&& self.next + self.shown <= self.data.len()
        &&& self.chunk >= 1
    }

    /// The largest number of bytes one view shows.
    pub closed spec fn chunk_size(&self) -> nat {
        self.chunk as nat
    }

    /// A source that delivers `data` and shows all that is left of it in
    /// every view.
    pub fn new(data: Vec<u8>) -> (s: Self)
        ensures
            s.pending() == data@,
            s.shown() == 0,
            s.reliable(),
            s.chunk_size() == usize::MAX,
            s.history() == Seq::<SourceCall<()>>::empty(),
    {
        MemorySource { data, next: 0, shown: 0, chunk: usize::MAX, calls: Ghost(Seq::empty()) }
    }

    /// A source that delivers `data` in views of at most `chunk` bytes.  A
    /// `chunk` of 0 counts as 1.
    pub fn with_chunk_size(data: Vec<u8>, chunk: usize) -> (s: Self)
        ensures
            s.pending() == data@,
            s.shown() == 0,
            s.reliable(),
            s.chunk_size() == (if chunk == 0 { 1 } else { chunk as nat }),
            s.history() == Seq::<SourceCall<()>>::empty(),
    {
        MemorySource {
            data,
            next: 0,
            shown: 0,
            chunk: if chunk == 0 { 1 } else { chunk },
            calls: Ghost(Seq::empty()),
        }
    }
}

impl ByteSource for MemorySource {
    type Error = ();

    open spec fn modelled() -> bool {
        true
    }

    closed spec fn pending(&self) -> Seq<u8> {
        self.data@.skip(self.next as int)
    }

    closed spec fn shown(&self) -> nat {
        self.shown as nat
    }

    open spec fn reliable(&self) -> bool {
        true
    }

    closed spec fn history(&self) -> Seq<SourceCall<()>> {
        self.calls@
    }


    fn fill(&mut self) -> (r: Result<Vec<u8>, ()>)
        ensures
            r is Ok,
            r->Ok_0@.len() == (if old(self).pending().len() <= old(self).chunk_size() {
                old(self).pending().len()
            } else {
                old(self).chunk_size()
            }),
            final(self).chunk_size() == old(self).chunk_size(),
    {
        proof {
            use_type_invariant(&*self);
        }
        let left = self.data.len() - self.next;
        let n = if left <= self.chunk { left } else { self.chunk };
        let mut view: Vec<u8> = Vec::new();
        let mut i: usize = 0;
        while i < n
            invariant
                i <= n,
                self.next + n <= self.data.len(),
                view@ == self.data@.subrange(self.next as int, self.next + i),
            decreases n - i,
        {
            view.push(self.data[self.next + i]);
            i += 1;
        }
        self.shown = n;
        self.calls = Ghost(self.calls@.push(SourceCall::Fill { result: Ok(view@) }));
        assert(view@ == self.pending().take(n as int));
        Ok(view)
    }


    fn consume(&mut self, n: usize)
        ensures
            final(self).chunk_size() == old(self).chunk_size(),
    {
        proof {
            use_type_invariant(&*self);
        }
        self.shown = self.shown - n;
        self.next = self.next + n;
        self.calls = Ghost(self.calls@.push(SourceCall::Consume { n: n as nat }));
        assert(self.pending() == old(self).pending().skip(n as int));
    }
}

/// A byte sink that keeps every byte it is given.
pub struct MemorySink {
    bytes: Vec<u8>,
    calls: Ghost<Seq<SinkCall<()>>>,
}

impl MemorySink {
    /// A sink that holds nothing yet.
    pub fn new() -> (s: Self)
        ensures
            s.written() == Seq::<u8>::empty(),
            s.reliable(),
            s.history() == Seq::<SinkCall<()>>::empty(),
    {
        MemorySink { bytes: Vec::new(), calls: Ghost(Seq::empty()) }
    }

    /// The bytes written so far.
    pub fn bytes(&self) -> (b: &Vec<u8>)
        ensures
            b@ == self.written(),
    {
        &self.bytes
    }

    /// Gives up the sink for the bytes written to it.
    pub fn into_bytes(self) -> (b: Vec<u8>)
        ensures
            b@ == self.written(),
    {
        self.bytes
    }
}

impl ByteSink for MemorySink {
    type Error = ();

    open spec fn modelled() -> bool {
        true
    }

    closed spec fn written(&self) -> Seq<u8> {
        self.bytes@
    }

    open spec fn reliable(&self) -> bool {
        true
    }

    closed spec fn history(&self) -> Seq<SinkCall<()>> {
        self.calls@
    }


    fn write(&mut self, bytes: &[u8]) -> (r: Result<usize, ()>) {
        self.bytes.extend_from_slice(bytes);
        self.calls = Ghost(
            self.calls@.push(SinkCall::Write { offered: bytes@, result: Ok(bytes.len()) }),
        );
        assert(bytes@.take(bytes@.len() as int) == bytes@);
        Ok(bytes.len())
    }


    fn flush(&mut self) -> (r: Result<(), ()>) {
        self.calls = Ghost(self.calls@.push(SinkCall::Flush { outcome: Ok(()) }));
        Ok(())
    }
}

} // verus!
