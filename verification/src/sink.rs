//! The append-only byte sink that the serialize half writes through. The
//! sink is fallible: a bounded sink rejects a write that would exceed its
//! capacity, and a rejected write leaves the sink unchanged, so the first
//! error wins and nothing is retried.

use vstd::prelude::*;

verus! {

/// The error a sink write fails with.
#[derive(Debug, PartialEq, Eq)]
pub struct SinkError;

/// An append-only byte sink with a fallible write operation.
pub struct ByteSink {
    buf: Vec<u8>,
    limit: Option<usize>,
}

impl ByteSink {
    /// A bounded sink never holds more than its capacity.
    #[verifier::type_invariant]
    spec fn type_inv(&self) -> bool {
        match self.limit {
            Option::Some(l) => self.buf@.len() <= l,
            Option::None => true,
        }
    }

    /// The bytes written so far.
    pub closed spec fn bytes(&self) -> Seq<u8> {
        self.buf@
    }

    /// The sink's capacity; `None` for an unbounded sink.
    pub closed spec fn capacity(&self) -> Option<usize> {
        self.limit
    }

    /// Whether the sink accepts `extra` more bytes.
    pub open spec fn accepts(&self, extra: int) -> bool {
        match self.capacity() {
            Option::None => true,
            Option::Some(l) => self.bytes().len() + extra <= l,
        }
    }

    /// A sink that accepts every write.
    pub fn unbounded() -> (s: ByteSink)
        ensures
            s.bytes() == Seq::<u8>::empty(),
            s.capacity() is None,
    {
        ByteSink { buf: Vec::new(), limit: Option::None }
    }

    /// A sink that rejects any write past `limit` total bytes.
    pub fn bounded(limit: usize) -> (s: ByteSink)
        ensures
            s.bytes() == Seq::<u8>::empty(),
            s.capacity() == Option::Some(limit),
    {
        ByteSink { buf: Vec::new(), limit: Option::Some(limit) }
    }

    /// The position the next accepted write starts at. A sink never exceeds
    /// its capacity, so it always accepts zero more bytes.
    pub fn pos(&self) -> (p: usize)
        ensures
            p == self.bytes().len(),
            self.accepts(0),
    {
        proof {
            use_type_invariant(self);
        }
        self.buf.len()
    }

    /// Appends `data` whole, or rejects it leaving the sink unchanged.
    pub fn write(&mut self, data: &Vec<u8>) -> (r: Result<(), SinkError>)
        ensures
            r is Ok <==> old(self).accepts(data@.len() as int),
            r is Ok ==> final(self).bytes() == old(self).bytes() + data@,
            r is Err ==> final(self).bytes() == old(self).bytes(),
            final(self).capacity() == old(self).capacity(),
    {
        match self.limit {
            Option::Some(l) => {
                if self.buf.len() > l || data.len() > l - self.buf.len() {
                    assert(!old(self).accepts(data@.len() as int));
                    return Result::Err(SinkError);
                }
            },
            Option::None => {},
        }
        let mut buf: Vec<u8> = Vec::new();
        core::mem::swap(&mut buf, &mut self.buf);
        let ghost before = buf@;
        let mut i: usize = 0;
        while i < data.len()
            invariant
                i <= data.len(),
                buf@ == before + data@.subrange(0, i as int),
            decreases data.len() - i,
        {
            let b: u8 = data[i];
            buf.push(b);
            assert(buf@ =~= before + data@.subrange(0, i as int + 1));
            i = i + 1;
        }
        assert(buf@ =~= before + data@);
        core::mem::swap(&mut buf, &mut self.buf);
        Result::Ok(())
    }

    /// Hands the accumulated bytes out.
    pub fn into_bytes(self) -> (r: Vec<u8>)
        ensures
            r@ == self.bytes(),
    {
        self.buf
    }
}

} // verus!
