use crate::errors::IonError;
use vstd::prelude::*;

verus! {

/// An immutable, offset-tracked view over a borrowed byte region.
///
/// A cursor owns no data. "Advancing" it produces a new cursor value and
/// never mutates the underlying bytes, which supports speculative parsing:
/// a failed attempt simply discards its local cursor.
#[derive(Clone, Copy)]
pub struct ByteCursor<'a> {
    data: &'a [u8],
    base: usize,
    start: usize,
    limit: usize,
}

impl<'a> ByteCursor<'a> {
    /// The bytes remaining in the region.
    pub closed spec fn bytes(self) -> Seq<u8> {
        self.data@.subrange(self.start as int, self.limit as int)
    }

    /// The absolute stream position of the first remaining byte.
    pub closed spec fn spec_offset(self) -> nat {
        (self.base + self.start) as nat
    }

    pub closed spec fn wf(self) -> bool {
        self.start <= self.limit <= self.data@.len()
            && self.base + self.data@.len() <= usize::MAX
    }

    /// Every remaining byte lies at an absolute position representable in a
    /// `usize`.
    pub proof fn lemma_offset_in_range(self)
        requires
            self.wf(),
        ensures
            self.spec_offset() + self.bytes().len() <= usize::MAX,
    {
    }

    /// A cursor over `data` whose first byte is at absolute position 0.
    pub fn new(data: &'a [u8]) -> (c: ByteCursor<'a>)
        ensures
            c.wf(),
            c.bytes() == data@,
            c.spec_offset() == 0,
    {
        let n = data.len();
        assert(n == data@.len());
        Self::new_with_offset(data, 0)
    }

    /// A cursor over `data` whose first byte is at absolute position
    /// `offset`, to support resuming a previously positioned stream.
    pub fn new_with_offset(data: &'a [u8], offset: usize) -> (c: ByteCursor<'a>)
        requires
            offset + data@.len() <= usize::MAX,
        ensures
            c.wf(),
            c.bytes() == data@,
            c.spec_offset() == offset,
    {
        let limit = data.len();
        let c = ByteCursor { data, base: offset, start: 0, limit };
        proof {
            assert(c.bytes() =~= data@);
        }
        c
    }

    pub fn len(&self) -> (n: usize)
        requires
            self.wf(),
        ensures
            n == self.bytes().len(),
    {
        self.limit - self.start
    }

    pub fn is_empty(&self) -> (b: bool)
        requires
            self.wf(),
        ensures
            b <==> self.bytes().len() == 0,
    {
        self.limit == self.start
    }

    pub fn offset(&self) -> (o: usize)
        requires
            self.wf(),
        ensures
            o == self.spec_offset(),
    {
        self.base + self.start
    }

    /// The byte at index `i` of the remaining region.
    pub fn get(&self, i: usize) -> (b: u8)
        requires
            self.wf(),
            i < self.bytes().len(),
        ensures
            b == self.bytes()[i as int],
    {
        *vstd::slice::slice_index_get(self.data, self.start + i)
    }

    /// Reads the leading byte without advancing.
    pub fn peek_opcode(&self) -> (r: Result<u8, IonError>)
        requires
            self.wf(),
        ensures
            self.bytes().len() > 0 ==> r == Ok::<u8, IonError>(self.bytes()[0]),
            self.bytes().len() == 0 ==> r == Err::<u8, IonError>(
                IonError::Incomplete { position: self.spec_offset() as usize },
            ),
    {
        if self.start == self.limit {
            Err(IonError::Incomplete { position: self.offset() })
        } else {
            Ok(self.get(0))
        }
    }

    /// A new cursor advanced by `n` bytes; `Incomplete` if `n` exceeds the
    /// remaining length.
    pub fn consume(&self, n: usize) -> (r: Result<ByteCursor<'a>, IonError>)
        requires
            self.wf(),
        ensures
            n <= self.bytes().len() ==> (r matches Ok(c) && c.wf()
                && c.bytes() == self.bytes().skip(n as int)
                && c.spec_offset() == self.spec_offset() + n),
            n > self.bytes().len() ==> r == Err::<ByteCursor<'a>, IonError>(
                IonError::Incomplete { position: self.spec_offset() as usize },
            ),
    {
        if n > self.limit - self.start {
            Err(IonError::Incomplete { position: self.offset() })
        } else {
            let c = ByteCursor {
                data: self.data,
                base: self.base,
                start: self.start + n,
                limit: self.limit,
            };
            proof {
                assert(c.bytes() =~= self.bytes().skip(n as int));
            }
            Ok(c)
        }
    }

    /// A bounded sub-region holding the first `n` remaining bytes, for
    /// container scanning; `Incomplete` if fewer than `n` bytes remain.
    pub fn slice(&self, n: usize) -> (r: Result<ByteCursor<'a>, IonError>)
        requires
            self.wf(),
        ensures
            n <= self.bytes().len() ==> (r matches Ok(c) && c.wf()
                && c.bytes() == self.bytes().take(n as int)
                && c.spec_offset() == self.spec_offset()),
            n > self.bytes().len() ==> r == Err::<ByteCursor<'a>, IonError>(
                IonError::Incomplete { position: self.spec_offset() as usize },
            ),
    {
        if n > self.limit - self.start {
            Err(IonError::Incomplete { position: self.offset() })
        } else {
            let c = ByteCursor {
                data: self.data,
                base: self.base,
                start: self.start,
                limit: self.start + n,
            };
            proof {
                assert(c.bytes() =~= self.bytes().take(n as int));
            }
            Ok(c)
        }
    }

    /// The remaining bytes as a borrowed slice, without copying.
    pub fn as_slice(&self) -> (s: &'a [u8])
        requires
            self.wf(),
        ensures
            s@ == self.bytes(),
    {
        vstd::slice::slice_subrange(self.data, self.start, self.limit)
    }
}

} // verus!
