use crate::cursor::ByteCursor;
use crate::errors::{ErrorReason, IonError};
use crate::opcode::{spec_classify, OpcodeClass};
use crate::stream::{skip_padding, spec_next_at, LazyRawStreamItem, SeekOutcome, SpecItem};
use crate::value::{parse_value_header, spec_header, LazyRawBinaryValue_1_1};
use vstd::prelude::*;

verus! {

/// The top-level stream reader: a cursor over the remaining bytes plus the
/// length of the most recently returned item, which is consumed lazily at
/// the start of the following call. This one-item lookahead means repeated
/// calls are not idempotent: each call advances past the previous item.
#[allow(non_camel_case_types)]
pub struct LazyRawBinaryReader_1_1<'data> {
    data: ByteCursor<'data>,
    bytes_to_skip: usize,
}

impl<'data> LazyRawBinaryReader_1_1<'data> {
    /// The bytes the reader's cursor still holds, including the most
    /// recently returned item, which is not yet consumed.
    pub closed spec fn bytes(self) -> Seq<u8> {
        self.data.bytes()
    }

    /// The absolute position of the reader's cursor.
    pub closed spec fn spec_offset(self) -> nat {
        self.data.spec_offset()
    }

    /// How many bytes the next call will consume before scanning: the total
    /// length of the most recently returned item.
    pub closed spec fn skip_pending(self) -> nat {
        self.bytes_to_skip as nat
    }

    /// The reader's logical position: the start of the item that the next
    /// call will scan.
    pub closed spec fn spec_position(self) -> nat {
        (self.data.spec_offset() + self.bytes_to_skip) as nat
    }

    pub closed spec fn wf(self) -> bool {
        self.data.wf()
    }

    /// The reader's logical position is its cursor's position plus the
    /// pending skip: callers may combine the two spec views freely.
    pub proof fn lemma_position_decomposition(self)
        ensures
            self.spec_position() == self.spec_offset() + self.skip_pending(),
    {
    }

    /// A reader over `data`, positioned at its first byte, with absolute
    /// position 0.
    pub fn new(data: &'data [u8]) -> (r: LazyRawBinaryReader_1_1<'data>)
        ensures
            r.wf(),
            r.bytes() == data@,
            r.spec_offset() == 0,
            r.skip_pending() == 0,
            r.spec_position() == 0,
    {
        let n = data.len();
        assert(n == data@.len());
        Self::new_with_offset(data, 0)
    }

    /// A reader over `data` whose first byte is at absolute position
    /// `offset`, to support resuming a previously positioned stream.
    pub fn new_with_offset(data: &'data [u8], offset: usize) -> (r: LazyRawBinaryReader_1_1<
        'data,
    >)
        requires
            offset + data@.len() <= usize::MAX,
        ensures
            r.wf(),
            r.bytes() == data@,
            r.spec_offset() == offset,
            r.skip_pending() == 0,
            r.spec_position() == offset,
    {
        LazyRawBinaryReader_1_1 { data: ByteCursor::new_with_offset(data, offset), bytes_to_skip: 0 }
    }

    /// Resumes reading `data` at absolute position `offset`: the reader is
    /// observationally the same as one from `new_with_offset`.
    pub fn resume_at_offset(data: &'data [u8], offset: usize) -> (r: LazyRawBinaryReader_1_1<
        'data,
    >)
        requires
            offset + data@.len() <= usize::MAX,
        ensures
            r.wf(),
            r.bytes() == data@,
            r.spec_offset() == offset,
            r.skip_pending() == 0,
            r.spec_position() == offset,
    {
        Self::new_with_offset(data, offset)
    }

    /// The absolute position of the item the next call will scan: the
    /// cursor's position plus the pending skip.
    pub fn position(&self) -> (p: usize)
        requires
            self.wf(),
            self.spec_position() <= usize::MAX,
        ensures
            p == self.spec_position(),
    {
        self.data.offset() + self.bytes_to_skip
    }

    /// The cursor advanced past the most recently returned item, or
    /// `Incomplete` at the cursor's position when that item extends past the
    /// bytes actually available (a truncated stream), detected before any
    /// consumption.
    pub fn advance_to_next_item(&self) -> (res: Result<ByteCursor<'data>, IonError>)
        requires
            self.wf(),
        ensures
            self.skip_pending() <= self.bytes().len() ==> (res matches Ok(b) && b.wf()
                && b.bytes() == self.bytes().skip(self.skip_pending() as int)
                && b.spec_offset() == self.spec_position()),
            self.skip_pending() > self.bytes().len() ==> res == Err::<ByteCursor<'data>, IonError>(
                IonError::Incomplete { position: self.spec_offset() as usize },
            ),
    {
        if self.data.len() < self.bytes_to_skip {
            return Err(IonError::Incomplete { position: self.data.offset() });
        }
        self.data.consume(self.bytes_to_skip)
    }

    /// Validates the 4-byte version marker at the front of `buffer`: the
    /// trailer byte must close the marker, and only version 1.1 is accepted
    /// -- any other version is a hard decoding error, never a silent skip.
    /// On success the reader adopts `buffer` and owes a 4-byte skip.
    pub fn read_ivm(&mut self, buffer: ByteCursor<'data>) -> (res: Result<
        LazyRawStreamItem<'data>,
        IonError,
    >)
        requires
            buffer.wf(),
            buffer.bytes().len() > 0,
            spec_classify(buffer.bytes()[0]) == OpcodeClass::VersionMarker,
        ensures
            match spec_next_at(buffer.bytes(), 0, false) {
                SpecItem::Marker { at } => {
                    &&& at == 0
                    &&& res == Ok::<LazyRawStreamItem<'data>, IonError>(
                        LazyRawStreamItem::VersionMarker(1, 1),
                    )
                    &&& final(self).wf()
                    &&& final(self).bytes() == buffer.bytes()
                    &&& final(self).spec_offset() == buffer.spec_offset()
                    &&& final(self).skip_pending() == 4
                },
                SpecItem::Fail { at, fault } => {
                    &&& res == Err::<LazyRawStreamItem<'data>, IonError>(
                        fault.at(buffer.spec_offset() + at),
                    )
                    &&& *final(self) == *old(self)
                },
                _ => false,
            },
    {
        if buffer.len() < 4 {
            return Err(IonError::Incomplete { position: buffer.offset() });
        }
        if buffer.get(3) != 0xEA {
            return Err(IonError::Decoding { reason: ErrorReason::InvalidVersionMarker });
        }
        let major = buffer.get(1);
        let minor = buffer.get(2);
        if major != 1 || minor != 1 {
            return Err(IonError::Decoding { reason: ErrorReason::UnsupportedVersion });
        }
        self.data = buffer;
        self.bytes_to_skip = 4;
        Ok(LazyRawStreamItem::VersionMarker(major, minor))
    }

    /// Parses one value header at the front of `buffer`, or reports the end
    /// of the stream if the buffer is exhausted. On success the reader
    /// adopts `buffer` and owes a skip of the value's total length.
    pub fn read_value(&mut self, buffer: ByteCursor<'data>) -> (res: Result<
        LazyRawStreamItem<'data>,
        IonError,
    >)
        requires
            buffer.wf(),
            buffer.bytes().len() == 0 || spec_classify(buffer.bytes()[0]) matches
                OpcodeClass::Value { .. },
        ensures
            buffer.bytes().len() == 0 ==> (res matches Ok(LazyRawStreamItem::EndOfStream(p))
                && p == buffer.spec_offset() && *final(self) == *old(self)),
            buffer.bytes().len() > 0 ==> match spec_header(buffer.bytes()) {
                Ok(h) => if h.total_len() <= buffer.bytes().len() {
                    &&& res matches Ok(LazyRawStreamItem::Value(v))
                    &&& v.wf()
                    &&& v.spec_header().start_offset == buffer.spec_offset()
                    &&& v.spec_header().kind == h.kind
                    &&& v.spec_header().opcode == h.opcode
                    &&& v.spec_header().header_length == h.header_len
                    &&& v.spec_header().body_length == h.body_len
                    &&& v.bytes() == buffer.bytes().take(h.total_len() as int)
                    &&& final(self).wf()
                    &&& final(self).bytes() == buffer.bytes()
                    &&& final(self).spec_offset() == buffer.spec_offset()
                    &&& final(self).skip_pending() == h.total_len()
                } else {
                    &&& res == Err::<LazyRawStreamItem<'data>, IonError>(
                        IonError::Incomplete { position: buffer.spec_offset() as usize },
                    )
                    &&& *final(self) == *old(self)
                },
                Err(f) => {
                    &&& res == Err::<LazyRawStreamItem<'data>, IonError>(
                        f.at(buffer.spec_offset() + 1),
                    )
                    &&& *final(self) == *old(self)
                },
            },
    {
        if buffer.is_empty() {
            return Ok(LazyRawStreamItem::EndOfStream(buffer.offset()));
        }
        let value = match parse_value_header(buffer) {
            Ok(v) => v,
            Err(e) => {
                return Err(e);
            },
        };
        self.data = buffer;
        self.bytes_to_skip = value.total_length();
        Ok(LazyRawStreamItem::Value(value))
    }

    /// Produces the next stream item: it consumes the previously returned
    /// item -- `Incomplete` if that item extends past the bytes available,
    /// the truncated-stream case -- then skips any no-op padding and returns
    /// the version marker, lazy value, or end of stream that follows,
    /// exactly as `spec_next_at` describes. On a value, the reader's
    /// position afterwards is the value's start plus its total length:
    /// resuming there lands exactly on the next sibling's opcode or on the
    /// end of the stream, never mid-item.
    pub fn next(&mut self) -> (res: Result<LazyRawStreamItem<'data>, IonError>)
        requires
            old(self).wf(),
        ensures
            final(self).wf(),
            old(self).skip_pending() > old(self).bytes().len() ==> (res == Err::<
                LazyRawStreamItem<'data>,
                IonError,
            >(IonError::Incomplete { position: old(self).spec_offset() as usize }) && *final(self)
                == *old(self)),
            old(self).skip_pending() <= old(self).bytes().len() ==> ({
                let s = old(self).bytes().skip(old(self).skip_pending() as int);
                let base = old(self).spec_position();
                match spec_next_at(s, 0, false) {
                    SpecItem::End => {
                        &&& res matches Ok(LazyRawStreamItem::EndOfStream(p)) && p == base
                            + s.len()
                        &&& *final(self) == *old(self)
                    },
                    SpecItem::Marker { at } => {
                        &&& res == Ok::<LazyRawStreamItem<'data>, IonError>(
                            LazyRawStreamItem::VersionMarker(1, 1),
                        )
                        &&& final(self).bytes() == s.skip(at as int)
                        &&& final(self).spec_offset() == base + at
                        &&& final(self).skip_pending() == 4
                        &&& final(self).spec_position() == base + at + 4
                        &&& final(self).spec_position() <= usize::MAX
                    },
                    SpecItem::Value { at } => {
                        &&& res matches Ok(LazyRawStreamItem::Value(v))
                        &&& v.wf()
                        &&& spec_header(s.skip(at as int)) matches Ok(h) && {
                            &&& v.spec_header().start_offset == base + at
                            &&& v.spec_header().kind == h.kind
                            &&& v.spec_header().opcode == h.opcode
                            &&& v.spec_header().header_length == h.header_len
                            &&& v.spec_header().body_length == h.body_len
                            &&& v.bytes() == s.skip(at as int).take(h.total_len() as int)
                            &&& final(self).bytes() == s.skip(at as int)
                            &&& final(self).spec_offset() == base + at
                            &&& final(self).skip_pending() == h.total_len()
                            &&& final(self).spec_position() == v.spec_header().start_offset
                                + v.spec_header().spec_total()
                            &&& final(self).spec_position() <= usize::MAX
                        }
                    },
                    SpecItem::Fail { at, fault } => {
                        &&& res == Err::<LazyRawStreamItem<'data>, IonError>(
                            fault.at(base + at),
                        )
                        &&& *final(self) == *old(self)
                    },
                }
            }),
    {
        let buffer = match self.advance_to_next_item() {
            Ok(b) => b,
            Err(e) => {
                return Err(e);
            },
        };
        let rest = match skip_padding(buffer, false) {
            Ok(SeekOutcome::End { position }) => {
                return Ok(LazyRawStreamItem::EndOfStream(position));
            },
            Ok(SeekOutcome::Item { rest }) => rest,
            Err(e) => {
                return Err(e);
            },
        };
        proof {
            assert(rest.bytes().skip(0) =~= rest.bytes());
        }
        match crate::opcode::classify(rest.get(0)) {
            OpcodeClass::VersionMarker => {
                proof {
                    rest.lemma_offset_in_range();
                }
                self.read_ivm(rest)
            },
            OpcodeClass::Value { .. } => {
                proof {
                    rest.lemma_offset_in_range();
                }
                self.read_value(rest)
            },
            OpcodeClass::Invalid => Err(
                IonError::Decoding { reason: ErrorReason::UnrecognizedOpcode },
            ),
            _ => {
                proof {
                    assert(false);
                }
                Err(IonError::Decoding { reason: ErrorReason::UnrecognizedOpcode })
            },
        }
    }

    /// Attempts a caller-supplied parser against the would-be-advanced
    /// cursor without committing: only a successful, value-producing result
    /// updates the pending skip; a "no match" or an error leaves the
    /// reader's observable position completely unchanged. The parser must
    /// accept the advanced cursor and may only produce well-formed values;
    /// if the value it produces extends past the available bytes, the
    /// following call reports the truncation as `Incomplete`.
    pub fn try_parse_next<F: Fn(ByteCursor<'data>) -> Result<
        Option<LazyRawBinaryValue_1_1<'data>>,
        IonError,
    >>(&mut self, parser: F) -> (res: Result<Option<LazyRawBinaryValue_1_1<'data>>, IonError>)
        requires
            old(self).wf(),
            forall|b: ByteCursor<'data>|
                (b.wf() && b.bytes() == old(self).bytes().skip(old(self).skip_pending() as int)
                    && b.spec_offset() == old(self).spec_position())
                    ==> #[trigger] call_requires(parser, (b,)),
            forall|b: ByteCursor<'data>, r: Result<
                Option<LazyRawBinaryValue_1_1<'data>>,
                IonError,
            >|
                (b.bytes() == old(self).bytes().skip(old(self).skip_pending() as int)
                    && #[trigger] call_ensures(parser, (b,), r)) ==> (r matches Ok(Some(v))
                    ==> v.wf()),
        ensures
            final(self).wf(),
            final(self).bytes() == old(self).bytes(),
            final(self).spec_offset() == old(self).spec_offset(),
            !(res matches Ok(Some(_))) ==> *final(self) == *old(self),
            old(self).skip_pending() > old(self).bytes().len() ==> res == Err::<
                Option<LazyRawBinaryValue_1_1<'data>>,
                IonError,
            >(IonError::Incomplete { position: old(self).spec_offset() as usize }),
            old(self).skip_pending() <= old(self).bytes().len() ==> exists|
                b: ByteCursor<'data>,
                r: Result<Option<LazyRawBinaryValue_1_1<'data>>, IonError>,
            |
                {
                    &&& b.wf()
                    &&& b.bytes() == old(self).bytes().skip(old(self).skip_pending() as int)
                    &&& b.spec_offset() == old(self).spec_position()
                    &&& #[trigger] call_ensures(parser, (b,), r)
                    &&& match r {
                        Ok(Some(v)) => res == Ok::<Option<LazyRawBinaryValue_1_1<'data>>, IonError>(
                            Some(v),
                        ) && final(self).skip_pending() == v.spec_header().spec_total(),
                        Ok(None) => res == Ok::<Option<LazyRawBinaryValue_1_1<'data>>, IonError>(
                            None,
                        ),
                        Err(e) => res == Err::<Option<LazyRawBinaryValue_1_1<'data>>, IonError>(
                            e,
                        ),
                    }
                },
    {
        let buffer = match self.advance_to_next_item() {
            Ok(b) => b,
            Err(e) => {
                return Err(e);
            },
        };
        let outcome = parser(buffer);
        let value = match outcome {
            Ok(Some(v)) => v,
            Ok(None) => {
                return Ok(None);
            },
            Err(e) => {
                return Err(e);
            },
        };
        self.bytes_to_skip = value.total_length();
        Ok(Some(value))
    }
}

} // verus!
