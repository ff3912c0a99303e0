use crate::cursor::ByteCursor;
use crate::errors::{ErrorReason, Fault, IonError};
use crate::opcode::{spec_classify, OpcodeClass};
use crate::value::{spec_header, ContainerView, LazyRawBinaryValue_1_1};
use crate::varwidth::{vw_decode_u, VwUnsigned};
use vstd::prelude::*;

verus! {

// ---------------------------------------------------------------------------
// The scanning algorithm, specified over byte sequences
// ---------------------------------------------------------------------------

/// What one scanning step finds in the byte sequence `s`, looking from
/// position `i`. Positions are relative to the start of `s`.
pub enum SpecItem {
    /// A validated version marker begins at `at`.
    Marker { at: nat },
    /// A well-formed value header begins at `at`, and the value's declared
    /// span lies entirely within `s`.
    Value { at: nat },
    /// Only no-op padding remains: the scan consumed the region exactly.
    End,
    /// The scan failed; for an `Incomplete` fault, `at` is where the
    /// shortfall was detected.
    Fail { at: nat, fault: Fault },
}

/// The same item with its positions shifted right by `d` bytes.
pub open spec fn shift_item(item: SpecItem, d: nat) -> SpecItem {
    match item {
        SpecItem::Marker { at } => SpecItem::Marker { at: at + d },
        SpecItem::Value { at } => SpecItem::Value { at: at + d },
        SpecItem::End => SpecItem::End,
        SpecItem::Fail { at, fault } => SpecItem::Fail { at: at + d, fault },
    }
}

/// One step of the scanning algorithm on `s` from position `i`: skip no-op
/// spans, then recognize a version marker (only when `in_container` is
/// false), a value header, the end of the region, or a fault.
pub open spec fn spec_next_at(s: Seq<u8>, i: nat, in_container: bool) -> SpecItem
    decreases s.len() - i,
    when i <= s.len()
{
    if i >= s.len() {
        SpecItem::End
    } else {
        match spec_classify(s[i as int]) {
            OpcodeClass::NopSingle => spec_next_at(s, i + 1, in_container),
            OpcodeClass::NopPrefixed => match vw_decode_u(s.skip(i as int + 1)) {
                VwUnsigned::Value { v, len } => if i + 1 + len + v <= s.len() {
                    spec_next_at(s, i + 1 + len + v, in_container)
                } else {
                    SpecItem::Fail { at: i, fault: Fault::Incomplete }
                },
                VwUnsigned::Reserved => SpecItem::Fail {
                    at: i + 1,
                    fault: Fault::Decoding(ErrorReason::ReservedVarWidth),
                },
                VwUnsigned::Truncated => SpecItem::Fail { at: i + 1, fault: Fault::Incomplete },
            },
            OpcodeClass::VersionMarker => if in_container {
                SpecItem::Fail { at: i, fault: Fault::Decoding(ErrorReason::MarkerInContainer) }
            } else if i + 4 > s.len() {
                SpecItem::Fail { at: i, fault: Fault::Incomplete }
            } else if s[i as int + 3] != 0xEA {
                SpecItem::Fail {
                    at: i,
                    fault: Fault::Decoding(ErrorReason::InvalidVersionMarker),
                }
            } else if s[i as int + 1] != 1 || s[i as int + 2] != 1 {
                SpecItem::Fail { at: i, fault: Fault::Decoding(ErrorReason::UnsupportedVersion) }
            } else {
                SpecItem::Marker { at: i }
            },
            OpcodeClass::Value { .. } => match spec_header(s.skip(i as int)) {
                Ok(h) => if i + h.total_len() <= s.len() {
                    SpecItem::Value { at: i }
                } else {
                    SpecItem::Fail { at: i, fault: Fault::Incomplete }
                },
                Err(f) => SpecItem::Fail { at: i + 1, fault: f },
            },
            OpcodeClass::Invalid => SpecItem::Fail {
                at: i,
                fault: Fault::Decoding(ErrorReason::UnrecognizedOpcode),
            },
        }
    }
}

/// `p` is one complete no-op span: the single reserved byte, or the
/// length-prefixed form covering exactly its declared padding.
pub open spec fn is_nop_span(p: Seq<u8>) -> bool {
    ||| (p.len() == 1 && spec_classify(p[0]) == OpcodeClass::NopSingle)
    ||| (p.len() >= 2 && spec_classify(p[0]) == OpcodeClass::NopPrefixed && match vw_decode_u(
        p.skip(1),
    ) {
        VwUnsigned::Value { v, len } => 1 + len + v == p.len(),
        _ => false,
    })
}

/// The bytes of `s` from `i` to `j` are exactly a run of complete no-op
/// spans.
pub open spec fn nop_run(s: Seq<u8>, i: nat, j: nat) -> bool
    decreases j - i,
    when i <= j
{
    ||| i == j
    ||| (i < j && i < s.len() && (match spec_classify(s[i as int]) {
        OpcodeClass::NopSingle => nop_run(s, i + 1, j),
        OpcodeClass::NopPrefixed => match vw_decode_u(s.skip(i as int + 1)) {
            VwUnsigned::Value { v, len } => i + 1 + len + v <= j && nop_run(s, i + 1 + len + v, j),
            _ => false,
        },
        _ => false,
    }))
}

// ---------------------------------------------------------------------------
// Structural laws of the scan
// ---------------------------------------------------------------------------

/// Scanning from position `i` sees only the suffix of the stream: the items
/// found are those of the suffix, shifted by `i`. In particular, after
/// skipping a value's total length, resuming a fresh scan at that point
/// observes exactly the stream's next sibling item.
#[verifier::rlimit(50)]
pub proof fn lemma_scan_suffix(s: Seq<u8>, i: nat, in_container: bool)
    requires
        i <= s.len(),
    ensures
        spec_next_at(s, i, in_container) == shift_item(
            spec_next_at(s.skip(i as int), 0, in_container),
            i,
        ),
    decreases s.len() - i,
{
    let t = s.skip(i as int);
    if i < s.len() {
        assert(t[0] == s[i as int]);
        match spec_classify(s[i as int]) {
            OpcodeClass::NopSingle => {
                lemma_scan_suffix(s, i + 1, in_container);
                lemma_scan_suffix(t, 1, in_container);
                assert(s.skip(i as int + 1) =~= t.skip(1));
            },
            OpcodeClass::NopPrefixed => {
                assert(s.skip(i as int + 1) =~= t.skip(1));
                match vw_decode_u(s.skip(i as int + 1)) {
                    VwUnsigned::Value { v, len } => {
                        if i + 1 + len + v <= s.len() {
                            lemma_scan_suffix(s, i + 1 + len + v, in_container);
                            lemma_scan_suffix(t, 1 + len + v, in_container);
                            assert(s.skip((i + 1 + len + v) as int) =~= t.skip(
                                (1 + len + v) as int,
                            ));
                        }
                    },
                    _ => {},
                }
            },
            OpcodeClass::VersionMarker => {
                if !in_container && i + 4 <= s.len() {
                    assert(t[1] == s[i as int + 1]);
                    assert(t[2] == s[i as int + 2]);
                    assert(t[3] == s[i as int + 3]);
                }
            },
            OpcodeClass::Value { .. } => {
                assert(t.skip(0) =~= t);
            },
            OpcodeClass::Invalid => {},
        }
    }
}

/// No-op transparency: prepending any valid no-op span to a stream leaves
/// the item observed unchanged, shifting only its offset. Since scanning
/// depends only on the suffix (`lemma_scan_suffix`), the same holds for a
/// no-op span inserted before any value or between any two container
/// elements.
pub proof fn lemma_nop_transparency(p: Seq<u8>, s: Seq<u8>, in_container: bool)
    requires
        is_nop_span(p),
    ensures
        spec_next_at(p + s, 0, in_container) == shift_item(
            spec_next_at(s, 0, in_container),
            p.len(),
        ),
{
    let u = p + s;
    assert(u[0] == p[0]);
    assert(u.len() == p.len() + s.len());
    if p.len() == 1 && spec_classify(p[0]) == OpcodeClass::NopSingle {
        lemma_scan_suffix(u, 1, in_container);
        assert(u.skip(1) =~= s);
    } else {
        assert(u.skip(1) =~= p.skip(1) + s);
        let d = vw_decode_u(p.skip(1));
        match d {
            VwUnsigned::Value { v, len } => {
                assert(len <= p.len() - 1) by {
                    crate::varwidth::lemma_vw_value_bound(p.skip(1));
                }
                assert(u.skip(1)[0] == p.skip(1)[0]);
                assert(u.skip(1).subrange(0, len as int) =~= p.skip(1).subrange(0, len as int));
                assert(vw_decode_u(u.skip(1)) == d);
                assert(1 + len + v == p.len());
                lemma_scan_suffix(u, p.len(), in_container);
                assert(u.skip(p.len() as int) =~= s);
            },
            _ => {
                assert(false);
            },
        }
    }
}

/// No-op transparency at an interior position: inserting a valid no-op span
/// where a scan is about to look -- before a top-level value, or between two
/// container elements -- leaves the item observed unchanged, shifting only
/// its offset.
pub proof fn lemma_nop_insertion(u: Seq<u8>, p: Seq<u8>, w: Seq<u8>, in_container: bool)
    requires
        is_nop_span(p),
    ensures
        spec_next_at(u + p + w, u.len(), in_container) == shift_item(
            spec_next_at(u + w, u.len(), in_container),
            p.len(),
        ),
{
    lemma_scan_suffix(u + p + w, u.len(), in_container);
    lemma_scan_suffix(u + w, u.len(), in_container);
    assert((u + p + w).skip(u.len() as int) =~= p + w);
    assert((u + w).skip(u.len() as int) =~= w);
    lemma_nop_transparency(p, w, in_container);
}

/// Byte accounting for one scan step: a value or marker is reached from the
/// scan's start by a run of complete no-op spans and nothing else, a value's
/// declared span lies wholly inside the region, and the scan reports the end
/// of the region only when no-op spans cover the remainder exactly -- no
/// byte is double-consumed and no gap is skipped silently.
pub proof fn lemma_scan_accounts_for_bytes(s: Seq<u8>, i: nat, in_container: bool)
    requires
        i <= s.len(),
    ensures
        match spec_next_at(s, i, in_container) {
            SpecItem::Value { at } => {
                &&& i <= at < s.len()
                &&& nop_run(s, i, at)
                &&& spec_header(s.skip(at as int)) matches Ok(h) && at + h.total_len() <= s.len()
            },
            SpecItem::Marker { at } => {
                &&& i <= at
                &&& at + 4 <= s.len()
                &&& nop_run(s, i, at)
                &&& !in_container
            },
            SpecItem::End => nop_run(s, i, s.len()),
            SpecItem::Fail { .. } => true,
        },
    decreases s.len() - i,
{
    if i < s.len() {
        match spec_classify(s[i as int]) {
            OpcodeClass::NopSingle => {
                lemma_scan_accounts_for_bytes(s, i + 1, in_container);
            },
            OpcodeClass::NopPrefixed => {
                match vw_decode_u(s.skip(i as int + 1)) {
                    VwUnsigned::Value { v, len } => {
                        if i + 1 + len + v <= s.len() {
                            lemma_scan_accounts_for_bytes(s, i + 1 + len + v, in_container);
                        }
                    },
                    _ => {},
                }
            },
            _ => {},
        }
    }
}

/// Round-trip skip: when a scan finds a value, the value's declared total
/// length reaches from its opcode to a position still inside the region, and
/// a reader resumed at that position observes exactly what a continued scan
/// observes -- the next sibling item or the end of the stream, never a
/// position inside an item.
pub proof fn lemma_round_trip_skip(s: Seq<u8>, i: nat, in_container: bool)
    requires
        i <= s.len(),
    ensures
        match spec_next_at(s, i, in_container) {
            SpecItem::Value { at } => spec_header(s.skip(at as int)) matches Ok(h) && {
                &&& at + h.total_len() <= s.len()
                &&& spec_next_at(s, at + h.total_len(), in_container) == shift_item(
                    spec_next_at(s.skip((at + h.total_len()) as int), 0, in_container),
                    at + h.total_len(),
                )
            },
            _ => true,
        },
{
    lemma_scan_accounts_for_bytes(s, i, in_container);
    match spec_next_at(s, i, in_container) {
        SpecItem::Value { at } => {
            match spec_header(s.skip(at as int)) {
                Ok(h) => {
                    lemma_scan_suffix(s, at + h.total_len(), in_container);
                },
                Err(_) => {},
            }
        },
        _ => {},
    }
}

// ---------------------------------------------------------------------------
// Stream items
// ---------------------------------------------------------------------------

/// One item of a raw stream: a version marker with its major and minor
/// version, a lazy value, or the end of the stream with the absolute
/// position at which it was reached. Produced fresh by each scanning step
/// and never retained by the reader.
#[derive(Clone, Copy)]
pub enum LazyRawStreamItem<'a> {
    VersionMarker(u8, u8),
    Value(LazyRawBinaryValue_1_1<'a>),
    EndOfStream(usize),
}

impl<'a> LazyRawStreamItem<'a> {
    /// The marker's (major, minor) version, or a decoding error if this item
    /// is not a version marker.
    pub fn expect_ivm(self) -> (res: Result<(u8, u8), IonError>)
        ensures
            match self {
                LazyRawStreamItem::VersionMarker(maj, min) => res == Ok::<(u8, u8), IonError>(
                    (maj, min),
                ),
                _ => res == Err::<(u8, u8), IonError>(
                    IonError::Decoding { reason: ErrorReason::UnexpectedItem },
                ),
            },
    {
        match self {
            LazyRawStreamItem::VersionMarker(maj, min) => Ok((maj, min)),
            _ => Err(IonError::Decoding { reason: ErrorReason::UnexpectedItem }),
        }
    }

    /// The item's lazy value, or a decoding error if this item is not a
    /// value.
    pub fn expect_value(self) -> (res: Result<LazyRawBinaryValue_1_1<'a>, IonError>)
        ensures
            match self {
                LazyRawStreamItem::Value(v) => res == Ok::<LazyRawBinaryValue_1_1<'a>, IonError>(
                    v,
                ),
                _ => res == Err::<LazyRawBinaryValue_1_1<'a>, IonError>(
                    IonError::Decoding { reason: ErrorReason::UnexpectedItem },
                ),
            },
    {
        match self {
            LazyRawStreamItem::Value(v) => Ok(v),
            _ => Err(IonError::Decoding { reason: ErrorReason::UnexpectedItem }),
        }
    }
}

// ---------------------------------------------------------------------------
// Executable padding skipper
// ---------------------------------------------------------------------------

/// Where skipping the leading no-op padding of a region ended.
pub(crate) enum SeekOutcome<'a> {
    /// No-op spans covered the rest of the region; `position` is the
    /// absolute offset of the region's end.
    End { position: usize },
    /// A non-padding opcode begins at the front of `rest`.
    Item { rest: ByteCursor<'a> },
}

/// Consumes the run of no-op spans at the front of `c`, stopping at the
/// first non-padding opcode or at the end of the region.
pub(crate) fn skip_padding<'a>(c: ByteCursor<'a>, in_container: bool) -> (res: Result<
    SeekOutcome<'a>,
    IonError,
>)
    requires
        c.wf(),
    ensures
        match res {
            Ok(SeekOutcome::End { position }) => {
                &&& spec_next_at(c.bytes(), 0, in_container) == SpecItem::End
                &&& position == c.spec_offset() + c.bytes().len()
            },
            Ok(SeekOutcome::Item { rest }) => {
                &&& rest.wf()
                &&& c.spec_offset() <= rest.spec_offset()
                &&& rest.bytes() == c.bytes().skip(
                    rest.spec_offset() - c.spec_offset(),
                )
                &&& rest.bytes().len() > 0
                &&& !(spec_classify(rest.bytes()[0]) is NopSingle)
                &&& !(spec_classify(rest.bytes()[0]) is NopPrefixed)
                &&& spec_next_at(c.bytes(), 0, in_container) == shift_item(
                    spec_next_at(rest.bytes(), 0, in_container),
                    (rest.spec_offset() - c.spec_offset()) as nat,
                )
            },
            Err(e) => {
                &&& spec_next_at(c.bytes(), 0, in_container) matches SpecItem::Fail {
                    at,
                    fault,
                } && e == fault.at(c.spec_offset() + at)
            },
        },
{
    let mut cur: ByteCursor<'a> = c;
    let ghost mut i: nat = 0nat;
    loop
        invariant
            c.wf(),
            cur.wf(),
            i <= c.bytes().len(),
            cur.bytes() == c.bytes().skip(i as int),
            cur.spec_offset() == c.spec_offset() + i,
            spec_next_at(c.bytes(), i, in_container) == spec_next_at(
                c.bytes(),
                0,
                in_container,
            ),
        decreases c.bytes().len() - i,
    {
        proof {
            lemma_scan_suffix(c.bytes(), i, in_container);
        }
        if cur.is_empty() {
            return Ok(SeekOutcome::End { position: cur.offset() });
        }
        let op = cur.get(0);
        match crate::opcode::classify(op) {
            OpcodeClass::NopSingle => {
                cur = match cur.consume(1) {
                    Ok(n) => n,
                    Err(e) => {
                        proof {
                            assert(false);
                        }
                        return Err(e);
                    },
                };
                proof {
                    i = i + 1;
                    assert(c.bytes().skip(i as int) =~= cur.bytes());
                }
            },
            OpcodeClass::NopPrefixed => {
                let after = match cur.consume(1) {
                    Ok(a) => a,
                    Err(e) => {
                        proof {
                            assert(false);
                        }
                        return Err(e);
                    },
                };
                proof {
                    assert(after.bytes() =~= c.bytes().skip(i as int + 1));
                }
                let (v, l) = match crate::varwidth::decode_unsigned(&after) {
                    Ok(p) => p,
                    Err(e) => {
                        return Err(e);
                    },
                };
                proof {
                    crate::varwidth::lemma_vw_value_bound(after.bytes());
                }
                let rem = cur.len() - 1 - l;
                if v > (rem as u64) {
                    return Err(IonError::Incomplete { position: cur.offset() });
                }
                let step = 1 + l + (v as usize);
                cur = match cur.consume(step) {
                    Ok(n) => n,
                    Err(e) => {
                        proof {
                            assert(false);
                        }
                        return Err(e);
                    },
                };
                proof {
                    i = i + step as nat;
                    assert(c.bytes().skip(i as int) =~= cur.bytes());
                }
            },
            _ => {
                proof {
                    lemma_scan_suffix(c.bytes(), i, in_container);
                }
                return Ok(SeekOutcome::Item { rest: cur });
            },
        }
    }
}

// ---------------------------------------------------------------------------
// Container iteration
// ---------------------------------------------------------------------------

/// An iterator over a container's elements, scanning a bounded region with
/// the stream algorithm; version markers are decoding errors inside a
/// container. Interior no-op spans are skipped, never yielded: a container
/// whose body is entirely padding iterates as empty.
pub struct ContainerIter<'a> {
    cursor: ByteCursor<'a>,
}

impl<'a> ContainerIter<'a> {
    /// The bytes not yet iterated.
    pub closed spec fn bytes(self) -> Seq<u8> {
        self.cursor.bytes()
    }

    /// The absolute position of the next byte to scan.
    pub closed spec fn spec_offset(self) -> nat {
        self.cursor.spec_offset()
    }

    pub closed spec fn wf(self) -> bool {
        self.cursor.wf()
    }

    /// The next element of the container: a lazy value, or the end of the
    /// region. On a value, the iterator advances past the value's exact
    /// span, so that iterating to the end consumes the region's declared
    /// byte length exactly, with no remainder. On the end of the region or
    /// an error, the iterator is unchanged.
    pub fn next(&mut self) -> (res: Result<LazyRawStreamItem<'a>, IonError>)
        requires
            old(self).wf(),
        ensures
            final(self).wf(),
            match spec_next_at(old(self).bytes(), 0, true) {
                SpecItem::End => {
                    &&& res matches Ok(LazyRawStreamItem::EndOfStream(p)) && p == old(
                        self,
                    ).spec_offset() + old(self).bytes().len()
                    &&& final(self).bytes() == old(self).bytes()
                    &&& final(self).spec_offset() == old(self).spec_offset()
                },
                SpecItem::Value { at } => {
                    &&& res matches Ok(LazyRawStreamItem::Value(v)) && v.wf() && (spec_header(
                        old(self).bytes().skip(at as int),
                    ) matches Ok(h) && {
                        &&& v.spec_header().start_offset == old(self).spec_offset() + at
                        &&& v.spec_header().kind == h.kind
                        &&& v.spec_header().opcode == h.opcode
                        &&& v.spec_header().header_length == h.header_len
                        &&& v.spec_header().body_length == h.body_len
                        &&& v.bytes() == old(self).bytes().skip(at as int).take(
                            h.total_len() as int,
                        )
                        &&& final(self).bytes() == old(self).bytes().skip(
                            (at + h.total_len()) as int,
                        )
                        &&& final(self).spec_offset() == old(self).spec_offset() + at
                            + h.total_len()
                    })
                },
                SpecItem::Marker { .. } => false,
                SpecItem::Fail { at, fault } => {
                    &&& res == Err::<LazyRawStreamItem<'a>, IonError>(
                        fault.at(old(self).spec_offset() + at),
                    )
                    &&& final(self).bytes() == old(self).bytes()
                    &&& final(self).spec_offset() == old(self).spec_offset()
                },
            },
    {
        proof {
            lemma_scan_accounts_for_bytes(old(self).bytes(), 0, true);
        }
        let rest = match skip_padding(self.cursor, true) {
            Ok(SeekOutcome::End { position }) => {
                return Ok(LazyRawStreamItem::EndOfStream(position));
            },
            Ok(SeekOutcome::Item { rest }) => rest,
            Err(e) => {
                return Err(e);
            },
        };
        proof {
            assert(rest.bytes().skip(0) =~= rest.bytes());
        }
        match crate::opcode::classify(rest.get(0)) {
            OpcodeClass::Value { .. } => {
                let value = match crate::value::parse_value_header(rest) {
                    Ok(v) => v,
                    Err(e) => {
                        return Err(e);
                    },
                };
                let advanced = match rest.consume(value.total_length()) {
                    Ok(a) => a,
                    Err(e) => {
                        proof {
                            assert(false);
                        }
                        return Err(e);
                    },
                };
                proof {
                    let s0 = old(self).bytes();
                    let j = (rest.spec_offset() - old(self).spec_offset()) as nat;
                    assert(rest.bytes() == s0.skip(j as int));
                    assert(spec_next_at(rest.bytes(), 0, true) == SpecItem::Value { at: 0nat });
                    assert(spec_next_at(s0, 0, true) == SpecItem::Value { at: j });
                    assert(advanced.bytes() == rest.bytes().skip(
                        value.spec_header().spec_total() as int,
                    ));
                    assert(advanced.bytes() =~= s0.skip(
                        (j + value.spec_header().spec_total()) as int,
                    ));
                }
                self.cursor = advanced;
                Ok(LazyRawStreamItem::Value(value))
            },
            OpcodeClass::VersionMarker => Err(
                IonError::Decoding { reason: ErrorReason::MarkerInContainer },
            ),
            OpcodeClass::Invalid => Err(
                IonError::Decoding { reason: ErrorReason::UnrecognizedOpcode },
            ),
            _ => {
                proof {
                    assert(false);
                }
                Err(IonError::Decoding { reason: ErrorReason::UnrecognizedOpcode })
            },
        }
    }
}

impl<'a> ContainerView<'a> {
    /// A fresh iterator over the container's elements. Iteration always
    /// starts at the container's first element: it is derived from the
    /// immutable region, not from any reader's position, so re-invoking it
    /// restarts from the beginning.
    pub fn iter(&self) -> (it: ContainerIter<'a>)
        requires
            self.wf(),
        ensures
            it.wf(),
            it.bytes() == self.bytes(),
            it.spec_offset() == self.spec_offset(),
    {
        ContainerIter { cursor: self.region }
    }
}

} // verus!
