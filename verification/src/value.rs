use crate::cursor::ByteCursor;
use crate::errors::{ErrorReason, Fault, IonError};
use crate::opcode::{spec_classify, IonType, LengthRule, OpcodeClass};
use crate::varwidth::{le_int, le_nat, lemma_le_nat_unfold, vw_decode_s, vw_decode_u, VwSigned,
    VwUnsigned};
use vstd::arithmetic::div_mod::*;
use vstd::arithmetic::power2::*;
use vstd::prelude::*;
use vstd::utf8::{decode_utf8, valid_utf8};

verus! {

// ---------------------------------------------------------------------------
// Headers
// ---------------------------------------------------------------------------

/// The header of an encoded value, stated over mathematical integers.
pub struct SpecHeader {
    pub kind: IonType,
    pub opcode: u8,
    pub header_len: nat,
    pub body_len: nat,
}

impl SpecHeader {
    /// The exact number of bytes to skip to reach the next sibling item.
    pub open spec fn total_len(self) -> nat {
        self.header_len + self.body_len
    }
}

/// Parses the header at the front of `s`: the opcode classification plus,
/// for long forms, one variable-width unsigned length prefix. Nothing of the
/// body is examined.
pub open spec fn spec_header(s: Seq<u8>) -> Result<SpecHeader, Fault>
    recommends
        s.len() > 0,
{
    match spec_classify(s[0]) {
        OpcodeClass::Value { kind, rule } => match rule {
            LengthRule::Fixed(n) => Ok(
                SpecHeader { kind, opcode: s[0], header_len: 1, body_len: n as nat },
            ),
            LengthRule::VarWidthPrefix => match vw_decode_u(s.skip(1)) {
                VwUnsigned::Value { v, len } => Ok(
                    SpecHeader { kind, opcode: s[0], header_len: 1 + len, body_len: v },
                ),
                VwUnsigned::Reserved => Err(Fault::Decoding(ErrorReason::ReservedVarWidth)),
                VwUnsigned::Truncated => Err(Fault::Incomplete),
            },
        },
        _ => Err(Fault::Decoding(ErrorReason::UnrecognizedOpcode)),
    }
}

/// A decoded header: kind, header length, body length and start position.
/// The total length is `header_length + body_length`, available without
/// decoding the body, which is what makes constant-time sibling skipping
/// possible.
#[derive(Clone, Copy, Debug)]
pub struct EncodedHeader {
    pub kind: IonType,
    pub opcode: u8,
    pub header_length: usize,
    pub body_length: usize,
    pub start_offset: usize,
}

impl EncodedHeader {
    pub open spec fn spec_total(self) -> nat {
        (self.header_length + self.body_length) as nat
    }

    /// This header is what `spec_header` yields on `s`.
    pub open spec fn describes(self, s: Seq<u8>) -> bool {
        spec_header(s) == Ok::<SpecHeader, Fault>(
            SpecHeader {
                kind: self.kind,
                opcode: self.opcode,
                header_len: self.header_length as nat,
                body_len: self.body_length as nat,
            },
        )
    }
}

// ---------------------------------------------------------------------------
// Scalar payloads, specified over the body bytes
// ---------------------------------------------------------------------------

/// An integer body: little-endian two's complement, at most 16 bytes wide
/// (an empty body is the value 0).
pub open spec fn spec_int(body: Seq<u8>) -> Result<int, Fault> {
    if body.len() <= 16 {
        Ok(le_int(body))
    } else {
        Err(Fault::Decoding(ErrorReason::IntegerTooLarge))
    }
}

/// A decimal stated over mathematical integers. `negative_zero` is set when
/// coefficient bytes are present but hold the value 0: that encoding stands
/// for a coefficient of negative zero, numerically equal to zero but distinct
/// in sign.
pub struct SpecDecimal {
    pub coefficient: int,
    pub exponent: int,
    pub negative_zero: bool,
}

/// A decimal body: a signed variable-width exponent at the front, then all
/// remaining bytes as a little-endian two's-complement coefficient. An empty
/// body is the decimal 0 (coefficient 0, exponent 0).
pub open spec fn spec_decimal(body: Seq<u8>) -> Result<SpecDecimal, Fault> {
    if body.len() == 0 {
        Ok(SpecDecimal { coefficient: 0, exponent: 0, negative_zero: false })
    } else {
        match vw_decode_s(body) {
            VwSigned::Value { v, len } => {
                let coeff = body.skip(len as int);
                if coeff.len() > 16 {
                    Err(Fault::Decoding(ErrorReason::IntegerTooLarge))
                } else {
                    Ok(
                        SpecDecimal {
                            coefficient: le_int(coeff),
                            exponent: v,
                            negative_zero: coeff.len() > 0 && le_int(coeff) == 0,
                        },
                    )
                }
            },
            VwSigned::Reserved => Err(Fault::Decoding(ErrorReason::ReservedVarWidth)),
            VwSigned::Truncated => Err(Fault::Incomplete),
        }
    }
}

/// The raw bits of a float body at its encoded width. The numeric
/// interpretation of the bits is left to callers; this decoder never does
/// floating-point arithmetic.
#[derive(Clone, Copy, Debug, PartialEq, Eq, Structural)]
pub enum FloatRepr {
    /// A zero-byte body: the value 0e0.
    Zero,
    /// A 4-byte body: the bits of an IEEE-754 single-precision value.
    Single(u32),
    /// An 8-byte body: the bits of an IEEE-754 double-precision value.
    Double(u64),
}

/// A float body: the width selects the representation; the classified but
/// unsupported 2-byte half-precision form is a decoding error, never a
/// silent truncation.
pub open spec fn spec_float(body: Seq<u8>) -> Result<FloatRepr, Fault> {
    if body.len() == 0 {
        Ok(FloatRepr::Zero)
    } else if body.len() == 4 {
        Ok(FloatRepr::Single(le_nat(body) as u32))
    } else if body.len() == 8 {
        Ok(FloatRepr::Double(le_nat(body) as u64))
    } else {
        Err(Fault::Decoding(ErrorReason::UnsupportedFloatWidth))
    }
}

/// The bias a fixed-width symbol-identifier opcode adds to its body's
/// little-endian value: each wider form starts where the previous one ends,
/// so every identifier has exactly one encoding.
pub open spec fn symbol_id_bias(opcode: u8) -> nat {
    if opcode == 0xE2 {
        256
    } else if opcode == 0xE3 {
        65792
    } else {
        0
    }
}

/// A materialized value, stated over mathematical objects. Container
/// variants carry the exact byte region of their encoded elements.
pub enum SpecValue {
    Null,
    Bool(bool),
    Int(int),
    Float(FloatRepr),
    Decimal(SpecDecimal),
    Str(Seq<char>),
    SymbolText(Seq<char>),
    SymbolId(nat),
    Blob(Seq<u8>),
    Clob(Seq<u8>),
    List(Seq<u8>),
    SExp(Seq<u8>),
}

/// What reading the value spanning exactly the bytes `s` must produce.
pub open spec fn spec_read(s: Seq<u8>) -> Result<SpecValue, Fault> {
    match spec_header(s) {
        Ok(h) => {
            let body = s.subrange(h.header_len as int, h.total_len() as int);
            match h.kind {
                IonType::Null => Ok(SpecValue::Null),
                IonType::Bool => Ok(SpecValue::Bool(h.opcode == 0x5E)),
                IonType::Int => match spec_int(body) {
                    Ok(i) => Ok(SpecValue::Int(i)),
                    Err(f) => Err(f),
                },
                IonType::Float => match spec_float(body) {
                    Ok(fr) => Ok(SpecValue::Float(fr)),
                    Err(f) => Err(f),
                },
                IonType::Decimal => match spec_decimal(body) {
                    Ok(d) => Ok(SpecValue::Decimal(d)),
                    Err(f) => Err(f),
                },
                IonType::String => if valid_utf8(body) {
                    Ok(SpecValue::Str(decode_utf8(body)))
                } else {
                    Err(Fault::Decoding(ErrorReason::InvalidUtf8))
                },
                IonType::Symbol => if 0xE1 <= h.opcode <= 0xE3 {
                    Ok(SpecValue::SymbolId(le_nat(body) + symbol_id_bias(h.opcode)))
                } else if valid_utf8(body) {
                    Ok(SpecValue::SymbolText(decode_utf8(body)))
                } else {
                    Err(Fault::Decoding(ErrorReason::InvalidUtf8))
                },
                IonType::List => Ok(SpecValue::List(body)),
                IonType::SExp => Ok(SpecValue::SExp(body)),
                IonType::Blob => Ok(SpecValue::Blob(body)),
                IonType::Clob => Ok(SpecValue::Clob(body)),
            }
        },
        Err(f) => Err(f),
    }
}

// ---------------------------------------------------------------------------
// Executable value types
// ---------------------------------------------------------------------------

/// A decoded decimal: coefficient, base-10 exponent, and whether the
/// coefficient was the distinguished negative-zero encoding.
#[derive(Clone, Copy, Debug, PartialEq, Eq, Structural)]
pub struct DecimalValue {
    pub coefficient: i128,
    pub exponent: i64,
    pub negative_zero: bool,
}

impl DecimalValue {
    /// A negative-zero coefficient always holds the numeric value 0.
    pub open spec fn wf(self) -> bool {
        self.negative_zero ==> self.coefficient == 0
    }

    /// Whether the decimal's sign bit is set: a negative coefficient, or the
    /// distinguished negative-zero coefficient.
    pub fn is_negative(&self) -> (b: bool)
        ensures
            b <==> (self.coefficient < 0 || self.negative_zero),
    {
        self.coefficient < 0 || self.negative_zero
    }
}

/// A raw symbol reference: inline text, or a bare numeric identifier whose
/// resolution belongs to a layer above this decoder.
#[derive(Clone, Copy, Debug, PartialEq, Eq)]
pub enum RawSymbolRef<'a> {
    Text(&'a str),
    SymbolId(usize),
}

/// A lazy sequence of child values scoped to the byte region of a container
/// body. Iteration is derived fresh from this immutable region each time, so
/// it is restartable by construction.
#[derive(Clone, Copy)]
pub struct ContainerView<'a> {
    /// The bounded cursor over exactly the container's element bytes.
    pub region: ByteCursor<'a>,
}

impl<'a> ContainerView<'a> {
    /// The exact bytes of the encoded element sequence.
    pub open spec fn bytes(self) -> Seq<u8> {
        self.region.bytes()
    }

    /// The absolute position of the first element byte.
    pub open spec fn spec_offset(self) -> nat {
        self.region.spec_offset()
    }

    pub open spec fn wf(self) -> bool {
        self.region.wf()
    }
}

/// A materialized payload: a scalar, or a view over a container's elements.
pub enum ValueRef<'a> {
    Null,
    Bool(bool),
    Int(i128),
    Float(FloatRepr),
    Decimal(DecimalValue),
    String(&'a str),
    Symbol(RawSymbolRef<'a>),
    Blob(&'a [u8]),
    Clob(&'a [u8]),
    List(ContainerView<'a>),
    SExp(ContainerView<'a>),
}

/// The executable payload `r` holds exactly the mathematical value `v`.
pub open spec fn corresponds(r: ValueRef, v: SpecValue) -> bool {
    match v {
        SpecValue::Null => r is Null,
        SpecValue::Bool(b) => r matches ValueRef::Bool(c) && b == c,
        SpecValue::Int(i) => r matches ValueRef::Int(j) && j as int == i,
        SpecValue::Float(fr) => r matches ValueRef::Float(g) && g == fr,
        SpecValue::Decimal(d) => r matches ValueRef::Decimal(e) && e.coefficient as int
            == d.coefficient && e.exponent as int == d.exponent && e.negative_zero
            == d.negative_zero,
        SpecValue::Str(t) => r matches ValueRef::String(s) && s@ == t,
        SpecValue::SymbolText(t) => r matches ValueRef::Symbol(RawSymbolRef::Text(s)) && s@ == t,
        SpecValue::SymbolId(i) => r matches ValueRef::Symbol(RawSymbolRef::SymbolId(j)) && j as nat
            == i,
        SpecValue::Blob(bs) => r matches ValueRef::Blob(b) && b@ == bs,
        SpecValue::Clob(bs) => r matches ValueRef::Clob(b) && b@ == bs,
        SpecValue::List(region) => r matches ValueRef::List(cv) && cv.wf() && cv.bytes() == region,
        SpecValue::SExp(region) => r matches ValueRef::SExp(cv) && cv.wf() && cv.bytes() == region,
    }
}

impl<'a> ValueRef<'a> {
    /// The null value's type, or a decoding error if this is not a null.
    pub fn expect_null(self) -> (res: Result<IonType, IonError>)
        ensures
            self is Null ==> res == Ok::<IonType, IonError>(IonType::Null),
            !(self is Null) ==> res == Err::<IonType, IonError>(
                IonError::Decoding { reason: ErrorReason::UnexpectedItem },
            ),
    {
        match self {
            ValueRef::Null => Ok(IonType::Null),
            _ => Err(IonError::Decoding { reason: ErrorReason::UnexpectedItem }),
        }
    }

    pub fn expect_bool(self) -> (res: Result<bool, IonError>)
        ensures
            match self {
                ValueRef::Bool(b) => res == Ok::<bool, IonError>(b),
                _ => res == Err::<bool, IonError>(
                    IonError::Decoding { reason: ErrorReason::UnexpectedItem },
                ),
            },
    {
        match self {
            ValueRef::Bool(b) => Ok(b),
            _ => Err(IonError::Decoding { reason: ErrorReason::UnexpectedItem }),
        }
    }

    pub fn expect_int(self) -> (res: Result<i128, IonError>)
        ensures
            match self {
                ValueRef::Int(i) => res == Ok::<i128, IonError>(i),
                _ => res == Err::<i128, IonError>(
                    IonError::Decoding { reason: ErrorReason::UnexpectedItem },
                ),
            },
    {
        match self {
            ValueRef::Int(i) => Ok(i),
            _ => Err(IonError::Decoding { reason: ErrorReason::UnexpectedItem }),
        }
    }

    pub fn expect_float(self) -> (res: Result<FloatRepr, IonError>)
        ensures
            match self {
                ValueRef::Float(f) => res == Ok::<FloatRepr, IonError>(f),
                _ => res == Err::<FloatRepr, IonError>(
                    IonError::Decoding { reason: ErrorReason::UnexpectedItem },
                ),
            },
    {
        match self {
            ValueRef::Float(f) => Ok(f),
            _ => Err(IonError::Decoding { reason: ErrorReason::UnexpectedItem }),
        }
    }

    pub fn expect_decimal(self) -> (res: Result<DecimalValue, IonError>)
        ensures
            match self {
                ValueRef::Decimal(d) => res == Ok::<DecimalValue, IonError>(d),
                _ => res == Err::<DecimalValue, IonError>(
                    IonError::Decoding { reason: ErrorReason::UnexpectedItem },
                ),
            },
    {
        match self {
            ValueRef::Decimal(d) => Ok(d),
            _ => Err(IonError::Decoding { reason: ErrorReason::UnexpectedItem }),
        }
    }

    pub fn expect_string(self) -> (res: Result<&'a str, IonError>)
        ensures
            match self {
                ValueRef::String(s) => res == Ok::<&'a str, IonError>(s),
                _ => res == Err::<&'a str, IonError>(
                    IonError::Decoding { reason: ErrorReason::UnexpectedItem },
                ),
            },
    {
        match self {
            ValueRef::String(s) => Ok(s),
            _ => Err(IonError::Decoding { reason: ErrorReason::UnexpectedItem }),
        }
    }

    pub fn expect_symbol(self) -> (res: Result<RawSymbolRef<'a>, IonError>)
        ensures
            match self {
                ValueRef::Symbol(s) => res == Ok::<RawSymbolRef<'a>, IonError>(s),
                _ => res == Err::<RawSymbolRef<'a>, IonError>(
                    IonError::Decoding { reason: ErrorReason::UnexpectedItem },
                ),
            },
    {
        match self {
            ValueRef::Symbol(s) => Ok(s),
            _ => Err(IonError::Decoding { reason: ErrorReason::UnexpectedItem }),
        }
    }

    pub fn expect_blob(self) -> (res: Result<&'a [u8], IonError>)
        ensures
            match self {
                ValueRef::Blob(b) => res == Ok::<&'a [u8], IonError>(b),
                _ => res == Err::<&'a [u8], IonError>(
                    IonError::Decoding { reason: ErrorReason::UnexpectedItem },
                ),
            },
    {
        match self {
            ValueRef::Blob(b) => Ok(b),
            _ => Err(IonError::Decoding { reason: ErrorReason::UnexpectedItem }),
        }
    }

    pub fn expect_clob(self) -> (res: Result<&'a [u8], IonError>)
        ensures
            match self {
                ValueRef::Clob(b) => res == Ok::<&'a [u8], IonError>(b),
                _ => res == Err::<&'a [u8], IonError>(
                    IonError::Decoding { reason: ErrorReason::UnexpectedItem },
                ),
            },
    {
        match self {
            ValueRef::Clob(b) => Ok(b),
            _ => Err(IonError::Decoding { reason: ErrorReason::UnexpectedItem }),
        }
    }

    pub fn expect_list(self) -> (res: Result<ContainerView<'a>, IonError>)
        ensures
            match self {
                ValueRef::List(c) => res == Ok::<ContainerView<'a>, IonError>(c),
                _ => res == Err::<ContainerView<'a>, IonError>(
                    IonError::Decoding { reason: ErrorReason::UnexpectedItem },
                ),
            },
    {
        match self {
            ValueRef::List(c) => Ok(c),
            _ => Err(IonError::Decoding { reason: ErrorReason::UnexpectedItem }),
        }
    }

    pub fn expect_sexp(self) -> (res: Result<ContainerView<'a>, IonError>)
        ensures
            match self {
                ValueRef::SExp(c) => res == Ok::<ContainerView<'a>, IonError>(c),
                _ => res == Err::<ContainerView<'a>, IonError>(
                    IonError::Decoding { reason: ErrorReason::UnexpectedItem },
                ),
            },
    {
        match self {
            ValueRef::SExp(c) => Ok(c),
            _ => Err(IonError::Decoding { reason: ErrorReason::UnexpectedItem }),
        }
    }
}

// ---------------------------------------------------------------------------
// The lazy value
// ---------------------------------------------------------------------------

/// A deferred handle to one encoded value: the exact byte span of the value
/// plus its decoded header. Construction parses only the header; the typed
/// payload is materialized on demand by `read`, which is idempotent --
/// reading never consumes anything.
#[derive(Clone, Copy)]
#[allow(non_camel_case_types)]
pub struct LazyRawBinaryValue_1_1<'a> {
    pub(crate) span: ByteCursor<'a>,
    pub(crate) header: EncodedHeader,
}

impl<'a> LazyRawBinaryValue_1_1<'a> {
    /// The value's bytes: header and body, exactly.
    pub closed spec fn bytes(self) -> Seq<u8> {
        self.span.bytes()
    }

    pub closed spec fn spec_header(self) -> EncodedHeader {
        self.header
    }

    pub closed spec fn wf(self) -> bool {
        &&& self.span.wf()
        &&& self.span.bytes().len() == self.header.spec_total()
        &&& self.header.start_offset == self.span.spec_offset()
        &&& self.header.describes(self.span.bytes())
    }

    /// The number of bytes from the value's start to the next sibling item.
    pub fn total_length(&self) -> (n: usize)
        requires
            self.wf(),
        ensures
            n == self.bytes().len(),
            n == self.spec_header().spec_total(),
    {
        proof {
            self.span.lemma_offset_in_range();
        }
        self.header.header_length + self.header.body_length
    }

    pub fn ion_type(&self) -> (k: IonType)
        requires
            self.wf(),
        ensures
            k == self.spec_header().kind,
    {
        self.header.kind
    }

    /// The absolute position of the value's opcode.
    pub fn offset(&self) -> (o: usize)
        requires
            self.wf(),
        ensures
            o == self.spec_header().start_offset,
    {
        self.header.start_offset
    }

    /// Materializes the typed payload, exactly as `spec_read` describes over
    /// the value's bytes. Reading is repeatable: `self` is not consumed or
    /// changed. A container payload is a view over exactly the body bytes,
    /// positioned just after the header.
    pub fn read(&self) -> (res: Result<ValueRef<'a>, IonError>)
        requires
            self.wf(),
        ensures
            match spec_read(self.bytes()) {
                Ok(v) => {
                    &&& res matches Ok(r)
                    &&& corresponds(r, v)
                    &&& (r matches ValueRef::List(cv) ==> cv.spec_offset()
                        == self.spec_header().start_offset + self.spec_header().header_length)
                    &&& (r matches ValueRef::SExp(cv) ==> cv.spec_offset()
                        == self.spec_header().start_offset + self.spec_header().header_length)
                },
                Err(f) => res == Err::<ValueRef<'a>, IonError>(
                    f.at(
                        (self.spec_header().start_offset
                            + self.spec_header().header_length) as nat,
                    ),
                ),
            },
    {
        let body = match self.span.consume(self.header.header_length) {
            Ok(b) => b,
            Err(e) => {
                proof {
                    assert(false);
                }
                return Err(e);
            },
        };
        proof {
            assert(body.bytes() =~= self.bytes().subrange(
                self.header.header_length as int,
                self.header.spec_total() as int,
            ));
        }
        match self.header.kind {
            IonType::Null => Ok(ValueRef::Null),
            IonType::Bool => Ok(ValueRef::Bool(self.header.opcode == 0x5E)),
            IonType::Int => {
                if body.len() > 16 {
                    return Err(IonError::Decoding { reason: ErrorReason::IntegerTooLarge });
                }
                Ok(ValueRef::Int(read_le_int(&body)))
            },
            IonType::Float => {
                let n = body.len();
                if n == 0 {
                    Ok(ValueRef::Float(FloatRepr::Zero))
                } else if n == 4 {
                    let raw = read_le_u64(&body, 4);
                    proof {
                        assert(body.bytes().subrange(0, 4) =~= body.bytes());
                        crate::varwidth::lemma_le_nat_bound(body.bytes());
                        lemma2_to64();
                    }
                    Ok(ValueRef::Float(FloatRepr::Single(raw as u32)))
                } else if n == 8 {
                    let raw = read_le_u64(&body, 8);
                    proof {
                        assert(body.bytes().subrange(0, 8) =~= body.bytes());
                        crate::varwidth::lemma_le_nat_bound(body.bytes());
                        lemma2_to64();
                        lemma2_to64_rest();
                    }
                    Ok(ValueRef::Float(FloatRepr::Double(raw)))
                } else {
                    Err(IonError::Decoding { reason: ErrorReason::UnsupportedFloatWidth })
                }
            },
            IonType::Decimal => match read_decimal(&body) {
                Ok(d) => Ok(ValueRef::Decimal(d)),
                Err(e) => Err(e),
            },
            IonType::String => match utf8_from_bytes(body.as_slice()) {
                Some(s) => Ok(ValueRef::String(s)),
                None => Err(IonError::Decoding { reason: ErrorReason::InvalidUtf8 }),
            },
            IonType::Symbol => {
                if 0xE1 <= self.header.opcode && self.header.opcode <= 0xE3 {
                    proof {
                        assert(body.bytes().len() <= 3);
                    }
                    let raw = read_le_u64(&body, body.len());
                    let bias: u64 = if self.header.opcode == 0xE2 {
                        256
                    } else if self.header.opcode == 0xE3 {
                        65792
                    } else {
                        0
                    };
                    proof {
                        assert(body.bytes().subrange(0, body.bytes().len() as int)
                            =~= body.bytes());
                        crate::varwidth::lemma_le_nat_bound(body.bytes());
                        lemma2_to64();
                        lemma_pow2_strictly_increases(8 * body.bytes().len(), 32);
                    }
                    Ok(ValueRef::Symbol(RawSymbolRef::SymbolId((raw + bias) as usize)))
                } else {
                    match utf8_from_bytes(body.as_slice()) {
                        Some(s) => Ok(ValueRef::Symbol(RawSymbolRef::Text(s))),
                        None => Err(IonError::Decoding { reason: ErrorReason::InvalidUtf8 }),
                    }
                }
            },
            IonType::List => Ok(ValueRef::List(ContainerView { region: body })),
            IonType::SExp => Ok(ValueRef::SExp(ContainerView { region: body })),
            IonType::Blob => Ok(ValueRef::Blob(body.as_slice())),
            IonType::Clob => Ok(ValueRef::Clob(body.as_slice())),
        }
    }
}

// ---------------------------------------------------------------------------
// Executable scalar decoding helpers
// ---------------------------------------------------------------------------

/// Reads the first `l` bytes of `c` as a little-endian unsigned integer.
fn read_le_u64(c: &ByteCursor, l: usize) -> (raw: u64)
    requires
        c.wf(),
        l <= 8,
        l <= c.bytes().len(),
    ensures
        raw == le_nat(c.bytes().subrange(0, l as int)),
{
    let mut raw: u64 = 0;
    let mut i: usize = l;
    proof {
        assert(c.bytes().subrange(l as int, l as int) =~= Seq::<u8>::empty());
        lemma2_to64();
    }
    while i > 0
        invariant
            c.wf(),
            l <= 8,
            l <= c.bytes().len(),
            i <= l,
            raw == le_nat(c.bytes().subrange(i as int, l as int)),
            raw < pow2(8 * (l - i) as nat),
        decreases i,
    {
        i = i - 1;
        let b = c.get(i);
        proof {
            lemma_le_nat_unfold(c.bytes(), i as int, l as int);
            lemma_pow2_adds(8 * (l - i - 1) as nat, 8);
            lemma2_to64();
            lemma2_to64_rest();
            vstd::arithmetic::mul::lemma_mul_inequality(
                raw as int,
                pow2(8 * (l - i - 1) as nat) as int - 1,
                256,
            );
            if 8 * (l - i) < 64 {
                lemma_pow2_strictly_increases(8 * (l - i) as nat, 64);
            }
        }
        raw = raw * 256 + (b as u64);
    }
    raw
}

/// Reads all remaining bytes of `c` (at most 16) as a little-endian
/// two's-complement signed integer.
fn read_le_int(c: &ByteCursor) -> (r: i128)
    requires
        c.wf(),
        c.bytes().len() <= 16,
    ensures
        r as int == le_int(c.bytes()),
{
    let l = c.len();
    if l == 0 {
        return 0;
    }
    let mut raw: u128 = 0;
    let mut i: usize = l;
    proof {
        assert(c.bytes().subrange(l as int, l as int) =~= Seq::<u8>::empty());
        lemma2_to64();
    }
    while i > 0
        invariant
            c.wf(),
            l == c.bytes().len() <= 16,
            i <= l,
            raw == le_nat(c.bytes().subrange(i as int, l as int)),
            raw < pow2(8 * (l - i) as nat),
        decreases i,
    {
        i = i - 1;
        let b = c.get(i);
        proof {
            lemma_le_nat_unfold(c.bytes(), i as int, l as int);
            lemma_pow2_adds(8 * (l - i - 1) as nat, 8);
            lemma2_to64();
            lemma2_to64_rest();
            vstd::arithmetic::mul::lemma_mul_inequality(
                raw as int,
                pow2(8 * (l - i - 1) as nat) as int - 1,
                256,
            );
            if 8 * (l - i) < 128 {
                lemma_pow2_strictly_increases(8 * (l - i) as nat, 128);
            }
            lemma_pow2_le_max_u128();
        }
        raw = raw * 256 + (b as u128);
    }
    proof {
        assert(c.bytes().subrange(0, l as int) =~= c.bytes());
        lemma_pow2_le_max_u128();
    }
    if l == 16 {
        if raw <= (i128::MAX as u128) {
            proof {
                lemma_pow2_127_value();
            }
            raw as i128
        } else {
            // Two's complement wrap-around: raw - 2^128, computed without
            // leaving the representable range.
            let j = u128::MAX - raw;
            proof {
                lemma_pow2_127_value();
            }
            -(j as i128) - 1
        }
    } else {
        let full = pow2_u128(8 * l);
        let half = full / 2;
        proof {
            lemma_pow2_unfold(8 * l as nat);
            lemma_pow2_pos((8 * l - 1) as nat);
        }
        if raw < half {
            raw as i128
        } else {
            let diff = full - raw;
            -(diff as i128)
        }
    }
}

/// 2 to the power `e`, for exponents that fit in a `u128`.
fn pow2_u128(e: usize) -> (p: u128)
    requires
        e <= 127,
    ensures
        p == pow2(e as nat),
{
    let mut p: u128 = 1;
    let mut i: usize = 0;
    proof {
        lemma2_to64();
    }
    while i < e
        invariant
            i <= e <= 127,
            p == pow2(i as nat),
        decreases e - i,
    {
        proof {
            lemma_pow2_adds(i as nat, 1);
            lemma2_to64();
            if i as nat + 1 < 128 {
                lemma_pow2_strictly_increases((i + 1) as nat, 128);
            }
            lemma_pow2_le_max_u128();
        }
        p = p * 2;
        i = i + 1;
    }
    p
}

/// `pow2(128)` is one more than `u128::MAX`.
proof fn lemma_pow2_le_max_u128()
    ensures
        pow2(128) == 0x100000000000000000000000000000000,
{
    lemma2_to64_rest();
    lemma_pow2_adds(64, 64);
}

/// `pow2(127)` is one more than `i128::MAX`.
proof fn lemma_pow2_127_value()
    ensures
        pow2(127) == 0x80000000000000000000000000000000,
{
    lemma2_to64_rest();
    lemma_pow2_adds(64, 63);
}

/// Decodes a decimal body: signed variable-width exponent, then the
/// remaining bytes as the coefficient.
fn read_decimal(body: &ByteCursor) -> (res: Result<DecimalValue, IonError>)
    requires
        body.wf(),
    ensures
        match spec_decimal(body.bytes()) {
            Ok(d) => res matches Ok(e) && e.coefficient as int == d.coefficient && e.exponent
                as int == d.exponent && e.negative_zero == d.negative_zero && e.wf(),
            Err(f) => res == Err::<DecimalValue, IonError>(f.at(body.spec_offset())),
        },
{
    if body.is_empty() {
        return Ok(DecimalValue { coefficient: 0, exponent: 0, negative_zero: false });
    }
    let (exponent, elen) = match crate::varwidth::decode_signed(body) {
        Ok(p) => p,
        Err(e) => {
            return Err(e);
        },
    };
    proof {
        crate::varwidth::lemma_vw_value_bound(body.bytes());
    }
    let coeff = match body.consume(elen) {
        Ok(c) => c,
        Err(e) => {
            proof {
                assert(false);
            }
            return Err(e);
        },
    };
    if coeff.len() > 16 {
        return Err(IonError::Decoding { reason: ErrorReason::IntegerTooLarge });
    }
    let coefficient = read_le_int(&coeff);
    let negative_zero = coefficient == 0 && !coeff.is_empty();
    Ok(DecimalValue { coefficient, exponent, negative_zero })
}

/// Decoding a variable-width integer examines only the bytes it declares, so
/// any prefix long enough to hold them decodes identically.
pub proof fn lemma_vw_decode_u_prefix(s: Seq<u8>, m: int)
    requires
        0 < m <= s.len(),
        vw_decode_u(s) matches VwUnsigned::Value { .. },
        (vw_decode_u(s) matches VwUnsigned::Value { len, .. } ==> len <= m),
    ensures
        vw_decode_u(s.take(m)) == vw_decode_u(s),
{
    let t = s.take(m);
    assert(t[0] == s[0]);
    let l = crate::varwidth::vw_len(s[0]);
    assert(t.subrange(0, l as int) =~= s.subrange(0, l as int));
}

/// A header parse examines only the header bytes, so any prefix that holds
/// at least them yields the same header.
pub proof fn lemma_spec_header_prefix(s: Seq<u8>, m: int)
    requires
        0 < m <= s.len(),
        spec_header(s) matches Ok(h) && h.header_len <= m,
    ensures
        spec_header(s.take(m)) == spec_header(s),
{
    let t = s.take(m);
    assert(t[0] == s[0]);
    match spec_classify(s[0]) {
        OpcodeClass::Value { kind, rule } => match rule {
            LengthRule::Fixed(n) => {},
            LengthRule::VarWidthPrefix => {
                assert(t.skip(1) =~= s.skip(1).take(m - 1));
                lemma_vw_decode_u_prefix(s.skip(1), m - 1);
            },
        },
        _ => {},
    }
}

/// Parses one value header at the front of `c`: opcode classification plus,
/// for long forms, one variable-width length read. The value's span must lie
/// entirely within the cursor; a body extending past the end of the region
/// is reported as `Incomplete` at the value's start. A failed length prefix
/// is reported at the prefix's own position, just after the opcode.
pub fn parse_value_header<'a>(c: ByteCursor<'a>) -> (res: Result<
    LazyRawBinaryValue_1_1<'a>,
    IonError,
>)
    requires
        c.wf(),
        c.bytes().len() > 0,
        spec_classify(c.bytes()[0]) matches OpcodeClass::Value { .. },
    ensures
        match spec_header(c.bytes()) {
            Ok(h) => if h.total_len() <= c.bytes().len() {
                res matches Ok(v) && v.wf() && v.bytes() == c.bytes().take(h.total_len() as int)
                    && v.spec_header().start_offset == c.spec_offset()
                    && v.spec_header().kind == h.kind && v.spec_header().opcode == h.opcode
                    && v.spec_header().header_length == h.header_len
                    && v.spec_header().body_length == h.body_len
            } else {
                res == Err::<LazyRawBinaryValue_1_1<'a>, IonError>(
                    IonError::Incomplete { position: c.spec_offset() as usize },
                )
            },
            Err(f) => res == Err::<LazyRawBinaryValue_1_1<'a>, IonError>(
                f.at(c.spec_offset() + 1),
            ),
        },
{
    let opcode = c.get(0);
    let available = c.len();
    let (header_length, body_length): (usize, usize) = match crate::opcode::classify(opcode) {
        OpcodeClass::Value { kind: _, rule: LengthRule::Fixed(n) } => {
            if (n as usize) > available - 1 {
                return Err(IonError::Incomplete { position: c.offset() });
            }
            (1, n as usize)
        },
        OpcodeClass::Value { kind: _, rule: LengthRule::VarWidthPrefix } => {
            let after = match c.consume(1) {
                Ok(a) => a,
                Err(e) => {
                    proof {
                        assert(false);
                    }
                    return Err(e);
                },
            };
            let (v, l) = match crate::varwidth::decode_unsigned(&after) {
                Ok(p) => p,
                Err(e) => {
                    return Err(e);
                },
            };
            proof {
                crate::varwidth::lemma_vw_value_bound(after.bytes());
            }
            if v > ((available - 1 - l) as u64) {
                return Err(IonError::Incomplete { position: c.offset() });
            }
            (1 + l, v as usize)
        },
        _ => {
            proof {
                assert(false);
            }
            return Err(IonError::Decoding { reason: ErrorReason::UnrecognizedOpcode });
        },
    };
    let total = header_length + body_length;
    let span = match c.slice(total) {
        Ok(s) => s,
        Err(e) => {
            proof {
                assert(false);
            }
            return Err(e);
        },
    };
    let header = EncodedHeader {
        kind: match crate::opcode::classify(opcode) {
            OpcodeClass::Value { kind, rule: _ } => kind,
            _ => {
                proof {
                    assert(false);
                }
                IonType::Null
            },
        },
        opcode,
        header_length,
        body_length,
        start_offset: c.offset(),
    };
    let value = LazyRawBinaryValue_1_1 { span, header };
    proof {
        lemma_spec_header_prefix(c.bytes(), total as int);
        assert(value.bytes() == c.bytes().take(total as int));
    }
    Ok(value)
}

/// Relies on std's `str::from_utf8`: when the bytes are well-formed UTF-8 it
/// returns the string slice viewing exactly those bytes, whose characters
/// are their UTF-8 decoding; otherwise it reports an error.
#[verifier::external_body]
fn utf8_from_bytes<'a>(b: &'a [u8]) -> (r: Option<&'a str>)
    ensures
        r is Some <==> valid_utf8(b@),
        r matches Some(s) ==> s@ == decode_utf8(b@),
{
    std::str::from_utf8(b).ok()
}

} // verus!
