use ion_raw::cursor::ByteCursor;
use ion_raw::errors::{ErrorReason, IonError, IonResult};
use ion_raw::opcode::IonType;
use ion_raw::reader::LazyRawBinaryReader_1_1;
use ion_raw::stream::LazyRawStreamItem;
use ion_raw::value::DecimalValue;
use ion_raw::varwidth::{decode_signed, decode_unsigned, encode_signed, encode_unsigned};

fn read_decimal(data: &[u8]) -> IonResult<DecimalValue> {
    let mut reader = LazyRawBinaryReader_1_1::new(data);
    reader.next()?.expect_value()?.read()?.expect_decimal()
}

#[test]
fn varwidth_unsigned_round_trips() {
    for n in [0u64, 1, 5, 17, 127, 128, 944, 16383, 16384, 0x00FF_FFFF_FFFF_FFFF] {
        let encoded = encode_unsigned(n);
        let cursor = ByteCursor::new(&encoded);
        let (decoded, len) = decode_unsigned(&cursor).unwrap();
        assert_eq!(decoded, n);
        assert_eq!(len, encoded.len());
    }
    // Minimal forms of small values.
    assert_eq!(encode_unsigned(0), vec![0x01]);
    assert_eq!(encode_unsigned(5), vec![0x0B]);
    assert_eq!(encode_unsigned(127), vec![0xFF]);
    assert_eq!(encode_unsigned(128), vec![0x02, 0x02]);
}

#[test]
fn varwidth_signed_round_trips() {
    for n in [
        0i64,
        1,
        -1,
        63,
        -64,
        64,
        -65,
        8191,
        -8192,
        0x007F_FFFF_FFFF_FFFF,
        -0x0080_0000_0000_0000,
    ] {
        let encoded = encode_signed(n);
        let cursor = ByteCursor::new(&encoded);
        let (decoded, len) = decode_signed(&cursor).unwrap();
        assert_eq!(decoded, n);
        assert_eq!(len, encoded.len());
    }
    assert_eq!(encode_signed(-1), vec![0xFF]);
    assert_eq!(encode_signed(-64), vec![0x81]);
    assert_eq!(encode_signed(1), vec![0x03]);
}

#[test]
fn varwidth_overpadded_decodes() {
    // 64 in its minimal 1-byte form and over-padded to 2 bytes.
    let minimal: &[u8] = &[0x81];
    let padded: &[u8] = &[0x02, 0x01];
    let (v1, l1) = decode_unsigned(&ByteCursor::new(minimal)).unwrap();
    let (v2, l2) = decode_unsigned(&ByteCursor::new(padded)).unwrap();
    assert_eq!(v1, 64);
    assert_eq!(l1, 1);
    assert_eq!(v2, 64);
    assert_eq!(l2, 2);
    // 0 over-padded to 2 bytes still decodes signed to 0.
    let (s, _) = decode_signed(&ByteCursor::new(&[0x02, 0x00])).unwrap();
    assert_eq!(s, 0);
}

#[test]
fn varwidth_reserved_first_byte() {
    let data: &[u8] = &[0x00, 0x01];
    assert_eq!(
        decode_unsigned(&ByteCursor::new(data)),
        Err(IonError::Decoding { reason: ErrorReason::ReservedVarWidth })
    );
}

#[test]
fn varwidth_truncated() {
    // First byte declares 2 encoded bytes; only 1 is present.
    let data: &[u8] = &[0x02];
    assert_eq!(
        decode_unsigned(&ByteCursor::new(data)),
        Err(IonError::Incomplete { position: 0 })
    );
}

#[test]
fn marker_then_null() -> IonResult<()> {
    // Version marker (1, 1), then one null value.
    let data: Vec<u8> = vec![0xE0, 0x01, 0x01, 0xEA, 0xEA];
    let mut reader = LazyRawBinaryReader_1_1::new(&data);
    assert_eq!(reader.next()?.expect_ivm()?, (1, 1));
    assert_eq!(
        reader.next()?.expect_value()?.read()?.expect_null()?,
        IonType::Null
    );
    assert!(matches!(reader.next()?, LazyRawStreamItem::EndOfStream(5)));
    Ok(())
}

#[test]
fn short_decimals() -> IonResult<()> {
    // 0.
    let d = read_decimal(&[0x60])?;
    assert_eq!(d, DecimalValue { coefficient: 0, exponent: 0, negative_zero: false });

    // 0d1
    let d = read_decimal(&[0x61, 0x03])?;
    assert_eq!(d, DecimalValue { coefficient: 0, exponent: 1, negative_zero: false });

    // 0d-64
    let d = read_decimal(&[0x61, 0x81])?;
    assert_eq!(d, DecimalValue { coefficient: 0, exponent: -64, negative_zero: false });

    // Exponent -64 with an explicit zero coefficient byte: magnitude 0,
    // negative sign bit.
    let d = read_decimal(&[0x62, 0x81, 0x00])?;
    assert_eq!(d.coefficient, 0);
    assert_eq!(d.exponent, -64);
    assert!(d.negative_zero);

    // 0.01
    let d = read_decimal(&[0x62, 0xFD, 0x01])?;
    assert_eq!(d, DecimalValue { coefficient: 1, exponent: -2, negative_zero: false });

    // 1.28
    let d = read_decimal(&[0x63, 0xFD, 0x80, 0x00])?;
    assert_eq!(d, DecimalValue { coefficient: 128, exponent: -2, negative_zero: false });

    // 3.14159
    let d = read_decimal(&[0x64, 0xF7, 0x2F, 0xCB, 0x04])?;
    assert_eq!(d, DecimalValue { coefficient: 314159, exponent: -5, negative_zero: false });

    Ok(())
}

#[test]
fn long_decimals() -> IonResult<()> {
    // 0.
    let d = read_decimal(&[0xF6, 0x01])?;
    assert_eq!(d, DecimalValue { coefficient: 0, exponent: 0, negative_zero: false });

    // 0.00
    let d = read_decimal(&[0xF6, 0x03, 0xFD])?;
    assert_eq!(d, DecimalValue { coefficient: 0, exponent: -2, negative_zero: false });

    // -0.
    let d = read_decimal(&[0xF6, 0x05, 0x01, 0x00])?;
    assert_eq!(d.coefficient, 0);
    assert_eq!(d.exponent, 0);
    assert!(d.negative_zero);

    // 1d65536
    let d = read_decimal(&[0xF6, 0x09, 0x04, 0x00, 0x08, 0x01])?;
    assert_eq!(d, DecimalValue { coefficient: 1, exponent: 65536, negative_zero: false });

    Ok(())
}

#[test]
fn overpadded_decimals() -> IonResult<()> {
    // 14d0 in minimal form, with an over-padded exponent, an over-padded
    // coefficient, and both.
    let fourteen = DecimalValue { coefficient: 14, exponent: 0, negative_zero: false };
    assert_eq!(read_decimal(&[0x62, 0x01, 0x0E])?, fourteen);
    assert_eq!(read_decimal(&[0x63, 0x02, 0x00, 0x0E])?, fourteen);
    assert_eq!(read_decimal(&[0x64, 0x01, 0x0E, 0x00, 0x00])?, fourteen);
    assert_eq!(read_decimal(&[0x65, 0x02, 0x00, 0x0E, 0x00, 0x00])?, fourteen);
    Ok(())
}

#[test]
fn negative_zero_decimal() -> IonResult<()> {
    // "-0." and "0." have numerically equal coefficient magnitude 0 and the
    // same exponent; they differ only in the sign bit.
    let negative = read_decimal(&[0x62, 0x01, 0x00])?;
    let positive = read_decimal(&[0x60])?;
    assert_eq!(negative.coefficient, 0);
    assert_eq!(positive.coefficient, 0);
    assert_eq!(negative.exponent, positive.exponent);
    assert!(negative.negative_zero);
    assert!(!positive.negative_zero);
    assert!(negative.is_negative());
    assert!(!positive.is_negative());
    Ok(())
}

#[test]
fn nop_between_values() -> IonResult<()> {
    // A lone 1-byte no-op between two values: both values observed, no
    // phantom element.
    let data: Vec<u8> = vec![0x51, 0x2A, 0xEC, 0x51, 0x2B];
    let mut reader = LazyRawBinaryReader_1_1::new(&data);
    assert_eq!(reader.next()?.expect_value()?.read()?.expect_int()?, 42);
    assert_eq!(reader.next()?.expect_value()?.read()?.expect_int()?, 43);
    assert!(matches!(reader.next()?, LazyRawStreamItem::EndOfStream(_)));

    // The same stream without the no-op yields the same values, only at
    // different offsets.
    let bare: Vec<u8> = vec![0x51, 0x2A, 0x51, 0x2B];
    let mut reader = LazyRawBinaryReader_1_1::new(&bare);
    assert_eq!(reader.next()?.expect_value()?.read()?.expect_int()?, 42);
    assert_eq!(reader.next()?.expect_value()?.read()?.expect_int()?, 43);
    Ok(())
}

#[test]
fn nop_prefixed_span() -> IonResult<()> {
    // ED 05 00 00 is one 4-byte no-op span, skipped as a unit.
    let data: Vec<u8> = vec![0xED, 0x05, 0x00, 0x00, 0xEA];
    let mut reader = LazyRawBinaryReader_1_1::new(&data);
    assert_eq!(
        reader.next()?.expect_value()?.read()?.expect_null()?,
        IonType::Null
    );
    Ok(())
}

#[test]
fn empty_long_list() -> IonResult<()> {
    // FA 01: a long-form list whose length prefix decodes to 0 elements.
    let data: Vec<u8> = vec![0xFA, 0x01];
    let mut reader = LazyRawBinaryReader_1_1::new(&data);
    let list = reader.next()?.expect_value()?.read()?.expect_list()?;
    let mut it = list.iter();
    assert!(matches!(it.next()?, LazyRawStreamItem::EndOfStream(_)));
    Ok(())
}

#[test]
fn skip_lands_on_next_sibling() -> IonResult<()> {
    // Reading total_length() bytes from a value's start and resuming there
    // lands exactly on the next sibling's opcode.
    let data: Vec<u8> = vec![0x52, 0x50, 0xFC, 0x51, 0x11, 0x50];
    let mut reader = LazyRawBinaryReader_1_1::new(&data);
    let first = reader.next()?.expect_value()?;
    assert_eq!(first.offset(), 0);
    assert_eq!(first.total_length(), 3);
    assert_eq!(reader.position(), first.offset() + first.total_length());

    let resume_at = first.offset() + first.total_length();
    let mut resumed = LazyRawBinaryReader_1_1::resume_at_offset(&data[resume_at..], resume_at);
    assert_eq!(resumed.next()?.expect_value()?.read()?.expect_int()?, 17);
    assert_eq!(resumed.next()?.expect_value()?.read()?.expect_int()?, 0);
    assert!(matches!(resumed.next()?, LazyRawStreamItem::EndOfStream(6)));
    Ok(())
}

#[test]
fn container_consumes_region_exactly() -> IonResult<()> {
    // [null.null, 17] spans body bytes [1, 4); iterating reaches the end of
    // the region exactly, with no remainder.
    let data: Vec<u8> = vec![0xA3, 0xEA, 0x51, 0x11, 0x50];
    let mut reader = LazyRawBinaryReader_1_1::new(&data);
    let list = reader.next()?.expect_value()?.read()?.expect_list()?;
    let mut it = list.iter();
    let mut consumed = 0;
    loop {
        match it.next()? {
            LazyRawStreamItem::Value(v) => consumed += v.total_length(),
            LazyRawStreamItem::EndOfStream(p) => {
                assert_eq!(p, 4);
                break;
            }
            LazyRawStreamItem::VersionMarker(..) => panic!("marker inside a container"),
        }
    }
    assert_eq!(consumed, 3);

    // A container body of pure padding iterates as empty but still consumes
    // the whole region.
    let padded: Vec<u8> = vec![0xFA, 0x03, 0xEC];
    let mut reader = LazyRawBinaryReader_1_1::new(&padded);
    let list = reader.next()?.expect_value()?.read()?.expect_list()?;
    let mut it = list.iter();
    assert!(matches!(it.next()?, LazyRawStreamItem::EndOfStream(3)));
    Ok(())
}

#[test]
fn container_iteration_restarts() -> IonResult<()> {
    let data: Vec<u8> = vec![0xA2, 0x51, 0x07];
    let mut reader = LazyRawBinaryReader_1_1::new(&data);
    let list = reader.next()?.expect_value()?.read()?.expect_list()?;
    for _ in 0..2 {
        let mut it = list.iter();
        let v = it.next()?.expect_value()?;
        assert_eq!(v.read()?.expect_int()?, 7);
        assert!(matches!(it.next()?, LazyRawStreamItem::EndOfStream(_)));
    }
    Ok(())
}

#[test]
fn unrecognized_opcode() {
    let data: Vec<u8> = vec![0x30];
    let mut reader = LazyRawBinaryReader_1_1::new(&data);
    assert!(matches!(
        reader.next(),
        Err(IonError::Decoding { reason: ErrorReason::UnrecognizedOpcode })
    ));
}

#[test]
fn truncated_value_is_incomplete() {
    // A 5-byte string with only one body byte present.
    let data: Vec<u8> = vec![0x85, 0x68];
    let mut reader = LazyRawBinaryReader_1_1::new(&data);
    assert!(matches!(reader.next(), Err(IonError::Incomplete { position: 0 })));
}

#[test]
fn invalid_marker_trailer() {
    let data: Vec<u8> = vec![0xE0, 0x01, 0x01, 0x00];
    let mut reader = LazyRawBinaryReader_1_1::new(&data);
    assert!(matches!(
        reader.next(),
        Err(IonError::Decoding { reason: ErrorReason::InvalidVersionMarker })
    ));
}

#[test]
fn unsupported_version() {
    let data: Vec<u8> = vec![0xE0, 0x01, 0x02, 0xEA];
    let mut reader = LazyRawBinaryReader_1_1::new(&data);
    assert!(matches!(
        reader.next(),
        Err(IonError::Decoding { reason: ErrorReason::UnsupportedVersion })
    ));
}

#[test]
fn truncated_marker() {
    let data: Vec<u8> = vec![0xE0, 0x01];
    let mut reader = LazyRawBinaryReader_1_1::new(&data);
    assert!(matches!(reader.next(), Err(IonError::Incomplete { position: 0 })));
}

#[test]
fn half_precision_float_is_unsupported() -> IonResult<()> {
    // The 2-byte float form is classified but reading it must fail rather
    // than silently truncate.
    let data: Vec<u8> = vec![0x5B, 0x42, 0x47];
    let mut reader = LazyRawBinaryReader_1_1::new(&data);
    let value = reader.next()?.expect_value()?;
    assert_eq!(value.ion_type(), IonType::Float);
    assert!(matches!(
        value.read(),
        Err(IonError::Decoding { reason: ErrorReason::UnsupportedFloatWidth })
    ));
    Ok(())
}

#[test]
fn invalid_utf8_string() -> IonResult<()> {
    let data: Vec<u8> = vec![0x81, 0xFF];
    let mut reader = LazyRawBinaryReader_1_1::new(&data);
    let value = reader.next()?.expect_value()?;
    assert!(matches!(
        value.read(),
        Err(IonError::Decoding { reason: ErrorReason::InvalidUtf8 })
    ));
    Ok(())
}

#[test]
fn reserved_length_prefix() {
    // A long-form integer whose length prefix starts with the reserved zero
    // byte.
    let data: Vec<u8> = vec![0xF5, 0x00, 0x01];
    let mut reader = LazyRawBinaryReader_1_1::new(&data);
    assert!(matches!(
        reader.next(),
        Err(IonError::Decoding { reason: ErrorReason::ReservedVarWidth })
    ));
}

#[test]
fn integer_too_large() -> IonResult<()> {
    // A 17-byte integer body: present, but wider than this decoder's
    // integers.
    let mut data: Vec<u8> = vec![0xF5, 0x23];
    data.extend(std::iter::repeat(0u8).take(17));
    let mut reader = LazyRawBinaryReader_1_1::new(&data);
    let value = reader.next()?.expect_value()?;
    assert!(matches!(
        value.read(),
        Err(IonError::Decoding { reason: ErrorReason::IntegerTooLarge })
    ));
    Ok(())
}

#[test]
fn marker_inside_container() -> IonResult<()> {
    let data: Vec<u8> = vec![0xA1, 0xE0];
    let mut reader = LazyRawBinaryReader_1_1::new(&data);
    let list = reader.next()?.expect_value()?.read()?.expect_list()?;
    let mut it = list.iter();
    assert!(matches!(
        it.next(),
        Err(IonError::Decoding { reason: ErrorReason::MarkerInContainer })
    ));
    Ok(())
}

#[test]
fn reading_is_repeatable() -> IonResult<()> {
    // Reading a lazy value materializes its payload without consuming it:
    // a second read yields the same result.
    let data: Vec<u8> = vec![0x51, 0x11];
    let mut reader = LazyRawBinaryReader_1_1::new(&data);
    let value = reader.next()?.expect_value()?;
    assert_eq!(value.read()?.expect_int()?, 17);
    assert_eq!(value.read()?.expect_int()?, 17);
    Ok(())
}

#[test]
fn speculative_parse_is_transactional() -> IonResult<()> {
    let data: Vec<u8> = vec![0x51, 0x11, 0x50];
    let mut reader = LazyRawBinaryReader_1_1::new(&data);

    // A parser that reports "no match" leaves the reader's position
    // untouched.
    let declined = reader.try_parse_next(|_buffer| Ok(None))?;
    assert!(declined.is_none());
    assert_eq!(reader.position(), 0);

    // A failing parser leaves it untouched as well.
    let failed = reader
        .try_parse_next(|_buffer| Err(IonError::Decoding { reason: ErrorReason::UnexpectedItem }));
    assert!(failed.is_err());
    assert_eq!(reader.position(), 0);

    // Only a successful, value-producing parse commits the position update.
    let value = reader
        .try_parse_next(|buffer| ion_raw::value::parse_value_header(buffer).map(Some))?
        .unwrap();
    assert_eq!(value.read()?.expect_int()?, 17);
    assert_eq!(reader.position(), 2);

    assert_eq!(reader.next()?.expect_value()?.read()?.expect_int()?, 0);
    Ok(())
}

#[test]
fn nop_between_container_elements() -> IonResult<()> {
    // [7, 8] with a no-op span between the elements: the same two values,
    // no phantom element.
    let padded: Vec<u8> = vec![0xA5, 0x51, 0x07, 0xEC, 0x51, 0x08];
    let bare: Vec<u8> = vec![0xA4, 0x51, 0x07, 0x51, 0x08];
    for data in [&padded, &bare] {
        let mut reader = LazyRawBinaryReader_1_1::new(data);
        let list = reader.next()?.expect_value()?.read()?.expect_list()?;
        let mut it = list.iter();
        assert_eq!(it.next()?.expect_value()?.read()?.expect_int()?, 7);
        assert_eq!(it.next()?.expect_value()?.read()?.expect_int()?, 8);
        assert!(matches!(it.next()?, LazyRawStreamItem::EndOfStream(_)));
    }
    Ok(())
}

#[test]
fn list_element_values() -> IonResult<()> {
    // [null.null, '', "hello"]: the exact element payloads, not just their
    // types.
    let data: Vec<u8> = vec![0xA8, 0xEA, 0x90, 0x85, 0x68, 0x65, 0x6C, 0x6C, 0x6F];
    let mut reader = LazyRawBinaryReader_1_1::new(&data);
    let list = reader.next()?.expect_value()?.read()?.expect_list()?;
    let mut it = list.iter();
    assert_eq!(it.next()?.expect_value()?.read()?.expect_null()?, IonType::Null);
    assert!(matches!(
        it.next()?.expect_value()?.read()?.expect_symbol()?,
        ion_raw::value::RawSymbolRef::Text("")
    ));
    assert_eq!(it.next()?.expect_value()?.read()?.expect_string()?, "hello");
    assert!(matches!(it.next()?, LazyRawStreamItem::EndOfStream(_)));
    Ok(())
}

#[test]
fn expecting_the_wrong_kind() -> IonResult<()> {
    let data: Vec<u8> = vec![0x51, 0x11];
    let mut reader = LazyRawBinaryReader_1_1::new(&data);
    let item = reader.next()?;
    assert!(matches!(
        item.expect_ivm(),
        Err(IonError::Decoding { reason: ErrorReason::UnexpectedItem })
    ));
    let value = item.expect_value()?;
    assert!(matches!(
        value.read()?.expect_bool(),
        Err(IonError::Decoding { reason: ErrorReason::UnexpectedItem })
    ));
    assert_eq!(value.read()?.expect_int()?, 17);
    Ok(())
}

#[test]
fn overlong_speculative_value_fails_on_next_call() -> IonResult<()> {
    // A speculative parser may hand back a value wider than the reader's
    // remaining bytes; the commit succeeds, and the truncation surfaces as
    // Incomplete on the following call, before any consumption.
    let big: Vec<u8> = vec![0x85, 0x68, 0x65, 0x6C, 0x6C, 0x6F];
    let data: Vec<u8> = vec![0x51, 0x11];
    let mut reader = LazyRawBinaryReader_1_1::new(&data);
    let value = reader
        .try_parse_next(|_buffer| {
            ion_raw::value::parse_value_header(ByteCursor::new(&big)).map(Some)
        })?
        .unwrap();
    assert_eq!(value.total_length(), 6);
    assert!(matches!(reader.next(), Err(IonError::Incomplete { position: 0 })));
    Ok(())
}
