use ion_raw::errors::IonResult;
use ion_raw::opcode::IonType;
use ion_raw::reader::LazyRawBinaryReader_1_1;
use ion_raw::stream::LazyRawStreamItem;
use ion_raw::value::{ContainerView, FloatRepr, RawSymbolRef};

fn to_f64(r: FloatRepr) -> f64 {
    match r {
        FloatRepr::Zero => 0.0,
        FloatRepr::Single(bits) => f32::from_bits(bits) as f64,
        FloatRepr::Double(bits) => f64::from_bits(bits),
    }
}

fn collect_types(container: &ContainerView) -> IonResult<Vec<IonType>> {
    let mut it = container.iter();
    let mut types = Vec::new();
    loop {
        match it.next()? {
            LazyRawStreamItem::Value(v) => types.push(v.ion_type()),
            LazyRawStreamItem::EndOfStream(_) => break,
            LazyRawStreamItem::VersionMarker(..) => panic!("marker inside a container"),
        }
    }
    Ok(types)
}

#[test]
fn nop() -> IonResult<()> {
    let data: Vec<u8> = vec![
        0xE0, 0x01, 0x01, 0xEA, // IVM
        0xEC, // 1-Byte NOP
        0xEC, 0xEC, // 2-Byte NOP
        0xEC, 0xEC, 0xEC, // 3-Byte Nop
        0xED, 0x05, 0x00, 0x00, // 4-Byte NOP
        0xEA, // null.null
    ];

    let mut reader = LazyRawBinaryReader_1_1::new(&data);
    let _ivm = reader.next()?.expect_ivm()?;

    assert_eq!(
        reader.next()?.expect_value()?.read()?.expect_null()?,
        IonType::Null
    );

    Ok(())
}

#[test]
fn bools() -> IonResult<()> {
    let data: Vec<u8> = vec![
        0xE0, 0x01, 0x01, 0xEA, // IVM
        0x5E, // true
        0x5F, // false
    ];

    let mut reader = LazyRawBinaryReader_1_1::new(&data);
    let _ivm = reader.next()?.expect_ivm()?;

    assert!(reader.next()?.expect_value()?.read()?.expect_bool()?);

    assert!(!(reader.next()?.expect_value()?.read()?.expect_bool()?));

    Ok(())
}

#[test]
fn integers() -> IonResult<()> {
    let data: Vec<u8> = vec![
        // IVM
        0xE0, 0x01, 0x01, 0xEA,

        // Integer: 0
        0x50,

        // Integer: 17
        0x51, 0x11,

        // Integer: -944
        0x52, 0x50, 0xFC,

        // Integer: 1
        0xF5, 0x03, 0x01,

        // Integer: 147573952589676412929
        0xF5, 0x13, 0x01, 0x00, 0x00, 0x00, 0x00, 0x00, 0x00, 0x00, 0x08,
    ];

    let mut reader = LazyRawBinaryReader_1_1::new(&data);
    let _ivm = reader.next()?.expect_ivm()?;

    assert_eq!(reader.next()?.expect_value()?.read()?.expect_int()?, 0);
    assert_eq!(reader.next()?.expect_value()?.read()?.expect_int()?, 17);
    assert_eq!(reader.next()?.expect_value()?.read()?.expect_int()?, -944);

    assert_eq!(reader.next()?.expect_value()?.read()?.expect_int()?, 1);

    assert_eq!(
        reader.next()?.expect_value()?.read()?.expect_int()?,
        147573952589676412929i128
    );
    Ok(())
}

#[test]
fn strings() -> IonResult<()> {
    let data: Vec<u8> = vec![
        // IVM
        0xe0, 0x01, 0x01, 0xea,

        // String: ""
        0x80,

        // String: "hello"
        0x85, 0x68, 0x65, 0x6c, 0x6c, 0x6f,

        // String: "fourteen bytes"
        0x8E, 0x66, 0x6F, 0x75, 0x72, 0x74, 0x65, 0x65, 0x6E, 0x20, 0x62, 0x79, 0x74, 0x65,
        0x73,

        // String: "variable length encoding"
        0xF8, 0x31, 0x76, 0x61, 0x72, 0x69, 0x61, 0x62, 0x6C, 0x65, 0x20, 0x6C, 0x65,
        0x6E, 0x67, 0x74, 0x68, 0x20, 0x65, 0x6E, 0x63, 0x6f, 0x64, 0x69, 0x6E, 0x67,
    ];

    let mut reader = LazyRawBinaryReader_1_1::new(&data);
    let _ivm = reader.next()?.expect_ivm()?;

    assert_eq!(reader.next()?.expect_value()?.read()?.expect_string()?, "");

    assert_eq!(
        reader.next()?.expect_value()?.read()?.expect_string()?,
        "hello"
    );

    assert_eq!(
        reader.next()?.expect_value()?.read()?.expect_string()?,
        "fourteen bytes"
    );

    assert_eq!(
        reader.next()?.expect_value()?.read()?.expect_string()?,
        "variable length encoding"
    );

    Ok(())
}

#[test]
fn symbols() -> IonResult<()> {
    let data: Vec<u8> = vec![
        // IVM
        0xE0, 0x01, 0x01, 0xEA,

        // Symbol: ''
        0x90,

        // Symbol: 'fourteen bytes'
        0x9E, 0x66, 0x6F, 0x75, 0x72, 0x74, 0x65, 0x65, 0x6E, 0x20, 0x62, 0x79, 0x74, 0x65,
        0x73,

        // Symbol: 'variable length encoding'
        0xF9, 0x31, 0x76, 0x61, 0x72, 0x69, 0x61, 0x62, 0x6C, 0x65, 0x20, 0x6C, 0x65, 0x6E,
        0x67, 0x74, 0x68, 0x20, 0x65, 0x6E, 0x63, 0x6f, 0x64, 0x69, 0x6E, 0x67,

        // Symbol ID: 1
        0xE1, 0x01,

        // Symbol ID: 257
        0xE2, 0x01, 0x00,

        // Symbol ID: 65,793
        0xE3, 0x01, 0x00, 0x00,
    ];

    let mut reader = LazyRawBinaryReader_1_1::new(&data);
    let _ivm = reader.next()?.expect_ivm()?;

    assert_eq!(
        reader.next()?.expect_value()?.read()?.expect_symbol()?,
        RawSymbolRef::Text("")
    );

    assert_eq!(
        reader.next()?.expect_value()?.read()?.expect_symbol()?,
        RawSymbolRef::Text("fourteen bytes")
    );

    assert_eq!(
        reader.next()?.expect_value()?.read()?.expect_symbol()?,
        RawSymbolRef::Text("variable length encoding")
    );

    assert_eq!(
        reader.next()?.expect_value()?.read()?.expect_symbol()?,
        RawSymbolRef::SymbolId(1)
    );

    assert_eq!(
        reader.next()?.expect_value()?.read()?.expect_symbol()?,
        RawSymbolRef::SymbolId(257)
    );

    assert_eq!(
        reader.next()?.expect_value()?.read()?.expect_symbol()?,
        RawSymbolRef::SymbolId(65793)
    );

    Ok(())
}

#[test]
#[allow(clippy::approx_constant)]
fn floats() -> IonResult<()> {
    let data: Vec<u8> = vec![
        // IVM
        0xe0, 0x01, 0x01, 0xea,
        // 0e0
        0x5A,

        // 3.1415927 (single-precision)
        0x5C, 0xdb, 0x0F, 0x49, 0x40,

        // 3.141592653589793 (double-precision)
        0x5D, 0x18, 0x2D, 0x44, 0x54, 0xFB, 0x21, 0x09, 0x40,
    ];

    let mut reader = LazyRawBinaryReader_1_1::new(&data);
    let _ivm = reader.next()?.expect_ivm()?;

    assert_eq!(
        to_f64(reader.next()?.expect_value()?.read()?.expect_float()?),
        0.0
    );

    assert_eq!(
        to_f64(reader.next()?.expect_value()?.read()?.expect_float()?) as f32,
        3.1415927f32,
    );

    assert_eq!(
        to_f64(reader.next()?.expect_value()?.read()?.expect_float()?),
        std::f64::consts::PI,
    );

    Ok(())
}

#[test]
fn blobs() -> IonResult<()> {
    let data: Vec<u8> = vec![
        0xe0, 0x01, 0x01, 0xea, // IVM
        0xFE, 0x31, 0x49, 0x20, 0x61, 0x70, 0x70, 0x6c, 0x61, 0x75, 0x64, 0x20, 0x79, 0x6f,
        0x75, 0x72, 0x20, 0x63, 0x75, 0x72, 0x69, 0x6f, 0x73, 0x69, 0x74, 0x79,
    ];

    let mut reader = LazyRawBinaryReader_1_1::new(&data);
    let _ivm = reader.next()?.expect_ivm()?;

    let bytes: &[u8] = &[
        0x49, 0x20, 0x61, 0x70, 0x70, 0x6c, 0x61, 0x75, 0x64, 0x20, 0x79, 0x6f, 0x75, 0x72,
        0x20, 0x63, 0x75, 0x72, 0x69, 0x6f, 0x73, 0x69, 0x74, 0x79,
    ];
    assert_eq!(reader.next()?.expect_value()?.read()?.expect_blob()?, bytes);

    Ok(())
}

#[test]
fn clobs() -> IonResult<()> {
    let data: Vec<u8> = vec![
        0xe0, 0x01, 0x01, 0xea, // IVM
        0xFF, 0x31, 0x49, 0x20, 0x61, 0x70, 0x70, 0x6c, 0x61, 0x75, 0x64, 0x20, 0x79, 0x6f,
        0x75, 0x72, 0x20, 0x63, 0x75, 0x72, 0x69, 0x6f, 0x73, 0x69, 0x74, 0x79,
    ];

    let mut reader = LazyRawBinaryReader_1_1::new(&data);
    let _ivm = reader.next()?.expect_ivm()?;

    let bytes: &[u8] = &[
        0x49, 0x20, 0x61, 0x70, 0x70, 0x6c, 0x61, 0x75, 0x64, 0x20, 0x79, 0x6f, 0x75, 0x72,
        0x20, 0x63, 0x75, 0x72, 0x69, 0x6f, 0x73, 0x69, 0x74, 0x79,
    ];

    assert_eq!(reader.next()?.expect_value()?.read()?.expect_clob()?, bytes);

    Ok(())
}

#[test]
fn lists() -> IonResult<()> {
    let tests: &[(&[u8], &[IonType])] = &[
        // []
        (&[0xA0], &[]),

        // [null.null]
        (&[0xA1, 0xEA], &[IonType::Null]),

        // ['']
        (&[0xA1, 0x90], &[IonType::Symbol]),

        // ["hello"]
        (
            &[0xA6, 0x85, 0x68, 0x65, 0x6C, 0x6C, 0x6F],
            &[IonType::String],
        ),

        // [null.null, '', "hello"]
        (
            &[0xA8, 0xEA, 0x90, 0x85, 0x68, 0x65, 0x6C, 0x6c, 0x6F],
            &[IonType::Null, IonType::Symbol, IonType::String],
        ),

        // [3.1415927e0 3.1415927e0]
        (
            &[0xAA, 0x5C, 0xDB, 0x0F, 0x49, 0x40, 0x5C, 0xDB, 0x0F, 0x49, 0x40],
            &[IonType::Float, IonType::Float]
        ),

        // Long List Encoding

        // []
        (&[0xFA, 0x01], &[]),

        // ["variable length list"]
        (
            &[
                0xFA, 0x2D, 0xF8, 0x29, 0x76, 0x61, 0x72, 0x69, 0x61, 0x62, 0x6C, 0x65,
                0x20, 0x6C, 0x65, 0x6E, 0x67, 0x74, 0x68, 0x20, 0x6C, 0x69, 0x73, 0x74,
            ],
            &[IonType::String]
        ),

        // [<nop>]
        (&[0xFA, 0x03, 0xEC], &[]),
    ];

    for (ion_data, expected_types) in tests {
        let mut reader = LazyRawBinaryReader_1_1::new(ion_data);
        let container = reader.next()?.expect_value()?.read()?.expect_list()?;
        let types = collect_types(&container)?;
        assert_eq!(types.as_slice(), *expected_types);
    }

    Ok(())
}

#[test]
fn sexp() -> IonResult<()> {
    let tests: &[(&[u8], &[IonType])] = &[
        // ()
        (&[0xB0], &[]),

        // (1 2 3)
        (
            &[0xB6, 0x51, 0x01, 0x51, 0x02, 0x51, 0x03],
            &[IonType::Int, IonType::Int, IonType::Int],
        ),

        // Long S-Expression Encoding

        // ()
        (&[0xFB, 0x01], &[]),

        // ("variable length sexp")
        (
            &[
                0xFB, 0x2D, 0xF8, 0x29, 0x76, 0x61, 0x72, 0x69, 0x61, 0x62, 0x6C, 0x65, 0x20,
                0x6C, 0x65, 0x6E, 0x67, 0x74, 0x68, 0x20, 0x73, 0x65, 0x78, 0x70
            ],
            &[IonType::String]
        ),

        // ( () () [] )
        (&[0xFB, 0x09, 0xFB, 0x01, 0xB0, 0xA0], &[IonType::SExp, IonType::SExp, IonType::List]),

        // ( $257 )
        (&[0xFB, 0x07, 0xE2, 0x01, 0x00], &[IonType::Symbol]),
    ];

    for (ion_data, expected_types) in tests {
        let mut reader = LazyRawBinaryReader_1_1::new(ion_data);
        let container = reader.next()?.expect_value()?.read()?.expect_sexp()?;
        let types = collect_types(&container)?;
        assert_eq!(types.as_slice(), *expected_types);
    }

    Ok(())
}
