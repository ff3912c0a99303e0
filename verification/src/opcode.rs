use vstd::prelude::*;

verus! {

/// The kinds of value this decoder recognizes.
#[derive(Clone, Copy, Debug, PartialEq, Eq, Structural)]
pub enum IonType {
    Null,
    Bool,
    Int,
    Float,
    Decimal,
    String,
    Symbol,
    List,
    SExp,
    Blob,
    Clob,
}

/// How the body length of a value is determined from its encoding.
#[derive(Clone, Copy, Debug, PartialEq, Eq, Structural)]
pub enum LengthRule {
    /// The body is exactly this many bytes: zero-byte forms, the 4-bit
    /// length nibble embedded in the opcode, and the fixed widths implied
    /// by float and symbol-identifier opcodes.
    Fixed(u8),
    /// The body length is given by a variable-width unsigned integer that
    /// immediately follows the opcode.
    VarWidthPrefix,
}

/// What a leading byte stands for.
#[derive(Clone, Copy, Debug, PartialEq, Eq, Structural)]
pub enum OpcodeClass {
    /// Begins a 4-byte version marker; only valid at the top level.
    VersionMarker,
    /// A reserved byte meaning "skip exactly 1 byte".
    NopSingle,
    /// A reserved byte followed by a variable-width unsigned count of
    /// additional padding bytes.
    NopPrefixed,
    /// Begins a value whose kind and body length rule are given.
    Value { kind: IonType, rule: LengthRule },
    /// Not in the opcode table.
    Invalid,
}

/// The opcode table: a pure classification of a leading byte.
pub open spec fn spec_classify(b: u8) -> OpcodeClass {
    if 0x50 <= b <= 0x58 {
        OpcodeClass::Value { kind: IonType::Int, rule: LengthRule::Fixed((b - 0x50) as u8) }
    } else if b == 0x5A {
        OpcodeClass::Value { kind: IonType::Float, rule: LengthRule::Fixed(0) }
    } else if b == 0x5B {
        OpcodeClass::Value { kind: IonType::Float, rule: LengthRule::Fixed(2) }
    } else if b == 0x5C {
        OpcodeClass::Value { kind: IonType::Float, rule: LengthRule::Fixed(4) }
    } else if b == 0x5D {
        OpcodeClass::Value { kind: IonType::Float, rule: LengthRule::Fixed(8) }
    } else if b == 0x5E || b == 0x5F {
        OpcodeClass::Value { kind: IonType::Bool, rule: LengthRule::Fixed(0) }
    } else if 0x60 <= b <= 0x6F {
        OpcodeClass::Value { kind: IonType::Decimal, rule: LengthRule::Fixed((b - 0x60) as u8) }
    } else if 0x80 <= b <= 0x8E {
        OpcodeClass::Value { kind: IonType::String, rule: LengthRule::Fixed((b - 0x80) as u8) }
    } else if 0x90 <= b <= 0x9E {
        OpcodeClass::Value { kind: IonType::Symbol, rule: LengthRule::Fixed((b - 0x90) as u8) }
    } else if 0xA0 <= b <= 0xAE {
        OpcodeClass::Value { kind: IonType::List, rule: LengthRule::Fixed((b - 0xA0) as u8) }
    } else if 0xB0 <= b <= 0xBE {
        OpcodeClass::Value { kind: IonType::SExp, rule: LengthRule::Fixed((b - 0xB0) as u8) }
    } else if b == 0xE0 {
        OpcodeClass::VersionMarker
    } else if 0xE1 <= b <= 0xE3 {
        OpcodeClass::Value { kind: IonType::Symbol, rule: LengthRule::Fixed((b - 0xE0) as u8) }
    } else if b == 0xEA {
        OpcodeClass::Value { kind: IonType::Null, rule: LengthRule::Fixed(0) }
    } else if b == 0xEC {
        OpcodeClass::NopSingle
    } else if b == 0xED {
        OpcodeClass::NopPrefixed
    } else if b == 0xF5 {
        OpcodeClass::Value { kind: IonType::Int, rule: LengthRule::VarWidthPrefix }
    } else if b == 0xF6 {
        OpcodeClass::Value { kind: IonType::Decimal, rule: LengthRule::VarWidthPrefix }
    } else if b == 0xF8 {
        OpcodeClass::Value { kind: IonType::String, rule: LengthRule::VarWidthPrefix }
    } else if b == 0xF9 {
        OpcodeClass::Value { kind: IonType::Symbol, rule: LengthRule::VarWidthPrefix }
    } else if b == 0xFA {
        OpcodeClass::Value { kind: IonType::List, rule: LengthRule::VarWidthPrefix }
    } else if b == 0xFB {
        OpcodeClass::Value { kind: IonType::SExp, rule: LengthRule::VarWidthPrefix }
    } else if b == 0xFE {
        OpcodeClass::Value { kind: IonType::Blob, rule: LengthRule::VarWidthPrefix }
    } else if b == 0xFF {
        OpcodeClass::Value { kind: IonType::Clob, rule: LengthRule::VarWidthPrefix }
    } else {
        OpcodeClass::Invalid
    }
}

/// Classifies a leading byte, exactly as `spec_classify` describes.
pub fn classify(b: u8) -> (r: OpcodeClass)
    ensures
        r == spec_classify(b),
{
    if 0x50 <= b && b <= 0x58 {
        OpcodeClass::Value { kind: IonType::Int, rule: LengthRule::Fixed(b - 0x50) }
    } else if b == 0x5A {
        OpcodeClass::Value { kind: IonType::Float, rule: LengthRule::Fixed(0) }
    } else if b == 0x5B {
        OpcodeClass::Value { kind: IonType::Float, rule: LengthRule::Fixed(2) }
    } else if b == 0x5C {
        OpcodeClass::Value { kind: IonType::Float, rule: LengthRule::Fixed(4) }
    } else if b == 0x5D {
        OpcodeClass::Value { kind: IonType::Float, rule: LengthRule::Fixed(8) }
    } else if b == 0x5E || b == 0x5F {
        OpcodeClass::Value { kind: IonType::Bool, rule: LengthRule::Fixed(0) }
    } else if 0x60 <= b && b <= 0x6F {
        OpcodeClass::Value { kind: IonType::Decimal, rule: LengthRule::Fixed(b - 0x60) }
    } else if 0x80 <= b && b <= 0x8E {
        OpcodeClass::Value { kind: IonType::String, rule: LengthRule::Fixed(b - 0x80) }
    } else if 0x90 <= b && b <= 0x9E {
        OpcodeClass::Value { kind: IonType::Symbol, rule: LengthRule::Fixed(b - 0x90) }
    } else if 0xA0 <= b && b <= 0xAE {
        OpcodeClass::Value { kind: IonType::List, rule: LengthRule::Fixed(b - 0xA0) }
    } else if 0xB0 <= b && b <= 0xBE {
        OpcodeClass::Value { kind: IonType::SExp, rule: LengthRule::Fixed(b - 0xB0) }
    } else if b == 0xE0 {
        OpcodeClass::VersionMarker
    } else if 0xE1 <= b && b <= 0xE3 {
        OpcodeClass::Value { kind: IonType::Symbol, rule: LengthRule::Fixed(b - 0xE0) }
    } else if b == 0xEA {
        OpcodeClass::Value { kind: IonType::Null, rule: LengthRule::Fixed(0) }
    } else if b == 0xEC {
        OpcodeClass::NopSingle
    } else if b == 0xED {
        OpcodeClass::NopPrefixed
    } else if b == 0xF5 {
        OpcodeClass::Value { kind: IonType::Int, rule: LengthRule::VarWidthPrefix }
    } else if b == 0xF6 {
        OpcodeClass::Value { kind: IonType::Decimal, rule: LengthRule::VarWidthPrefix }
    } else if b == 0xF8 {
        OpcodeClass::Value { kind: IonType::String, rule: LengthRule::VarWidthPrefix }
    } else if b == 0xF9 {
        OpcodeClass::Value { kind: IonType::Symbol, rule: LengthRule::VarWidthPrefix }
    } else if b == 0xFA {
        OpcodeClass::Value { kind: IonType::List, rule: LengthRule::VarWidthPrefix }
    } else if b == 0xFB {
        OpcodeClass::Value { kind: IonType::SExp, rule: LengthRule::VarWidthPrefix }
    } else if b == 0xFE {
        OpcodeClass::Value { kind: IonType::Blob, rule: LengthRule::VarWidthPrefix }
    } else if b == 0xFF {
        OpcodeClass::Value { kind: IonType::Clob, rule: LengthRule::VarWidthPrefix }
    } else {
        OpcodeClass::Invalid
    }
}

} // verus!
