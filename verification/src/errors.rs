use vstd::prelude::*;

verus! {

/// Why a span of bytes failed to conform to the format.
#[derive(Clone, Copy, Debug, PartialEq, Eq, Structural)]
pub enum ErrorReason {
    /// The leading byte of an item is not in the opcode table.
    UnrecognizedOpcode,
    /// A variable-width integer began with a zero byte, claiming a length
    /// beyond what this decoder represents.
    ReservedVarWidth,
    /// A version marker opcode was not followed by a valid marker trailer.
    InvalidVersionMarker,
    /// A valid version marker declared a version other than 1.1.
    UnsupportedVersion,
    /// A version marker opcode appeared inside a container body.
    MarkerInContainer,
    /// A float body width that is classified but not decodable (half precision).
    UnsupportedFloatWidth,
    /// An integer or decimal coefficient body wider than 16 bytes.
    IntegerTooLarge,
    /// A string or inline symbol body that is not well-formed UTF-8.
    InvalidUtf8,
    /// A stream item of one kind was demanded where another was produced.
    UnexpectedItem,
}

/// The two error kinds of the decoder.
///
/// `Incomplete` means a declared or implied length exceeds the bytes actually
/// available; it carries the absolute offset at which the shortfall was
/// detected and is recoverable by supplying more bytes. `Decoding` means the
/// bytes are present but malformed; retrying with the same bytes cannot help.
#[derive(Clone, Copy, Debug, PartialEq, Eq, Structural)]
pub enum IonError {
    Incomplete { position: usize },
    Decoding { reason: ErrorReason },
}

pub type IonResult<T> = Result<T, IonError>;

/// A decoding outcome stated without a stream position, used by the
/// specification functions that describe the wire format over plain byte
/// sequences.
#[derive(Clone, Copy, Debug, PartialEq, Eq, Structural)]
pub enum Fault {
    Incomplete,
    Decoding(ErrorReason),
}

impl Fault {
    /// The error this fault stands for once a stream position is known.
    pub open spec fn at(self, position: nat) -> IonError {
        match self {
            Fault::Incomplete => IonError::Incomplete { position: position as usize },
            Fault::Decoding(reason) => IonError::Decoding { reason },
        }
    }
}

} // verus!
