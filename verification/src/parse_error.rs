use vstd::prelude::*;

verus! {

/// A failure raised while assembling source text.
///
/// Capacity failures are folded into `InvalidString`: a source whose data
/// segment or code stream would outgrow the 16-bit address space is rejected
/// with it.
#[derive(Debug, PartialEq)]
pub enum ParseError {
    /// A string literal is unterminated, or a segment would not fit in the
    /// address space.
    InvalidString,
    /// An instruction operand names no known label, string or data symbol.
    UndefinedSymbols,
    /// A token is not a well-formed identifier.
    InvalidIdentifier,
    /// A mnemonic names no instruction of the machine.
    UndefinedInstruction { name: String },
    /// A label definition is malformed (e.g. tokens follow the `name:`).
    InvalidLabelDescription,
    /// The same label name is defined twice.
    DuplicateLabelDefinition,
    /// The same string or data name is defined twice.
    DuplicateStringDefinition,
    /// An instruction's arguments are missing, extra, or each failed to
    /// resolve; `errors` collects the failures of the individual arguments.
    InvalidArgument { errors: Vec<ParseError> },
    /// A `.string` directive lacks its name or literal, or an escape inside a
    /// literal is unknown.
    InvalidStringValue,
    /// A `.data` directive lacks its name or carries a non-numeric word.
    InvalidByteValue,
    /// A token cannot stand as an instruction argument.
    InvalidArgToken,
    /// A directive or argument was expected but the line ended.
    CannotPeekAtToken,
    /// A lookahead ran past the end of the source.
    PeekExceedsSourceLength,
    /// A decimal literal holds a stray character or exceeds 16 bits.
    InvalidDecimalDigit { text: String },
    /// A hex literal holds a stray character or exceeds 16 bits.
    InvalidHexDigit { text: String },
}

} // verus!
