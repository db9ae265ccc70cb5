use vstd::prelude::*;

verus! {

/// Everything that can stop a line of a layout script.
#[derive(Debug)]
pub enum Error {
    /// A string literal without its closing quote.
    UnterminatedString,
    /// A character that starts no token.
    UnknownCharacter(char),
    /// An integer literal with no digits, or one too large for `usize`.
    InvalidInteger,
    /// A `:` separator was expected.
    ExpectedSeparator,
    /// An identifier was expected.
    ExpectedIdentifier,
    /// The `.` of a `$name.field` reference was expected.
    ExpectedDot,
    /// No number, string, constant or variable where an operand was expected.
    UnexpectedPrimary,
    /// Something follows the last argument of the call.
    ExpectedEndOfLine,
    /// The token sequence ended without its end-of-line token.
    UnexpectedEndOfInput,
    /// A `$name.field` reference to nothing recorded.
    UndefinedVariable(String),
    /// A reference to a constant that was not defined.
    UndefinedConstant(String),
    /// A constant used as a number whose text is no base-10 `usize`.
    InvalidConstantValue(String),
    /// A string or a call where a number was expected.
    InvalidExpression,
    /// A statement whose function part is not a call.
    InvalidStatement,
    /// A call of a function that no builtin has.
    UnknownFunction(String),
    /// A builtin called with the wrong number of arguments.
    WrongArgumentCount,
    /// A path, URL or algorithm given as neither a string nor a constant.
    ExpectedStringOrConstant,
    /// A checksum algorithm that is not offered.
    UnknownAlgorithm(String),
    /// A destination name recorded a second time.
    DuplicateDefinition(String),
    /// A value too large for the width it is written with.
    ValueTooWide,
    /// A sum beyond `usize::MAX` or a difference below zero.
    ArithmeticOverflow,
    /// A constant name with a character other than `A`-`Z` and `_`.
    InvalidConstantName(String),
    /// A constant definition without `=`.
    MissingEquals(String),
}

/// What an `Error` says, with its texts as character sequences.
pub enum Fault {
    UnterminatedString,
    UnknownCharacter(char),
    InvalidInteger,
    ExpectedSeparator,
    ExpectedIdentifier,
    ExpectedDot,
    UnexpectedPrimary,
    ExpectedEndOfLine,
    UnexpectedEndOfInput,
    UndefinedVariable(Seq<char>),
    UndefinedConstant(Seq<char>),
    InvalidConstantValue(Seq<char>),
    InvalidExpression,
    InvalidStatement,
    UnknownFunction(Seq<char>),
    WrongArgumentCount,
    ExpectedStringOrConstant,
    UnknownAlgorithm(Seq<char>),
    DuplicateDefinition(Seq<char>),
    ValueTooWide,
    ArithmeticOverflow,
    InvalidConstantName(Seq<char>),
    MissingEquals(Seq<char>),
}

impl View for Error {
    type V = Fault;

    open spec fn view(&self) -> Fault {
        match self {
            Error::UnterminatedString => Fault::UnterminatedString,
            Error::UnknownCharacter(c) => Fault::UnknownCharacter(*c),
            Error::InvalidInteger => Fault::InvalidInteger,
            Error::ExpectedSeparator => Fault::ExpectedSeparator,
            Error::ExpectedIdentifier => Fault::ExpectedIdentifier,
            Error::ExpectedDot => Fault::ExpectedDot,
            Error::UnexpectedPrimary => Fault::UnexpectedPrimary,
            Error::ExpectedEndOfLine => Fault::ExpectedEndOfLine,
            Error::UnexpectedEndOfInput => Fault::UnexpectedEndOfInput,
            Error::UndefinedVariable(s) => Fault::UndefinedVariable(s@),
            Error::UndefinedConstant(s) => Fault::UndefinedConstant(s@),
            Error::InvalidConstantValue(s) => Fault::InvalidConstantValue(s@),
            Error::InvalidExpression => Fault::InvalidExpression,
            Error::InvalidStatement => Fault::InvalidStatement,
            Error::UnknownFunction(s) => Fault::UnknownFunction(s@),
            Error::WrongArgumentCount => Fault::WrongArgumentCount,
            Error::ExpectedStringOrConstant => Fault::ExpectedStringOrConstant,
            Error::UnknownAlgorithm(s) => Fault::UnknownAlgorithm(s@),
            Error::DuplicateDefinition(s) => Fault::DuplicateDefinition(s@),
            Error::ValueTooWide => Fault::ValueTooWide,
            Error::ArithmeticOverflow => Fault::ArithmeticOverflow,
            Error::InvalidConstantName(s) => Fault::InvalidConstantName(s@),
            Error::MissingEquals(s) => Fault::MissingEquals(s@),
        }
    }
}

/// An executable result agrees with a result of the model: the same value,
/// or an error that says the same.
pub open spec fn agrees<T>(r: Result<T, Error>, m: Result<T, Fault>) -> bool {
    match (r, m) {
        (Ok(a), Ok(b)) => a == b,
        (Err(e), Err(f)) => e@ == f,
        _ => false,
    }
}

} // verus!
