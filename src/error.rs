use vstd::prelude::*;

verus! {

/// What went wrong when parsing stopped.
#[derive(Debug, Clone, Copy, PartialEq, Eq, Structural)]
pub enum ParseErrorKind {
    /// A token that cannot begin the construct expected here.
    UnexpectedToken,
    /// A name declared twice in the same scope frame.
    DuplicateBinding,
    /// A name that no enclosing scope declares.
    UnresolvedName,
    /// Operand types an operator refuses, or an initializer whose type
    /// differs from the declared one.
    TypeMismatch,
    /// A missing closing parenthesis or brace.
    MalformedGrouping,
}

/// The first error met, with the source line it arose on.
#[derive(Debug, Clone, Copy, PartialEq, Eq, Structural)]
pub struct ParseError {
    pub kind: ParseErrorKind,
    pub line_number: u32,
}

impl ParseError {
    pub fn new(kind: ParseErrorKind, line_number: u32) -> (r: ParseError)
        ensures
            r == (ParseError { kind, line_number }),
    {
        ParseError { kind, line_number }
    }
}

} // verus!
