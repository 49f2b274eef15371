//! The static errors: what the parser and the compiler reject, and the
//! message of each.

use vstd::prelude::*;

verus! {

/// Why a list tree is not a program.
#[derive(Debug, Clone, Copy, PartialEq, Eq, Structural)]
pub enum ParseError {
    /// A form of the wrong shape, an unknown operator, a token that is no
    /// expression, or an integer literal out of range.
    Invalid,
    /// The program is not a list.
    NotAList,
    /// A function's name does not have the shape of an identifier.
    FunctionNaming,
    /// Two functions have the same name.
    DuplicateFunction,
    /// A function or one of its parameters is named by a reserved word.
    FunctionKeyword,
    /// A parameter's name does not have the shape of an identifier.
    ArgumentNaming,
    /// Two parameters of one function have the same name.
    DuplicateParameter,
    /// A variable's name does not have the shape of an identifier.
    IdentifierNaming,
    /// A variable is named by a reserved word.
    IdentifierKeyword,
    /// Two bindings of one `let` have the same name.
    DuplicateBinding,
}

impl ParseError {
    /// The message of this error.
    pub open spec fn text(self) -> Seq<char> {
        match self {
            ParseError::Invalid => "Invalid"@,
            ParseError::NotAList => "Invalid - Must send sexp list with parentheses"@,
            ParseError::FunctionNaming => "Invalid function naming conventions"@,
            ParseError::DuplicateFunction => "Duplicate function name"@,
            ParseError::FunctionKeyword => "Invalid function definition - keyword"@,
            ParseError::ArgumentNaming => "Invalid argument naming conventions"@,
            ParseError::DuplicateParameter => "Duplicate parameter name"@,
            ParseError::IdentifierNaming => "Invalid identifier naming conventions"@,
            ParseError::IdentifierKeyword => "Invalid identifier - keyword"@,
            ParseError::DuplicateBinding => "Duplicate binding"@,
        }
    }

    /// The message of this error.
    pub fn message(&self) -> (s: String)
        ensures
            s@ == self.text(),
    {
        match self {
            ParseError::Invalid => String::from_str("Invalid"),
            ParseError::NotAList => String::from_str(
                "Invalid - Must send sexp list with parentheses",
            ),
            ParseError::FunctionNaming => String::from_str("Invalid function naming conventions"),
            ParseError::DuplicateFunction => String::from_str("Duplicate function name"),
            ParseError::FunctionKeyword => String::from_str(
                "Invalid function definition - keyword",
            ),
            ParseError::ArgumentNaming => String::from_str("Invalid argument naming conventions"),
            ParseError::DuplicateParameter => String::from_str("Duplicate parameter name"),
            ParseError::IdentifierNaming => String::from_str(
                "Invalid identifier naming conventions",
            ),
            ParseError::IdentifierKeyword => String::from_str("Invalid identifier - keyword"),
            ParseError::DuplicateBinding => String::from_str("Duplicate binding"),
        }
    }
}

/// Why a program cannot be lowered to assembly.
#[derive(Debug, PartialEq, Eq)]
pub enum CompileError {
    /// `input` is read inside a function body.
    InputInFunction,
    /// A variable is read or assigned that no enclosing `let` or parameter
    /// list binds.
    UnboundVariable(String),
    /// `break` stands outside every loop.
    BreakOutsideLoop,
    /// A call passes another number of arguments than the function takes.
    WrongArity(String),
    /// A call names a function that is not defined.
    UnknownFunction(String),
    /// An integer literal lies outside `[-2^62, 2^62 - 1]`.
    NumberOutOfRange,
    /// The program needs a stack index, a label number or a tuple length
    /// beyond what the generated code can address.
    TooLarge,
}

/// The model of a compile error: names are sequences of characters.
pub enum SpecCompileError {
    InputInFunction,
    UnboundVariable(Seq<char>),
    BreakOutsideLoop,
    WrongArity(Seq<char>),
    UnknownFunction(Seq<char>),
    NumberOutOfRange,
    TooLarge,
}

impl View for CompileError {
    type V = SpecCompileError;

    open spec fn view(&self) -> SpecCompileError {
        match self {
            CompileError::InputInFunction => SpecCompileError::InputInFunction,
            CompileError::UnboundVariable(s) => SpecCompileError::UnboundVariable(s@),
            CompileError::BreakOutsideLoop => SpecCompileError::BreakOutsideLoop,
            CompileError::WrongArity(s) => SpecCompileError::WrongArity(s@),
            CompileError::UnknownFunction(s) => SpecCompileError::UnknownFunction(s@),
            CompileError::NumberOutOfRange => SpecCompileError::NumberOutOfRange,
            CompileError::TooLarge => SpecCompileError::TooLarge,
        }
    }
}

impl SpecCompileError {
    /// The message of this error.
    pub open spec fn text(self) -> Seq<char> {
        match self {
            SpecCompileError::InputInFunction => "'input' cannot be used within function"@,
            SpecCompileError::UnboundVariable(s) => "Unbound variable identifier "@ + s,
            SpecCompileError::BreakOutsideLoop => "Invalid break outside of loop"@,
            SpecCompileError::WrongArity(s) => "Incorrect number of function parameters for '"@ + s
                + "'"@,
            SpecCompileError::UnknownFunction(s) => "Unknown function '"@ + s + "'"@,
            SpecCompileError::NumberOutOfRange => "Invalid integer literal - out of range"@,
            SpecCompileError::TooLarge => "Program too large to compile"@,
        }
    }
}

impl CompileError {
    /// The message of this error.
    pub fn message(&self) -> (s: String)
        ensures
            s@ == self@.text(),
    {
        match self {
            CompileError::InputInFunction => String::from_str(
                "'input' cannot be used within function",
            ),
            CompileError::UnboundVariable(name) => {
                let mut s = String::from_str("Unbound variable identifier ");
                s.append(name.as_str());
                s
            },
            CompileError::BreakOutsideLoop => String::from_str("Invalid break outside of loop"),
            CompileError::WrongArity(name) => {
                let mut s = String::from_str("Incorrect number of function parameters for '");
                s.append(name.as_str());
                s.append("'");
                s
            },
            CompileError::UnknownFunction(name) => {
                let mut s = String::from_str("Unknown function '");
                s.append(name.as_str());
                s.append("'");
                s
            },
            CompileError::NumberOutOfRange => String::from_str(
                "Invalid integer literal - out of range",
            ),
            CompileError::TooLarge => String::from_str("Program too large to compile"),
        }
    }
}

} // verus!
