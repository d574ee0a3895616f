//! The single error channel of the pipeline: a small closed set of error
//! kinds, each carrying a human-readable Hausa message.  Every constructor
//! states its exact message, so contracts elsewhere can speak of the precise
//! error a failing input produces.

use vstd::prelude::*;
use crate::text::push_char;

verus! {

/// Mathematical model of an error: the kind together with the message text.
pub enum ErrM {
    Lex(Seq<char>),
    Parse(Seq<char>),
    Runtime(Seq<char>),
    File(Seq<char>),
}

/// An error from any stage of the pipeline.
#[derive(Debug, Clone)]
pub enum Error {
    /// Tokenization failed.
    LexError(String),
    /// Parsing failed.
    ParseError(String),
    /// Execution failed.
    RuntimeError(String),
    /// A source file could not be read.
    FileError(String),
}

impl View for Error {
    type V = ErrM;

    open spec fn view(&self) -> ErrM {
        match self {
            Error::LexError(m) => ErrM::Lex(m@),
            Error::ParseError(m) => ErrM::Parse(m@),
            Error::RuntimeError(m) => ErrM::Runtime(m@),
            Error::FileError(m) => ErrM::File(m@),
        }
    }
}

impl Error {
    /// The lexer met a character it does not recognize.
    pub fn unknown_token(token: &str) -> (r: Self)
        ensures
            r@ == ErrM::Lex("Ba a gane kalmar '"@ + token@ + "'"@),
    {
        let m = String::from_str("Ba a gane kalmar '").concat(token).concat("'");
        Error::LexError(m)
    }

    /// The parser met a token other than the one the grammar requires.
    pub fn unexpected_token(expected: &str, found: &str) -> (r: Self)
        ensures
            r@ == ErrM::Parse(
                "Ana tsammanin '"@ + expected@ + "', amma an samu '"@ + found@ + "'"@,
            ),
    {
        let m = String::from_str("Ana tsammanin '")
            .concat(expected)
            .concat("', amma an samu '")
            .concat(found)
            .concat("'");
        Error::ParseError(m)
    }

    /// A variable was read that no scope defines.
    pub fn variable_not_found(name: &str) -> (r: Self)
        ensures
            r@ == ErrM::Runtime(
                "Babu irin wannan mai canjin '"@ + name@ + "' da aka rubuta"@,
            ),
    {
        let m = String::from_str("Babu irin wannan mai canjin '")
            .concat(name)
            .concat("' da aka rubuta");
        Error::RuntimeError(m)
    }

    /// An operator was applied to operand types outside its dispatch table.
    pub fn invalid_operation(op: &str, left_type: &str, right_type: &str) -> (r: Self)
        ensures
            r@ == ErrM::Runtime(
                "Ba za a iya amfani da '"@ + op@ + "' tsakanin "@ + left_type@ + " da "@
                    + right_type@,
            ),
    {
        let m = String::from_str("Ba za a iya amfani da '")
            .concat(op)
            .concat("' tsakanin ")
            .concat(left_type)
            .concat(" da ")
            .concat(right_type);
        Error::RuntimeError(m)
    }

    /// A source file could not be opened or read.
    pub fn file_not_found(filename: &str) -> (r: Self)
        ensures
            r@ == ErrM::File("Ba za a iya samun fayil '"@ + filename@ + "' ba"@),
    {
        let m = String::from_str("Ba za a iya samun fayil '").concat(filename).concat("' ba");
        Error::FileError(m)
    }

    /// The input ended inside a string literal.
    pub fn unterminated_string() -> (r: Self)
        ensures
            r@ == ErrM::Lex("Babu ƙarshen jimlar da aka rubuta"@),
    {
        Error::LexError(String::from_str("Babu ƙarshen jimlar da aka rubuta"))
    }

    /// The parser required a statement and found none.
    pub fn expected_statement() -> (r: Self)
        ensures
            r@ == ErrM::Parse("Ana tsammanin statement"@),
    {
        Error::ParseError(String::from_str("Ana tsammanin statement"))
    }

    /// The parser required an expression and found none.
    pub fn expected_expression() -> (r: Self)
        ensures
            r@ == ErrM::Parse("Ana tsammanin expression"@),
    {
        Error::ParseError(String::from_str("Ana tsammanin expression"))
    }

    /// An error raised while the evaluator runs, with the given message.
    pub fn runtime_error(msg: &str) -> (r: Self)
        ensures
            r@ == ErrM::Runtime(msg@),
    {
        Error::RuntimeError(String::from_str(msg))
    }

    /// The full display text of the error: its stage, then its message.
    pub fn message(&self) -> (r: String)
        ensures
            r@ == match self@ {
                ErrM::Lex(m) => "Kuskure na Tokenization: "@ + m,
                ErrM::Parse(m) => "Kuskure na Syntax: "@ + m,
                ErrM::Runtime(m) => "Kuskure na Runtime: "@ + m,
                ErrM::File(m) => "Kuskure na Fayil: "@ + m,
            },
    {
        match self {
            Error::LexError(m) => String::from_str("Kuskure na Tokenization: ").concat(
                m.as_str(),
            ),
            Error::ParseError(m) => String::from_str("Kuskure na Syntax: ").concat(m.as_str()),
            Error::RuntimeError(m) => String::from_str("Kuskure na Runtime: ").concat(
                m.as_str(),
            ),
            Error::FileError(m) => String::from_str("Kuskure na Fayil: ").concat(m.as_str()),
        }
    }
}

} // verus!
