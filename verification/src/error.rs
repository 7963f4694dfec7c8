use vstd::prelude::*;

use crate::compile::token::{Identifier, ParsePos};

verus! {

/// The mathematical form of an error report.
pub enum ErrorV {
    EmptyProgram,
    TooManyExprs(ParsePos),
    CantResolve { name: Seq<char>, pos: ParsePos },
    NotEnoughArguments(ParsePos),
    TooManyArguments(ParsePos),
    UnrecognizedToken(ParsePos),
    NotAFunction(ParsePos),
    WrongArgType { expected: Seq<char>, found: Seq<char>, pos: ParsePos },
    NonFormattable { found: Seq<char> },
}

/// Every way a run can fail, each fatal at the stage that raises it.
#[derive(Debug)]
pub enum Error {
    EmptyProgram,
    TooManyExprs(ParsePos),
    CantResolve(Identifier),
    NotEnoughArguments(ParsePos),
    TooManyArguments(ParsePos),
    UnrecognizedToken(ParsePos),
    NotAFunction(ParsePos),
    WrongArgType { expected: String, found: String, err_pos: ParsePos },
    NonFormattable(String),
}

impl View for Error {
    type V = ErrorV;

    open spec fn view(&self) -> ErrorV {
        match self {
            Error::EmptyProgram => ErrorV::EmptyProgram,
            Error::TooManyExprs(p) => ErrorV::TooManyExprs(*p),
            Error::CantResolve(idn) => ErrorV::CantResolve { name: idn.name@, pos: idn.position },
            Error::NotEnoughArguments(p) => ErrorV::NotEnoughArguments(*p),
            Error::TooManyArguments(p) => ErrorV::TooManyArguments(*p),
            Error::UnrecognizedToken(p) => ErrorV::UnrecognizedToken(*p),
            Error::NotAFunction(p) => ErrorV::NotAFunction(*p),
            Error::WrongArgType { expected, found, err_pos } => ErrorV::WrongArgType {
                expected: expected@,
                found: found@,
                pos: *err_pos,
            },
            Error::NonFormattable(t) => ErrorV::NonFormattable { found: t@ },
        }
    }
}

impl DeepView for Error {
    type V = ErrorV;

    open spec fn deep_view(&self) -> ErrorV {
        self.view()
    }
}

/// The span an error points at, if it carries one.
pub open spec fn position_of(e: ErrorV) -> Option<ParsePos> {
    match e {
        ErrorV::EmptyProgram => None,
        ErrorV::TooManyExprs(err_pos) => Some(err_pos),
        ErrorV::CantResolve { pos, .. } => Some(pos),
        ErrorV::NotEnoughArguments(err_pos) => Some(err_pos),
        ErrorV::TooManyArguments(err_pos) => Some(err_pos),
        ErrorV::UnrecognizedToken(err_pos) => Some(err_pos),
        ErrorV::NotAFunction(err_pos) => Some(err_pos),
        ErrorV::WrongArgType { pos, .. } => Some(pos),
        ErrorV::NonFormattable { .. } => None,
    }
}

/// The error's message text.
pub open spec fn message_of(e: ErrorV) -> Seq<char> {
    match e {
        ErrorV::EmptyProgram => "Program is empty. Provide at least one expression."@,
        ErrorV::TooManyExprs(_) => "Too many expressions (we only support 1 right now)"@,
        ErrorV::CantResolve { name, .. } => "Can't resolve identifier \""@ + name + "\""@,
        ErrorV::NotEnoughArguments(_) => "Not enough arguments in function call"@,
        ErrorV::TooManyArguments(_) => "Too many arguments in function call"@,
        ErrorV::UnrecognizedToken(_) => "Unrecognized token"@,
        ErrorV::NotAFunction(_) => "Not a function"@,
        ErrorV::WrongArgType { expected, found, .. } => {
            "Wrong argument type in function call: expected "@ + expected + ", found "@ + found
        },
        ErrorV::NonFormattable { found } => "Top-level program type cannot be formatted: "@
            + found,
    }
}

/// A run of one repeated character.
pub open spec fn repeated(c: char, n: int) -> Seq<char> {
    Seq::new(n as nat, |i: int| c)
}

fn repeat_char(c: char, piece: &str, n: usize) -> (r: String)
    requires
        piece@ == seq![c],
    ensures
        r@ == repeated(c, n as int),
{
    let mut out = String::new();
    let mut i: usize = 0;
    while i < n
        invariant
            piece@ == seq![c],
            0 <= i <= n,
            out@ == repeated(c, i as int),
        decreases n - i,
    {
        out.append(piece);
        proof {
            assert(out@ =~= repeated(c, i as int + 1));
        }
        i = i + 1;
    }
    out
}

/// The caret line under a source line: spaces up to the span, then one caret
/// for each of its characters.
pub open spec fn error_line_of(err_pos: ParsePos) -> Seq<char> {
    repeated(' ', err_pos.start as int) + repeated('^', err_pos.len as int) + "\n"@
}

/// Renders the caret line that underlines a span of the source line.
pub fn write_error_line(err_pos: ParsePos) -> (r: String)
    ensures
        r@ == error_line_of(err_pos),
{
    proof {
        reveal_strlit(" ");
        reveal_strlit("^");
        assert(" "@ =~= seq![' ']);
        assert("^"@ =~= seq!['^']);
    }
    let mut out = repeat_char(' ', " ", err_pos.start);
    let carets = repeat_char('^', "^", err_pos.len);
    out.append(carets.as_str());
    out.append("\n");
    out
}

/// The whole diagnostic for an error: the source line with the offending
/// span caret-underlined, where the error carries one, then the message.
pub open spec fn format_of(e: ErrorV, source: Seq<char>) -> Seq<char> {
    match position_of(e) {
        Some(p) => source + "\n"@ + error_line_of(p) + "pump: "@ + message_of(e),
        None => "pump: "@ + message_of(e),
    }
}

impl Error {
    /// The span this error points at, if it carries one.
    pub fn position(&self) -> (r: Option<ParsePos>)
        ensures
            r == position_of(self@),
    {
        match self {
            Error::EmptyProgram => None,
            Error::TooManyExprs(err_pos) => Some(*err_pos),
            Error::CantResolve(idn) => Some(idn.position),
            Error::NotEnoughArguments(err_pos) => Some(*err_pos),
            Error::TooManyArguments(err_pos) => Some(*err_pos),
            Error::UnrecognizedToken(err_pos) => Some(*err_pos),
            Error::NotAFunction(err_pos) => Some(*err_pos),
            Error::WrongArgType { err_pos, .. } => Some(*err_pos),
            Error::NonFormattable(_) => None,
        }
    }

    /// The error's message text.
    pub fn message(&self) -> (r: String)
        ensures
            r@ == message_of(self@),
    {
        match self {
            Error::EmptyProgram => String::from_str(
                "Program is empty. Provide at least one expression.",
            ),
            Error::TooManyExprs(_) => String::from_str(
                "Too many expressions (we only support 1 right now)",
            ),
            Error::CantResolve(idn) => {
                let mut out = String::from_str("Can't resolve identifier \"");
                out.append(idn.name.as_str());
                out.append("\"");
                out
            },
            Error::NotEnoughArguments(_) => String::from_str(
                "Not enough arguments in function call",
            ),
            Error::TooManyArguments(_) => String::from_str("Too many arguments in function call"),
            Error::UnrecognizedToken(_) => String::from_str("Unrecognized token"),
            Error::NotAFunction(_) => String::from_str("Not a function"),
            Error::WrongArgType { expected, found, .. } => {
                let mut out = String::from_str("Wrong argument type in function call: expected ");
                out.append(expected.as_str());
                out.append(", found ");
                out.append(found.as_str());
                out
            },
            Error::NonFormattable(type_str) => {
                let mut out = String::from_str("Top-level program type cannot be formatted: ");
                out.append(type_str.as_str());
                out
            },
        }
    }

    /// Renders the whole diagnostic against the source line it arose from.
    pub fn format(&self, source: &str) -> (r: String)
        ensures
            r@ == format_of(self@, source@),
    {
        let mut out = String::new();
        match self.position() {
            Some(p) => {
                out.append(source);
                out.append("\n");
                let line = write_error_line(p);
                out.append(line.as_str());
            },
            None => {},
        }
        out.append("pump: ");
        let msg = self.message();
        out.append(msg.as_str());
        proof {
            assert(Seq::<char>::empty() + "pump: "@ =~= "pump: "@);
        }
        out
    }
}

} // verus!
