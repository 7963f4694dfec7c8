use pump::compile::token::{Identifier, ParsePos};
use pump::error::{write_error_line, Error};
use pump::runtime::{RtVal, StreamVar};

#[test]
fn right_after_points_just_past_a_span() {
    let p = ParsePos { start: 7, len: 4 };
    assert_eq!(p.right_after(), ParsePos { start: 11, len: 1 });
}

#[test]
fn new_at_is_a_one_character_span() {
    assert_eq!(ParsePos::new_at(5), ParsePos { start: 5, len: 1 });
}

#[test]
fn identifier_take_leaves_an_empty_name() {
    let mut idn = Identifier { name: "stdin".to_string(), position: ParsePos { start: 2, len: 5 } };
    let taken = idn.take();
    assert_eq!(taken.name, "stdin");
    assert_eq!(taken.position, ParsePos { start: 2, len: 5 });
    assert_eq!(idn.name, "");
    assert_eq!(idn.position, ParsePos { start: 2, len: 5 });
}

#[test]
fn error_line_underlines_the_span() {
    assert_eq!(write_error_line(ParsePos { start: 3, len: 2 }), "   ^^\n");
    assert_eq!(write_error_line(ParsePos { start: 0, len: 1 }), "^\n");
}

#[test]
fn format_prints_source_caret_and_message() {
    let err = Error::UnrecognizedToken(ParsePos { start: 6, len: 1 });
    assert_eq!(err.format("stdin ?"), "stdin ?\n      ^\npump: Unrecognized token");
}

#[test]
fn format_without_a_span_prints_only_the_message() {
    let err = Error::EmptyProgram;
    assert_eq!(
        err.format("anything"),
        "pump: Program is empty. Provide at least one expression.",
    );
}

#[test]
fn each_error_carries_its_message() {
    assert_eq!(
        Error::TooManyExprs(ParsePos::new_at(0)).message(),
        "Too many expressions (we only support 1 right now)",
    );
    let idn = Identifier { name: "frob".to_string(), position: ParsePos::new_at(0) };
    assert_eq!(Error::CantResolve(idn).message(), "Can't resolve identifier \"frob\"");
    assert_eq!(
        Error::NotEnoughArguments(ParsePos::new_at(0)).message(),
        "Not enough arguments in function call",
    );
    assert_eq!(
        Error::TooManyArguments(ParsePos::new_at(0)).message(),
        "Too many arguments in function call",
    );
    assert_eq!(Error::UnrecognizedToken(ParsePos::new_at(0)).message(), "Unrecognized token");
    assert_eq!(Error::NotAFunction(ParsePos::new_at(0)).message(), "Not a function");
    assert_eq!(
        Error::WrongArgType {
            expected: "a".to_string(),
            found: "b".to_string(),
            err_pos: ParsePos::new_at(0),
        }
        .message(),
        "Wrong argument type in function call: expected a, found b",
    );
    assert_eq!(
        Error::NonFormattable("fn (string) -> bool".to_string()).message(),
        "Top-level program type cannot be formatted: fn (string) -> bool",
    );
}

#[test]
fn errors_carry_their_spans() {
    assert_eq!(Error::EmptyProgram.position(), None);
    assert_eq!(Error::NonFormattable("t".to_string()).position(), None);
    let p = ParsePos { start: 4, len: 2 };
    assert_eq!(Error::UnrecognizedToken(p).position(), Some(p));
    assert_eq!(Error::NotAFunction(p).position(), Some(p));
}

#[test]
fn channel_passes_one_value_through() {
    let mut ch = StreamVar::new();
    ch.write(RtVal::String("x".to_string()));
    match ch.read() {
        RtVal::String(s) => assert_eq!(s, "x"),
        _ => panic!("expected the written value back"),
    }
    ch.write(RtVal::Bool(true));
    match ch.read() {
        RtVal::Bool(b) => assert!(b),
        _ => panic!("expected the written value back"),
    }
}

#[test]
fn runtime_values_print_canonically() {
    assert_eq!(RtVal::String("abc".to_string()).format(), "abc");
    assert_eq!(RtVal::Bool(true).format(), "true");
    assert_eq!(RtVal::Bool(false).format(), "false");
    assert_eq!(RtVal::String("x".to_string()).str_ref(), Some("x"));
    assert_eq!(RtVal::Bool(true).str_ref(), None);
    assert_eq!(RtVal::Bool(false).as_bool(), Some(false));
    assert_eq!(RtVal::String("x".to_string()).as_bool(), None);
}
