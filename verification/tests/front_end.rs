use pump::compile::parse::parse;
use pump::compile::token::{tokenize, tokenize_all, Kind, ParsePos};
use pump::compile::types::{typecheck_expr, typecheck_program, Type};
use pump::error::Error;

fn stream_of(item: Type) -> Type {
    Type::Stream(Box::new(item))
}

#[test]
fn tokenize_three_tokens_with_spans() {
    let toks = tokenize_all("filter m/a/ stdin").unwrap();
    assert_eq!(toks.len(), 3);
    assert_eq!(toks[0].position, ParsePos { start: 0, len: 6 });
    assert_eq!(toks[1].position, ParsePos { start: 7, len: 4 });
    assert_eq!(toks[2].position, ParsePos { start: 12, len: 5 });
    match &toks[0].kind {
        Kind::Identifier(idn) => {
            assert_eq!(idn.name, "filter");
            assert_eq!(idn.position, ParsePos { start: 0, len: 6 });
        },
        _ => panic!("expected an identifier"),
    }
    match &toks[1].kind {
        Kind::RegexMatch(pattern) => assert_eq!(pattern, "a"),
        _ => panic!("expected a regex-match literal"),
    }
}

#[test]
fn tokenize_spans_reconstruct_source() {
    // Concatenating the whitespace before each token with the token's span
    // rebuilds the source exactly.
    let source = "\t filter  m/a\\/b/\ns/x/y/  stdin ";
    let toks = tokenize_all(source).unwrap();
    let chars: Vec<char> = source.chars().collect();
    let mut at = 0usize;
    let mut rebuilt = String::new();
    for t in &toks {
        assert!(t.position.start >= at, "tokens overlap or go backwards");
        for c in &chars[at..t.position.start] {
            assert!(c.is_whitespace());
            rebuilt.push(*c);
        }
        let end = t.position.start + t.position.len;
        for c in &chars[t.position.start..end] {
            rebuilt.push(*c);
        }
        at = end;
    }
    for c in &chars[at..] {
        assert!(c.is_whitespace());
        rebuilt.push(*c);
    }
    assert_eq!(rebuilt, source);
}

#[test]
fn tokenize_subst_literal_halves() {
    let toks = tokenize_all("s/ab/cd/").unwrap();
    assert_eq!(toks.len(), 1);
    match &toks[0].kind {
        Kind::RegexSubst(subst) => {
            assert_eq!(subst.search, "ab");
            assert_eq!(subst.replace, "cd");
        },
        _ => panic!("expected a regex-substitution literal"),
    }
}

#[test]
fn tokenize_escaped_slash_stays_in_literal() {
    let toks = tokenize_all("m/a\\/b/").unwrap();
    assert_eq!(toks.len(), 1);
    assert_eq!(toks[0].position, ParsePos { start: 0, len: 7 });
    match &toks[0].kind {
        Kind::RegexMatch(pattern) => assert_eq!(pattern, "a\\/b"),
        _ => panic!("expected a regex-match literal"),
    }
}

#[test]
fn tokenize_halts_at_first_unrecognized_offset() {
    let err = tokenize_all("stdin ?junk").unwrap_err();
    match err {
        Error::UnrecognizedToken(p) => assert_eq!(p, ParsePos { start: 6, len: 1 }),
        _ => panic!("expected an unrecognized token"),
    }
}

#[test]
fn tokenize_rejected_inner_pattern_is_unrecognized() {
    // The engine rejects `(` as a pattern, so the literal is reported at its
    // own start.
    let err = tokenize_all("filter m/(/ stdin").unwrap_err();
    match err {
        Error::UnrecognizedToken(p) => assert_eq!(p, ParsePos { start: 7, len: 1 }),
        _ => panic!("expected an unrecognized token"),
    }
}

#[test]
fn tokenizer_hands_out_tokens_one_at_a_time() {
    let mut tk = tokenize("map stdin");
    let first = tk.next().unwrap().unwrap();
    assert_eq!(first.position, ParsePos { start: 0, len: 3 });
    let second = tk.next().unwrap().unwrap();
    assert_eq!(second.position, ParsePos { start: 4, len: 5 });
    assert!(tk.next().is_none());
}

#[test]
fn stdin_alone_typechecks_to_stream_of_string() {
    let e = parse("stdin").unwrap();
    let t = typecheck_expr(&e).unwrap();
    assert_eq!(t, stream_of(Type::String));
    assert!(typecheck_program(&e).is_ok());
}

#[test]
fn filter_call_typechecks_to_stream_of_string() {
    let e = parse("filter m/a/ stdin").unwrap();
    let t = typecheck_expr(&e).unwrap();
    assert_eq!(t, stream_of(Type::String));
}

#[test]
fn map_call_typechecks_to_stream_of_bool() {
    let e = parse("map m/a/ stdin").unwrap();
    let t = typecheck_expr(&e).unwrap();
    assert_eq!(t, stream_of(Type::Bool));
}

#[test]
fn filter_with_one_argument_lacks_arguments() {
    let e = parse("filter m/a/").unwrap();
    let err = typecheck_expr(&e).unwrap_err();
    match err {
        // Right after the last argument's span
        Error::NotEnoughArguments(p) => assert_eq!(p, ParsePos { start: 11, len: 1 }),
        _ => panic!("expected a missing argument"),
    }
}

#[test]
fn filter_with_three_arguments_has_too_many() {
    let e = parse("filter m/a/ stdin stdin").unwrap();
    let err = typecheck_expr(&e).unwrap_err();
    match err {
        // At the first surplus argument's span
        Error::TooManyArguments(p) => assert_eq!(p, ParsePos { start: 18, len: 5 }),
        _ => panic!("expected a surplus argument"),
    }
}

#[test]
fn unknown_surplus_argument_fails_resolution_first() {
    // Resolution runs before the typechecker, so an unknown name among the
    // arguments wins over the arity error.
    let err = parse("filter m/a/ stdin extra").unwrap_err();
    match err {
        Error::CantResolve(idn) => {
            assert_eq!(idn.name, "extra");
            assert_eq!(idn.position, ParsePos { start: 18, len: 5 });
        },
        _ => panic!("expected an unresolved name"),
    }
}

#[test]
fn filter_with_substitution_predicate_has_wrong_type() {
    let e = parse("filter s/a/b/ stdin").unwrap();
    let err = typecheck_expr(&e).unwrap_err();
    match err {
        Error::WrongArgType { expected, found, err_pos } => {
            assert_eq!(expected, "fn (string) -> bool");
            assert_eq!(found, "fn (string) -> string");
            assert_eq!(err_pos, ParsePos { start: 7, len: 6 });
        },
        _ => panic!("expected an argument type mismatch"),
    }
}

#[test]
fn filter_over_a_non_stream_has_wrong_type() {
    let e = parse("filter m/a/ m/b/").unwrap();
    let err = typecheck_expr(&e).unwrap_err();
    match err {
        Error::WrongArgType { expected, found, err_pos } => {
            assert_eq!(expected, "any stream type");
            assert_eq!(found, "fn (string) -> bool");
            assert_eq!(err_pos, ParsePos { start: 12, len: 4 });
        },
        _ => panic!("expected an argument type mismatch"),
    }
}

#[test]
fn bare_operator_program_is_not_formattable() {
    let e = parse("m/a/").unwrap();
    let err = typecheck_program(&e).unwrap_err();
    match err {
        Error::NonFormattable(found) => assert_eq!(found, "fn (string) -> bool"),
        _ => panic!("expected a non-formattable program"),
    }
}

#[test]
fn calling_a_stream_is_not_a_function() {
    let e = parse("stdin stdin").unwrap();
    let err = typecheck_expr(&e).unwrap_err();
    match err {
        Error::NotAFunction(p) => assert_eq!(p, ParsePos { start: 0, len: 5 }),
        _ => panic!("expected a non-function head"),
    }
}

#[test]
fn bare_filter_lacks_arguments() {
    let e = parse("filter").unwrap();
    let err = typecheck_expr(&e).unwrap_err();
    match err {
        Error::NotEnoughArguments(p) => assert_eq!(p, ParsePos { start: 6, len: 1 }),
        _ => panic!("expected a missing argument"),
    }
}

#[test]
fn unknown_name_cannot_resolve() {
    let err = parse("foo").unwrap_err();
    match err {
        Error::CantResolve(idn) => {
            assert_eq!(idn.name, "foo");
            assert_eq!(idn.position, ParsePos { start: 0, len: 3 });
        },
        _ => panic!("expected an unresolved name"),
    }
}

#[test]
fn empty_program_is_rejected() {
    assert!(matches!(parse("").unwrap_err(), Error::EmptyProgram));
    assert!(matches!(parse("   \t\n").unwrap_err(), Error::EmptyProgram));
}

#[test]
fn pretty_print_renders_program_back() {
    let e = parse("filter m/a/ stdin").unwrap();
    assert_eq!(e.pretty_print(), "filter m/a/ stdin");
    let s = parse("map s/x/y/ stdin").unwrap();
    assert_eq!(s.pretty_print(), "map s/x/y/ stdin");
}

#[test]
fn unicode_whitespace_is_skipped() {
    // No-break space counts as whitespace between tokens.
    let toks = tokenize_all("\u{a0}stdin").unwrap();
    assert_eq!(toks.len(), 1);
    assert_eq!(toks[0].position, ParsePos { start: 1, len: 5 });
}

#[test]
fn non_ascii_characters_keep_their_offsets() {
    let toks = tokenize_all("filter m/é/ stdin").unwrap();
    assert_eq!(toks.len(), 3);
    // Offsets count characters, not bytes.
    assert_eq!(toks[1].position, ParsePos { start: 7, len: 4 });
    match &toks[1].kind {
        Kind::RegexMatch(pattern) => assert_eq!(pattern, "é"),
        _ => panic!("expected a regex-match literal"),
    }
}
