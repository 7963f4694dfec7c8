use pump::compile::compile;
use pump::compile::token::ParsePos;
use pump::error::Error;
use pump::run_program;
use pump::runtime::exec;
use pump::runtime::stream::stream_from;
use pump::runtime::RtVal;

fn lines(items: &[&str]) -> Vec<String> {
    items.iter().map(|s| s.to_string()).collect()
}

#[test]
fn filter_keeps_matching_lines() {
    let out = run_program("filter m/a/ stdin", lines(&["apple", "banana", "cherry"])).unwrap();
    assert_eq!(out, lines(&["apple", "banana"]));
}

#[test]
fn map_substitutes_every_line() {
    let out = run_program("map s/a/o/ stdin", lines(&["cat", "car"])).unwrap();
    assert_eq!(out, lines(&["cot", "cor"]));
}

#[test]
fn stdin_alone_echoes_input() {
    let out = run_program("stdin", lines(&["one", "two"])).unwrap();
    assert_eq!(out, lines(&["one", "two"]));
}

#[test]
fn map_match_prints_canonical_booleans() {
    let out = run_program("map m/a/ stdin", lines(&["cat", "dog"])).unwrap();
    assert_eq!(out, lines(&["true", "false"]));
}

#[test]
fn empty_input_gives_empty_output() {
    let out = run_program("filter m/a/ stdin", lines(&[])).unwrap();
    assert_eq!(out, lines(&[]));
}

#[test]
fn filter_keeps_order_without_duplicates() {
    let input = lines(&["ba", "x", "ab", "y", "aa"]);
    let out = run_program("filter m/a/ stdin", input).unwrap();
    assert_eq!(out, lines(&["ba", "ab", "aa"]));
}

#[test]
fn anchored_pattern_reaches_the_engine() {
    let out = run_program("filter m/^a/ stdin", lines(&["apple", "bapple"])).unwrap();
    assert_eq!(out, lines(&["apple"]));
}

#[test]
fn escaped_slash_matches_a_literal_slash() {
    let out = run_program("filter m/\\// stdin", lines(&["a/b", "ab"])).unwrap();
    assert_eq!(out, lines(&["a/b"]));
}

#[test]
fn backreferences_swap_captured_groups() {
    let out = run_program("map s/(a)(b)/\\2\\1/ stdin", lines(&["ab", "xaby"])).unwrap();
    assert_eq!(out, lines(&["ba", "xbay"]));
}

#[test]
fn substitution_replaces_every_match() {
    let out = run_program("map s/a/o/ stdin", lines(&["banana"])).unwrap();
    assert_eq!(out, lines(&["bonono"]));
}

#[test]
fn run_reports_the_first_error() {
    let err = run_program("?", lines(&["x"])).unwrap_err();
    assert!(matches!(err, Error::UnrecognizedToken(ParsePos { start: 0, len: 1 })));
    let err = run_program("", lines(&[])).unwrap_err();
    assert!(matches!(err, Error::EmptyProgram));
}

#[test]
fn exec_runs_a_compiled_tree() {
    let tree = compile("map s/a/o/ stdin").unwrap();
    let out = exec(&tree, lines(&["cat"]));
    assert_eq!(out, lines(&["cot"]));
}

#[test]
fn stream_node_is_pulled_one_element_at_a_time() {
    let tree = compile("filter m/a/ stdin").unwrap();
    let mut node = stream_from(&tree, lines(&["apple", "sky", "banana"]));
    match node.next() {
        Some(RtVal::String(s)) => assert_eq!(s, "apple"),
        _ => panic!("expected the first surviving line"),
    }
    match node.next() {
        Some(RtVal::String(s)) => assert_eq!(s, "banana"),
        _ => panic!("expected the second surviving line"),
    }
    assert!(node.next().is_none());
}

#[test]
fn non_ascii_patterns_match() {
    let out = run_program("filter m/é/ stdin", lines(&["café", "cab"])).unwrap();
    assert_eq!(out, lines(&["café"]));
}
