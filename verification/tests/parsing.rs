use pgn_parser::ParseError;
use pgn_parser::parse_pgn;

#[test]
fn empty_input_rejected() {
    let r = parse_pgn("");
    assert_eq!(r, Err(ParseError::EmptyInput));
}

#[test]
fn whitespace_only_is_not_empty() {
    let r = parse_pgn(" ").unwrap();
    assert!(r.metadata.is_empty());
    assert!(r.moves.is_empty());
}

#[test]
fn tag_without_space_rejected() {
    let r = parse_pgn("[EventOnly]");
    assert_eq!(r, Err(ParseError::MalformedHeader));
}

#[test]
fn malformed_tag_anywhere_fails_whole_parse() {
    let r = parse_pgn("[Event \"Test\"]\n[Bad]\n1. e4");
    assert_eq!(r, Err(ParseError::MalformedHeader));
}

#[test]
fn end_to_end_scenario() {
    let r = parse_pgn("[Event \"Test\"]\n[Site \"Here\"]\n1. e4 e5 2. Nf3").unwrap();
    assert_eq!(
        r.metadata,
        vec![
            ("Event".to_string(), "Test".to_string()),
            ("Site".to_string(), "Here".to_string()),
        ]
    );
    assert_eq!(r.moves, vec!["e4".to_string(), "e5".to_string(), "Nf3".to_string()]);
}

#[test]
fn interior_quotes_preserved() {
    let r = parse_pgn("[Event \"World \\\"Open\\\" Cup\"]").unwrap();
    assert_eq!(
        r.metadata,
        vec![("Event".to_string(), "World \\\"Open\\\" Cup".to_string())]
    );
}

#[test]
fn all_edge_quotes_stripped() {
    // Quote-stripping removes every leading and trailing quote, so a doubly
    // wrapped value loses both pairs; only interior quotes survive.
    let r = parse_pgn("[A \"\"x\"\"]").unwrap();
    assert_eq!(r.metadata, vec![("A".to_string(), "x".to_string())]);
}

#[test]
fn unquoted_value_kept_as_is() {
    let r = parse_pgn("[Round 1]").unwrap();
    assert_eq!(r.metadata, vec![("Round".to_string(), "1".to_string())]);
}

#[test]
fn value_keeps_every_space_after_first() {
    let r = parse_pgn("[White Jose Raul Capablanca]").unwrap();
    assert_eq!(
        r.metadata,
        vec![("White".to_string(), "Jose Raul Capablanca".to_string())]
    );
}

#[test]
fn empty_value_and_empty_name() {
    let r = parse_pgn("[a ]").unwrap();
    assert_eq!(r.metadata, vec![("a".to_string(), "".to_string())]);
    let r2 = parse_pgn("[ b]").unwrap();
    assert_eq!(r2.metadata, vec![("".to_string(), "b".to_string())]);
}

#[test]
fn duplicate_headers_kept_in_order() {
    let r = parse_pgn("[Event \"A\"][Event \"B\"]").unwrap();
    assert_eq!(
        r.metadata,
        vec![
            ("Event".to_string(), "A".to_string()),
            ("Event".to_string(), "B".to_string()),
        ]
    );
}

#[test]
fn empty_brackets_skipped() {
    let r = parse_pgn("[] [A b]").unwrap();
    assert_eq!(r.metadata, vec![("A".to_string(), "b".to_string())]);
}

#[test]
fn open_bracket_inside_interior() {
    // The interior runs to the first closing bracket, so a second opening
    // bracket is part of the name.
    let r = parse_pgn("[[a b]").unwrap();
    assert_eq!(r.metadata, vec![("[a".to_string(), "b".to_string())]);
}

#[test]
fn unclosed_bracket_is_no_tag() {
    let r = parse_pgn("[Event \"Test\" e4").unwrap();
    assert!(r.metadata.is_empty());
    assert_eq!(r.moves, vec!["e4".to_string()]);
}

#[test]
fn square_inside_header_counts_as_move() {
    // The two scans are independent passes over the full text.
    let r = parse_pgn("[Site b4]").unwrap();
    assert_eq!(r.metadata, vec![("Site".to_string(), "b4".to_string())]);
    assert_eq!(r.moves, vec!["b4".to_string()]);
}

#[test]
fn tokenize_round_trip() {
    let tokens = vec!["e4", "Nf3", "exd5", "Qxe8=Q#", "a1"];
    let joined = tokens.join(" ");
    let r = parse_pgn(&joined).unwrap();
    let expected: Vec<String> = tokens.iter().map(|t| t.to_string()).collect();
    assert_eq!(r.moves, expected);
    assert!(r.metadata.is_empty());
}

#[test]
fn castling_and_results_not_matched() {
    let r = parse_pgn("O-O O-O-O 1-0 1/2-1/2").unwrap();
    assert!(r.moves.is_empty());
}

#[test]
fn capture_promotion_and_check_suffixes() {
    let r = parse_pgn("exd8=Q+ Nf3# cxb2").unwrap();
    assert_eq!(
        r.moves,
        vec!["exd8=Q+".to_string(), "Nf3#".to_string(), "cxb2".to_string()]
    );
}

#[test]
fn disambiguated_moves_matched() {
    let r = parse_pgn("Nbd7 R1e2 Qh4xe1").unwrap();
    assert_eq!(
        r.moves,
        vec!["Nbd7".to_string(), "R1e2".to_string(), "Qh4xe1".to_string()]
    );
}

#[test]
fn value_of_only_quotes_becomes_empty() {
    let r = parse_pgn("[A \"\"\"\"]").unwrap();
    assert_eq!(r.metadata, vec![("A".to_string(), "".to_string())]);
}

#[test]
fn bare_square_match_is_two_characters() {
    // At a word boundary the bare-square alternative wins and takes exactly
    // two characters, so a promotion spelled after it is not part of the token.
    let r = parse_pgn("e8=Q").unwrap();
    assert_eq!(r.moves, vec!["e8".to_string()]);
}

#[test]
fn capture_without_boundary_still_matches() {
    let r = parse_pgn("b4xc5").unwrap();
    assert_eq!(r.moves, vec!["b4".to_string(), "xc5".to_string()]);
}

#[test]
fn no_boundary_blocks_bare_square() {
    // After a word character the bare square does not match; the fuller
    // shape picks up the longer token instead.
    let r = parse_pgn("he4").unwrap();
    assert_eq!(r.moves, vec!["he4".to_string()]);
}

#[test]
fn move_numbers_excluded() {
    let r = parse_pgn("1. e4 2. d4").unwrap();
    assert_eq!(r.moves, vec!["e4".to_string(), "d4".to_string()]);
}

#[test]
fn parsing_twice_yields_equal_records() {
    let text = "[Event \"Test\"]\n1. e4 e5";
    let a = parse_pgn(text).unwrap();
    let b = parse_pgn(text).unwrap();
    assert_eq!(a, b);
    assert_eq!(a.metadata, b.metadata);
    assert_eq!(a.moves, b.moves);
}
