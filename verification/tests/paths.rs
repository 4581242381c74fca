use pgn_parser::ParseError;
use pgn_parser::check_file_extension;

#[test]
fn wrong_extension_rejected() {
    assert_eq!(
        check_file_extension("game.txt"),
        Err(ParseError::IncompatibleFile(Some("txt".to_string())))
    );
}

#[test]
fn standard_extension_accepted() {
    assert_eq!(check_file_extension("game.pgn"), Ok(()));
    assert_eq!(check_file_extension("a/b/game.pgn"), Ok(()));
    assert_eq!(check_file_extension("archive.tar.pgn"), Ok(()));
}

#[test]
fn trailing_separators_and_dot_components_ignored() {
    assert_eq!(check_file_extension("dir.pgn/"), Ok(()));
    assert_eq!(check_file_extension("a.pgn//"), Ok(()));
    assert_eq!(check_file_extension("a.pgn/."), Ok(()));
    assert_eq!(check_file_extension("a.pgn/.//"), Ok(()));
}

#[test]
fn parent_component_has_no_file_name() {
    assert_eq!(
        check_file_extension("a.pgn/.."),
        Err(ParseError::IncompatibleFile(None))
    );
    assert_eq!(check_file_extension(".."), Err(ParseError::IncompatibleFile(None)));
}

#[test]
fn extension_comparison_is_exact() {
    assert_eq!(
        check_file_extension("game.PGN"),
        Err(ParseError::IncompatibleFile(Some("PGN".to_string())))
    );
    assert_eq!(
        check_file_extension("game.pgnx"),
        Err(ParseError::IncompatibleFile(Some("pgnx".to_string())))
    );
}

#[test]
fn hidden_file_has_no_extension() {
    assert_eq!(check_file_extension(".pgn"), Err(ParseError::IncompatibleFile(None)));
    assert_eq!(
        check_file_extension("dir/.pgn"),
        Err(ParseError::IncompatibleFile(None))
    );
}

#[test]
fn no_extension_rejected() {
    assert_eq!(check_file_extension("game"), Err(ParseError::IncompatibleFile(None)));
    assert_eq!(check_file_extension(""), Err(ParseError::IncompatibleFile(None)));
    assert_eq!(
        check_file_extension("dir.pgn/game"),
        Err(ParseError::IncompatibleFile(None))
    );
}

#[test]
fn error_messages_describe_the_failure() {
    assert_eq!(ParseError::EmptyInput.message(), "PGN is empty.");
    assert_eq!(
        ParseError::MalformedHeader.message(),
        "Invalid metadata format in PGN"
    );
    assert_eq!(
        ParseError::IncompatibleFile(Some("txt".to_string())).message(),
        "Found incompatible file extension: Some(\"txt\")"
    );
    assert_eq!(
        ParseError::IncompatibleFile(None).message(),
        "Found incompatible file extension: None"
    );
    assert_eq!(
        ParseError::FileUnreadable("no such file".to_string()).message(),
        "no such file"
    );
}
