//! The record type, the error taxonomy, and the assembler that runs both
//! scans over one input text.

use vstd::prelude::*;

use crate::headers::pairs_view;
use crate::headers::scan_headers;
use crate::headers::spec_headers;
use crate::moves::scan_moves;
use crate::moves::spec_moves;
use crate::moves::strings_view;

verus! {

/// Why a parse, or a file hand-off, failed.
#[derive(Debug, Clone, PartialEq, Eq)]
pub enum ParseError {
    /// The text to parse has zero length.
    EmptyInput,
    /// A bracketed tag's interior could not be split into a name and a value.
    MalformedHeader,
    /// A file path does not carry the notation's standard extension; carries
    /// the extension that was found instead, if the path has one at all.
    IncompatibleFile(Option<String>),
    /// Reading a file failed; carries the underlying failure's description.
    FileUnreadable(String),
}

/// A parsed game record: the ordered header pairs and the ordered move
/// tokens, each a complete scan of the same input text. A value of this type
/// is immutable once built and owns all of its text.
#[derive(Debug, Clone, PartialEq, Eq)]
pub struct PGNReader {
    /// Header pairs, in order of first appearance; duplicates are kept.
    pub metadata: Vec<(String, String)>,
    /// Move tokens, in input order; repeats are kept.
    pub moves: Vec<String>,
}

impl View for PGNReader {
    type V = (Seq<(Seq<char>, Seq<char>)>, Seq<Seq<char>>);

    open spec fn view(&self) -> Self::V {
        (pairs_view(self.metadata@), strings_view(self.moves@))
    }
}

/// What parsing an input text yields: the header pairs and move tokens, or
/// the error that classifies the failure. Empty input is rejected first; a
/// tag that cannot be split fails the whole parse.
pub open spec fn spec_parse(s: Seq<char>) -> Result<
    (Seq<(Seq<char>, Seq<char>)>, Seq<Seq<char>>),
    ParseError,
> {
    if s.len() == 0 {
        Err(ParseError::EmptyInput)
    } else {
        match spec_headers(s) {
            None => Err(ParseError::MalformedHeader),
            Some(h) => Ok((h, spec_moves(s))),
        }
    }
}

/// Parses one game record out of the given text: its header pairs and its
/// move tokens, or the classified error.
pub fn parse_pgn(pgn: &str) -> (r: Result<PGNReader, ParseError>)
    ensures
        match r {
            Ok(rec) => spec_parse(pgn@) == Ok::<_, ParseError>(rec@),
            Err(e) => spec_parse(pgn@) == Err::<
                (Seq<(Seq<char>, Seq<char>)>, Seq<Seq<char>>),
                _,
            >(e),
        },
{
    let n = pgn.unicode_len();
    if n == 0 {
        return Err(ParseError::EmptyInput);
    }
    let metadata = match scan_headers(pgn) {
        Some(h) => h,
        None => {
            return Err(ParseError::MalformedHeader);
        },
    };
    let moves = scan_moves(pgn);
    Ok(PGNReader { metadata, moves })
}

/// What `ParseError::message` returns for each kind. The wrong-extension
/// message names the extension that was found, or its absence.
pub open spec fn spec_message(e: ParseError) -> Seq<char> {
    match e {
        ParseError::EmptyInput => "PGN is empty."@,
        ParseError::MalformedHeader => "Invalid metadata format in PGN"@,
        ParseError::IncompatibleFile(found) => "Found incompatible file extension: "@ + (
        match found {
            Some(ext) => "Some(\""@ + ext@ + "\")"@,
            None => "None"@,
        }),
        ParseError::FileUnreadable(d) => d@,
    }
}

impl ParseError {
    /// A description of the failure, for reporting to a caller.
    pub fn message(&self) -> (m: String)
        ensures
            m@ == spec_message(*self),
    {
        match self {
            ParseError::EmptyInput => "PGN is empty.".to_owned(),
            ParseError::MalformedHeader => "Invalid metadata format in PGN".to_owned(),
            ParseError::IncompatibleFile(found) => {
                let mut m = "Found incompatible file extension: ".to_owned();
                match found {
                    Some(ext) => {
                        m.append("Some(\"");
                        m.append(ext.as_str());
                        m.append("\")");
                    },
                    None => {
                        m.append("None");
                    },
                }
                assert(m@ =~= spec_message(*self));
                m
            },
            ParseError::FileUnreadable(d) => d.clone(),
        }
    }
}

} // verus!
