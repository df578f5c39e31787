//! The one error type of the library and its kinds.
use vstd::prelude::*;

verus! {

/// What went wrong while reading a text as a pattern or a ground term.
#[derive(Clone, Copy, Debug, PartialEq, Eq, Structural)]
pub enum ParseErrorKind {
    /// The reader could not make a tree of the text (unbalanced brackets).
    Lexical,
    /// Nothing stood where a term was needed.
    EmptyTerm,
    /// A list had no operator.
    EmptyList,
    /// The head of a list was not an operator of the language.
    InvalidOperator,
    /// A leaf atom was neither a wildcard nor an operator of the language.
    InvalidAtom,
    /// An atom was empty or began or ended with whitespace.
    MalformedAtom,
    /// A wildcard stood where a ground term was needed.
    WildcardInGroundTerm,
}

/// An error from reading a pattern or a ground term: its kind, and the token,
/// wildcard name or reader message it concerns.
#[derive(Clone, Debug, PartialEq, Eq)]
pub struct ParseError {
    pub kind: ParseErrorKind,
    pub detail: String,
}

/// An error as a model: its kind and the text it concerns.
pub open spec fn error_model(e: ParseError) -> (ParseErrorKind, Seq<char>) {
    (e.kind, e.detail@)
}

/// The words that name a kind of error in its message.
pub open spec fn kind_label(kind: ParseErrorKind) -> Seq<char> {
    match kind {
        ParseErrorKind::Lexical => ""@,
        ParseErrorKind::EmptyTerm => "empty!"@,
        ParseErrorKind::EmptyList => "empty list"@,
        ParseErrorKind::InvalidOperator => "bad op: "@,
        ParseErrorKind::InvalidAtom => "couldn't parse: "@,
        ParseErrorKind::MalformedAtom => "malformed atom: "@,
        ParseErrorKind::WildcardInGroundTerm => "wildcard in ground term: "@,
    }
}

/// The message of an error: a fixed prefix, the words for its kind, and the text
/// it concerns.
pub open spec fn message_of(e: ParseError) -> Seq<char> {
    "ParseError: "@ + kind_label(e.kind) + e.detail@
}

impl ParseError {
    /// An error of the given kind about the given text.
    pub fn new(kind: ParseErrorKind, detail: &str) -> (r: ParseError)
        ensures
            r.kind == kind,
            r.detail@ == detail@,
    {
        ParseError { kind, detail: detail.to_owned() }
    }

    /// The kind of the error.
    pub fn kind(&self) -> (r: ParseErrorKind)
        ensures
            r == self.kind,
    {
        self.kind
    }

    /// The message of the error, for display.
    pub fn message(&self) -> (r: String)
        ensures
            r@ == message_of(*self),
    {
        let label = match self.kind {
            ParseErrorKind::Lexical => "",
            ParseErrorKind::EmptyTerm => "empty!",
            ParseErrorKind::EmptyList => "empty list",
            ParseErrorKind::InvalidOperator => "bad op: ",
            ParseErrorKind::InvalidAtom => "couldn't parse: ",
            ParseErrorKind::MalformedAtom => "malformed atom: ",
            ParseErrorKind::WildcardInGroundTerm => "wildcard in ground term: ",
        };
        let mut r = "ParseError: ".to_owned();
        r.append(label);
        r.append(self.detail.as_str());
        r
    }

    /// The token, wildcard name or reader message the error concerns.
    pub fn detail(&self) -> (r: &str)
        ensures
            r@ == self.detail@,
    {
        self.detail.as_str()
    }
}

} // verus!
