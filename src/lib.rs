//! Reading S-expression text into pattern trees whose operators come from a
//! pluggable language, and lowering wildcard-free patterns to ground terms.
use vstd::prelude::*;

pub mod error;
pub mod language;
pub mod parse;
pub mod pattern;
pub mod sexp;

pub use error::{ParseError, ParseErrorKind};
pub use language::Language;
pub use parse::{classify, parse_expr, parse_pattern, parse_term};
pub use pattern::{Pattern, QuestionMarkName, RecExpr, WildcardKind};

verus! {

} // verus!
