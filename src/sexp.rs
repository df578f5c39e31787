//! The S-expression reader this library builds on, seen through a model of the
//! trees it produces, and the character classes the builder checks atoms with.
use symbolic_expressions::{Sexp, SexpError};
use vstd::prelude::*;

verus! {

#[verifier::external_type_specification]
#[verifier::external_body]
pub struct ExSexp(Sexp);

#[verifier::external_type_specification]
#[verifier::external_body]
pub struct ExSexpError(SexpError);

/// The shape of a reader tree: an atom with its text, a list of trees, or nothing.
pub enum SexpTree {
    Atom(Seq<char>),
    List(Seq<SexpTree>),
    Empty,
}

/// The list with no elements.
pub open spec fn empty_list() -> SexpTree {
    SexpTree::List(Seq::empty())
}

/// An atom the reader reads back as itself when written bare: not empty, not
/// opening with a quote, and without spaces, tabs, line breaks or brackets.
pub open spec fn bare_atom(tok: Seq<char>) -> bool {
    &&& tok.len() > 0
    &&& tok[0] != '"'
    &&& forall|i: int|
        0 <= i < tok.len() ==> {
            let c = #[trigger] tok[i];
            c != ' ' && c != '\t' && c != '\r' && c != '\n' && c != '(' && c != ')'
        }
}

/// A tree of bare atoms and lists, with nothing empty in it.
pub open spec fn bare_tree(t: SexpTree) -> bool
    decreases t,
{
    match t {
        SexpTree::Atom(tok) => bare_atom(tok),
        SexpTree::List(items) => forall|i: int| 0 <= i < items.len() ==> bare_tree(#[trigger] items[i]),
        SexpTree::Empty => false,
    }
}

/// The text of a tree: an atom as itself, a list as its elements in brackets,
/// separated by single spaces.
pub open spec fn sexp_source(t: SexpTree) -> Seq<char>
    decreases t, 0nat,
{
    match t {
        SexpTree::Atom(tok) => tok,
        SexpTree::List(items) => seq!['('] + joined(items, items.len()) + seq![')'],
        SexpTree::Empty => Seq::empty(),
    }
}

/// The texts of the first `n` trees of a sequence, separated by single spaces.
pub open spec fn joined(items: Seq<SexpTree>, n: nat) -> Seq<char>
    decreases items, n,
{
    if n == 0 || n > items.len() {
        Seq::empty()
    } else if n == 1 {
        sexp_source(items[0])
    } else {
        joined(items, (n - 1) as nat) + seq![' '] + sexp_source(items[n - 1])
    }
}

/// What a reader value holds.
pub uninterp spec fn sexp_tree(s: Sexp) -> SexpTree;

/// The message of a reader error, as its `Display` writes it.
pub uninterp spec fn sexp_error_message(e: SexpError) -> Seq<char>;

/// A character for which the reader's writer quotes an atom.
pub open spec fn quoted_char(c: char) -> bool {
    c == '(' || c == ')' || c == ' ' || c == '\t' || c == '{' || c == '}' || c == '%'
}

/// An atom the reader's writer puts in quotes: an empty one, or one that holds
/// a bracket, a space, a tab, a brace or `%`.
pub open spec fn needs_quotes(s: Seq<char>) -> bool {
    s.len() == 0 || exists|i: int| 0 <= i < s.len() && quoted_char(#[trigger] s[i])
}

/// The text of a reader tree, as the `Display` of a reader value writes it: an
/// atom as itself, or in quotes where it needs them; a list as its elements in
/// brackets, separated by single spaces; the empty tree as nothing.
pub open spec fn sexp_text(t: SexpTree) -> Seq<char>
    decreases t, 0nat,
{
    match t {
        SexpTree::Atom(s) => if needs_quotes(s) {
            seq!['"'] + s + seq!['"']
        } else {
            s
        },
        SexpTree::List(items) => seq!['('] + text_joined(items, items.len()) + seq![')'],
        SexpTree::Empty => Seq::empty(),
    }
}

/// The texts of the first `n` trees of a sequence, as the writer joins them.
pub open spec fn text_joined(items: Seq<SexpTree>, n: nat) -> Seq<char>
    decreases items, n,
{
    if n == 0 || n > items.len() {
        Seq::empty()
    } else if n == 1 {
        sexp_text(items[0])
    } else {
        text_joined(items, (n - 1) as nat) + seq![' '] + sexp_text(items[n - 1])
    }
}

/// What the reader makes of a text: a tree, or the message of the error it reports.
pub uninterp spec fn read_of(text: Seq<char>) -> Result<SexpTree, Seq<char>>;

/// Relies on symbolic_expressions::parser::parse_str: the tree, or the error,
/// depends on the text alone; an empty text reads as the empty tree, and the text
/// of a tree of bare atoms reads back as that tree.
#[verifier::external_body]
pub(crate) fn read_sexp(text: &str) -> (r: Result<Sexp, SexpError>)
    ensures
        r is Ok <==> read_of(text@) is Ok,
        r is Ok ==> read_of(text@) == Ok::<SexpTree, Seq<char>>(sexp_tree(r->Ok_0)),
        r is Err ==> read_of(text@) == Err::<SexpTree, Seq<char>>(sexp_error_message(r->Err_0)),
        text@.len() == 0 ==> r is Ok && sexp_tree(r->Ok_0) == SexpTree::Empty,
        forall|t: SexpTree|
            bare_tree(t) && #[trigger] sexp_source(t) == text@ ==> r is Ok && sexp_tree(r->Ok_0) == t,
{
    symbolic_expressions::parser::parse_str(text)
}

/// Relies on the Display impl of SexpError, for the reader's own message.
#[verifier::external_body]
pub(crate) fn sexp_error_text(e: &SexpError) -> (r: String)
    ensures
        r@ == sexp_error_message(*e),
{
    e.to_string()
}

/// Relies on the Display impl of Sexp, with symbolic_expressions::encode_string
/// for atoms: it writes the tree as `sexp_text` states.
#[verifier::external_body]
pub(crate) fn sexp_display(s: &Sexp) -> (r: String)
    ensures
        r@ == sexp_text(sexp_tree(*s)),
{
    s.to_string()
}

/// Relies on Sexp::is_list: true exactly on a list.
pub assume_specification[ Sexp::is_list ](s: &Sexp) -> (r: bool)
    ensures
        r <==> sexp_tree(*s) is List,
;

/// Relies on Sexp::list: the elements of a list, in order; an error on anything else.
pub assume_specification[ Sexp::list ](s: &Sexp) -> (r: Result<&Vec<Sexp>, SexpError>)
    ensures
        r is Ok <==> sexp_tree(*s) is List,
        r matches Ok(v) ==> sexp_tree(*s) == SexpTree::List(v@.map_values(|c: Sexp| sexp_tree(c))),
;

/// Relies on Sexp::string: the text of an atom; an error on anything else.
pub assume_specification[ Sexp::string ](s: &Sexp) -> (r: Result<&String, SexpError>)
    ensures
        r is Ok <==> sexp_tree(*s) is Atom,
        r matches Ok(t) ==> sexp_tree(*s) == SexpTree::Atom(t@),
;

/// Whitespace as `char::is_whitespace` defines it: the Unicode `White_Space` property.
pub open spec fn is_space(c: char) -> bool {
    let n = c as u32;
    ||| 0x09 <= n <= 0x0d
    ||| n == 0x20
    ||| n == 0x85
    ||| n == 0xa0
    ||| n == 0x1680
    ||| 0x2000 <= n <= 0x200a
    ||| n == 0x2028
    ||| n == 0x2029
    ||| n == 0x202f
    ||| n == 0x205f
    ||| n == 0x3000
}

/// A text without its leading whitespace.
pub open spec fn trim_start(s: Seq<char>) -> Seq<char>
    decreases s.len(),
{
    if s.len() > 0 && is_space(s[0]) {
        trim_start(s.drop_first())
    } else {
        s
    }
}

/// A text without its trailing whitespace.
pub open spec fn trim_end(s: Seq<char>) -> Seq<char>
    decreases s.len(),
{
    if s.len() > 0 && is_space(s.last()) {
        trim_end(s.drop_last())
    } else {
        s
    }
}

/// A text without its leading and trailing whitespace.
pub open spec fn trimmed(s: Seq<char>) -> Seq<char> {
    trim_end(trim_start(s))
}

/// A text without its leading and trailing whitespace.
pub fn trim(s: &str) -> (r: &str)
    ensures
        r@ == trimmed(s@),
{
    let n = s.unicode_len();
    let mut a: usize = 0;
    assert(s@.subrange(0, n as int) =~= s@);
    while a < n && is_space_char(s.get_char(a))
        invariant
            n == s@.len(),
            a <= n,
            trim_start(s@) == trim_start(s@.subrange(a as int, n as int)),
        decreases n - a,
    {
        assert(s@.subrange(a as int, n as int).drop_first() =~= s@.subrange(a + 1, n as int));
        a += 1;
    }
    let ghost x = s@.subrange(a as int, n as int);
    assert(trim_start(s@) == x);
    let mut b: usize = n;
    while b > a && is_space_char(s.get_char(b - 1))
        invariant
            n == s@.len(),
            a <= b <= n,
            x == s@.subrange(a as int, n as int),
            trim_end(x) == trim_end(s@.subrange(a as int, b as int)),
        decreases b - a,
    {
        assert(s@.subrange(a as int, b as int).drop_last() =~= s@.subrange(a as int, b - 1));
        b -= 1;
    }
    let r = s.substring_char(a, b);
    assert(trim_end(s@.subrange(a as int, b as int)) == s@.subrange(a as int, b as int));
    r
}

/// Tells whitespace characters apart, as `char::is_whitespace` does.
pub fn is_space_char(c: char) -> (r: bool)
    ensures
        r == is_space(c),
{
    let n = c as u32;
    (0x09 <= n && n <= 0x0d) || n == 0x20 || n == 0x85 || n == 0xa0 || n == 0x1680 || (0x2000
        <= n && n <= 0x200a) || n == 0x2028 || n == 0x2029 || n == 0x202f || n == 0x205f || n
        == 0x3000
}

} // verus!
