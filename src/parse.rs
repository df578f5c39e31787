//! Reading text into patterns and ground terms: the symbol classifier, the term
//! builder over reader trees, and the two entry points.
use crate::error::{error_model, ParseError, ParseErrorKind};
use crate::language::Language;
use crate::pattern::{
    ends_with_dots, first_wildcard, is_ground, is_wildcard_name, kind_of_name,
    lemma_first_wildcard_iff_not_ground,
    lemma_pattern_terms, pattern_terms, Pattern, QuestionMarkName, RecExpr, Term, WildcardKind,
};
use crate::sexp::{
    empty_list, is_space, is_space_char, read_of, read_sexp, sexp_display, sexp_error_text,
    sexp_text, sexp_tree, trim, trim_end, trim_start, trimmed, SexpTree, bare_atom, bare_tree,
    joined, sexp_source,
};
use symbolic_expressions::Sexp;
use vstd::prelude::*;

verus! {

/// An atom that is empty or holds whitespace anywhere: at either end or inside.
pub open spec fn is_malformed(tok: Seq<char>) -> bool {
    tok.len() == 0 || exists|i: int| 0 <= i < tok.len() && is_space(#[trigger] tok[i])
}

/// What an atom stands for: a wildcard where it begins with `?`, else a leaf
/// operator of the language.
pub open spec fn atom_term<L: Language>(tok: Seq<char>) -> Result<
    Term<L::V>,
    (ParseErrorKind, Seq<char>),
> {
    if is_malformed(tok) {
        Err((ParseErrorKind::MalformedAtom, tok))
    } else if is_wildcard_name(tok) {
        Ok(Term::Wildcard(tok, kind_of_name(tok)))
    } else {
        match L::op_of(tok) {
            Some(op) => Ok(Term::Node(op, Seq::empty())),
            None => Err((ParseErrorKind::InvalidAtom, tok)),
        }
    }
}

/// The pattern a reader tree denotes, or the first error met depth first and
/// left to right. The head of a list is read as an operator alone: never as a
/// wildcard, nor as a nested list.
pub open spec fn term_of<L: Language>(t: SexpTree) -> Result<
    Term<L::V>,
    (ParseErrorKind, Seq<char>),
>
    decreases t, 0nat,
{
    match t {
        SexpTree::Atom(tok) => atom_term::<L>(tok),
        SexpTree::Empty => Err((ParseErrorKind::EmptyTerm, Seq::empty())),
        SexpTree::List(items) => {
            if items.len() == 0 {
                Err((ParseErrorKind::EmptyList, Seq::empty()))
            } else {
                match items[0] {
                    SexpTree::Atom(tok) => if is_wildcard_name(tok) {
                        Err((ParseErrorKind::InvalidOperator, tok))
                    } else {
                        match L::op_of(tok) {
                            Some(op) => match children_of::<L>(items, items.len()) {
                                Ok(cs) => Ok(Term::Node(op, cs)),
                                Err(e) => Err(e),
                            },
                            None => Err((ParseErrorKind::InvalidOperator, tok)),
                        }
                    },
                    _ => Err((ParseErrorKind::InvalidOperator, sexp_text(items[0]))),
                }
            }
        },
    }
}

/// The patterns of the list elements after the head and before position `n`,
/// or the first error among them.
pub open spec fn children_of<L: Language>(items: Seq<SexpTree>, n: nat) -> Result<
    Seq<Term<L::V>>,
    (ParseErrorKind, Seq<char>),
>
    decreases items, n,
{
    if n <= 1 || n > items.len() {
        Ok(Seq::empty())
    } else {
        match children_of::<L>(items, (n - 1) as nat) {
            Ok(cs) => match term_of::<L>(items[n - 1]) {
                Ok(c) => Ok(cs.push(c)),
                Err(e) => Err(e),
            },
            Err(e) => Err(e),
        }
    }
}

/// An outcome agrees with its model: a pattern with the model's term, or an
/// error with the model's kind and text.
pub open spec fn outcome_matches<L: Language>(
    r: Result<Pattern<L>, ParseError>,
    m: Result<Term<L::V>, (ParseErrorKind, Seq<char>)>,
) -> bool {
    match (r, m) {
        (Ok(p), Ok(t)) => p@ == t,
        (Err(e), Err(em)) => error_model(e) == em,
        _ => false,
    }
}

/// Once an error is met among the children, further children do not change it.
proof fn lemma_children_error_stays<L: Language>(items: Seq<SexpTree>, k: nat, n: nat)
    requires
        1 <= k <= n <= items.len(),
        children_of::<L>(items, k) is Err,
    ensures
        children_of::<L>(items, n) == children_of::<L>(items, k),
    decreases n - k,
{
    if k < n {
        lemma_children_error_stays::<L>(items, k, (n - 1) as nat);
    }
}

/// Classifies one atom: a wildcard where it begins with `?`, else a leaf
/// operator of the language; an error where it is malformed or neither.
pub fn classify<L: Language>(tok: &str) -> (r: Result<Pattern<L>, ParseError>)
    ensures
        outcome_matches(r, atom_term::<L>(tok@)),
{
    let n = tok.unicode_len();
    if n == 0 {
        return Err(ParseError::new(ParseErrorKind::MalformedAtom, tok));
    }
    let mut i: usize = 0;
    while i < n
        invariant
            n == tok@.len(),
            i <= n,
            forall|j: int| 0 <= j < i ==> !is_space(#[trigger] tok@[j]),
        decreases n - i,
    {
        if is_space_char(tok.get_char(i)) {
            return Err(ParseError::new(ParseErrorKind::MalformedAtom, tok));
        }
        i += 1;
    }
    match QuestionMarkName::new(tok) {
        Some(q) => {
            let kind = q.kind();
            Ok(Pattern::Wildcard(q, kind))
        },
        None => match L::from_op_str(tok) {
            Some(op) => {
                let r = Pattern::ENode(op, Vec::new());
                assert(pattern_terms::<L>(Seq::empty(), 0) =~= Seq::empty());
                Ok(r)
            },
            None => Err(ParseError::new(ParseErrorKind::InvalidAtom, tok)),
        },
    }
}

/// Builds the pattern a reader tree denotes, depth first and left to right,
/// stopping at the first error.
pub fn parse_term<L: Language>(sexp: &Sexp) -> (r: Result<Pattern<L>, ParseError>)
    ensures
        outcome_matches(r, term_of::<L>(sexp_tree(*sexp))),
    decreases sexp_tree(*sexp),
{
    proof {
        reveal_strlit("");
        assert(""@ =~= Seq::<char>::empty());
    }
    if !sexp.is_list() {
        return match sexp.string() {
            Ok(tok) => classify::<L>(tok.as_str()),
            Err(_) => Err(ParseError::new(ParseErrorKind::EmptyTerm, "")),
        };
    }
    let items = match sexp.list() {
        Ok(v) => v,
        Err(_) => unreached(),
    };
    let ghost t = sexp_tree(*sexp);
    let ghost model = items@.map_values(|c: Sexp| sexp_tree(c));
    if items.len() == 0 {
        return Err(ParseError::new(ParseErrorKind::EmptyList, ""));
    }
    let head = match items[0].string() {
        Ok(tok) => tok.as_str(),
        Err(_) => {
            let detail = sexp_display(&items[0]);
            return Err(ParseError { kind: ParseErrorKind::InvalidOperator, detail });
        },
    };
    let parsed = if QuestionMarkName::new(head).is_some() {
        None
    } else {
        L::from_op_str(head)
    };
    let op = match parsed {
        Some(op) => op,
        None => {
            return Err(ParseError::new(ParseErrorKind::InvalidOperator, head));
        },
    };
    let mut children: Vec<Pattern<L>> = Vec::new();
    let mut i: usize = 1;
    while i < items.len()
        invariant
            1 <= i <= items@.len(),
            t == sexp_tree(*sexp),
            t == SexpTree::List(model),
            model == items@.map_values(|c: Sexp| sexp_tree(c)),
            model.len() == items@.len(),
            model[0] is Atom,
            !is_wildcard_name(model[0]->Atom_0),
            L::op_of(model[0]->Atom_0) == Some(op@),
            children_of::<L>(model, i as nat) is Ok,
            children_of::<L>(model, i as nat)->Ok_0.len() == children@.len(),
            forall|j: int|
                0 <= j < children@.len() ==> #[trigger] children@[j]@ == children_of::<L>(
                    model,
                    i as nat,
                )->Ok_0[j],
        decreases items@.len() - i,
    {
        proof {
            assert(decreases_to!(t => t->List_0));
            assert(decreases_to!(model => model[i as int]));
        }
        match parse_term::<L>(&items[i]) {
            Ok(p) => {
                children.push(p);
            },
            Err(e) => {
                proof {
                    assert(model[i as int] == sexp_tree(items@[i as int]));
                    lemma_children_error_stays::<L>(model, (i + 1) as nat, model.len());
                }
                return Err(e);
            },
        }
        i += 1;
    }
    let r = Pattern::ENode(op, children);
    proof {
        lemma_pattern_terms(children@, children@.len());
        assert(i == model.len());
        assert forall|j: int| 0 <= j < children@.len() implies pattern_terms(
            children@,
            children@.len(),
        )[j] == children_of::<L>(model, model.len())->Ok_0[j] by {
            assert(children@[j]@ == children_of::<L>(model, i as nat)->Ok_0[j]);
        }
        assert(pattern_terms(children@, children@.len()) =~= children_of::<L>(
            model,
            model.len(),
        )->Ok_0);
    }
    Ok(r)
}

/// A ground-term outcome agrees with the model of the pattern it was read as:
/// the same term where that holds no wildcard, else an error naming its first
/// wildcard; the pattern's own error where it failed.
pub open spec fn expr_outcome_matches<L: Language>(
    r: Result<RecExpr<L>, ParseError>,
    m: Result<Term<L::V>, (ParseErrorKind, Seq<char>)>,
) -> bool {
    match (r, m) {
        (Ok(e), Ok(p)) => is_ground(p) && e@ == p,
        (Err(e), Ok(p)) => {
            &&& !is_ground(p)
            &&& e.kind == ParseErrorKind::WildcardInGroundTerm
            &&& first_wildcard(p) == Some(e.detail@)
        },
        (Err(e), Err(em)) => error_model(e) == em,
        _ => false,
    }
}

/// What reading a text as a pattern gives: the reader's error, with its own
/// message, where it rejects the trimmed text, else the pattern its tree denotes.
pub open spec fn pattern_outcome<L: Language>(text: Seq<char>) -> Result<
    Term<L::V>,
    (ParseErrorKind, Seq<char>),
> {
    match read_of(trimmed(text)) {
        Ok(t) => term_of::<L>(t),
        Err(message) => Err((ParseErrorKind::Lexical, message)),
    }
}

/// Reads a text as a pattern: its outer whitespace is trimmed, the reader makes
/// a tree of it, and the tree is built into a pattern.
pub fn parse_pattern<L: Language>(s: &str) -> (r: Result<Pattern<L>, ParseError>)
    ensures
        outcome_matches(r, pattern_outcome::<L>(s@)),
        trimmed(s@).len() == 0 ==> r is Err && r->Err_0.kind == ParseErrorKind::EmptyTerm,
        forall|t: SexpTree|
            bare_tree(t) && #[trigger] sexp_source(t) == trimmed(s@) ==> pattern_outcome::<L>(s@)
                == term_of::<L>(t),
{
    match read_sexp(trim(s)) {
        Ok(sexp) => parse_term::<L>(&sexp),
        Err(e) => Err(ParseError { kind: ParseErrorKind::Lexical, detail: sexp_error_text(&e) }),
    }
}

/// Reads a text as a ground term: as a pattern first, which must then hold no
/// wildcard.
pub fn parse_expr<L: Language>(s: &str) -> (r: Result<RecExpr<L>, ParseError>)
    ensures
        expr_outcome_matches(r, pattern_outcome::<L>(s@)),
        trimmed(s@).len() == 0 ==> r is Err && r->Err_0.kind == ParseErrorKind::EmptyTerm,
        forall|t: Term<L::V>|
            is_ground(t) && plain_tokens::<L>(t) && bare_tokens::<L>(t) && #[trigger] sexp_source(
                canonical_sexp::<L>(t),
            ) == s@ ==> r is Ok && r->Ok_0@ == t,
{
    let r = match parse_pattern::<L>(s) {
        Ok(p) => p.into_expr(),
        Err(e) => Err(e),
    };
    proof {
        assert forall|t: Term<L::V>|
            is_ground(t) && plain_tokens::<L>(t) && bare_tokens::<L>(t) && #[trigger] sexp_source(
                canonical_sexp::<L>(t),
            ) == s@ implies r is Ok && r->Ok_0@ == t by {
            lemma_round_trip::<L>(t);
            lemma_canonical_bare::<L>(t);
            lemma_canonical_source_trimmed::<L>(t);
        }
    }
    r
}

impl<L: Language> std::str::FromStr for Pattern<L> {
    type Err = ParseError;

    /// Reads a text as a pattern, as `parse_pattern` does.
    fn from_str(s: &str) -> (r: Result<Pattern<L>, ParseError>)
        ensures
            outcome_matches(r, pattern_outcome::<L>(s@)),
            trimmed(s@).len() == 0 ==> r is Err && r->Err_0.kind == ParseErrorKind::EmptyTerm,
            forall|t: SexpTree|
                bare_tree(t) && #[trigger] sexp_source(t) == trimmed(s@) ==> pattern_outcome::<L>(
                    s@,
                ) == term_of::<L>(t),
    {
        parse_pattern::<L>(s)
    }
}

impl<L: Language> std::str::FromStr for RecExpr<L> {
    type Err = ParseError;

    /// Reads a text as a ground term, as `parse_expr` does.
    fn from_str(s: &str) -> (r: Result<RecExpr<L>, ParseError>)
        ensures
            expr_outcome_matches(r, pattern_outcome::<L>(s@)),
            trimmed(s@).len() == 0 ==> r is Err && r->Err_0.kind == ParseErrorKind::EmptyTerm,
            forall|t: Term<L::V>|
                is_ground(t) && plain_tokens::<L>(t) && bare_tokens::<L>(t) && #[trigger] sexp_source(
                    canonical_sexp::<L>(t),
                ) == s@ ==> r is Ok && r->Ok_0@ == t,
    {
        parse_expr::<L>(s)
    }
}

/// The canonical reader tree of a term: a childless node as its operator's
/// token, any other node as a list of that token and its children's trees, a
/// wildcard as its name.
pub open spec fn canonical_sexp<L: Language>(t: Term<L::V>) -> SexpTree
    decreases t, 0nat,
{
    match t {
        Term::Node(op, cs) => if cs.len() == 0 {
            SexpTree::Atom(L::token_of(op))
        } else {
            SexpTree::List(seq![SexpTree::Atom(L::token_of(op))] + canonical_list::<L>(cs, cs.len()))
        },
        Term::Wildcard(name, _) => SexpTree::Atom(name),
    }
}

/// The canonical trees of the first `n` terms of a sequence.
pub open spec fn canonical_list<L: Language>(cs: Seq<Term<L::V>>, n: nat) -> Seq<SexpTree>
    decreases cs, n,
{
    if n == 0 || n > cs.len() {
        Seq::empty()
    } else {
        canonical_list::<L>(cs, (n - 1) as nat).push(canonical_sexp::<L>(cs[n - 1]))
    }
}

/// Every operator of the term is written as a token that reads back as that
/// operator: the token denotes it, does not begin with `?`, and at a leaf is
/// also well formed.
pub open spec fn plain_tokens<L: Language>(t: Term<L::V>) -> bool
    decreases t,
{
    match t {
        Term::Node(op, cs) => {
            &&& L::op_of(L::token_of(op)) == Some(op)
            &&& !is_wildcard_name(L::token_of(op))
            &&& cs.len() == 0 ==> !is_malformed(L::token_of(op))
            &&& forall|i: int| 0 <= i < cs.len() ==> plain_tokens::<L>(#[trigger] cs[i])
        },
        Term::Wildcard(..) => true,
    }
}

/// Every operator of the term is written as a bare atom.
pub open spec fn bare_tokens<L: Language>(t: Term<L::V>) -> bool
    decreases t,
{
    match t {
        Term::Node(op, cs) => {
            &&& bare_atom(L::token_of(op))
            &&& forall|i: int| 0 <= i < cs.len() ==> bare_tokens::<L>(#[trigger] cs[i])
        },
        Term::Wildcard(..) => false,
    }
}

/// The canonical tree of a term written in bare atoms is a tree of bare atoms.
proof fn lemma_canonical_bare<L: Language>(t: Term<L::V>)
    requires
        bare_tokens::<L>(t),
    ensures
        bare_tree(canonical_sexp::<L>(t)),
    decreases t,
{
    if let Term::Node(op, cs) = t {
        if cs.len() > 0 {
            let items = seq![SexpTree::Atom(L::token_of(op))] + canonical_list::<L>(cs, cs.len());
            lemma_canonical_list::<L>(cs, cs.len());
            assert forall|i: int| 0 <= i < items.len() implies bare_tree(#[trigger] items[i]) by {
                if i > 0 {
                    lemma_canonical_bare::<L>(cs[i - 1]);
                }
            }
        }
    }
}

/// The text of the canonical tree of a ground term whose leaves are well formed
/// neither begins nor ends with whitespace.
proof fn lemma_canonical_source_trimmed<L: Language>(t: Term<L::V>)
    requires
        is_ground(t),
        plain_tokens::<L>(t),
    ensures
        trimmed(sexp_source(canonical_sexp::<L>(t))) == sexp_source(canonical_sexp::<L>(t)),
{
    let src = sexp_source(canonical_sexp::<L>(t));
    if let Term::Node(op, cs) = t {
        if cs.len() == 0 {
            assert(!is_space(src[0]));
            assert(!is_space(src[src.len() - 1]));
        } else {
            let items = seq![SexpTree::Atom(L::token_of(op))] + canonical_list::<L>(cs, cs.len());
            let inner = joined(items, items.len());
            assert(src == seq!['('] + inner + seq![')']);
            assert(src[0] == '(');
            assert(src[src.len() - 1] == ')');
        }
        assert(trim_start(src) == src);
        assert(trim_end(src) == src);
    }
}

proof fn lemma_canonical_list<L: Language>(cs: Seq<Term<L::V>>, n: nat)
    requires
        n <= cs.len(),
    ensures
        canonical_list::<L>(cs, n).len() == n,
        forall|i: int|
            0 <= i < n ==> #[trigger] canonical_list::<L>(cs, n)[i] == canonical_sexp::<L>(cs[i]),
    decreases n,
{
    if n > 0 {
        lemma_canonical_list::<L>(cs, (n - 1) as nat);
    }
}

proof fn lemma_children_round_trip<L: Language>(
    cs: Seq<Term<L::V>>,
    items: Seq<SexpTree>,
    n: nat,
)
    requires
        items.len() == cs.len() + 1,
        forall|i: int| 0 <= i < cs.len() ==> items[i + 1] == canonical_sexp::<L>(#[trigger] cs[i]),
        forall|i: int| 0 <= i < cs.len() ==> term_of::<L>(canonical_sexp::<L>(#[trigger] cs[i])) == Ok::<
            Term<L::V>,
            (ParseErrorKind, Seq<char>),
        >(cs[i]),
        1 <= n <= items.len(),
    ensures
        children_of::<L>(items, n) == Ok::<Seq<Term<L::V>>, (ParseErrorKind, Seq<char>)>(
            cs.subrange(0, n - 1),
        ),
    decreases n,
{
    if n > 1 {
        lemma_children_round_trip::<L>(cs, items, (n - 1) as nat);
        assert(items[n - 1] == canonical_sexp::<L>(cs[n - 2]));
        assert(cs.subrange(0, n - 2).push(cs[n - 2]) =~= cs.subrange(0, n - 1));
    } else {
        assert(cs.subrange(0, 0) =~= Seq::<Term<L::V>>::empty());
    }
}

/// Writing a ground term as its canonical reader tree and building that tree
/// gives the term back, where each operator is written as a token that reads
/// back as that operator; the term then has no wildcard for the lowering to a
/// ground term to refuse.
pub proof fn lemma_round_trip<L: Language>(t: Term<L::V>)
    requires
        is_ground(t),
        plain_tokens::<L>(t),
    ensures
        term_of::<L>(canonical_sexp::<L>(t)) == Ok::<Term<L::V>, (ParseErrorKind, Seq<char>)>(t),
        first_wildcard(t) is None,
    decreases t,
{
    lemma_first_wildcard_iff_not_ground(t);
    if let Term::Node(op, cs) = t {
        if cs.len() == 0 {
            assert(atom_term::<L>(L::token_of(op)) == Ok::<
                Term<L::V>,
                (ParseErrorKind, Seq<char>),
            >(Term::Node(op, Seq::empty())));
            assert(cs =~= Seq::<Term<L::V>>::empty());
        } else {
            let items = seq![SexpTree::Atom(L::token_of(op))] + canonical_list::<L>(cs, cs.len());
            lemma_canonical_list::<L>(cs, cs.len());
            assert forall|i: int| 0 <= i < cs.len() implies term_of::<L>(
                canonical_sexp::<L>(#[trigger] cs[i]),
            ) == Ok::<Term<L::V>, (ParseErrorKind, Seq<char>)>(cs[i]) by {
                lemma_round_trip::<L>(cs[i]);
            }
            assert forall|i: int| 0 <= i < cs.len() implies items[i + 1] == canonical_sexp::<L>(
                #[trigger] cs[i],
            ) by {}
            lemma_children_round_trip::<L>(cs, items, items.len());
            assert(cs.subrange(0, cs.len() as int) =~= cs);
        }
    }
}

/// A well-formed atom that begins with `?` is classified as a wildcard of that
/// name, whose kind is a run exactly when the name ends with `...`; an atom that
/// does not begin with `?` is never classified as a wildcard.
pub proof fn lemma_wildcard_classification<L: Language>(tok: Seq<char>)
    requires
        !is_malformed(tok),
    ensures
        is_wildcard_name(tok) ==> atom_term::<L>(tok) == Ok::<
            Term<L::V>,
            (ParseErrorKind, Seq<char>),
        >(Term::Wildcard(tok, kind_of_name(tok))),
        kind_of_name(tok) == WildcardKind::ZeroOrMore <==> ends_with_dots(tok),
        !is_wildcard_name(tok) ==> !(atom_term::<L>(tok) is Ok && atom_term::<L>(
            tok,
        )->Ok_0 is Wildcard),
{
}

/// Trimming a text that is already trimmed changes nothing.
proof fn lemma_trimmed_idempotent(s: Seq<char>)
    ensures
        trimmed(trimmed(s)) == trimmed(s),
{
    let x = trim_start(s);
    lemma_trim_start_head(s);
    lemma_trim_end_prefix(x);
    let y = trim_end(x);
    if y.len() > 0 {
        assert(y[0] == x[0]);
    }
    assert(trim_start(y) == y);
    lemma_trim_end_last(x);
    lemma_trim_end_prefix(y);
    assert(trim_end(y) == y);
}

proof fn lemma_trim_start_head(s: Seq<char>)
    ensures
        trim_start(s).len() > 0 ==> !is_space(trim_start(s)[0]),
    decreases s.len(),
{
    if s.len() > 0 && is_space(s[0]) {
        lemma_trim_start_head(s.drop_first());
    }
}

proof fn lemma_trim_end_prefix(s: Seq<char>)
    ensures
        trim_end(s).len() <= s.len(),
        trim_end(s) =~= s.subrange(0, trim_end(s).len() as int),
    decreases s.len(),
{
    if s.len() > 0 && is_space(s.last()) {
        lemma_trim_end_prefix(s.drop_last());
    }
}

proof fn lemma_trim_end_last(s: Seq<char>)
    ensures
        trim_end(s).len() > 0 ==> !is_space(trim_end(s).last()),
    decreases s.len(),
{
    if s.len() > 0 && is_space(s.last()) {
        lemma_trim_end_last(s.drop_last());
    }
}

/// Reading a text gives what reading it with its outer whitespace trimmed gives.
pub proof fn lemma_trim_invariant<L: Language>(text: Seq<char>)
    ensures
        pattern_outcome::<L>(trimmed(text)) == pattern_outcome::<L>(text),
{
    lemma_trimmed_idempotent(text);
}

/// A text that the reader reads as nothing is rejected as an empty term.
pub proof fn lemma_empty_rejected<L: Language>(text: Seq<char>)
    requires
        read_of(trimmed(text)) == Ok::<SexpTree, Seq<char>>(SexpTree::Empty),
    ensures
        pattern_outcome::<L>(text) == Err::<Term<L::V>, (ParseErrorKind, Seq<char>)>(
            (ParseErrorKind::EmptyTerm, Seq::empty()),
        ),
{
}

/// A text that the reader reads as the list with no elements is rejected as an
/// empty list.
pub proof fn lemma_empty_list_rejected<L: Language>(text: Seq<char>)
    requires
        read_of(trimmed(text)) == Ok::<SexpTree, Seq<char>>(empty_list()),
    ensures
        pattern_outcome::<L>(text) == Err::<Term<L::V>, (ParseErrorKind, Seq<char>)>(
            (ParseErrorKind::EmptyList, Seq::empty()),
        ),
{
}

/// The text `()` reaches the reader unchanged by the trimming before it.
pub proof fn lemma_brackets_untrimmed()
    ensures
        trimmed(seq!['(', ')']) == seq!['(', ')'],
{
    let s = seq!['(', ')'];
    assert(trim_start(s) == s);
    assert(s.last() == ')');
    assert(trim_end(s) == s);
}

} // verus!
