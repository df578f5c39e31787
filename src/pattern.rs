//! Pattern trees, ground terms, their shared model, and the lowering of a
//! wildcard-free pattern to a ground term.
use crate::error::{ParseError, ParseErrorKind};
use crate::language::Language;
use vstd::prelude::*;

verus! {

/// How many sibling terms a wildcard stands for.
#[derive(Clone, Copy, Debug, PartialEq, Eq, Hash, Structural)]
pub enum WildcardKind {
    /// Exactly one term.
    Single,
    /// A run of zero or more sibling terms.
    ZeroOrMore,
}

/// A token names a wildcard when it begins with `?`.
pub open spec fn is_wildcard_name(s: Seq<char>) -> bool {
    s.len() > 0 && s[0] == '?'
}

/// The token ends with the three characters `...`.
pub open spec fn ends_with_dots(s: Seq<char>) -> bool {
    &&& s.len() >= 3
    &&& s[s.len() - 3] == '.'
    &&& s[s.len() - 2] == '.'
    &&& s[s.len() - 1] == '.'
}

/// The kind a wildcard name gives: a run for a name ending in `...`, else one term.
pub open spec fn kind_of_name(s: Seq<char>) -> WildcardKind {
    if ends_with_dots(s) {
        WildcardKind::ZeroOrMore
    } else {
        WildcardKind::Single
    }
}

/// The name of a wildcard: a text that begins with `?`. A trailing `...` is kept.
#[derive(Clone, Debug, PartialEq, Eq, Hash)]
pub struct QuestionMarkName {
    name: String,
}

impl View for QuestionMarkName {
    type V = Seq<char>;

    closed spec fn view(&self) -> Seq<char> {
        self.name@
    }
}

impl QuestionMarkName {
    /// Reads a wildcard name; `None` unless the text begins with `?`.
    pub fn new(s: &str) -> (r: Option<QuestionMarkName>)
        ensures
            r is Some <==> is_wildcard_name(s@),
            r is Some ==> r->0@ == s@,
    {
        if s.is_empty() {
            return None;
        }
        if s.get_char(0) == '?' {
            Some(QuestionMarkName { name: s.to_owned() })
        } else {
            None
        }
    }

    /// The name, with its `?`.
    pub fn as_str(&self) -> (r: &str)
        ensures
            r@ == self@,
    {
        self.name.as_str()
    }

    /// The kind of wildcard the name gives.
    pub fn kind(&self) -> (r: WildcardKind)
        ensures
            r == kind_of_name(self@),
    {
        let s = self.name.as_str();
        let n = s.unicode_len();
        if n >= 3 && s.get_char(n - 3) == '.' && s.get_char(n - 2) == '.' && s.get_char(n - 1)
            == '.' {
            WildcardKind::ZeroOrMore
        } else {
            WildcardKind::Single
        }
    }
}

/// A term as a model: an operator with its children, or a named wildcard.
pub enum Term<V> {
    Node(V, Seq<Term<V>>),
    Wildcard(Seq<char>, WildcardKind),
}

/// A tree of operators that may hold wildcards.
#[derive(Debug, PartialEq, Eq, Hash)]
pub enum Pattern<L> {
    /// An operator and its children, in order.
    ENode(L, Vec<Pattern<L>>),
    /// A wildcard and the kind its name gives.
    Wildcard(QuestionMarkName, WildcardKind),
}

/// A tree of operators without wildcards.
#[derive(Debug, PartialEq, Eq, Hash)]
pub struct RecExpr<L> {
    /// The operator at the root.
    pub op: L,
    /// The subterms, in order.
    pub children: Vec<RecExpr<L>>,
}

/// The model of a pattern.
pub open spec fn pattern_term<L: Language>(p: Pattern<L>) -> Term<L::V>
    decreases p, 0nat,
{
    match p {
        Pattern::ENode(op, cs) => Term::Node(op@, pattern_terms(cs@, cs@.len())),
        Pattern::Wildcard(q, k) => Term::Wildcard(q@, k),
    }
}

/// The models of the first `n` patterns of a sequence.
pub open spec fn pattern_terms<L: Language>(cs: Seq<Pattern<L>>, n: nat) -> Seq<Term<L::V>>
    decreases cs, n,
{
    if n == 0 || n > cs.len() {
        Seq::empty()
    } else {
        pattern_terms(cs, (n - 1) as nat).push(pattern_term(cs[n - 1]))
    }
}

/// The model of a ground term.
pub open spec fn expr_term<L: Language>(e: RecExpr<L>) -> Term<L::V>
    decreases e, 0nat,
{
    Term::Node(e.op@, expr_terms(e.children@, e.children@.len()))
}

/// The models of the first `n` ground terms of a sequence.
pub open spec fn expr_terms<L: Language>(cs: Seq<RecExpr<L>>, n: nat) -> Seq<Term<L::V>>
    decreases cs, n,
{
    if n == 0 || n > cs.len() {
        Seq::empty()
    } else {
        expr_terms(cs, (n - 1) as nat).push(expr_term(cs[n - 1]))
    }
}

impl<L: Language> View for Pattern<L> {
    type V = Term<L::V>;

    open spec fn view(&self) -> Term<L::V> {
        pattern_term(*self)
    }
}

impl<L: Language> View for RecExpr<L> {
    type V = Term<L::V>;

    open spec fn view(&self) -> Term<L::V> {
        expr_term(*self)
    }
}

/// The model of each pattern of a sequence, in order.
pub proof fn lemma_pattern_terms<L: Language>(cs: Seq<Pattern<L>>, n: nat)
    requires
        n <= cs.len(),
    ensures
        pattern_terms(cs, n).len() == n,
        forall|i: int| 0 <= i < n ==> #[trigger] pattern_terms(cs, n)[i] == pattern_term(cs[i]),
    decreases n,
{
    if n > 0 {
        lemma_pattern_terms(cs, (n - 1) as nat);
    }
}

/// The model of each ground term of a sequence, in order.
pub proof fn lemma_expr_terms<L: Language>(cs: Seq<RecExpr<L>>, n: nat)
    requires
        n <= cs.len(),
    ensures
        expr_terms(cs, n).len() == n,
        forall|i: int| 0 <= i < n ==> #[trigger] expr_terms(cs, n)[i] == expr_term(cs[i]),
    decreases n,
{
    if n > 0 {
        lemma_expr_terms(cs, (n - 1) as nat);
    }
}

/// A term holds no wildcard anywhere.
pub open spec fn is_ground<V>(t: Term<V>) -> bool
    decreases t,
{
    match t {
        Term::Node(_, cs) => forall|i: int| 0 <= i < cs.len() ==> is_ground(#[trigger] cs[i]),
        Term::Wildcard(..) => false,
    }
}

/// The name of the first wildcard of a term, depth first and left to right.
pub open spec fn first_wildcard<V>(t: Term<V>) -> Option<Seq<char>>
    decreases t, 0nat,
{
    match t {
        Term::Node(_, cs) => first_wildcard_in(cs, cs.len()),
        Term::Wildcard(name, _) => Some(name),
    }
}

/// The name of the first wildcard among the first `n` terms of a sequence.
pub open spec fn first_wildcard_in<V>(cs: Seq<Term<V>>, n: nat) -> Option<Seq<char>>
    decreases cs, n,
{
    if n == 0 || n > cs.len() {
        None
    } else {
        match first_wildcard_in(cs, (n - 1) as nat) {
            Some(name) => Some(name),
            None => first_wildcard(cs[n - 1]),
        }
    }
}

/// No wildcard among the first `n` terms exactly when each of them has none.
proof fn lemma_first_wildcard_in_none<V>(cs: Seq<Term<V>>, n: nat)
    requires
        n <= cs.len(),
    ensures
        first_wildcard_in(cs, n) is None <==> forall|i: int|
            0 <= i < n ==> (#[trigger] first_wildcard(cs[i])) is None,
    decreases n,
{
    if n > 0 {
        lemma_first_wildcard_in_none(cs, (n - 1) as nat);
        let last = first_wildcard(cs[n - 1]);
        assert(first_wildcard_in(cs, n) is None <==> (first_wildcard_in(cs, (n - 1) as nat) is None
            && last is None));
    }
}

/// Once a wildcard is found among the first terms, further terms do not change it.
proof fn lemma_first_wildcard_in_stable<V>(cs: Seq<Term<V>>, k: nat, n: nat)
    requires
        k <= n <= cs.len(),
        first_wildcard_in(cs, k) is Some,
    ensures
        first_wildcard_in(cs, n) == first_wildcard_in(cs, k),
    decreases n - k,
{
    if k < n {
        lemma_first_wildcard_in_stable(cs, k, (n - 1) as nat);
    }
}

/// A term has a first wildcard exactly when it is not ground.
pub proof fn lemma_first_wildcard_iff_not_ground<V>(t: Term<V>)
    ensures
        first_wildcard(t) is None <==> is_ground(t),
    decreases t,
{
    if let Term::Node(_, cs) = t {
        lemma_first_wildcard_in_none(cs, cs.len());
        assert forall|i: int| 0 <= i < cs.len() implies (first_wildcard(cs[i]) is None
            <==> is_ground(#[trigger] cs[i])) by {
            lemma_first_wildcard_iff_not_ground(cs[i]);
        }
    }
}

/// The model of a ground term holds no wildcard.
pub proof fn lemma_expr_ground<L: Language>(e: RecExpr<L>)
    ensures
        is_ground(expr_term(e)),
    decreases e,
{
    lemma_expr_terms(e.children@, e.children@.len());
    assert forall|i: int| 0 <= i < e.children@.len() implies is_ground(
        #[trigger] expr_terms(e.children@, e.children@.len())[i],
    ) by {
        lemma_expr_ground(e.children@[i]);
    }
}

impl<L: Language> RecExpr<L> {
    /// A ground term of an operator and its subterms.
    pub fn new(op: L, children: Vec<RecExpr<L>>) -> (r: RecExpr<L>)
        ensures
            r.op == op,
            r.children == children,
    {
        RecExpr { op, children }
    }

    /// A ground term of an operator alone.
    pub fn leaf(op: L) -> (r: RecExpr<L>)
        ensures
            r.op == op,
            r.children@.len() == 0,
    {
        RecExpr { op, children: Vec::new() }
    }
}

impl<L: Language> Pattern<L> {
    /// The first wildcard of the pattern, depth first and left to right.
    pub fn find_wildcard(&self) -> (r: Option<&QuestionMarkName>)
        ensures
            match r {
                Some(q) => first_wildcard(self@) == Some(q@),
                None => first_wildcard(self@) is None,
            },
        decreases self@,
    {
        match self {
            Pattern::Wildcard(q, _) => Some(q),
            Pattern::ENode(op, cs) => {
                let ghost ts = pattern_terms(cs@, cs@.len());
                proof {
                    lemma_pattern_terms(cs@, cs@.len());
                }
                let mut i: usize = 0;
                while i < cs.len()
                    invariant
                        i <= cs@.len(),
                        ts.len() == cs@.len(),
                        forall|j: int| 0 <= j < cs@.len() ==> #[trigger] ts[j] == cs@[j]@,
                        self@ == Term::Node(op@, ts),
                        first_wildcard_in(ts, i as nat) is None,
                    decreases cs@.len() - i,
                {
                    assert(decreases_to!(self@ => ts[i as int]));
                    let w = cs[i].find_wildcard();
                    if w.is_some() {
                        proof {
                            lemma_first_wildcard_in_stable(ts, (i + 1) as nat, ts.len());
                        }
                        return w;
                    }
                    i += 1;
                }
                None
            },
        }
    }

    /// The ground term of a pattern that holds no wildcard.
    fn into_ground(self) -> (r: RecExpr<L>)
        requires
            first_wildcard(self@) is None,
        ensures
            r@ == self@,
        decreases self@,
    {
        let ghost t = self@;
        match self {
            Pattern::Wildcard(..) => unreached(),
            Pattern::ENode(op, cs) => {
                let ghost orig = cs@;
                let ghost n = orig.len();
                let ghost ts = pattern_terms(orig, n);
                proof {
                    lemma_pattern_terms(orig, n);
                    lemma_first_wildcard_in_none(ts, n);
                }
                let mut cs = cs;
                let mut rev: Vec<Pattern<L>> = Vec::new();
                while cs.len() > 0
                    invariant
                        n == orig.len(),
                        cs@ == orig.subrange(0, cs@.len() as int),
                        rev@.len() + cs@.len() == n,
                        forall|j: int| 0 <= j < rev@.len() ==> #[trigger] rev@[j] == orig[n - 1 - j],
                    decreases cs@.len(),
                {
                    let c = cs.pop().unwrap();
                    rev.push(c);
                }
                let mut out: Vec<RecExpr<L>> = Vec::new();
                while rev.len() > 0
                    invariant
                        n == orig.len(),
                        out@.len() + rev@.len() == n,
                        forall|j: int| 0 <= j < rev@.len() ==> #[trigger] rev@[j] == orig[n - 1 - j],
                        forall|j: int| 0 <= j < out@.len() ==> #[trigger] out@[j]@ == ts[j],
                        ts.len() == n,
                        forall|j: int| 0 <= j < n ==> #[trigger] ts[j] == pattern_term(orig[j]),
                        forall|j: int| 0 <= j < n ==> (#[trigger] first_wildcard(ts[j])) is None,
                        t == Term::Node(op@, ts),
                        t == self@,
                    decreases rev@.len(),
                {
                    let c = rev.pop().unwrap();
                    let ghost k = out@.len() as int;
                    assert(0 <= k < ts.len());
                    assert(c@ == ts[k]);
                    assert(decreases_to!(t => t->Node_1));
                    assert(t->Node_1 == ts);
                    assert(decreases_to!(ts => ts[k]));
                    assert(decreases_to!(t => ts[k]));
                    let e = c.into_ground();
                    out.push(e);
                }
                proof {
                    lemma_expr_terms(out@, out@.len());
                    assert forall|j: int| 0 <= j < n implies expr_terms(out@, out@.len())[j]
                        == ts[j] by {
                        assert(out@[j]@ == ts[j]);
                    }
                    assert(expr_terms(out@, out@.len()) =~= ts);
                }
                RecExpr { op, children: out }
            },
        }
    }

    /// The ground term of a pattern; an error naming the first wildcard, depth
    /// first and left to right, where the pattern holds one.
    pub fn into_expr(self) -> (r: Result<RecExpr<L>, ParseError>)
        ensures
            r is Ok <==> is_ground(self@),
            match r {
                Ok(e) => e@ == self@,
                Err(err) => {
                    &&& err.kind == ParseErrorKind::WildcardInGroundTerm
                    &&& first_wildcard(self@) == Some(err.detail@)
                },
            },
    {
        proof {
            lemma_first_wildcard_iff_not_ground(self@);
        }
        let name = match self.find_wildcard() {
            Some(q) => Some(q.as_str().to_owned()),
            None => None,
        };
        match name {
            Some(detail) => Err(ParseError { kind: ParseErrorKind::WildcardInGroundTerm, detail }),
            None => Ok(self.into_ground()),
        }
    }
}

} // verus!
