//! The capability a pattern's operators come from: reading a token as an
//! operator of some language.
use vstd::prelude::*;

verus! {

/// A language of operators, each read from a single token.
pub trait Language: Sized + View {
    /// The operator a token denotes, or `None` where the token is no operator.
    spec fn op_of(token: Seq<char>) -> Option<Self::V>;

    /// The token an operator is written as.
    spec fn token_of(op: Self::V) -> Seq<char>;

    /// Reads a token as an operator.
    fn from_op_str(token: &str) -> (r: Option<Self>)
        ensures
            r is Some <==> Self::op_of(token@) is Some,
            r is Some ==> Self::op_of(token@) == Some(r->0@),
    ;
}

/// The language in which every token is an operator: the token itself.
impl Language for String {
    open spec fn op_of(token: Seq<char>) -> Option<Seq<char>> {
        Some(token)
    }

    open spec fn token_of(op: Seq<char>) -> Seq<char> {
        op
    }

    fn from_op_str(token: &str) -> (r: Option<String>) {
        Some(token.to_owned())
    }
}

/// The token of a truth value, as `bool`'s `FromStr` and `Display` write it.
pub open spec fn bool_token(b: bool) -> Seq<char> {
    if b {
        seq!['t', 'r', 'u', 'e']
    } else {
        seq!['f', 'a', 'l', 's', 'e']
    }
}

/// Two texts hold the same characters.
fn same_text(a: &str, b: &str) -> (r: bool)
    ensures
        r == (a@ == b@),
{
    let n = a.unicode_len();
    if n != b.unicode_len() {
        return false;
    }
    let mut i: usize = 0;
    while i < n
        invariant
            n == a@.len(),
            n == b@.len(),
            i <= n,
            forall|j: int| 0 <= j < i ==> a@[j] == b@[j],
        decreases n - i,
    {
        if a.get_char(i) != b.get_char(i) {
            return false;
        }
        i += 1;
    }
    assert(a@ =~= b@);
    true
}

/// The language of the two truth values, written `true` and `false`.
impl Language for bool {
    open spec fn op_of(token: Seq<char>) -> Option<bool> {
        if token == bool_token(true) {
            Some(true)
        } else if token == bool_token(false) {
            Some(false)
        } else {
            None
        }
    }

    open spec fn token_of(op: bool) -> Seq<char> {
        bool_token(op)
    }

    fn from_op_str(token: &str) -> (r: Option<bool>) {
        let t = "true";
        let f = "false";
        proof {
            reveal_strlit("true");
            reveal_strlit("false");
            assert(t@ =~= bool_token(true));
            assert(f@ =~= bool_token(false));
        }
        if same_text(token, t) {
            Some(true)
        } else if same_text(token, f) {
            Some(false)
        } else {
            None
        }
    }
}

} // verus!
