use sexp_pattern::sexp::{is_space_char, trim};
use sexp_pattern::{
    classify, parse_expr, parse_pattern, parse_term, ParseErrorKind, Pattern, QuestionMarkName,
    RecExpr, WildcardKind,
};
use symbolic_expressions::Sexp;

fn leaf(s: &str) -> RecExpr<String> {
    RecExpr::leaf(s.to_string())
}

fn node(s: &str, children: Vec<RecExpr<String>>) -> RecExpr<String> {
    RecExpr::new(s.to_string(), children)
}

fn wildcard(name: &str, kind: WildcardKind) -> Pattern<String> {
    Pattern::Wildcard(QuestionMarkName::new(name).unwrap(), kind)
}

fn show(e: &RecExpr<String>) -> String {
    if e.children.is_empty() {
        e.op.clone()
    } else {
        let mut out = format!("({}", e.op);
        for c in &e.children {
            out.push(' ');
            out.push_str(&show(c));
        }
        out.push(')');
        out
    }
}

#[test]
fn simple_parse() {
    let expr: RecExpr<String> = node("+", vec![leaf("x"), leaf("x")]);
    let expr2 = "(+ x x)".parse().unwrap();

    assert_eq!(expr, expr2);
}

#[test]
fn pattern_of_ground_text() {
    let p: Pattern<String> = "(+ x x)".parse().unwrap();
    let expected = Pattern::ENode(
        "+".to_string(),
        vec![
            Pattern::ENode("x".to_string(), vec![]),
            Pattern::ENode("x".to_string(), vec![]),
        ],
    );
    assert_eq!(p, expected);
}

#[test]
fn single_wildcards() {
    let p = parse_pattern::<String>("(+ ?a ?a)").unwrap();
    let expected = Pattern::ENode(
        "+".to_string(),
        vec![wildcard("?a", WildcardKind::Single), wildcard("?a", WildcardKind::Single)],
    );
    assert_eq!(p, expected);
}

#[test]
fn wildcards_refused_in_ground_term() {
    let e = parse_expr::<String>("(+ ?a ?a)").unwrap_err();
    assert_eq!(e.kind(), ParseErrorKind::WildcardInGroundTerm);
    assert_eq!(e.detail(), "?a");
}

#[test]
fn run_wildcard() {
    let p = parse_pattern::<String>("(f ?xs...)").unwrap();
    let expected = Pattern::ENode("f".to_string(), vec![wildcard("?xs...", WildcardKind::ZeroOrMore)]);
    assert_eq!(p, expected);
}

#[test]
fn unbalanced_text() {
    let e = parse_pattern::<String>("(+ x").unwrap_err();
    assert_eq!(e.kind(), ParseErrorKind::Lexical);
    let reader_error = symbolic_expressions::parser::parse_str("(+ x").unwrap_err();
    assert_eq!(e.detail(), reader_error.to_string());
    assert_eq!(parse_pattern::<String>("  (+ x \n").unwrap_err(), e);
    let e = parse_expr::<String>("(+ x").unwrap_err();
    assert_eq!(e.kind(), ParseErrorKind::Lexical);
}

#[test]
fn invalid_operator_named() {
    let e = parse_pattern::<bool>("(1 2 3)").unwrap_err();
    assert_eq!(e.kind(), ParseErrorKind::InvalidOperator);
    assert_eq!(e.detail(), "1");
}

#[test]
fn invalid_leaf_atom() {
    let e = parse_pattern::<bool>("(true 1 2)").unwrap_err();
    assert_eq!(e.kind(), ParseErrorKind::InvalidAtom);
    assert_eq!(e.detail(), "1");
}

#[test]
fn list_in_operator_position() {
    let e = parse_pattern::<String>("((f) x)").unwrap_err();
    assert_eq!(e.kind(), ParseErrorKind::InvalidOperator);
    assert_eq!(e.detail(), "(f)");
}

#[test]
fn wildcard_in_operator_position() {
    let e = parse_pattern::<String>("(?f x)").unwrap_err();
    assert_eq!(e.kind(), ParseErrorKind::InvalidOperator);
    assert_eq!(e.detail(), "?f");
}

#[test]
fn empty_text() {
    let e = parse_pattern::<String>("").unwrap_err();
    assert_eq!(e.kind(), ParseErrorKind::EmptyTerm);
    let e = parse_pattern::<String>("  \t ").unwrap_err();
    assert_eq!(e.kind(), ParseErrorKind::EmptyTerm);
    let e = parse_expr::<String>("").unwrap_err();
    assert_eq!(e.kind(), ParseErrorKind::EmptyTerm);
}

#[test]
fn empty_list() {
    let e = parse_pattern::<String>("()").unwrap_err();
    assert_eq!(e.kind(), ParseErrorKind::EmptyList);
    let e = parse_expr::<String>("(f ())").unwrap_err();
    assert_eq!(e.kind(), ParseErrorKind::EmptyList);
}

#[test]
fn malformed_atoms() {
    let e = parse_pattern::<String>("(f \"a \")").unwrap_err();
    assert_eq!(e.kind(), ParseErrorKind::MalformedAtom);
    assert_eq!(e.detail(), "a ");
    let e = parse_pattern::<String>("(f \"\")").unwrap_err();
    assert_eq!(e.kind(), ParseErrorKind::MalformedAtom);
    assert_eq!(e.detail(), "");
    let e = parse_pattern::<String>("(f \"a b\")").unwrap_err();
    assert_eq!(e.kind(), ParseErrorKind::MalformedAtom);
    assert_eq!(e.detail(), "a b");
    let e = parse_pattern::<String>("(f a\tb)").unwrap_err();
    assert_eq!(e.kind(), ParseErrorKind::MalformedAtom);
}

#[test]
fn classify_atoms() {
    assert_eq!(classify::<String>("?x").unwrap(), wildcard("?x", WildcardKind::Single));
    assert_eq!(classify::<String>("?xs...").unwrap(), wildcard("?xs...", WildcardKind::ZeroOrMore));
    assert_eq!(classify::<String>("?").unwrap(), wildcard("?", WildcardKind::Single));
    assert_eq!(classify::<String>("?..").unwrap(), wildcard("?..", WildcardKind::Single));
    assert_eq!(classify::<String>("x").unwrap(), Pattern::ENode("x".to_string(), vec![]));
    assert_eq!(classify::<String>("x...").unwrap(), Pattern::ENode("x...".to_string(), vec![]));
    assert_eq!(classify::<String>(" x").unwrap_err().kind(), ParseErrorKind::MalformedAtom);
    assert_eq!(classify::<String>("x\u{3000}").unwrap_err().kind(), ParseErrorKind::MalformedAtom);
    assert_eq!(classify::<bool>("x").unwrap_err().kind(), ParseErrorKind::InvalidAtom);
    assert_eq!(classify::<bool>("false").unwrap(), Pattern::ENode(false, vec![]));
}

#[test]
fn wildcard_names() {
    assert!(QuestionMarkName::new("x").is_none());
    assert!(QuestionMarkName::new("").is_none());
    let q = QuestionMarkName::new("?xs...").unwrap();
    assert_eq!(q.as_str(), "?xs...");
    assert_eq!(q.kind(), WildcardKind::ZeroOrMore);
    assert_eq!(QuestionMarkName::new("?x").unwrap().kind(), WildcardKind::Single);
}

#[test]
fn downgrade_ground_pattern() {
    let p = parse_pattern::<String>("(f (g x) y)").unwrap();
    let e = p.into_expr().unwrap();
    assert_eq!(e, node("f", vec![node("g", vec![leaf("x")]), leaf("y")]));
}

#[test]
fn downgrade_names_first_wildcard() {
    let p = parse_pattern::<String>("(f (g ?b) ?a)").unwrap();
    let e = p.into_expr().unwrap_err();
    assert_eq!(e.kind(), ParseErrorKind::WildcardInGroundTerm);
    assert_eq!(e.detail(), "?b");
    let p = parse_pattern::<String>("?z").unwrap();
    assert_eq!(p.into_expr().unwrap_err().detail(), "?z");
}

#[test]
fn find_first_wildcard() {
    let p = parse_pattern::<String>("(f x (g y ?c ?d) ?e)").unwrap();
    assert_eq!(p.find_wildcard().unwrap().as_str(), "?c");
    let p = parse_pattern::<String>("(f x)").unwrap();
    assert!(p.find_wildcard().is_none());
}

#[test]
fn ground_round_trip() {
    let e = node(
        "f",
        vec![node("g", vec![leaf("x"), leaf("1")]), leaf("y"), node("+", vec![leaf("z")])],
    );
    let text = show(&e);
    assert_eq!(text, "(f (g x 1) y (+ z))");
    let back = parse_expr::<String>(&text).unwrap();
    assert_eq!(back, e);
}

#[test]
fn outer_whitespace_trimmed() {
    let e = parse_expr::<String>(" \n (+ x x)\n ").unwrap();
    assert_eq!(e, node("+", vec![leaf("x"), leaf("x")]));
}

#[test]
fn first_error_left_to_right() {
    let e = parse_pattern::<bool>("(true (false 7) 8)").unwrap_err();
    assert_eq!(e.kind(), ParseErrorKind::InvalidAtom);
    assert_eq!(e.detail(), "7");
}

#[test]
fn truth_value_language() {
    let e = parse_expr::<bool>("(true false (false true))").unwrap();
    assert_eq!(
        e,
        RecExpr::new(
            true,
            vec![RecExpr::leaf(false), RecExpr::new(false, vec![RecExpr::leaf(true)])]
        )
    );
}

#[test]
fn term_builder_on_reader_trees() {
    let tree = Sexp::List(vec![Sexp::String("f".to_string()), Sexp::String("?x".to_string())]);
    let p = parse_term::<String>(&tree).unwrap();
    assert_eq!(p, Pattern::ENode("f".to_string(), vec![wildcard("?x", WildcardKind::Single)]));
    let e = parse_term::<String>(&Sexp::Empty).unwrap_err();
    assert_eq!(e.kind(), ParseErrorKind::EmptyTerm);
}

#[test]
fn whitespace_characters() {
    assert!(is_space_char(' '));
    assert!(is_space_char('\t'));
    assert!(is_space_char('\u{a0}'));
    assert!(!is_space_char('x'));
    assert!(!is_space_char('\u{200b}'));
}

#[test]
fn error_messages() {
    let e = parse_pattern::<bool>("(1 2 3)").unwrap_err();
    assert_eq!(e.message(), "ParseError: bad op: 1");
    let e = parse_pattern::<String>("()").unwrap_err();
    assert_eq!(e.message(), "ParseError: empty list");
    let e = parse_expr::<String>("(+ ?a ?a)").unwrap_err();
    assert_eq!(e.message(), "ParseError: wildcard in ground term: ?a");
}

#[test]
fn trim_outer_whitespace() {
    assert_eq!(trim(" \t(f x)\n\u{3000}"), "(f x)");
    assert_eq!(trim("a b"), "a b");
    assert_eq!(trim("   "), "");
    assert_eq!(trim(""), "");
}

#[test]
fn from_str_entry_points() {
    let e: RecExpr<String> = "(f (g y) z)".parse().unwrap();
    assert_eq!(e, node("f", vec![node("g", vec![leaf("y")]), leaf("z")]));
    let err = "(f (g ?x) y)".parse::<RecExpr<String>>().unwrap_err();
    assert_eq!(err.kind(), ParseErrorKind::WildcardInGroundTerm);
    assert_eq!(err.detail(), "?x");
    let err = "(f (g ?a) ?b)".parse::<RecExpr<String>>().unwrap_err();
    assert_eq!(err.detail(), "?a");
    let p: Pattern<String> = "x".parse().unwrap();
    assert_eq!(p, Pattern::ENode("x".to_string(), vec![]));
    let err = "()".parse::<Pattern<String>>().unwrap_err();
    assert_eq!(err.kind(), ParseErrorKind::EmptyList);
    let err = "".parse::<Pattern<String>>().unwrap_err();
    assert_eq!(err.kind(), ParseErrorKind::EmptyTerm);
}

#[test]
fn operator_position_text_is_written_as_the_reader_writes_it() {
    let e = parse_pattern::<String>("((\"a b\" c) x)").unwrap_err();
    assert_eq!(e.kind(), ParseErrorKind::InvalidOperator);
    assert_eq!(e.detail(), "(\"a b\" c)");
}
