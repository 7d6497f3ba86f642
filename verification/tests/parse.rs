use menhirlogos::ast::ExprNode;
use menhirlogos::error::MLLexerErrorKind;
use menhirlogos::parser::{parse, ParseOutcome};

fn var(name: &str) -> Box<ExprNode> {
    Box::new(ExprNode::Var(name.to_string()))
}

fn app(f: Box<ExprNode>, a: Box<ExprNode>) -> Box<ExprNode> {
    Box::new(ExprNode::App(f, a))
}

fn abs(name: &str, body: Box<ExprNode>) -> Box<ExprNode> {
    Box::new(ExprNode::Abs(name.to_string(), body))
}

fn same(a: &ExprNode, b: &ExprNode) -> bool {
    match (a, b) {
        (ExprNode::Var(x), ExprNode::Var(y)) => x == y,
        (ExprNode::App(f, a), ExprNode::App(g, b)) => same(f, g) && same(a, b),
        (ExprNode::Abs(x, s), ExprNode::Abs(y, t)) => x == y && same(s, t),
        _ => false,
    }
}

fn expect_ast(text: &str, expected: Box<ExprNode>) {
    match parse(text) {
        ParseOutcome::Ast(e) => assert!(same(&e, &expected), "{:?} is not {:?}", e, expected),
        other => panic!("{:?}", other),
    }
}

fn expect_syntax(text: &str, start: usize, end: usize, message: Option<&str>) {
    match parse(text) {
        ParseOutcome::Syntactic(e) => {
            assert_eq!(e.span, start..end);
            assert_eq!(e.message.as_deref(), message);
        }
        other => panic!("{:?}", other),
    }
}

fn expect_lexical(text: &str, start: usize, end: usize) {
    match parse(text) {
        ParseOutcome::Lexical(e) => {
            assert_eq!(e.at(), start..end);
            assert!(matches!(e.kind(), MLLexerErrorKind::UnknownError));
        }
        other => panic!("{:?}", other),
    }
}

#[test]
fn identity_applied_to_identity() {
    expect_ast(
        "(lambda x.x) (lambda x.x)",
        app(abs("x", var("x")), abs("x", var("x"))),
    );
}

#[test]
fn single_variable() {
    expect_ast("x", var("x"));
    expect_ast("  _foo42\t", var("_foo42"));
}

#[test]
fn application_associates_to_the_left() {
    expect_ast("f a b", app(app(var("f"), var("a")), var("b")));
    expect_ast("f (a b)", app(var("f"), app(var("a"), var("b"))));
}

#[test]
fn abstraction_body_reaches_to_the_right() {
    expect_ast(
        "lambda x. lambda y. x y",
        abs("x", abs("y", app(var("x"), var("y")))),
    );
    expect_ast("(lambda x.x) y", app(abs("x", var("x")), var("y")));
}

#[test]
fn redundant_brackets_are_dropped() {
    expect_ast("((x))", var("x"));
    expect_ast("((f) (a))", app(var("f"), var("a")));
}

#[test]
fn keyword_needs_a_boundary() {
    expect_ast("lambdax", var("lambdax"));
    expect_ast("lambda_", var("lambda_"));
    expect_ast("lambd", var("lambd"));
    expect_ast("Lambda", var("Lambda"));
    expect_ast("lambda lambda0.lambda0", abs("lambda0", var("lambda0")));
}

#[test]
fn blanks_separate_but_are_not_needed() {
    expect_ast("lambda x.x(y)z", abs("x", app(app(var("x"), var("y")), var("z"))));
    expect_ast(" \t\x0c x \x0c", var("x"));
}

#[test]
fn empty_input_is_a_syntax_error_at_zero() {
    expect_syntax("", 0, 0, Some("Expected a variable, `lambda` or `(`."));
    expect_syntax("   ", 3, 3, Some("Expected a variable, `lambda` or `(`."));
}

#[test]
fn missing_bound_variable() {
    expect_syntax("lambda . x", 7, 8, Some("Expected a variable name after `lambda`."));
}

#[test]
fn missing_dot() {
    expect_syntax("lambda x y", 9, 10, Some("Expected `.` after the bound variable."));
    expect_syntax("lambda x", 8, 8, Some("Expected `.` after the bound variable."));
}

#[test]
fn missing_body() {
    expect_syntax("lambda x.", 9, 9, Some("Expected a variable, `lambda` or `(`."));
    expect_syntax("()", 1, 2, Some("Expected a variable, `lambda` or `(`."));
}

#[test]
fn unclosed_bracket() {
    expect_syntax("(x", 2, 2, Some("Expected `)`."));
    expect_syntax("(x .", 3, 4, Some("Expected `)`."));
}

#[test]
fn abstraction_as_argument_needs_brackets() {
    expect_syntax("f lambda x.x", 2, 8, None);
    expect_ast("f (lambda x.x)", app(var("f"), abs("x", var("x"))));
}

#[test]
fn trailing_token_has_no_message() {
    expect_syntax("x )", 2, 3, None);
    expect_syntax("x . y", 2, 3, None);
}

#[test]
fn invalid_character_is_a_lexical_error() {
    expect_lexical("lambda x.@", 9, 10);
    expect_lexical("@", 0, 1);
    expect_lexical("x y \n z", 4, 5);
    expect_lexical("x1 2", 3, 4);
}

#[test]
fn invalid_character_span_covers_the_whole_character() {
    expect_lexical("x \u{e9} y", 2, 4);
    expect_lexical("(\u{20ac})", 1, 4);
    expect_lexical("\u{1f600}", 0, 4);
}

#[test]
fn first_failure_wins() {
    expect_syntax("lambda . @", 7, 8, Some("Expected a variable name after `lambda`."));
    expect_lexical("lambda @ .", 7, 8);
    expect_lexical("x @ )", 2, 3);
}

#[test]
fn deeply_nested_brackets() {
    let mut text = String::new();
    for _ in 0..200 {
        text.push('(');
    }
    text.push('x');
    for _ in 0..200 {
        text.push(')');
    }
    expect_ast(&text, var("x"));
}
