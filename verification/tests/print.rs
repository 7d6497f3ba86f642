use menhirlogos::ast::ExprNode;
use menhirlogos::parser::{parse, ParseOutcome};
use menhirlogos::printer::{canon_tokens, render_tokens};
use menhirlogos::token::Token;

fn v(name: &str) -> Box<ExprNode> {
    Box::new(ExprNode::Var(name.to_string()))
}

fn ap(f: Box<ExprNode>, a: Box<ExprNode>) -> Box<ExprNode> {
    Box::new(ExprNode::App(f, a))
}

fn lam(name: &str, body: Box<ExprNode>) -> Box<ExprNode> {
    Box::new(ExprNode::Abs(name.to_string(), body))
}

fn alike(a: &ExprNode, b: &ExprNode) -> bool {
    match (a, b) {
        (ExprNode::Var(x), ExprNode::Var(y)) => x == y,
        (ExprNode::App(f, a), ExprNode::App(g, b)) => alike(f, g) && alike(a, b),
        (ExprNode::Abs(x, s), ExprNode::Abs(y, t)) => x == y && alike(s, t),
        _ => false,
    }
}

fn reparsed(e: &ExprNode) -> Box<ExprNode> {
    let text = e.to_text();
    match parse(&text) {
        ParseOutcome::Ast(back) => back,
        other => panic!("{:?} from `{}`", other, text),
    }
}

#[test]
fn canonical_text_of_each_form() {
    assert_eq!(v("x").to_text(), "x");
    assert_eq!(lam("x", v("x")).to_text(), "lambda x.x");
    assert_eq!(ap(v("f"), v("a")).to_text(), "f a");
    assert_eq!(ap(ap(v("f"), v("a")), v("b")).to_text(), "f a b");
    assert_eq!(ap(v("f"), ap(v("a"), v("b"))).to_text(), "f (a b)");
    assert_eq!(ap(v("f"), lam("x", v("x"))).to_text(), "f (lambda x.x)");
    assert_eq!(lam("x", lam("y", ap(v("x"), v("y")))).to_text(), "lambda x.lambda y.x y");
    assert_eq!(lam("x", ap(lam("y", v("y")), v("x"))).to_text(), "lambda x.(lambda y.y) x");
}

#[test]
fn canonical_text_of_identity_applied_to_identity() {
    let e = ap(lam("x", v("x")), lam("x", v("x")));
    assert_eq!(e.to_text(), "(lambda x.x) (lambda x.x)");
}

#[test]
fn parse_after_print_gives_the_term_back() {
    let terms = vec![
        v("x"),
        v("lambdax"),
        v("_"),
        lam("x", v("x")),
        ap(v("f"), v("a")),
        ap(ap(v("f"), v("a")), v("b")),
        ap(v("f"), ap(v("a"), v("b"))),
        ap(lam("x", v("x")), lam("x", v("x"))),
        ap(ap(lam("x", v("x")), lam("y", v("y"))), ap(v("g"), lam("z", ap(v("z"), v("z"))))),
        lam("f", lam("x", ap(v("f"), ap(v("f"), v("x"))))),
        ap(lam("x", ap(v("x"), v("x"))), lam("x", ap(v("x"), v("x")))),
    ];
    for t in terms.iter() {
        let back = reparsed(t);
        assert!(alike(&back, t), "{:?} came back as {:?}", t, back);
    }
}

#[test]
fn print_after_parse_is_canonical() {
    let texts = [
        ("((x))", "x"),
        ("(f) (a)", "f a"),
        ("f(a)(b)", "f a b"),
        ("  lambda   x .  ( x )", "lambda x.x"),
        ("(lambda x.x)(lambda x.x)", "(lambda x.x) (lambda x.x)"),
        ("f ((a b))", "f (a b)"),
    ];
    for (text, canonical) in texts.iter() {
        match parse(text) {
            ParseOutcome::Ast(e) => {
                assert_eq!(e.to_text(), *canonical);
                assert_eq!(reparsed(&e).to_text(), *canonical);
            }
            other => panic!("{:?}", other),
        }
    }
}

#[test]
fn canonical_tokens_of_an_application() {
    let e = ap(lam("x", v("x")), ap(v("a"), v("b")));
    let names: Vec<&str> = canon_tokens(&e).iter().map(|t| t.name()).collect();
    assert_eq!(
        names,
        vec![
            "Token::OPEN",
            "Token::LAMBDA",
            "Token::ID",
            "Token::DOT",
            "Token::ID",
            "Token::CLOSE",
            "Token::OPEN",
            "Token::ID",
            "Token::ID",
            "Token::CLOSE",
        ]
    );
}

#[test]
fn blanks_stand_only_where_they_are_asked_for() {
    let id = |s: &str| Token::ID(s.to_string());
    assert_eq!(render_tokens(&vec![]), "");
    assert_eq!(render_tokens(&vec![id("x")]), "x");
    assert_eq!(render_tokens(&vec![id("x"), id("y")]), "x y");
    assert_eq!(render_tokens(&vec![Token::LAMBDA, id("x"), Token::DOT, id("x")]), "lambda x.x");
    assert_eq!(render_tokens(&vec![Token::CLOSE, Token::OPEN]), ") (");
    assert_eq!(render_tokens(&vec![Token::OPEN, Token::OPEN, id("x"), Token::CLOSE, Token::CLOSE]), "((x))");
    assert_eq!(render_tokens(&vec![id("f"), Token::OPEN, id("x"), Token::CLOSE, id("y")]), "f (x) y");
    assert_eq!(render_tokens(&vec![id("x"), Token::EOF]), "x");
}
