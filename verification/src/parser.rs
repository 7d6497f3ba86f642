//! The parse driver: it builds a lexer over a source text, reads a term
//! from it one token at a time, and reports the term or the first error.

use vstd::prelude::*;
use vstd::string::*;
use std::ops::Range;
use crate::adapter::{MLLexer, token_view};
use crate::ast::{Expr, ExprNode, Term};
use crate::classifier::{Lexeme, lemma_scan_bounds, scan, span_in};
use crate::laws::lemma_outcome_span;
use crate::error::{MLLexerError, MLLexerErrorKind};
use crate::grammar::{
    Parsed, SyntaxState, class_at, lemma_progress, lemma_tokens_from,
    parse_args, parse_atom, parse_expr, parse_main, tokens, tokens_from,
};
use crate::text::{diagnostic, format_diagnostic};
use crate::token::{LogosToken, Token};

verus! {

/// A syntax error: the span of the token that does not fit, and the
/// explanation on record for the parser's state, where there is one.
#[derive(Debug)]
pub struct SyntaxError {
    pub span: Range<usize>,
    pub message: Option<String>,
}

/// The explanation of a syntax error: the one on record, or a fixed text
/// where there is none.
pub open spec fn explanation(message: Option<Seq<char>>) -> Seq<char> {
    match message {
        Some(text) => text,
        None => "No message for this error."@,
    }
}

impl SyntaxError {
    /// The diagnostic line for this error.
    pub open spec fn to_string_spec(&self) -> Seq<char> {
        diagnostic(
            self.span.start as int,
            self.span.end as int,
            explanation(message_view(self.message)),
        )
    }

    /// The diagnostic line for this error.
    pub fn to_string(&self) -> (line: String)
        ensures
            line@ == self.to_string_spec(),
    {
        match &self.message {
            Some(text) => format_diagnostic(self.span.start, self.span.end, text.as_str()),
            None => format_diagnostic(
                self.span.start,
                self.span.end,
                "No message for this error.",
            ),
        }
    }
}

/// The two ways in which reading a term fails.
#[derive(Debug)]
pub enum ParserError<'a> {
    /// The tokens do not spell a term.
    SyntaxError(SyntaxError),
    /// The text holds something that is no token.
    LexerError(MLLexerError<'a>),
}

/// What a parse ends in: a term, a lexical error or a syntax error.
#[derive(Debug)]
pub enum ParseOutcome<'a> {
    Ast(Expr),
    Lexical(MLLexerError<'a>),
    Syntactic(SyntaxError),
}

/// A parse outcome as a mathematical value.
pub enum OutcomeView<'a> {
    Ast(Term),
    Lexical { start: int, end: int, kind: MLLexerErrorKind<'a> },
    Syntactic { start: int, end: int, message: Option<Seq<char>> },
}

/// The text of an optional string.
pub open spec fn message_view(message: Option<String>) -> Option<Seq<char>> {
    match message {
        Some(text) => Some(text@),
        None => None,
    }
}

impl<'a> ParserError<'a> {
    /// The diagnostic line for this failure.
    pub open spec fn to_string_spec(&self) -> Seq<char> {
        match self {
            ParserError::SyntaxError(e) => e.to_string_spec(),
            ParserError::LexerError(e) => e.to_string_spec(),
        }
    }

    /// The diagnostic line for this failure.
    pub fn to_string(&self) -> (line: String)
        ensures
            line@ == self.to_string_spec(),
    {
        match self {
            ParserError::SyntaxError(e) => e.to_string(),
            ParserError::LexerError(e) => e.to_string(),
        }
    }

    /// The outcome that this failure makes of a parse.
    pub open spec fn outcome(self) -> OutcomeView<'a> {
        match self {
            ParserError::SyntaxError(e) => OutcomeView::Syntactic {
                start: e.span.start as int,
                end: e.span.end as int,
                message: message_view(e.message),
            },
            ParserError::LexerError(e) => OutcomeView::Lexical {
                start: e.span().start as int,
                end: e.span().end as int,
                kind: e.kind_spec(),
            },
        }
    }
}

impl<'a> View for ParseOutcome<'a> {
    type V = OutcomeView<'a>;

    open spec fn view(&self) -> OutcomeView<'a> {
        match self {
            ParseOutcome::Ast(e) => OutcomeView::Ast(e.term()),
            ParseOutcome::Lexical(e) => ParserError::LexerError(*e).outcome(),
            ParseOutcome::Syntactic(e) => ParserError::SyntaxError(*e).outcome(),
        }
    }
}

impl<'a> ParseOutcome<'a> {
    /// One outcome for the three ways in which reading a term ends.
    pub fn from_result(r: Result<Expr, ParserError<'a>>) -> (o: ParseOutcome<'a>)
        ensures
            r matches Ok(e) ==> o@ == OutcomeView::Ast(e.term()),
            r matches Err(e) ==> o@ == e.outcome(),
    {
        match r {
            Ok(e) => ParseOutcome::Ast(e),
            Err(ParserError::LexerError(e)) => ParseOutcome::Lexical(e),
            Err(ParserError::SyntaxError(e)) => ParseOutcome::Syntactic(e),
        }
    }
}

/// The outcome of a parse that stops at the lexeme with index `at`: a
/// lexical error where that lexeme is no token, else a syntax error; either
/// with the lexeme's span.
pub open spec fn failure_at(toks: Seq<Lexeme>, at: int, state: SyntaxState) -> OutcomeView<
    'static,
> {
    if toks[at].token == LogosToken::Error {
        OutcomeView::Lexical {
            start: toks[at].start,
            end: toks[at].end,
            kind: MLLexerErrorKind::UnknownError,
        }
    } else {
        OutcomeView::Syntactic {
            start: toks[at].start,
            end: toks[at].end,
            message: state.message_spec(),
        }
    }
}

/// The outcome of parsing a stream of lexemes.
pub open spec fn outcome_of(toks: Seq<Lexeme>) -> OutcomeView<'static> {
    match parse_main(toks) {
        Parsed::Accept { term, next } => OutcomeView::Ast(term),
        Parsed::Reject { at, state } => failure_at(toks, at, state),
    }
}

/// The outcome of parsing the text with the bytes `s`.
pub open spec fn parse_spec(s: Seq<u8>) -> OutcomeView<'static> {
    outcome_of(tokens(s))
}

/// Whether the token source's answer `look` reports the lexeme `l`.
spec fn look_matches(
    look: Result<(Range<usize>, Token), MLLexerError<'static>>,
    l: Lexeme,
) -> bool {
    match look {
        Ok((span, token)) => {
            &&& l.token != LogosToken::Error
            &&& span.start == l.start
            &&& span.end == l.end
            &&& token@ == token_view(l)
        },
        Err(e) => {
            &&& l.token == LogosToken::Error
            &&& e.span().start == l.start
            &&& e.span().end == l.end
            &&& e.kind_spec() == MLLexerErrorKind::UnknownError
        },
    }
}

/// A parser at work: the token source, and its latest answer, which the
/// parser has looked at but not taken.
struct Parser<'a> {
    lexer: MLLexer<'a>,
    look: Result<(Range<usize>, Token), MLLexerError<'static>>,
}

impl<'a> Parser<'a> {
    /// The parser works on the stream `toks` of its source, has taken the
    /// lexemes before index `k`, and looks at the one with index `k`.
    spec fn inv(&self, toks: Seq<Lexeme>, k: int) -> bool {
        let s = self.lexer.source();
        &&& self.lexer.wf()
        &&& toks == tokens(s)
        &&& 0 <= k < toks.len()
        &&& 0 <= toks[k].start <= toks[k].end <= s.len()
        &&& look_matches(self.look, toks[k])
        &&& toks[k].token != LogosToken::End && toks[k].token != LogosToken::Error ==> {
            &&& toks.skip(k + 1) == tokens_from(s, toks[k].end)
            &&& self.lexer.current() == scan(s, toks[k].end)
        }
    }

    /// Whether `r` is what the grammar's answer `parsed` asks for: the term
    /// with the parser behind it, or the failure at the rejected lexeme.
    spec fn delivers(
        &self,
        r: Result<Expr, ParserError<'static>>,
        toks: Seq<Lexeme>,
        parsed: Parsed,
    ) -> bool {
        match parsed {
            Parsed::Accept { term, next } => {
                &&& r matches Ok(e)
                &&& e.term() == term
                &&& self.inv(toks, next)
            },
            Parsed::Reject { at, state } => {
                &&& r matches Err(e)
                &&& 0 <= at < toks.len()
                &&& e.outcome() == failure_at(toks, at, state)
            },
        }
    }

    /// A parser that looks at the first lexeme of `text`.
    fn new(text: &'a str) -> (p: Parser<'a>)
        ensures
            p.inv(tokens(text.spec_bytes()), 0),
    {
        let mut lexer = MLLexer::new(text);
        let ghost s = text.spec_bytes();
        proof {
            lemma_tokens_from(s, 0);
            lemma_scan_bounds(s, 0);
        }
        let look = lexer.input();
        Parser { lexer, look }
    }

    /// The class of the lexeme that the parser looks at.
    fn look_class(&self, Ghost(toks): Ghost<Seq<Lexeme>>, Ghost(k): Ghost<int>) -> (c: LogosToken)
        requires
            self.inv(toks, k),
        ensures
            c == class_at(toks, k),
    {
        match &self.look {
            Err(_) => LogosToken::Error,
            Ok((_, token)) => match token {
                Token::LAMBDA => LogosToken::Lambda,
                Token::OPEN => LogosToken::Open,
                Token::CLOSE => LogosToken::Close,
                Token::DOT => LogosToken::Dot,
                Token::ID(_) => LogosToken::ID,
                Token::EOF => LogosToken::End,
            },
        }
    }

    /// Takes the token that the parser looks at, and asks the source for
    /// the next one.
    fn shift(&mut self, Ghost(toks): Ghost<Seq<Lexeme>>, Ghost(k): Ghost<int>) -> (token: Token)
        requires
            old(self).inv(toks, k),
            class_at(toks, k) != LogosToken::End,
            class_at(toks, k) != LogosToken::Error,
        ensures
            final(self).inv(toks, k + 1),
            token@ == token_view(toks[k]),
    {
        let ghost s = self.lexer.source();
        proof {
            lemma_tokens_from(s, toks[k].end);
            lemma_scan_bounds(s, toks[k].end);
            assert(toks.skip(k + 1)[0] == toks[k + 1]);
            assert(toks.skip(k + 1).skip(1) =~= toks.skip(k + 2));
        }
        let mut taken = self.lexer.input();
        std::mem::swap(&mut self.look, &mut taken);
        match taken {
            Ok((_, token)) => token,
            Err(_) => Token::EOF,
        }
    }

    /// The failure to report when the lexeme that the parser looks at does
    /// not fit: the source's own error where it gave one, else a syntax
    /// error with the explanation for `state`.
    fn fail(
        &self,
        state: SyntaxState,
        Ghost(toks): Ghost<Seq<Lexeme>>,
        Ghost(k): Ghost<int>,
    ) -> (e: ParserError<'static>)
        requires
            self.inv(toks, k),
        ensures
            e.outcome() == failure_at(toks, k, state),
    {
        match &self.look {
            Err(e) => ParserError::LexerError(MLLexerError::new(e.at(), e.kind())),
            Ok((span, _)) => {
                let message = match state.message() {
                    Some(text) => Some(String::from_str(text)),
                    None => None,
                };
                ParserError::SyntaxError(
                    SyntaxError { span: Range { start: span.start, end: span.end }, message },
                )
            },
        }
    }

    fn parse_atom(&mut self, Ghost(toks): Ghost<Seq<Lexeme>>, Ghost(k): Ghost<int>) -> (r: Result<
        Expr,
        ParserError<'static>,
    >)
        requires
            old(self).inv(toks, k),
        ensures
            final(self).delivers(r, toks, parse_atom(toks, k)),
        decreases toks.len() - k, 0int,
    {
        match self.look_class(Ghost(toks), Ghost(k)) {
            LogosToken::ID => {
                match self.shift(Ghost(toks), Ghost(k)) {
                    Token::ID(name) => Ok(Box::new(ExprNode::Var(name))),
                    _ => Err(self.fail(SyntaxState::AwaitTerm, Ghost(toks), Ghost(k + 1))),
                }
            },
            LogosToken::Open => {
                let _ = self.shift(Ghost(toks), Ghost(k));
                let inner = self.parse_expr(Ghost(toks), Ghost(k + 1));
                match inner {
                    Ok(e) => {
                        let ghost next = parse_expr(toks, k + 1)->next;
                        if self.look_class(Ghost(toks), Ghost(next)) == LogosToken::Close {
                            let _ = self.shift(Ghost(toks), Ghost(next));
                            Ok(e)
                        } else {
                            Err(self.fail(SyntaxState::AwaitClose, Ghost(toks), Ghost(next)))
                        }
                    },
                    Err(e) => Err(e),
                }
            },
            _ => Err(self.fail(SyntaxState::AwaitTerm, Ghost(toks), Ghost(k))),
        }
    }

    fn parse_args(
        &mut self,
        head: Expr,
        Ghost(toks): Ghost<Seq<Lexeme>>,
        Ghost(k): Ghost<int>,
    ) -> (r: Result<Expr, ParserError<'static>>)
        requires
            old(self).inv(toks, k),
        ensures
            final(self).delivers(r, toks, parse_args(toks, k, head.term())),
        decreases toks.len() - k, 1int,
    {
        let c = self.look_class(Ghost(toks), Ghost(k));
        if c == LogosToken::ID || c == LogosToken::Open {
            proof {
                lemma_progress(toks, k);
            }
            match self.parse_atom(Ghost(toks), Ghost(k)) {
                Ok(arg) => {
                    let ghost next = parse_atom(toks, k)->next;
                    self.parse_args(Box::new(ExprNode::App(head, arg)), Ghost(toks), Ghost(next))
                },
                Err(e) => Err(e),
            }
        } else {
            Ok(head)
        }
    }

    fn parse_expr(&mut self, Ghost(toks): Ghost<Seq<Lexeme>>, Ghost(k): Ghost<int>) -> (r: Result<
        Expr,
        ParserError<'static>,
    >)
        requires
            old(self).inv(toks, k),
        ensures
            final(self).delivers(r, toks, parse_expr(toks, k)),
        decreases toks.len() - k, 2int,
    {
        if self.look_class(Ghost(toks), Ghost(k)) == LogosToken::Lambda {
            let _ = self.shift(Ghost(toks), Ghost(k));
            if self.look_class(Ghost(toks), Ghost(k + 1)) != LogosToken::ID {
                return Err(self.fail(SyntaxState::AwaitBinder, Ghost(toks), Ghost(k + 1)));
            }
            let binder = self.shift(Ghost(toks), Ghost(k + 1));
            if self.look_class(Ghost(toks), Ghost(k + 2)) != LogosToken::Dot {
                return Err(self.fail(SyntaxState::AwaitDot, Ghost(toks), Ghost(k + 2)));
            }
            let _ = self.shift(Ghost(toks), Ghost(k + 2));
            match self.parse_expr(Ghost(toks), Ghost(k + 3)) {
                Ok(body) => match binder {
                    Token::ID(name) => Ok(Box::new(ExprNode::Abs(name, body))),
                    _ => Ok(body),
                },
                Err(e) => Err(e),
            }
        } else {
            proof {
                lemma_progress(toks, k);
            }
            match self.parse_atom(Ghost(toks), Ghost(k)) {
                Ok(head) => {
                    let ghost next = parse_atom(toks, k)->next;
                    self.parse_args(head, Ghost(toks), Ghost(next))
                },
                Err(e) => Err(e),
            }
        }
    }
}

/// Parses `text` as a term of the lambda calculus.
///
/// The result is the term that the text spells, or the first failure on the
/// way: a lexical error where the parser comes upon a character that starts
/// no token, a syntax error where it comes upon a token that does not fit.
pub fn parse(text: &str) -> (outcome: ParseOutcome<'static>)
    ensures
        outcome@ == parse_spec(text.spec_bytes()),
        outcome matches ParseOutcome::Lexical(e) ==> span_in(e.span(), text.spec_bytes().len()),
        outcome matches ParseOutcome::Syntactic(e) ==> span_in(e.span, text.spec_bytes().len()),
{
    proof {
        lemma_outcome_span(text.spec_bytes());
    }
    let ghost toks = tokens(text.spec_bytes());
    let mut parser = Parser::new(text);
    proof {
        lemma_progress(toks, 0);
    }
    let r = match parser.parse_expr(Ghost(toks), Ghost(0)) {
        Ok(e) => {
            let ghost next = parse_expr(toks, 0)->next;
            if parser.look_class(Ghost(toks), Ghost(next)) == LogosToken::End {
                Ok(e)
            } else {
                Err(parser.fail(SyntaxState::AwaitEnd, Ghost(toks), Ghost(next)))
            }
        },
        Err(e) => Err(e),
    };
    ParseOutcome::from_result(r)
}

} // verus!
