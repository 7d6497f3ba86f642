//! The grammar of terms, as a function from a stream of lexemes to the
//! term that it spells or to the place where it stops being one.
//!
//! ```text
//! main ::= expr End
//! expr ::= Lambda ID Dot expr | atom atom*
//! atom ::= ID | Open expr Close
//! ```
//!
//! Application associates to the left, and the body of an abstraction
//! reaches as far to the right as it can.

use vstd::prelude::*;
use crate::adapter::name_of;
use crate::ast::Term;
use crate::classifier::{Lexeme, lemma_scan_bounds, scan};
use crate::token::LogosToken;

verus! {

/// What the parser was waiting for when a token did not fit.
#[derive(Debug, Clone, Copy, PartialEq, Eq, Structural)]
pub enum SyntaxState {
    /// The start of a term: an identifier, `lambda` or `(`.
    AwaitTerm,
    /// The bound variable of an abstraction.
    AwaitBinder,
    /// The dot between a bound variable and the body.
    AwaitDot,
    /// The bracket that closes an open one.
    AwaitClose,
    /// The end of the input.
    AwaitEnd,
}

/// The result of reading a phrase from a stream of lexemes.
pub enum Parsed {
    /// The phrase spells `term`, and `next` is the index of the first lexeme
    /// behind it.
    Accept { term: Term, next: int },
    /// The lexeme at index `at` does not fit, and `state` says what was
    /// waited for.
    Reject { at: int, state: SyntaxState },
}

/// The class of the lexeme at index `k`; behind the stream, `End`.
pub open spec fn class_at(toks: Seq<Lexeme>, k: int) -> LogosToken {
    if 0 <= k < toks.len() {
        toks[k].token
    } else {
        LogosToken::End
    }
}

/// Reads an atom from index `k`: an identifier, or a term in brackets.
pub open spec fn parse_atom(toks: Seq<Lexeme>, k: int) -> Parsed
    decreases toks.len() - k, 0int,
{
    match class_at(toks, k) {
        LogosToken::ID => Parsed::Accept { term: Term::Var(name_of(toks[k].text)), next: k + 1 },
        LogosToken::Open => match parse_expr(toks, k + 1) {
            Parsed::Accept { term, next } => if class_at(toks, next) == LogosToken::Close {
                Parsed::Accept { term, next: next + 1 }
            } else {
                Parsed::Reject { at: next, state: SyntaxState::AwaitClose }
            },
            rejected => rejected,
        },
        _ => Parsed::Reject { at: k, state: SyntaxState::AwaitTerm },
    }
}

/// Reads the arguments that follow the function `head` from index `k`, as
/// many as there are, and applies `head` to them from left to right.
///
/// The test on `next` serves the termination argument alone:
/// `lemma_progress` shows that it never fails.
pub open spec fn parse_args(toks: Seq<Lexeme>, k: int, head: Term) -> Parsed
    decreases toks.len() - k, 1int,
{
    if class_at(toks, k) == LogosToken::ID || class_at(toks, k) == LogosToken::Open {
        match parse_atom(toks, k) {
            Parsed::Accept { term, next } => if k < next <= toks.len() {
                parse_args(toks, next, Term::App(Box::new(head), Box::new(term)))
            } else {
                Parsed::Reject { at: k, state: SyntaxState::AwaitTerm }
            },
            rejected => rejected,
        }
    } else {
        Parsed::Accept { term: head, next: k }
    }
}

/// Reads a term from index `k`: an abstraction, or an atom applied to the
/// atoms that follow it.
pub open spec fn parse_expr(toks: Seq<Lexeme>, k: int) -> Parsed
    decreases toks.len() - k, 2int,
{
    if class_at(toks, k) == LogosToken::Lambda {
        if class_at(toks, k + 1) != LogosToken::ID {
            Parsed::Reject { at: k + 1, state: SyntaxState::AwaitBinder }
        } else if class_at(toks, k + 2) != LogosToken::Dot {
            Parsed::Reject { at: k + 2, state: SyntaxState::AwaitDot }
        } else {
            match parse_expr(toks, k + 3) {
                Parsed::Accept { term, next } => Parsed::Accept {
                    term: Term::Abs(name_of(toks[k + 1].text), Box::new(term)),
                    next,
                },
                rejected => rejected,
            }
        }
    } else {
        match parse_atom(toks, k) {
            Parsed::Accept { term, next } => if k < next <= toks.len() {
                parse_args(toks, next, term)
            } else {
                Parsed::Reject { at: k, state: SyntaxState::AwaitTerm }
            },
            rejected => rejected,
        }
    }
}

/// Reads a whole stream: a term, and then the end of the input.
pub open spec fn parse_main(toks: Seq<Lexeme>) -> Parsed {
    match parse_expr(toks, 0) {
        Parsed::Accept { term, next } => if class_at(toks, next) == LogosToken::End {
            Parsed::Accept { term, next }
        } else {
            Parsed::Reject { at: next, state: SyntaxState::AwaitEnd }
        },
        rejected => rejected,
    }
}

/// Whether `r` stays inside the stream: an accepted phrase that starts at
/// `k` ends behind `from` and not behind the stream, and a rejected lexeme
/// lies at `k` or behind it.
pub open spec fn in_stream(toks: Seq<Lexeme>, k: int, from: int, r: Parsed) -> bool {
    match r {
        Parsed::Accept { term, next } => from <= next <= toks.len(),
        Parsed::Reject { at, state } => k <= at,
    }
}

/// An atom and a term are never empty, the arguments of a function may
/// be, and none of them reaches behind the stream.
pub proof fn lemma_progress(toks: Seq<Lexeme>, k: int)
    requires
        0 <= k,
    ensures
        in_stream(toks, k, k + 1, parse_atom(toks, k)),
        in_stream(toks, k, k + 1, parse_expr(toks, k)),
    decreases toks.len() - k, 0int,
{
    if class_at(toks, k) == LogosToken::Lambda {
        if class_at(toks, k + 1) == LogosToken::ID && class_at(toks, k + 2) == LogosToken::Dot {
            lemma_progress(toks, k + 3);
        }
    } else {
        if class_at(toks, k) == LogosToken::Open {
            lemma_progress(toks, k + 1);
        }
        match parse_atom(toks, k) {
            Parsed::Accept { term, next } => {
                lemma_args_progress(toks, next, term);
            },
            _ => {},
        }
    }
}

/// The arguments of a function end at or behind the place where they
/// start, and not behind the stream.
pub proof fn lemma_args_progress(toks: Seq<Lexeme>, k: int, head: Term)
    requires
        0 <= k <= toks.len(),
    ensures
        in_stream(toks, k, k, parse_args(toks, k, head)),
    decreases toks.len() - k, 1int,
{
    if class_at(toks, k) == LogosToken::ID || class_at(toks, k) == LogosToken::Open {
        lemma_progress(toks, k);
        match parse_atom(toks, k) {
            Parsed::Accept { term, next } => {
                lemma_args_progress(toks, next, Term::App(Box::new(head), Box::new(term)));
            },
            _ => {},
        }
    }
}

impl SyntaxState {
    /// The explanation on record for this state, where there is one.
    pub open spec fn message_spec(self) -> Option<Seq<char>> {
        match self {
            SyntaxState::AwaitTerm => Some("Expected a variable, `lambda` or `(`."@),
            SyntaxState::AwaitBinder => Some("Expected a variable name after `lambda`."@),
            SyntaxState::AwaitDot => Some("Expected `.` after the bound variable."@),
            SyntaxState::AwaitClose => Some("Expected `)`."@),
            SyntaxState::AwaitEnd => None,
        }
    }

    /// The explanation on record for this state, where there is one.
    pub fn message(&self) -> (m: Option<&'static str>)
        ensures
            m matches Some(text) ==> self.message_spec() == Some(text@),
            m is None ==> self.message_spec() is None,
    {
        match self {
            SyntaxState::AwaitTerm => Some("Expected a variable, `lambda` or `(`."),
            SyntaxState::AwaitBinder => Some("Expected a variable name after `lambda`."),
            SyntaxState::AwaitDot => Some("Expected `.` after the bound variable."),
            SyntaxState::AwaitClose => Some("Expected `)`."),
            SyntaxState::AwaitEnd => None,
        }
    }
}

/// The stream of lexemes of `s` from `pos` on: one lexeme after the other,
/// up to and with the first `End` or `Error`.
pub open spec fn tokens_from(s: Seq<u8>, pos: int) -> Seq<Lexeme>
    decreases s.len() - pos,
{
    let l = scan(s, pos);
    if l.token == LogosToken::End || l.token == LogosToken::Error || !(pos < l.end <= s.len()) {
        seq![l]
    } else {
        seq![l] + tokens_from(s, l.end)
    }
}

/// The stream of lexemes of a whole text.
pub open spec fn tokens(s: Seq<u8>) -> Seq<Lexeme> {
    tokens_from(s, 0)
}

/// A stream is never empty and starts with the lexeme found from `pos`;
/// where that lexeme is neither `End` nor `Error`, the rest of the stream is
/// the stream from the lexeme's end.
pub proof fn lemma_tokens_from(s: Seq<u8>, pos: int)
    requires
        0 <= pos <= s.len(),
    ensures
        tokens_from(s, pos).len() >= 1,
        tokens_from(s, pos)[0] == scan(s, pos),
        scan(s, pos).token != LogosToken::End && scan(s, pos).token != LogosToken::Error
            ==> tokens_from(s, pos).skip(1) == tokens_from(s, scan(s, pos).end),
{
    lemma_scan_bounds(s, pos);
    let l = scan(s, pos);
    if l.token != LogosToken::End && l.token != LogosToken::Error {
        assert(tokens_from(s, pos) == seq![l] + tokens_from(s, l.end));
        assert(tokens_from(s, pos).skip(1) =~= tokens_from(s, l.end));
    }
}

} // verus!
