//! What holds of every text: where the spans of its lexemes lie, and which
//! kind of failure a parse can end in.

use vstd::prelude::*;
use vstd::string::*;
use crate::classifier::{
    Lexeme, is_continuation, is_ident_start, is_trivia, lemma_char_boundary,
    lemma_scan_bounds, lemma_skip_trivia, scan,
};
use crate::grammar::{
    Parsed, SyntaxState, class_at, lemma_tokens_from, parse_args, parse_atom, parse_expr, parse_main, tokens,
    tokens_from,
};
use crate::ast::Term;
use crate::parser::{OutcomeView, explanation, outcome_of, parse_spec};
use crate::token::LogosToken;

verus! {

/// Whether a byte can start a token or is a blank.
pub open spec fn in_alphabet(b: u8) -> bool {
    is_trivia(b) || is_ident_start(b) || b == 0x28 || b == 0x29 || b == 0x2e
}

/// An `Error` lexeme covers exactly one offending character: it starts on
/// a byte outside the alphabet, and ends where the next character starts.
pub proof fn lemma_error_covers_one_character(s: Seq<u8>, pos: int)
    requires
        0 <= pos <= s.len(),
        scan(s, pos).token == LogosToken::Error,
    ensures
        pos <= scan(s, pos).start < scan(s, pos).end <= s.len(),
        !in_alphabet(s[scan(s, pos).start]),
        forall|i: int| pos <= i < scan(s, pos).start ==> is_trivia(#[trigger] s[i]),
        forall|i: int|
            scan(s, pos).start < i < scan(s, pos).end ==> is_continuation(#[trigger] s[i]),
        scan(s, pos).end < s.len() ==> !is_continuation(s[scan(s, pos).end]),
{
    lemma_skip_trivia(s, pos);
    lemma_char_boundary(s, scan(s, pos).start + 1);
}

/// Every lexeme of a stream lies inside the text, at or behind the place
/// from which the stream was read.
pub proof fn lemma_stream_bounds(s: Seq<u8>, pos: int, i: int)
    requires
        0 <= pos <= s.len(),
        0 <= i < tokens_from(s, pos).len(),
    ensures
        pos <= tokens_from(s, pos)[i].start <= tokens_from(s, pos)[i].end <= s.len(),
    decreases i,
{
    lemma_scan_bounds(s, pos);
    lemma_tokens_from(s, pos);
    if i > 0 {
        let l = scan(s, pos);
        assert(tokens_from(s, pos).skip(1)[i - 1] == tokens_from(s, pos)[i]);
        lemma_stream_bounds(s, l.end, i - 1);
    }
}

/// A lexeme of a stream ends before any later one starts.
pub proof fn lemma_stream_order(s: Seq<u8>, pos: int, i: int, j: int)
    requires
        0 <= pos <= s.len(),
        0 <= i < j < tokens_from(s, pos).len(),
    ensures
        tokens_from(s, pos)[i].end <= tokens_from(s, pos)[j].start,
    decreases i,
{
    lemma_scan_bounds(s, pos);
    lemma_tokens_from(s, pos);
    let l = scan(s, pos);
    assert(tokens_from(s, pos).skip(1)[j - 1] == tokens_from(s, pos)[j]);
    if i == 0 {
        lemma_stream_bounds(s, l.end, j - 1);
    } else {
        assert(tokens_from(s, pos).skip(1)[i - 1] == tokens_from(s, pos)[i]);
        lemma_stream_order(s, l.end, i - 1, j - 1);
    }
}

/// A stream ends with its first `End` or `Error`: the last lexeme is one
/// of the two, and no other is.
pub proof fn lemma_stream_terminal(s: Seq<u8>, pos: int, i: int)
    requires
        0 <= pos <= s.len(),
        0 <= i < tokens_from(s, pos).len(),
    ensures
        (tokens_from(s, pos)[i].token == LogosToken::End || tokens_from(s, pos)[i].token
            == LogosToken::Error) <==> i == tokens_from(s, pos).len() - 1,
    decreases i,
{
    lemma_scan_bounds(s, pos);
    lemma_tokens_from(s, pos);
    let l = scan(s, pos);
    if l.token != LogosToken::End && l.token != LogosToken::Error {
        lemma_tokens_from(s, l.end);
        if i > 0 {
            assert(tokens_from(s, pos).skip(1)[i - 1] == tokens_from(s, pos)[i]);
            lemma_stream_terminal(s, l.end, i - 1);
        }
    }
}

/// The spans of the lexemes of a text, in the order in which a parser gets
/// them: each lies inside the text, and none starts before an earlier one
/// ends.
pub proof fn lemma_spans_in_order(s: Seq<u8>, i: int, j: int)
    requires
        0 <= i <= j < tokens(s).len(),
    ensures
        0 <= tokens(s)[i].start <= tokens(s)[i].end <= s.len(),
        tokens(s)[i].start <= tokens(s)[j].start,
        i < j ==> tokens(s)[i].end <= tokens(s)[j].start,
{
    lemma_stream_bounds(s, 0, i);
    if i < j {
        lemma_stream_order(s, 0, i, j);
    }
}

/// A stream whose last lexeme, and no other, is `End` or `Error`.
pub open spec fn terminated(toks: Seq<Lexeme>) -> bool {
    &&& toks.len() > 0
    &&& forall|i: int|
        0 <= i < toks.len() ==> ((#[trigger] toks[i].token == LogosToken::End || toks[i].token
            == LogosToken::Error) <==> i == toks.len() - 1)
}

/// The stream of a text is terminated.
pub proof fn lemma_tokens_terminated(s:Seq<u8>)
    ensures
        terminated(tokens(s)),
{
    lemma_tokens_from(s, 0);
    assert forall|i: int| 0 <= i < tokens(s).len() implies ((#[trigger] tokens(s)[i].token
        == LogosToken::End || tokens(s)[i].token == LogosToken::Error) <==> i == tokens(s).len()
        - 1) by {
        lemma_stream_terminal(s, 0, i);
    }
}

/// Whether `r`, read from index `k` of a stream, stays before the end of
/// the stream: what is accepted ends at or behind `from` and before the
/// last lexeme's successor, and what is rejected lies at or behind `k`,
/// inside the stream.
pub open spec fn within(toks: Seq<Lexeme>, k: int, from: int, r: Parsed) -> bool {
    match r {
        Parsed::Accept { term, next } => from <= next < toks.len(),
        Parsed::Reject { at, state } => k <= at < toks.len(),
    }
}

/// Reading a phrase from a terminated stream never goes past the last
/// lexeme.
pub proof fn lemma_within(toks: Seq<Lexeme>, k: int)
    requires
        terminated(toks),
        0 <= k < toks.len(),
    ensures
        within(toks, k, k + 1, parse_atom(toks, k)),
        within(toks, k, k + 1, parse_expr(toks, k)),
    decreases toks.len() - k, 0int,
{
    if class_at(toks, k) == LogosToken::Lambda {
        if class_at(toks, k + 1) == LogosToken::ID && class_at(toks, k + 2) == LogosToken::Dot {
            lemma_within(toks, k + 3);
        }
    } else {
        if class_at(toks, k) == LogosToken::Open {
            lemma_within(toks, k + 1);
        }
        match parse_atom(toks, k) {
            Parsed::Accept { term, next } => {
                lemma_args_within(toks, next, term);
            },
            _ => {},
        }
    }
}

/// Reading arguments from a terminated stream never goes past the last
/// lexeme.
pub proof fn lemma_args_within(toks: Seq<Lexeme>, k: int, head: Term)
    requires
        terminated(toks),
        0 <= k < toks.len(),
    ensures
        within(toks, k, k, parse_args(toks, k, head)),
    decreases toks.len() - k, 1int,
{
    if class_at(toks, k) == LogosToken::ID || class_at(toks, k) == LogosToken::Open {
        lemma_within(toks, k);
        match parse_atom(toks, k) {
            Parsed::Accept { term, next } => {
                lemma_args_within(toks, next, Term::App(Box::new(head), Box::new(term)));
            },
            _ => {},
        }
    }
}

/// A parse of a terminated stream stops at a lexeme of the stream. It ends
/// in a lexical error exactly when it stops at the last lexeme and that is
/// an `Error`; so where the stream ends in `End` the outcome is a term or a
/// syntax error, and where it ends in `Error` the outcome is no term.
pub proof fn lemma_outcome_kind(toks: Seq<Lexeme>)
    requires
        terminated(toks),
    ensures
        parse_main(toks) matches Parsed::Reject { at, state } ==> 0 <= at < toks.len(),
        outcome_of(toks) is Lexical <==> (parse_main(toks) matches Parsed::Reject { at, state }
            && at == toks.len() - 1 && toks.last().token == LogosToken::Error),
        toks.last().token == LogosToken::End ==> !(outcome_of(toks) is Lexical),
        toks.last().token == LogosToken::Error ==> !(outcome_of(toks) is Ast),
{
    lemma_within(toks, 0);
}

/// A text with a character outside the alphabet is never accepted. The
/// parse ends in a lexical error whose span is that of the first such
/// character, unless a token before that character does not fit: then it
/// ends in a syntax error whose span ends before the character.
pub proof fn lemma_invalid_character(s: Seq<u8>)
    requires
        tokens(s).last().token == LogosToken::Error,
    ensures
        match parse_spec(s) {
            OutcomeView::Ast(_) => false,
            OutcomeView::Lexical { start, end, kind } => {
                &&& start == tokens(s).last().start
                &&& end == tokens(s).last().end
            },
            OutcomeView::Syntactic { start, end, message } => end <= tokens(s).last().start,
        },
{
    let toks = tokens(s);
    lemma_tokens_terminated(s);
    lemma_outcome_kind(toks);
    match parse_main(toks) {
        Parsed::Reject { at, state } => {
            if at < toks.len() - 1 {
                lemma_spans_in_order(s, at, toks.len() - 1);
            }
        },
        _ => {},
    }
}

/// A text whose characters all belong to the alphabet never ends in a
/// lexical error: it is accepted, or a token of it does not fit, and the
/// syntax error has the span of that token.
pub proof fn lemma_valid_characters(s: Seq<u8>)
    requires
        forall|i: int| 0 <= i < s.len() ==> in_alphabet(#[trigger] s[i]),
    ensures
        tokens(s).last().token == LogosToken::End,
        match parse_spec(s) {
            OutcomeView::Ast(_) => true,
            OutcomeView::Lexical { start, end, kind } => false,
            OutcomeView::Syntactic { start, end, message } => exists|at: int|
                0 <= at < tokens(s).len() && #[trigger] tokens(s)[at].start == start && tokens(
                    s,
                )[at].end == end,
        },
{
    let toks = tokens(s);
    lemma_tokens_terminated(s);
    lemma_stream_scan(s, 0, toks.len() - 1);
    let p = choose|p: int| 0 <= p <= s.len() && tokens_from(s, 0).last() == #[trigger] scan(s, p);
    if scan(s, p).token == LogosToken::Error {
        lemma_error_covers_one_character(s, p);
        assert(in_alphabet(s[scan(s, p).start]));
    }
    lemma_outcome_kind(toks);
    match parse_main(toks) {
        Parsed::Reject { at, state } => {
            assert(toks[at].start == toks[at].start);
        },
        _ => {},
    }
}

/// The span of a failure is a span of the text: it starts at or before its
/// end and ends inside the text; that of a lexical error is not empty.
pub proof fn lemma_outcome_span(s: Seq<u8>)
    ensures
        match parse_spec(s) {
            OutcomeView::Ast(_) => true,
            OutcomeView::Lexical { start, end, kind } => 0 <= start < end <= s.len(),
            OutcomeView::Syntactic { start, end, message } => 0 <= start <= end <= s.len(),
        },
{
    let toks = tokens(s);
    lemma_tokens_terminated(s);
    lemma_outcome_kind(toks);
    match parse_main(toks) {
        Parsed::Reject { at, state } => {
            lemma_stream_bounds(s, 0, at);
            if toks[at].token == LogosToken::Error {
                lemma_stream_scan(s, 0, toks.len() - 1);
                let p = choose|p: int|
                    0 <= p <= s.len() && tokens_from(s, 0).last() == #[trigger] scan(s, p);
                lemma_scan_bounds(s, p);
            }
        },
        _ => {},
    }
}

/// The explanation of a syntax error is never empty, whatever the state.
pub proof fn lemma_explanation_not_empty(state: SyntaxState)
    ensures
        explanation(state.message_spec()).len() > 0,
{
    reveal_strlit("Expected a variable, `lambda` or `(`.");
    reveal_strlit("Expected a variable name after `lambda`.");
    reveal_strlit("Expected `.` after the bound variable.");
    reveal_strlit("Expected `)`.");
    reveal_strlit("No message for this error.");
}

/// Every lexeme of a stream is the lexeme found from some place in the
/// text.
pub proof fn lemma_stream_scan(s: Seq<u8>, pos: int, i: int)
    requires
        0 <= pos <= s.len(),
        0 <= i < tokens_from(s, pos).len(),
    ensures
        exists|p: int| 0 <= p <= s.len() && tokens_from(s, pos)[i] == #[trigger] scan(s, p),
    decreases i,
{
    lemma_scan_bounds(s, pos);
    lemma_tokens_from(s, pos);
    if i > 0 {
        let l = scan(s, pos);
        assert(tokens_from(s, pos).skip(1)[i - 1] == tokens_from(s, pos)[i]);
        lemma_stream_scan(s, l.end, i - 1);
    }
}

} // verus!
