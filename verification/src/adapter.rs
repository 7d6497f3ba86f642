//! The lexer adapter: it hands the classifier's lexemes to a parser one at a
//! time, each as a span with a terminal, or reports a lexical error.

use vstd::prelude::*;
use vstd::string::*;
use std::ops::Range;
use crate::classifier::{Lexeme, TokenClassifier, lemma_scan_bounds, scan, span_in};
use crate::error::{MLLexerError, MLLexerErrorKind};
use crate::text::push_char;
use crate::token::{LogosToken, Token, TokenView};

verus! {

/// An identifier's name: its bytes, each read as a character.
pub open spec fn name_of(text: Seq<u8>) -> Seq<char> {
    Seq::new(text.len(), |i: int| text[i] as char)
}

/// The terminal that stands for a lexeme. An identifier carries its name;
/// every class without a terminal of its own, the end of the input among
/// them, gives the end of the stream.
pub open spec fn token_view(l: Lexeme) -> TokenView {
    match l.token {
        LogosToken::Lambda => TokenView::LAMBDA,
        LogosToken::Open => TokenView::OPEN,
        LogosToken::Close => TokenView::CLOSE,
        LogosToken::Dot => TokenView::DOT,
        LogosToken::ID => TokenView::ID(name_of(l.text)),
        _ => TokenView::EOF,
    }
}

/// How a lexeme class is turned into a parser's terminal. A token
/// vocabulary implements this for each kind of terminal that it serves.
pub trait LogosTokenType<PTokenType> {
    /// Whether `token` is the terminal that stands for `lexeme`.
    spec fn maps_to(lexeme: Lexeme, token: PTokenType) -> bool;

    /// The terminal for the lexeme under the cursor. The cursor stays where
    /// it is.
    fn map_to_parser_token(lex: &TokenClassifier<'_>) -> (token: PTokenType)
        requires
            lex.wf(),
        ensures
            Self::maps_to(lex.current(), token),
    ;
}

impl LogosTokenType<Token> for LogosToken {
    open spec fn maps_to(lexeme: Lexeme, token: Token) -> bool {
        token@ == token_view(lexeme)
    }

    fn map_to_parser_token(lex: &TokenClassifier<'_>) -> (token: Token) {
        match lex.token() {
            LogosToken::Lambda => Token::LAMBDA,
            LogosToken::Open => Token::OPEN,
            LogosToken::Close => Token::CLOSE,
            LogosToken::Dot => Token::DOT,
            LogosToken::ID => Token::ID(copy_name(lex)),
            _ => Token::EOF,
        }
    }
}

/// An owned copy of the text of the lexeme under the cursor.
fn copy_name(lex: &TokenClassifier<'_>) -> (name: String)
    requires
        lex.wf(),
    ensures
        name@ == name_of(lex.current().text),
{
    let text = lex.slice();
    let n = text.len();
    let mut name = String::new();
    let mut i: usize = 0;
    while i < n
        invariant
            i <= n,
            n == text@.len(),
            name@ == name_of(text@.subrange(0, i as int)),
        decreases n - i,
    {
        push_char(&mut name, text[i] as char);
        i += 1;
        assert(name@ =~= name_of(text@.subrange(0, i as int)));
    }
    assert(text@.subrange(0, n as int) =~= text@);
    name
}

/// The kind that a lexical error gets from a classifier that tells no more
/// than that nothing matched.
pub const UNCLASSIFIED: MLLexerErrorKind<'static> = MLLexerErrorKind::UnknownError;

/// A lexer over one source text, as a parser sees it.
pub struct MLLexer<'a> {
    lexer: TokenClassifier<'a>,
}

impl<'a> MLLexer<'a> {
    /// The bytes of the source text.
    pub closed spec fn source(&self) -> Seq<u8> {
        self.lexer.source()
    }

    /// The lexeme that the next call of `input` reports.
    pub closed spec fn current(&self) -> Lexeme {
        self.lexer.current()
    }

    /// The classifier's cursor is on a lexeme of the source.
    pub closed spec fn wf(&self) -> bool {
        self.lexer.wf()
    }

    /// What `wf` says, in terms of the public spec functions.
    pub proof fn lemma_wf(&self)
        requires
            self.wf(),
        ensures
            0 <= self.current().start <= self.current().end <= self.source().len(),
            self.current() == scan(self.source(), self.current().start),
    {
        self.lexer.lemma_wf();
    }

    /// A lexer on the first lexeme of `text`.
    pub fn new(text: &'a str) -> (lexer: MLLexer<'a>)
        ensures
            lexer.wf(),
            lexer.source() == text.spec_bytes(),
            lexer.current() == scan(text.spec_bytes(), 0),
    {
        MLLexer { lexer: TokenClassifier::new(text.as_bytes()) }
    }

    /// The next span and terminal, or a lexical error.
    ///
    /// On a lexeme of class `Error` the result is an error with that lexeme's
    /// span, and the cursor stays on it. On any other lexeme the result is
    /// its span and its terminal, and the cursor moves to the next lexeme.
    pub fn input(&mut self) -> (r: Result<(Range<usize>, Token), MLLexerError<'static>>)
        requires
            old(self).wf(),
        ensures
            final(self).wf(),
            final(self).source() == old(self).source(),
            old(self).current().token == LogosToken::Error ==> {
                &&& r matches Err(e)
                &&& e.span().start == old(self).current().start
                &&& e.span().end == old(self).current().end
                &&& e.kind_spec() == MLLexerErrorKind::UnknownError
                &&& final(self).current() == old(self).current()
            },
            old(self).current().token != LogosToken::Error ==> {
                &&& r matches Ok((span, token))
                &&& span.start == old(self).current().start
                &&& span.end == old(self).current().end
                &&& token@ == token_view(old(self).current())
                &&& final(self).current() == scan(old(self).source(), old(self).current().end)
            },
            // every span lies inside the text, and the next one does not start before
            // the end of this one
            r matches Ok((span, token)) ==> span_in(span, final(self).source().len()),
            r matches Err(e) ==> span_in(e.span(), final(self).source().len()),
            old(self).current().token != LogosToken::Error ==> old(self).current().end
                <= final(self).current().start,
    {
        proof {
            self.lexer.lemma_wf();
            lemma_scan_bounds(self.lexer.source(), self.lexer.current().end);
        }
        if self.lexer.token() == LogosToken::Error {
            return Err(MLLexerError::new(self.lexer.range(), &UNCLASSIFIED));
        }
        let span = self.lexer.range();
        let token = <LogosToken as LogosTokenType<Token>>::map_to_parser_token(&self.lexer);
        self.lexer.advance();
        Ok((span, token))
    }
}

} // verus!
