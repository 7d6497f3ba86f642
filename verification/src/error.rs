//! Lexical errors: where they occurred and of what kind.

use vstd::prelude::*;
use vstd::string::*;
use std::ops::Range;
use crate::text::{diagnostic, format_diagnostic, push_char};

verus! {

/// The kinds of lexical error.
#[derive(Debug, Clone, Copy)]
pub enum MLLexerErrorKind<'a> {
    /// A catch-all, for a lexical engine that reports no cause.
    UnknownError,
    IllegalCharacter(char),
    IllegalEscape(&'a str, Option<&'a str>),
    ReservedSequence(&'a str, Option<&'a str>),
    UnterminatedComment,
    UnterminatedString,
    KeywordAsLabel(&'a str),
    InvalidLiteral(&'a str),
    InvalidDirective(&'a str, Option<&'a str>),
    CommentStartWithEnd,
    CommentEndWithoutStart,
}

/// The text of an optional reason: the reason itself, or nothing.
pub open spec fn reason_text(reason: Option<&str>) -> Seq<char> {
    match reason {
        Some(r) => r@,
        None => Seq::empty(),
    }
}

impl<'a> MLLexerErrorKind<'a> {
    /// The explanation shown to a user for this kind of error.
    pub open spec fn message_spec(self) -> Seq<char> {
        match self {
            MLLexerErrorKind::UnknownError =>
                "An unexpected error occurred. This should not happen."@,
            MLLexerErrorKind::IllegalCharacter(c) =>
                "Illegal character: `"@.push(c) + "`."@,
            MLLexerErrorKind::IllegalEscape(text, reason) =>
                "Illegal escape: `"@ + text@ + "`. "@ + reason_text(reason),
            MLLexerErrorKind::ReservedSequence(text, reason) =>
                "This sequence is reserved: `"@ + text@ + "`. "@ + reason_text(reason),
            MLLexerErrorKind::UnterminatedComment =>
                "Unterminated comment, missing `*)`."@,
            MLLexerErrorKind::UnterminatedString =>
                "Unterminated string, missing `\"`."@,
            MLLexerErrorKind::KeywordAsLabel(text) =>
                "The keyword "@ + text@ + " cannot be used as a label."@,
            MLLexerErrorKind::InvalidLiteral(literal) =>
                "Invalid literal: `"@ + literal@ + "`."@,
            MLLexerErrorKind::InvalidDirective(text, reason) =>
                "Invalid directive: `"@ + text@ + "`. "@ + reason_text(reason),
            MLLexerErrorKind::CommentStartWithEnd =>
                "Comment beginning and end are combined: `(*)`."@,
            MLLexerErrorKind::CommentEndWithoutStart =>
                "Comment ended, but no comment was begun. (Missing `(*`.)"@,
        }
    }

    /// The explanation shown to a user for this kind of error.
    pub fn to_string(&self) -> (msg: String)
        ensures
            msg@ == self.message_spec(),
    {
        match self {
            MLLexerErrorKind::UnknownError => String::from_str(
                "An unexpected error occurred. This should not happen.",
            ),
            MLLexerErrorKind::IllegalCharacter(c) => {
                let mut s = String::from_str("Illegal character: `");
                push_char(&mut s, *c);
                s.append("`.");
                s
            },
            MLLexerErrorKind::IllegalEscape(text, reason) => with_reason(
                "Illegal escape: `",
                text,
                *reason,
            ),
            MLLexerErrorKind::ReservedSequence(text, reason) => with_reason(
                "This sequence is reserved: `",
                text,
                *reason,
            ),
            MLLexerErrorKind::UnterminatedComment => String::from_str(
                "Unterminated comment, missing `*)`.",
            ),
            MLLexerErrorKind::UnterminatedString => String::from_str(
                "Unterminated string, missing `\"`.",
            ),
            MLLexerErrorKind::KeywordAsLabel(text) => {
                let mut s = String::from_str("The keyword ");
                s.append(text);
                s.append(" cannot be used as a label.");
                s
            },
            MLLexerErrorKind::InvalidLiteral(literal) => {
                let mut s = String::from_str("Invalid literal: `");
                s.append(literal);
                s.append("`.");
                s
            },
            MLLexerErrorKind::InvalidDirective(text, reason) => with_reason(
                "Invalid directive: `",
                text,
                *reason,
            ),
            MLLexerErrorKind::CommentStartWithEnd => String::from_str(
                "Comment beginning and end are combined: `(*)`.",
            ),
            MLLexerErrorKind::CommentEndWithoutStart => String::from_str(
                "Comment ended, but no comment was begun. (Missing `(*`.)",
            ),
        }
    }
}

/// `head`, the quoted text, a closing quote with a full stop and a space,
/// then the reason where there is one.
fn with_reason(head: &str, text: &str, reason: Option<&str>) -> (msg: String)
    ensures
        msg@ == head@ + text@ + "`. "@ + reason_text(reason),
{
    let mut s = String::from_str(head);
    s.append(text);
    s.append("`. ");
    match reason {
        Some(r) => {
            s.append(r);
        },
        None => {
            assert(s@ + Seq::<char>::empty() =~= s@);
        },
    }
    s
}

/// A lexical error: the span of the text that no token matches, and the kind
/// of the error.
#[derive(Debug)]
pub struct MLLexerError<'a> {
    range: Range<usize>,
    kind: &'a MLLexerErrorKind<'a>,
}

impl<'a> MLLexerError<'a> {
    /// The span of the offending text, as a half-open range of byte offsets.
    pub closed spec fn span(&self) -> Range<usize> {
        self.range
    }

    /// The kind of this error.
    pub closed spec fn kind_spec(&self) -> MLLexerErrorKind<'a> {
        *self.kind
    }

    pub fn new(range: Range<usize>, kind: &'a MLLexerErrorKind<'a>) -> (e: MLLexerError<'a>)
        ensures
            e.span() == range,
            e.kind_spec() == *kind,
    {
        MLLexerError { range, kind }
    }

    /// Where the error occurred.
    pub fn at(&self) -> (r: Range<usize>)
        ensures
            r == self.span(),
    {
        Range { start: self.range.start, end: self.range.end }
    }

    /// The diagnostic line for this error.
    pub open spec fn to_string_spec(&self) -> Seq<char> {
        diagnostic(
            self.span().start as int,
            self.span().end as int,
            self.kind_spec().message_spec(),
        )
    }

    /// The diagnostic line for this error.
    pub fn to_string(&self) -> (line: String)
        ensures
            line@ == self.to_string_spec(),
    {
        let explanation = self.kind.to_string();
        format_diagnostic(self.range.start, self.range.end, explanation.as_str())
    }

    /// What kind of error occurred.
    pub fn kind(&self) -> (k: &'a MLLexerErrorKind<'a>)
        ensures
            *k == self.kind_spec(),
    {
        self.kind
    }
}

} // verus!
