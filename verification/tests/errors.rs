use menhirlogos::adapter::MLLexer;
use menhirlogos::classifier::TokenClassifier;
use menhirlogos::error::{MLLexerError, MLLexerErrorKind};
use menhirlogos::grammar::SyntaxState;
use menhirlogos::parser::{parse, ParseOutcome, ParserError, SyntaxError};
use menhirlogos::text::{decimal_string, format_diagnostic};
use menhirlogos::token::{LogosToken, Token};

#[test]
fn error_keeps_its_range_and_kind() {
    let kind = MLLexerErrorKind::IllegalCharacter('@');
    let e = MLLexerError::new(3..4, &kind);
    assert_eq!(e.at(), 3..4);
    assert!(matches!(e.kind(), MLLexerErrorKind::IllegalCharacter('@')));
}

#[test]
fn kind_messages() {
    assert_eq!(
        MLLexerErrorKind::UnknownError.to_string(),
        "An unexpected error occurred. This should not happen."
    );
    assert_eq!(
        MLLexerErrorKind::IllegalCharacter('@').to_string(),
        "Illegal character: `@`."
    );
    assert_eq!(
        MLLexerErrorKind::IllegalEscape("\\q", None).to_string(),
        "Illegal escape: `\\q`. "
    );
    assert_eq!(
        MLLexerErrorKind::IllegalEscape("\\q", Some("Unknown escape.")).to_string(),
        "Illegal escape: `\\q`. Unknown escape."
    );
    assert_eq!(
        MLLexerErrorKind::ReservedSequence("??", None).to_string(),
        "This sequence is reserved: `??`. "
    );
    assert_eq!(
        MLLexerErrorKind::ReservedSequence("??", Some("For later use.")).to_string(),
        "This sequence is reserved: `??`. For later use."
    );
    assert_eq!(
        MLLexerErrorKind::UnterminatedComment.to_string(),
        "Unterminated comment, missing `*)`."
    );
    assert_eq!(
        MLLexerErrorKind::UnterminatedString.to_string(),
        "Unterminated string, missing `\"`."
    );
    assert_eq!(
        MLLexerErrorKind::KeywordAsLabel("let").to_string(),
        "The keyword let cannot be used as a label."
    );
    assert_eq!(
        MLLexerErrorKind::InvalidLiteral("0x").to_string(),
        "Invalid literal: `0x`."
    );
    assert_eq!(
        MLLexerErrorKind::InvalidDirective("#x", None).to_string(),
        "Invalid directive: `#x`. "
    );
    assert_eq!(
        MLLexerErrorKind::InvalidDirective("#x", Some("No such directive.")).to_string(),
        "Invalid directive: `#x`. No such directive."
    );
    assert_eq!(
        MLLexerErrorKind::CommentStartWithEnd.to_string(),
        "Comment beginning and end are combined: `(*)`."
    );
    assert_eq!(
        MLLexerErrorKind::CommentEndWithoutStart.to_string(),
        "Comment ended, but no comment was begun. (Missing `(*`.)"
    );
}

#[test]
fn decimal_numerals() {
    assert_eq!(decimal_string(0), "0");
    assert_eq!(decimal_string(7), "7");
    assert_eq!(decimal_string(10), "10");
    assert_eq!(decimal_string(1234567890), "1234567890");
    assert_eq!(decimal_string(u128::MAX), u128::MAX.to_string());
}

#[test]
fn diagnostic_line_counts_the_start_from_one() {
    assert_eq!(format_diagnostic(0, 0, "x"), "1:0: error: x");
    assert_eq!(format_diagnostic(9, 10, "bad"), "10:10: error: bad");
    assert_eq!(
        format_diagnostic(usize::MAX, usize::MAX, ""),
        format!("{}:{}: error: ", usize::MAX as u128 + 1, usize::MAX)
    );
}

#[test]
fn lexical_error_line() {
    let kind = MLLexerErrorKind::IllegalCharacter('@');
    let e = MLLexerError::new(9..10, &kind);
    assert_eq!(e.to_string(), "10:10: error: Illegal character: `@`.");
    match parse("lambda x.@") {
        ParseOutcome::Lexical(e) => assert_eq!(
            e.to_string(),
            "10:10: error: An unexpected error occurred. This should not happen."
        ),
        other => panic!("{:?}", other),
    }
}

#[test]
fn syntax_error_line() {
    let e = SyntaxError { span: 7..8, message: Some("Expected something.".to_string()) };
    assert_eq!(e.to_string(), "8:8: error: Expected something.");
    let e = SyntaxError { span: 2..3, message: None };
    assert_eq!(e.to_string(), "3:3: error: No message for this error.");
    match parse("") {
        ParseOutcome::Syntactic(e) => assert_eq!(
            e.to_string(),
            "1:0: error: Expected a variable, `lambda` or `(`."
        ),
        other => panic!("{:?}", other),
    }
}

#[test]
fn parser_error_line_is_that_of_its_cause() {
    let kind = MLLexerErrorKind::UnterminatedString;
    let lexical = ParserError::LexerError(MLLexerError::new(0..5, &kind));
    assert_eq!(lexical.to_string(), "1:5: error: Unterminated string, missing `\"`.");
    let syntactic = ParserError::SyntaxError(SyntaxError { span: 4..6, message: None });
    assert_eq!(syntactic.to_string(), "5:6: error: No message for this error.");
}

#[test]
fn outcome_of_each_failure() {
    let kind = MLLexerErrorKind::UnknownError;
    let o = ParseOutcome::from_result(Err(ParserError::LexerError(MLLexerError::new(1..2, &kind))));
    assert!(matches!(o, ParseOutcome::Lexical(_)));
    let o = ParseOutcome::from_result(Err(ParserError::SyntaxError(SyntaxError {
        span: 1..2,
        message: None,
    })));
    assert!(matches!(o, ParseOutcome::Syntactic(_)));
}

#[test]
fn state_messages() {
    assert_eq!(SyntaxState::AwaitTerm.message(), Some("Expected a variable, `lambda` or `(`."));
    assert_eq!(SyntaxState::AwaitBinder.message(), Some("Expected a variable name after `lambda`."));
    assert_eq!(SyntaxState::AwaitDot.message(), Some("Expected `.` after the bound variable."));
    assert_eq!(SyntaxState::AwaitClose.message(), Some("Expected `)`."));
    assert_eq!(SyntaxState::AwaitEnd.message(), None);
}

#[test]
fn token_names() {
    assert_eq!(Token::OPEN.name(), "Token::OPEN");
    assert_eq!(Token::LAMBDA.name(), "Token::LAMBDA");
    assert_eq!(Token::ID("x".to_string()).name(), "Token::ID");
    assert_eq!(Token::EOF.name(), "Token::EOF");
    assert_eq!(Token::DOT.name(), "Token::DOT");
    assert_eq!(Token::CLOSE.name(), "Token::CLOSE");
}

#[test]
fn classifier_walks_the_lexemes() {
    let mut c = TokenClassifier::new(b"(lambda x. x1_)");
    let mut seen = Vec::new();
    loop {
        seen.push((c.token(), c.range()));
        if c.token() == LogosToken::End {
            break;
        }
        c.advance();
    }
    assert_eq!(
        seen,
        vec![
            (LogosToken::Open, 0..1),
            (LogosToken::Lambda, 1..7),
            (LogosToken::ID, 8..9),
            (LogosToken::Dot, 9..10),
            (LogosToken::ID, 11..14),
            (LogosToken::Close, 14..15),
            (LogosToken::End, 15..15),
        ]
    );
    c.advance();
    assert_eq!((c.token(), c.range()), (LogosToken::End, 15..15));
}

#[test]
fn classifier_slices_the_lexeme() {
    let mut c = TokenClassifier::new(b"  lambda counter_1");
    assert_eq!(c.slice(), b"lambda");
    c.advance();
    assert_eq!(c.slice(), b"counter_1");
    c.advance();
    assert_eq!(c.slice(), b"");
}

#[test]
fn classifier_on_bytes_that_are_no_text() {
    let mut c = TokenClassifier::new(&[0x78, 0xff, 0x80, 0x80, 0x79]);
    assert_eq!((c.token(), c.range()), (LogosToken::ID, 0..1));
    c.advance();
    assert_eq!((c.token(), c.range()), (LogosToken::Error, 1..4));
    c.advance();
    assert_eq!((c.token(), c.range()), (LogosToken::ID, 4..5));
    let mut c = TokenClassifier::new(&[0x80, 0x80]);
    assert_eq!((c.token(), c.range()), (LogosToken::Error, 0..2));
}

#[test]
fn classifier_goes_on_behind_an_error() {
    let mut c = TokenClassifier::new(b"x # y");
    assert_eq!((c.token(), c.range()), (LogosToken::ID, 0..1));
    c.advance();
    assert_eq!((c.token(), c.range()), (LogosToken::Error, 2..3));
    c.advance();
    assert_eq!((c.token(), c.range()), (LogosToken::ID, 4..5));
    assert_eq!(c.slice(), b"y");
}

#[test]
fn adapter_hands_out_spans_and_terminals() {
    let mut lexer = MLLexer::new("lambda x.x");
    let mut spans = Vec::new();
    loop {
        let (span, token) = lexer.input().unwrap();
        spans.push((span, token.name()));
        if matches!(token, Token::EOF) {
            break;
        }
        if let Token::ID(name) = &token {
            assert_eq!(name, "x");
        }
    }
    assert_eq!(
        spans,
        vec![
            (0..6, "Token::LAMBDA"),
            (7..8, "Token::ID"),
            (8..9, "Token::DOT"),
            (9..10, "Token::ID"),
            (10..10, "Token::EOF"),
        ]
    );
    let (span, token) = lexer.input().unwrap();
    assert_eq!(span, 10..10);
    assert!(matches!(token, Token::EOF));
}

#[test]
fn adapter_stays_on_an_error() {
    let mut lexer = MLLexer::new("x @ y");
    let (span, token) = lexer.input().unwrap();
    assert_eq!(span, 0..1);
    assert!(matches!(token, Token::ID(ref n) if n == "x"));
    let e = lexer.input().unwrap_err();
    assert_eq!(e.at(), 2..3);
    assert!(matches!(e.kind(), MLLexerErrorKind::UnknownError));
    let e = lexer.input().unwrap_err();
    assert_eq!(e.at(), 2..3);
}

#[test]
fn adapter_copies_the_name() {
    let token = {
        let text = String::from("  counter_1 ");
        let mut lexer = MLLexer::new(&text);
        lexer.input().unwrap().1
    };
    assert!(matches!(token, Token::ID(ref n) if n == "counter_1"));
}
