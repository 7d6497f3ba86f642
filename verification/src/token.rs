//! The two token vocabularies: the classes that the classifier tells apart,
//! and the terminals that the parser consumes.

use vstd::prelude::*;

verus! {

/// The class of a lexeme, as the classifier reports it.
#[derive(Debug, Clone, Copy, PartialEq, Eq, Structural)]
pub enum LogosToken {
    /// The end of the input.
    End,
    /// No token matches at the cursor.
    Error,
    /// The keyword `lambda`.
    Lambda,
    /// `(`
    Open,
    /// `)`
    Close,
    /// `.`
    Dot,
    /// An identifier: a letter or `_`, then letters, digits and `_`.
    ID,
}

/// A terminal symbol of the grammar.
#[derive(Debug)]
pub enum Token {
    LAMBDA,
    OPEN,
    CLOSE,
    DOT,
    /// An identifier, with its own copy of the name.
    ID(String),
    /// The end of the token stream.
    EOF,
}

/// What a terminal is, with an identifier's name as a sequence of characters.
pub enum TokenView {
    LAMBDA,
    OPEN,
    CLOSE,
    DOT,
    ID(Seq<char>),
    EOF,
}

impl View for Token {
    type V = TokenView;

    open spec fn view(&self) -> TokenView {
        match self {
            Token::LAMBDA => TokenView::LAMBDA,
            Token::OPEN => TokenView::OPEN,
            Token::CLOSE => TokenView::CLOSE,
            Token::DOT => TokenView::DOT,
            Token::ID(name) => TokenView::ID(name@),
            Token::EOF => TokenView::EOF,
        }
    }
}

impl Token {
    /// The display name of a terminal; an identifier's name is left out.
    pub open spec fn name_spec(self) -> Seq<char> {
        match self {
            Token::OPEN => "Token::OPEN"@,
            Token::LAMBDA => "Token::LAMBDA"@,
            Token::ID(_) => "Token::ID"@,
            Token::EOF => "Token::EOF"@,
            Token::DOT => "Token::DOT"@,
            Token::CLOSE => "Token::CLOSE"@,
        }
    }

    /// The display name of a terminal; an identifier's name is left out.
    pub fn name(&self) -> (s: &'static str)
        ensures
            s@ == self.name_spec(),
    {
        match self {
            Token::OPEN => "Token::OPEN",
            Token::LAMBDA => "Token::LAMBDA",
            Token::ID(_) => "Token::ID",
            Token::EOF => "Token::EOF",
            Token::DOT => "Token::DOT",
            Token::CLOSE => "Token::CLOSE",
        }
    }
}

} // verus!
