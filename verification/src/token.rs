//! The token type produced by the lexer, and its mathematical model.

use vstd::prelude::*;

verus! {

/// One lexical unit of output.  A token is self-contained and immutable
/// once produced; the lexer keeps no reference to it.
#[derive(Debug, PartialEq, Clone)]
pub enum LexToken {
    /// The reserved word `let`.
    Let,
    /// `:`
    Colon,
    /// `;`
    SemiColon,
    /// `(`
    LParam,
    /// `)`
    RParam,
    /// An identifier, carrying its raw spelling.
    Ident(String),
    /// A string literal, carrying its content verbatim (no escape
    /// processing).
    StrLiteral(String),
    /// An integer literal, carrying its 64-bit signed value.
    IntLiteral(i64),
    /// A float literal, carrying the decimal text of the lexeme
    /// verbatim.  Floating-point values cannot stand in this crate, so
    /// the consumer materialises the value from the text.
    FloatLiteral(String),
    /// `=`
    Equals,
    /// `+`
    Plus,
    /// A recoverable lexing failure, carrying a diagnostic message.
    /// The stream stays pullable after producing one.
    Error(String),
}

/// The mathematical model of a token: text payloads as character
/// sequences, the integer payload as an unbounded integer.
pub ghost enum TokenModel {
    Let,
    Colon,
    SemiColon,
    LParam,
    RParam,
    Ident(Seq<char>),
    StrLiteral(Seq<char>),
    IntLiteral(int),
    FloatLiteral(Seq<char>),
    Equals,
    Plus,
    Error(Seq<char>),
}

impl View for LexToken {
    type V = TokenModel;

    open spec fn view(&self) -> TokenModel {
        match self {
            LexToken::Let => TokenModel::Let,
            LexToken::Colon => TokenModel::Colon,
            LexToken::SemiColon => TokenModel::SemiColon,
            LexToken::LParam => TokenModel::LParam,
            LexToken::RParam => TokenModel::RParam,
            LexToken::Ident(s) => TokenModel::Ident(s@),
            LexToken::StrLiteral(s) => TokenModel::StrLiteral(s@),
            LexToken::IntLiteral(i) => TokenModel::IntLiteral(*i as int),
            LexToken::FloatLiteral(s) => TokenModel::FloatLiteral(s@),
            LexToken::Equals => TokenModel::Equals,
            LexToken::Plus => TokenModel::Plus,
            LexToken::Error(m) => TokenModel::Error(m@),
        }
    }
}

/// The token that a reader's result stands for: a failure message
/// becomes an error token, exactly as the lexer surfaces it.
pub open spec fn token_of_read(r: Result<LexToken, String>) -> TokenModel {
    match r {
        Ok(t) => t@,
        Err(m) => TokenModel::Error(m@),
    }
}

/// The model of one pull's outcome.
pub open spec fn pulled_view(t: Option<LexToken>) -> Option<TokenModel> {
    match t {
        Some(t) => Some(t@),
        None => None,
    }
}

} // verus!
