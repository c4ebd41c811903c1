//! The textual forms of tokens, as they appear in logs.

use super::token::{Keyword, Literal, LocationView, Token, TokenKind, TokenLocation, TokenView};
use super::LexerError;
use vstd::prelude::*;
use vstd::string::*;

verus! {

/// The name of a family of literals.
pub open spec fn literal_text(literal: Literal) -> Seq<char> {
    match literal {
        Literal::Int => "Int"@,
        Literal::Float => "Float"@,
        Literal::Bool => "Bool"@,
        Literal::Str => "Str"@,
    }
}

/// The name of a reserved word.
pub open spec fn keyword_text(keyword: Keyword) -> Seq<char> {
    match keyword {
        Keyword::UnitType => "UnitType"@,
        Keyword::IntType => "IntType"@,
        Keyword::FloatType => "FloatType"@,
        Keyword::BoolType => "BoolType"@,
        Keyword::StrType => "StrType"@,
        Keyword::Match => "Match"@,
        Keyword::If => "If"@,
        Keyword::Then => "Then"@,
        Keyword::Else => "Else"@,
        Keyword::Data => "Data"@,
    }
}

/// The name of a kind of token. Quotes are called ticks, and the star and
/// the slash go by what they compute.
pub open spec fn kind_text(kind: TokenKind) -> Seq<char> {
    match kind {
        TokenKind::TokenLiteral(literal) => "TokenLiteral("@ + literal_text(literal) + ")"@,
        TokenKind::TokenKeyword(keyword) => "TokenKeyword("@ + keyword_text(keyword) + ")"@,
        TokenKind::TokenIdentifier => "TokenIdentifier"@,
        TokenKind::TokenComment => "TokenComment"@,
        TokenKind::TokenSpace => "TokenSpace"@,
        TokenKind::TokenTab => "TokenTab"@,
        TokenKind::TokenNewLine => "TokenNewLine"@,
        TokenKind::TokenDot => "TokenDot"@,
        TokenKind::TokenColon => "TokenColon"@,
        TokenKind::TokenSemicolon => "TokenSemicolon"@,
        TokenKind::TokenAssign => "TokenAssign"@,
        TokenKind::TokenSingleQuote => "TokenTick"@,
        TokenKind::TokenDoubleQuote => "TokenDoubleTick"@,
        TokenKind::TokenOpenParen => "TokenOpenParen"@,
        TokenKind::TokenCloseParen => "TokenCloseParen"@,
        TokenKind::TokenOpenBrace => "TokenOpenBrace"@,
        TokenKind::TokenCloseBrace => "TokenCloseBrace"@,
        TokenKind::TokenOpenBracket => "TokenOpenBracket"@,
        TokenKind::TokenCloseBracket => "TokenCloseBracket"@,
        TokenKind::TokenComma => "TokenComma"@,
        TokenKind::TokenGreater => "TokenGreater"@,
        TokenKind::TokenRightArrow => "TokenRightArrow"@,
        TokenKind::TokenRightDoubleArrow => "TokenRightDoubleArrow"@,
        TokenKind::TokenPlusPlus => "TokenPlusPlus"@,
        TokenKind::TokenUnderscore => "TokenUnderscore"@,
        TokenKind::TokenPipe => "TokenPipe"@,
        TokenKind::TokenEOF => "TokenEOF"@,
        TokenKind::TokenPlus => "TokenPlus"@,
        TokenKind::TokenMinus => "TokenMinus"@,
        TokenKind::TokenStar => "TokenMultiply"@,
        TokenKind::TokenSlash => "TokenDivide"@,
        TokenKind::TokenUnknown => "TokenUnknown"@,
    }
}

/// The character that writes the digit `digit`.
pub open spec fn digit_char(digit: nat) -> char {
    if digit == 0 {
        '0'
    } else if digit == 1 {
        '1'
    } else if digit == 2 {
        '2'
    } else if digit == 3 {
        '3'
    } else if digit == 4 {
        '4'
    } else if digit == 5 {
        '5'
    } else if digit == 6 {
        '6'
    } else if digit == 7 {
        '7'
    } else if digit == 8 {
        '8'
    } else {
        '9'
    }
}

/// The number `n` written in base ten, without leading zeros.
pub open spec fn decimal(n: nat) -> Seq<char>
    decreases n,
{
    if n < 10 {
        seq![digit_char(n)]
    } else {
        decimal(n / 10).push(digit_char(n % 10))
    }
}

/// A location, written as `TokenLocation { "path", line, start, end }`.
pub open spec fn location_text(location: LocationView) -> Seq<char> {
    "TokenLocation { \""@ + location.file_path + "\", "@ + decimal(location.line) + ", "@ + decimal(
        location.column_start,
    ) + ", "@ + decimal(location.column_end) + " }"@
}

/// A token, written as `Token { kind, "lexeme", location }`.
pub open spec fn token_text(token: TokenView) -> Seq<char> {
    "Token { "@ + kind_text(token.kind) + ", \""@ + token.lexeme + "\", "@ + location_text(
        token.location,
    ) + " }"@
}

fn digit_of(value: usize) -> (c: char)
    requires
        value < 10,
    ensures
        c == digit_char(value as nat),
{
    match value {
        0 => '0',
        1 => '1',
        2 => '2',
        3 => '3',
        4 => '4',
        5 => '5',
        6 => '6',
        7 => '7',
        8 => '8',
        _ => '9',
    }
}

/// Writes `n` in base ten at the end of `text`.
pub fn push_decimal(text: &mut String, n: usize)
    ensures
        final(text)@ == old(text)@ + decimal(n as nat),
    decreases n,
{
    if n >= 10 {
        push_decimal(text, n / 10);
    }
    text.push(digit_of(n % 10));
    assert(text@ =~= old(text)@ + decimal(n as nat));
}

impl Literal {
    /// The name of this family of literals.
    pub fn to_string(&self) -> (text: String)
        ensures
            text@ == literal_text(*self),
    {
        match self {
            Literal::Int => "Int".to_owned(),
            Literal::Float => "Float".to_owned(),
            Literal::Bool => "Bool".to_owned(),
            Literal::Str => "Str".to_owned(),
        }
    }
}

impl Keyword {
    /// The name of this reserved word.
    pub fn to_string(&self) -> (text: String)
        ensures
            text@ == keyword_text(*self),
    {
        match self {
            Keyword::UnitType => "UnitType".to_owned(),
            Keyword::IntType => "IntType".to_owned(),
            Keyword::FloatType => "FloatType".to_owned(),
            Keyword::BoolType => "BoolType".to_owned(),
            Keyword::StrType => "StrType".to_owned(),
            Keyword::Match => "Match".to_owned(),
            Keyword::If => "If".to_owned(),
            Keyword::Then => "Then".to_owned(),
            Keyword::Else => "Else".to_owned(),
            Keyword::Data => "Data".to_owned(),
        }
    }
}

impl TokenKind {
    /// The name of this kind of token.
    pub fn to_string(&self) -> (text: String)
        ensures
            text@ == kind_text(*self),
    {
        match self {
            TokenKind::TokenLiteral(literal) => {
                let mut text = "TokenLiteral(".to_owned();
                text.append(literal.to_string().as_str());
                text.append(")");
                text
            },
            TokenKind::TokenKeyword(keyword) => {
                let mut text = "TokenKeyword(".to_owned();
                text.append(keyword.to_string().as_str());
                text.append(")");
                text
            },
            TokenKind::TokenIdentifier => "TokenIdentifier".to_owned(),
            TokenKind::TokenComment => "TokenComment".to_owned(),
            TokenKind::TokenSpace => "TokenSpace".to_owned(),
            TokenKind::TokenTab => "TokenTab".to_owned(),
            TokenKind::TokenNewLine => "TokenNewLine".to_owned(),
            TokenKind::TokenDot => "TokenDot".to_owned(),
            TokenKind::TokenColon => "TokenColon".to_owned(),
            TokenKind::TokenSemicolon => "TokenSemicolon".to_owned(),
            TokenKind::TokenAssign => "TokenAssign".to_owned(),
            TokenKind::TokenSingleQuote => "TokenTick".to_owned(),
            TokenKind::TokenDoubleQuote => "TokenDoubleTick".to_owned(),
            TokenKind::TokenOpenParen => "TokenOpenParen".to_owned(),
            TokenKind::TokenCloseParen => "TokenCloseParen".to_owned(),
            TokenKind::TokenOpenBrace => "TokenOpenBrace".to_owned(),
            TokenKind::TokenCloseBrace => "TokenCloseBrace".to_owned(),
            TokenKind::TokenOpenBracket => "TokenOpenBracket".to_owned(),
            TokenKind::TokenCloseBracket => "TokenCloseBracket".to_owned(),
            TokenKind::TokenComma => "TokenComma".to_owned(),
            TokenKind::TokenGreater => "TokenGreater".to_owned(),
            TokenKind::TokenRightArrow => "TokenRightArrow".to_owned(),
            TokenKind::TokenRightDoubleArrow => "TokenRightDoubleArrow".to_owned(),
            TokenKind::TokenPlusPlus => "TokenPlusPlus".to_owned(),
            TokenKind::TokenUnderscore => "TokenUnderscore".to_owned(),
            TokenKind::TokenPipe => "TokenPipe".to_owned(),
            TokenKind::TokenEOF => "TokenEOF".to_owned(),
            TokenKind::TokenPlus => "TokenPlus".to_owned(),
            TokenKind::TokenMinus => "TokenMinus".to_owned(),
            TokenKind::TokenStar => "TokenMultiply".to_owned(),
            TokenKind::TokenSlash => "TokenDivide".to_owned(),
            TokenKind::TokenUnknown => "TokenUnknown".to_owned(),
        }
    }
}

impl TokenLocation {
    /// This location in words: `TokenLocation { "path", line, start, end }`.
    pub fn to_string(&self) -> (text: String)
        ensures
            text@ == location_text(self@),
    {
        let mut text = "TokenLocation { \"".to_owned();
        text.append(self.file_path.as_str());
        text.append("\", ");
        push_decimal(&mut text, self.line);
        text.append(", ");
        push_decimal(&mut text, self.column_start);
        text.append(", ");
        push_decimal(&mut text, self.column_end);
        text.append(" }");
        text
    }
}

impl Token {
    /// This token in words: `Token { kind, "lexeme", location }`.
    pub fn to_string(&self) -> (text: String)
        ensures
            text@ == token_text(self@),
    {
        let mut text = "Token { ".to_owned();
        text.append(self.kind.to_string().as_str());
        text.append(", \"");
        text.append(self.lexeme.as_str());
        text.append("\", ");
        text.append(self.location.to_string().as_str());
        text.append(" }");
        text
    }
}

impl LexerError {
    /// The name of this failure.
    pub fn to_string(&self) -> (text: String)
        ensures
            text@ == "LexerError"@,
    {
        "LexerError".to_owned()
    }
}

} // verus!
