use funs::lexer::display::push_decimal;
use funs::lexer::token::{Keyword, Literal, Token, TokenKind, TokenLocation};
use funs::lexer::LexerError;
use funs::utils::color;

#[test]
fn literals_and_keywords_have_names() {
    assert_eq!(Literal::Int.to_string(), "Int");
    assert_eq!(Literal::Float.to_string(), "Float");
    assert_eq!(Literal::Bool.to_string(), "Bool");
    assert_eq!(Literal::Str.to_string(), "Str");
    assert_eq!(Keyword::UnitType.to_string(), "UnitType");
    assert_eq!(Keyword::IntType.to_string(), "IntType");
    assert_eq!(Keyword::FloatType.to_string(), "FloatType");
    assert_eq!(Keyword::BoolType.to_string(), "BoolType");
    assert_eq!(Keyword::StrType.to_string(), "StrType");
    assert_eq!(Keyword::Match.to_string(), "Match");
    assert_eq!(Keyword::If.to_string(), "If");
    assert_eq!(Keyword::Then.to_string(), "Then");
    assert_eq!(Keyword::Else.to_string(), "Else");
    assert_eq!(Keyword::Data.to_string(), "Data");
}

#[test]
fn token_kinds_have_names() {
    let table = [
        (TokenKind::TokenLiteral(Literal::Int), "TokenLiteral(Int)"),
        (TokenKind::TokenLiteral(Literal::Str), "TokenLiteral(Str)"),
        (TokenKind::TokenKeyword(Keyword::Match), "TokenKeyword(Match)"),
        (TokenKind::TokenIdentifier, "TokenIdentifier"),
        (TokenKind::TokenComment, "TokenComment"),
        (TokenKind::TokenSpace, "TokenSpace"),
        (TokenKind::TokenTab, "TokenTab"),
        (TokenKind::TokenNewLine, "TokenNewLine"),
        (TokenKind::TokenDot, "TokenDot"),
        (TokenKind::TokenColon, "TokenColon"),
        (TokenKind::TokenSemicolon, "TokenSemicolon"),
        (TokenKind::TokenAssign, "TokenAssign"),
        (TokenKind::TokenSingleQuote, "TokenTick"),
        (TokenKind::TokenDoubleQuote, "TokenDoubleTick"),
        (TokenKind::TokenOpenParen, "TokenOpenParen"),
        (TokenKind::TokenCloseParen, "TokenCloseParen"),
        (TokenKind::TokenOpenBrace, "TokenOpenBrace"),
        (TokenKind::TokenCloseBrace, "TokenCloseBrace"),
        (TokenKind::TokenOpenBracket, "TokenOpenBracket"),
        (TokenKind::TokenCloseBracket, "TokenCloseBracket"),
        (TokenKind::TokenComma, "TokenComma"),
        (TokenKind::TokenGreater, "TokenGreater"),
        (TokenKind::TokenRightArrow, "TokenRightArrow"),
        (TokenKind::TokenRightDoubleArrow, "TokenRightDoubleArrow"),
        (TokenKind::TokenPlusPlus, "TokenPlusPlus"),
        (TokenKind::TokenUnderscore, "TokenUnderscore"),
        (TokenKind::TokenPipe, "TokenPipe"),
        (TokenKind::TokenEOF, "TokenEOF"),
        (TokenKind::TokenPlus, "TokenPlus"),
        (TokenKind::TokenMinus, "TokenMinus"),
        (TokenKind::TokenStar, "TokenMultiply"),
        (TokenKind::TokenSlash, "TokenDivide"),
        (TokenKind::TokenUnknown, "TokenUnknown"),
    ];
    for (kind, name) in table {
        assert_eq!(kind.to_string(), name);
    }
}

#[test]
fn numbers_are_written_in_base_ten() {
    for n in [0, 1, 9, 10, 11, 99, 100, 101, 12345, 1_000_000, usize::MAX] {
        let mut text = String::from("n = ");
        push_decimal(&mut text, n);
        assert_eq!(text, format!("n = {}", n));
    }
}

#[test]
fn location_is_written_with_its_path_and_span() {
    let location = TokenLocation::new("dir/a.fs".to_string(), 2, 3, 15);
    assert_eq!(
        location.to_string(),
        "TokenLocation { \"dir/a.fs\", 2, 3, 15 }"
    );
    let start = TokenLocation::from(&String::new());
    assert_eq!(start.to_string(), "TokenLocation { \"\", 0, 0, 0 }");
}

#[test]
fn token_is_written_with_kind_lexeme_and_location() {
    let token = Token::new(
        TokenKind::TokenKeyword(Keyword::IntType),
        "int".to_string(),
        TokenLocation::new("a.fs".to_string(), 0, 8, 11),
    );
    assert_eq!(
        token.to_string(),
        "Token { TokenKeyword(IntType), \"int\", TokenLocation { \"a.fs\", 0, 8, 11 } }"
    );
}

#[test]
fn lexer_error_has_a_name() {
    assert_eq!(LexerError::LexerError.to_string(), "LexerError");
}

#[test]
fn colours_wrap_text_in_escape_sequences() {
    assert_eq!(color::red("x"), "\x1b[31mx\x1b[0m");
    assert_eq!(color::green("x"), "\x1b[32mx\x1b[0m");
    assert_eq!(color::yellow("x"), "\x1b[33mx\x1b[0m");
    assert_eq!(color::blue("x"), "\x1b[34mx\x1b[0m");
    assert_eq!(color::magenta("x"), "\x1b[35mx\x1b[0m");
    assert_eq!(color::cyan("Token"), "\x1b[36mToken\x1b[0m");
    assert_eq!(color::white(""), "\x1b[37m\x1b[0m");
    assert_eq!(color::bold("x"), "\x1b[1mx\x1b[0m");
    assert_eq!(color::underline("x"), "\x1b[4mx\x1b[0m");
    assert_eq!(color::reversed("x"), "\x1b[7mx\x1b[0m");
}
