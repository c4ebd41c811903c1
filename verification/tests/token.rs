use funs::lexer::token::{is_ascii_digit, Keyword, Literal, Token, TokenKind, TokenLocation};

fn kind(lexeme: &str) -> TokenKind {
    TokenKind::from(&lexeme.to_string())
}

#[test]
fn white_space_classifies_first() {
    assert_eq!(kind("\n"), TokenKind::TokenNewLine);
    assert_eq!(kind("\t"), TokenKind::TokenTab);
    assert_eq!(kind(" "), TokenKind::TokenSpace);
}

#[test]
fn keywords_classify_by_exact_match() {
    assert_eq!(kind("true"), TokenKind::TokenLiteral(Literal::Bool));
    assert_eq!(kind("false"), TokenKind::TokenLiteral(Literal::Bool));
    assert_eq!(kind("unit"), TokenKind::TokenKeyword(Keyword::UnitType));
    assert_eq!(kind("int"), TokenKind::TokenKeyword(Keyword::IntType));
    assert_eq!(kind("float"), TokenKind::TokenKeyword(Keyword::FloatType));
    assert_eq!(kind("bool"), TokenKind::TokenKeyword(Keyword::BoolType));
    assert_eq!(kind("str"), TokenKind::TokenKeyword(Keyword::StrType));
    assert_eq!(kind("match"), TokenKind::TokenKeyword(Keyword::Match));
    assert_eq!(kind("if"), TokenKind::TokenKeyword(Keyword::If));
    assert_eq!(kind("then"), TokenKind::TokenKeyword(Keyword::Then));
    assert_eq!(kind("else"), TokenKind::TokenKeyword(Keyword::Else));
    assert_eq!(kind("data"), TokenKind::TokenKeyword(Keyword::Data));
    assert_eq!(kind("Int"), TokenKind::TokenIdentifier);
    assert_eq!(kind("ints"), TokenKind::TokenIdentifier);
    assert_eq!(kind("in"), TokenKind::TokenIdentifier);
}

#[test]
fn separators_classify_by_exact_match() {
    let table = [
        (".", TokenKind::TokenDot),
        (":", TokenKind::TokenColon),
        (";", TokenKind::TokenSemicolon),
        ("=", TokenKind::TokenAssign),
        ("'", TokenKind::TokenSingleQuote),
        ("\"", TokenKind::TokenDoubleQuote),
        ("(", TokenKind::TokenOpenParen),
        (")", TokenKind::TokenCloseParen),
        ("{", TokenKind::TokenOpenBrace),
        ("}", TokenKind::TokenCloseBrace),
        ("[", TokenKind::TokenOpenBracket),
        ("]", TokenKind::TokenCloseBracket),
        ("_", TokenKind::TokenUnderscore),
        (",", TokenKind::TokenComma),
        ("+", TokenKind::TokenPlus),
        ("-", TokenKind::TokenMinus),
        ("*", TokenKind::TokenStar),
        ("/", TokenKind::TokenSlash),
        (">", TokenKind::TokenGreater),
        ("->", TokenKind::TokenRightArrow),
        ("=>", TokenKind::TokenRightDoubleArrow),
        ("++", TokenKind::TokenPlusPlus),
        ("|", TokenKind::TokenPipe),
    ];
    for (lexeme, expected) in table {
        assert_eq!(kind(lexeme), expected, "lexeme {:?}", lexeme);
    }
    assert_eq!(kind("--"), TokenKind::TokenIdentifier);
    assert_eq!(kind("=="), TokenKind::TokenIdentifier);
}

#[test]
fn digits_classify_as_int() {
    assert_eq!(kind("0"), TokenKind::TokenLiteral(Literal::Int));
    assert_eq!(kind("0123456789"), TokenKind::TokenLiteral(Literal::Int));
    assert_eq!(kind(""), TokenKind::TokenLiteral(Literal::Int));
}

#[test]
fn digits_with_a_point_classify_as_float() {
    assert_eq!(kind("1.5"), TokenKind::TokenLiteral(Literal::Float));
    assert_eq!(kind("1."), TokenKind::TokenLiteral(Literal::Float));
    assert_eq!(kind(".5"), TokenKind::TokenLiteral(Literal::Float));
    assert_eq!(kind("1.2.3"), TokenKind::TokenLiteral(Literal::Float));
    assert_eq!(kind("."), TokenKind::TokenDot);
}

#[test]
fn anything_else_classifies_as_identifier() {
    assert_eq!(kind("x"), TokenKind::TokenIdentifier);
    assert_eq!(kind("_x_int"), TokenKind::TokenIdentifier);
    assert_eq!(kind("x1"), TokenKind::TokenIdentifier);
    assert_eq!(kind("1x"), TokenKind::TokenIdentifier);
    assert_eq!(kind("\u{663}"), TokenKind::TokenIdentifier);
}

#[test]
fn of_chars_reads_a_range() {
    let chars: Vec<char> = "x: int".chars().collect();
    assert_eq!(TokenKind::of_chars(&chars, 0, 1), TokenKind::TokenIdentifier);
    assert_eq!(TokenKind::of_chars(&chars, 1, 2), TokenKind::TokenColon);
    assert_eq!(TokenKind::of_chars(&chars, 2, 3), TokenKind::TokenSpace);
    assert_eq!(
        TokenKind::of_chars(&chars, 3, 6),
        TokenKind::TokenKeyword(Keyword::IntType)
    );
    assert_eq!(TokenKind::of_chars(&chars, 3, 5), TokenKind::TokenIdentifier);
}

#[test]
fn symbol_tables() {
    for symbol in [
        ":", ".", ";", "=", "'", "\"", "(", ")", "{", "}", "[", "]", "_", "|", ",", "-", "+", "*",
        "/", ">", "\n",
    ] {
        assert!(TokenKind::is_symbol(symbol), "symbol {:?}", symbol);
        assert!(TokenKind::is_symbol_char(symbol.chars().next().unwrap()));
    }
    for other in ["a", "0", "#", " ", "\r", "->", "", "<"] {
        assert!(!TokenKind::is_symbol(other), "text {:?}", other);
    }
    for prefix in ["-", "=", "+"] {
        assert!(TokenKind::can_be_followed_by_another_symbol(prefix));
        assert!(TokenKind::is_symbol_prefix_char(prefix.chars().next().unwrap()));
    }
    for other in [">", "*", "--", "", "a"] {
        assert!(!TokenKind::can_be_followed_by_another_symbol(other));
    }
    assert!(!TokenKind::is_symbol_prefix_char('>'));
}

#[test]
fn ascii_digits() {
    for c in '0'..='9' {
        assert!(is_ascii_digit(c));
    }
    assert!(!is_ascii_digit('/'));
    assert!(!is_ascii_digit(':'));
    assert!(!is_ascii_digit('a'));
    assert!(!is_ascii_digit('\u{663}'));
}

#[test]
fn location_starts_at_line_zero_column_zero() {
    let location = TokenLocation::from(&"a.fs".to_string());
    assert_eq!(location, TokenLocation::new("a.fs".to_string(), 0, 0, 0));
    assert_eq!(location.line(), 0);
    assert_eq!(location.column_start(), 0);
    assert_eq!(location.column_end(), 0);
}

#[test]
fn location_moves() {
    let mut location = TokenLocation::new("a.fs".to_string(), 2, 3, 5);
    location.advance_column_end();
    assert_eq!(location, TokenLocation::new("a.fs".to_string(), 2, 3, 6));
    location.advance_column_start();
    assert_eq!(location, TokenLocation::new("a.fs".to_string(), 2, 4, 6));
    location.set_column_start(6);
    assert_eq!(location, TokenLocation::new("a.fs".to_string(), 2, 6, 6));
    location.advance_line();
    assert_eq!(location, TokenLocation::new("a.fs".to_string(), 3, 0, 0));
}

#[test]
fn location_builders_change_one_field() {
    let location = TokenLocation::new("a.fs".to_string(), 2, 3, 5);
    assert_eq!(
        location.with_file_path("b.fs"),
        TokenLocation::new("b.fs".to_string(), 2, 3, 5)
    );
    assert_eq!(
        location.with_line(7),
        TokenLocation::new("a.fs".to_string(), 7, 3, 5)
    );
    assert_eq!(
        location.with_column_start(1),
        TokenLocation::new("a.fs".to_string(), 2, 1, 5)
    );
    assert_eq!(
        location.with_column_end(9),
        TokenLocation::new("a.fs".to_string(), 2, 3, 9)
    );
    assert_eq!(location.clone(), location);
}

#[test]
fn token_holds_what_it_is_made_of() {
    let location = TokenLocation::new("a.fs".to_string(), 0, 0, 2);
    let token = Token::new(TokenKind::TokenIdentifier, "ab".to_string(), location.clone());
    assert_eq!(token.kind, TokenKind::TokenIdentifier);
    assert_eq!(token.lexeme, "ab");
    assert_eq!(token.location, location);
    assert_eq!(token.clone(), token);
}
