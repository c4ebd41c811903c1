use funs::lexer::states::State;
use funs::lexer::token::{Keyword, Literal, Token, TokenKind, TokenLocation};
use funs::lexer::Lexer;
use funs::source::Source;

fn lex(text: &str) -> Vec<Token> {
    Lexer::new(&Source::from(text.to_string())).collect()
}

fn kinds(tokens: &[Token]) -> Vec<TokenKind> {
    tokens.iter().map(|token| token.kind).collect()
}

fn lexemes(tokens: &[Token]) -> Vec<String> {
    tokens.iter().map(|token| token.lexeme.clone()).collect()
}

fn spans(tokens: &[Token]) -> Vec<(usize, usize, usize)> {
    tokens
        .iter()
        .map(|token| {
            (
                token.location.line,
                token.location.column_start,
                token.location.column_end,
            )
        })
        .collect()
}

fn token(kind: TokenKind, lexeme: &str, line: usize, start: usize, end: usize) -> Token {
    Token::new(
        kind,
        lexeme.to_string(),
        TokenLocation::new(String::new(), line, start, end),
    )
}

fn without_blanks(tokens: Vec<Token>) -> Vec<Token> {
    tokens
        .into_iter()
        .filter(|token| !matches!(token.kind, TokenKind::TokenSpace | TokenKind::TokenTab))
        .collect()
}

#[test]
fn variable_declaration_lexes_to_its_tokens() {
    let tokens = lex("_x_int: int = 0\n");
    assert_eq!(
        tokens,
        vec![
            token(TokenKind::TokenIdentifier, "_x_int", 0, 0, 6),
            token(TokenKind::TokenColon, ":", 0, 6, 7),
            token(TokenKind::TokenSpace, " ", 0, 7, 8),
            token(TokenKind::TokenKeyword(Keyword::IntType), "int", 0, 8, 11),
            token(TokenKind::TokenSpace, " ", 0, 11, 12),
            token(TokenKind::TokenAssign, "=", 0, 12, 13),
            token(TokenKind::TokenSpace, " ", 0, 13, 14),
            token(TokenKind::TokenLiteral(Literal::Int), "0", 0, 14, 15),
            token(TokenKind::TokenNewLine, "\n", 0, 15, 15),
            token(TokenKind::TokenEOF, "", 1, 0, 0),
        ]
    );
}

#[test]
fn variable_declaration_has_seven_tokens_besides_blanks() {
    let tokens = without_blanks(lex("_x_int: int = 0\n"));
    assert_eq!(tokens.len(), 7);
    assert_eq!(
        kinds(&tokens),
        vec![
            TokenKind::TokenIdentifier,
            TokenKind::TokenColon,
            TokenKind::TokenKeyword(Keyword::IntType),
            TokenKind::TokenAssign,
            TokenKind::TokenLiteral(Literal::Int),
            TokenKind::TokenNewLine,
            TokenKind::TokenEOF,
        ]
    );
    assert_eq!(
        lexemes(&tokens),
        vec!["_x_int", ":", "int", "=", "0", "\n", ""]
    );
}

#[test]
fn comment_line_lexes_to_comment_newline_eof() {
    let tokens = lex("# comment\n");
    assert_eq!(
        tokens,
        vec![
            token(TokenKind::TokenComment, "# comment", 0, 0, 9),
            token(TokenKind::TokenNewLine, "\n", 0, 9, 9),
            token(TokenKind::TokenEOF, "", 1, 0, 0),
        ]
    );
}

#[test]
fn lexemes_spell_the_text() {
    let text = "x: int = 0\n";
    let tokens = lex(text);
    assert_eq!(
        lexemes(&tokens),
        vec!["x", ":", " ", "int", " ", "=", " ", "0", "\n", ""]
    );
    assert_eq!(lexemes(&tokens).concat(), text);
}

#[test]
fn lexemes_spell_any_text() {
    let texts = [
        "",
        "\n",
        "a",
        "-",
        "a -> b => c ++ d\n",
        "\"unterminated",
        "f: (int, [str]) = \"a b\"\n# done",
        "x = 1.5 + 2 * (3 / 4) - 5\n\n\ty\n",
        "\u{e9}t\u{e9} @ $ ?",
        "---\n===\n+++",
        "a=\nb",
    ];
    for text in texts {
        assert_eq!(lexemes(&lex(text)).concat(), text, "text {:?}", text);
    }
}

#[test]
fn carriage_returns_are_dropped() {
    let tokens = lex("a\r\nb\r\n");
    assert_eq!(lexemes(&tokens), vec!["a", "\n", "b", "\n", ""]);
    assert_eq!(
        spans(&tokens),
        vec![(0, 0, 1), (0, 1, 1), (1, 0, 1), (1, 1, 1), (2, 0, 0)]
    );
    assert_eq!(lexemes(&lex("# c\r\nx")).concat(), "# c\nx");
    assert_eq!(lexemes(&lex("\r\r1\r")).concat(), "1");
}

#[test]
fn carriage_return_inside_a_string_stays() {
    let tokens = lex("\"a\rb\"");
    assert_eq!(
        kinds(&tokens),
        vec![TokenKind::TokenLiteral(Literal::Str), TokenKind::TokenEOF]
    );
    assert_eq!(lexemes(&tokens), vec!["\"a\rb\"", ""]);
}

#[test]
fn locations_run_on_without_gap() {
    let tokens = lex("ab: [int] = 12\n\"s\" # c\n  x");
    for pair in tokens.windows(2) {
        let (first, second) = (&pair[0], &pair[1]);
        if first.kind == TokenKind::TokenNewLine {
            assert_eq!(second.location.line, first.location.line + 1);
            assert_eq!(second.location.column_start, 0);
        } else {
            assert_eq!(second.location.line, first.location.line);
            assert_eq!(second.location.column_start, first.location.column_end);
        }
    }
    assert_eq!(tokens[0].location.line, 0);
    assert_eq!(tokens[0].location.column_start, 0);
    let last = tokens.last().unwrap();
    assert_eq!(
        (last.location.line, last.location.column_start, last.location.column_end),
        (2, 3, 3)
    );
}

#[test]
fn spans_are_as_wide_as_lexemes() {
    for token in lex("name: (float, bool) = 3.25\n# note\n") {
        let width = token.location.column_end - token.location.column_start;
        if token.kind == TokenKind::TokenNewLine {
            assert_eq!(width, 0);
        } else {
            assert_eq!(width, token.lexeme.chars().count());
        }
    }
}

#[test]
fn unknown_character_is_a_token_of_its_own() {
    let tokens = lex("a@b");
    assert_eq!(
        tokens,
        vec![
            token(TokenKind::TokenIdentifier, "a", 0, 0, 1),
            token(TokenKind::TokenUnknown, "@", 0, 1, 2),
            token(TokenKind::TokenIdentifier, "b", 0, 2, 3),
            token(TokenKind::TokenEOF, "", 0, 3, 3),
        ]
    );
}

#[test]
fn unterminated_string_is_unknown() {
    let tokens = lex("\"abc");
    assert_eq!(
        tokens,
        vec![
            token(TokenKind::TokenUnknown, "\"abc", 0, 0, 4),
            token(TokenKind::TokenEOF, "", 0, 4, 4),
        ]
    );
}

#[test]
fn string_literal_keeps_its_quotes() {
    let tokens = lex("\"a b\" x");
    assert_eq!(
        tokens,
        vec![
            token(TokenKind::TokenLiteral(Literal::Str), "\"a b\"", 0, 0, 5),
            token(TokenKind::TokenSpace, " ", 0, 5, 6),
            token(TokenKind::TokenIdentifier, "x", 0, 6, 7),
            token(TokenKind::TokenEOF, "", 0, 7, 7),
        ]
    );
}

#[test]
fn numbers_are_int_or_float() {
    let tokens = lex("12 3.5 7.");
    assert_eq!(
        kinds(&tokens),
        vec![
            TokenKind::TokenLiteral(Literal::Int),
            TokenKind::TokenSpace,
            TokenKind::TokenLiteral(Literal::Float),
            TokenKind::TokenSpace,
            TokenKind::TokenLiteral(Literal::Float),
            TokenKind::TokenEOF,
        ]
    );
    assert_eq!(lexemes(&tokens), vec!["12", " ", "3.5", " ", "7.", ""]);
}

#[test]
fn words_are_keywords_literals_or_identifiers() {
    let tokens = without_blanks(lex(
        "unit int float bool str true false match if then else data _ x1 caf\u{e9}",
    ));
    assert_eq!(
        kinds(&tokens),
        vec![
            TokenKind::TokenKeyword(Keyword::UnitType),
            TokenKind::TokenKeyword(Keyword::IntType),
            TokenKind::TokenKeyword(Keyword::FloatType),
            TokenKind::TokenKeyword(Keyword::BoolType),
            TokenKind::TokenKeyword(Keyword::StrType),
            TokenKind::TokenLiteral(Literal::Bool),
            TokenKind::TokenLiteral(Literal::Bool),
            TokenKind::TokenKeyword(Keyword::Match),
            TokenKind::TokenKeyword(Keyword::If),
            TokenKind::TokenKeyword(Keyword::Then),
            TokenKind::TokenKeyword(Keyword::Else),
            TokenKind::TokenKeyword(Keyword::Data),
            TokenKind::TokenUnderscore,
            TokenKind::TokenIdentifier,
            TokenKind::TokenIdentifier,
            TokenKind::TokenEOF,
        ]
    );
}

#[test]
fn symbols_of_one_and_two_characters() {
    let tokens = without_blanks(lex("a -> b => c ++ d - e = f + g ( ) { } [ ] , ; . | * / > '"));
    let symbols: Vec<TokenKind> = kinds(&tokens)
        .into_iter()
        .filter(|kind| *kind != TokenKind::TokenIdentifier)
        .collect();
    assert_eq!(
        symbols,
        vec![
            TokenKind::TokenRightArrow,
            TokenKind::TokenRightDoubleArrow,
            TokenKind::TokenPlusPlus,
            TokenKind::TokenMinus,
            TokenKind::TokenAssign,
            TokenKind::TokenPlus,
            TokenKind::TokenOpenParen,
            TokenKind::TokenCloseParen,
            TokenKind::TokenOpenBrace,
            TokenKind::TokenCloseBrace,
            TokenKind::TokenOpenBracket,
            TokenKind::TokenCloseBracket,
            TokenKind::TokenComma,
            TokenKind::TokenSemicolon,
            TokenKind::TokenDot,
            TokenKind::TokenPipe,
            TokenKind::TokenStar,
            TokenKind::TokenSlash,
            TokenKind::TokenGreater,
            TokenKind::TokenSingleQuote,
            TokenKind::TokenEOF,
        ]
    );
}

#[test]
fn symbol_and_line_break_are_two_tokens() {
    assert_eq!(
        lex("x =\n"),
        vec![
            token(TokenKind::TokenIdentifier, "x", 0, 0, 1),
            token(TokenKind::TokenSpace, " ", 0, 1, 2),
            token(TokenKind::TokenAssign, "=", 0, 2, 3),
            token(TokenKind::TokenNewLine, "\n", 0, 3, 3),
            token(TokenKind::TokenEOF, "", 1, 0, 0),
        ]
    );
    assert_eq!(
        lex("-\n"),
        vec![
            token(TokenKind::TokenMinus, "-", 0, 0, 1),
            token(TokenKind::TokenNewLine, "\n", 0, 1, 1),
            token(TokenKind::TokenEOF, "", 1, 0, 0),
        ]
    );
}

#[test]
fn symbol_at_the_end_of_the_text_is_emitted() {
    assert_eq!(
        lex("a+"),
        vec![
            token(TokenKind::TokenIdentifier, "a", 0, 0, 1),
            token(TokenKind::TokenPlus, "+", 0, 1, 2),
            token(TokenKind::TokenEOF, "", 0, 2, 2),
        ]
    );
}

#[test]
fn comment_ends_before_the_line_break() {
    let tokens = lex("# one\n# two");
    assert_eq!(lexemes(&tokens), vec!["# one", "\n", "# two", ""]);
    assert_eq!(
        kinds(&tokens),
        vec![
            TokenKind::TokenComment,
            TokenKind::TokenNewLine,
            TokenKind::TokenComment,
            TokenKind::TokenEOF,
        ]
    );
}

#[test]
fn empty_text_is_only_end_of_file() {
    assert_eq!(lex(""), vec![token(TokenKind::TokenEOF, "", 0, 0, 0)]);
}

#[test]
fn lexer_is_exhausted_after_end_of_file() {
    let mut lexer = Lexer::new(&Source::from("a".to_string()));
    assert_eq!(lexer.next().map(|token| token.kind), Some(TokenKind::TokenIdentifier));
    assert_eq!(lexer.next().map(|token| token.kind), Some(TokenKind::TokenEOF));
    assert_eq!(lexer.next(), None);
    assert_eq!(lexer.next(), None);
    assert!(lexer.collect().is_empty());
    assert!(lexer.cursor().is_eof());
}

#[test]
fn tokens_carry_the_path_of_their_source() {
    let source = Source::new("main.fs".to_string(), "a\nb".to_string());
    let tokens = Lexer::new(&source).collect();
    assert_eq!(tokens.len(), 4);
    for token in &tokens {
        assert_eq!(token.location.file_path, "main.fs");
    }
}

#[test]
fn states_answer_one_visit_at_a_time() {
    let source = Source::from("ab ".to_string());
    let lexer = Lexer::new(&source);
    let mut cursor = funs::lexer::cursor::Cursor::from(lexer.cursor().source());
    let (state, kind) = State::Start.visit(&mut cursor).unwrap().into_parts();
    assert_eq!(state, State::Word);
    kind.apply(&mut cursor);
    assert_eq!((cursor.index(), cursor.offset()), (0, 1));
    let (state, kind) = state.visit(&mut cursor).unwrap().into_parts();
    assert_eq!(state, State::Word);
    kind.apply(&mut cursor);
    let (state, kind) = state.visit(&mut cursor).unwrap().into_parts();
    assert_eq!(state, State::Start);
    match &kind {
        funs::lexer::states::TransitionKind::EmitToken(token) => {
            assert_eq!(token.lexeme, "ab");
            assert_eq!(token.kind, TokenKind::TokenIdentifier);
        }
        other => panic!("unexpected action {:?}", other),
    }
    kind.apply(&mut cursor);
    assert_eq!((cursor.index(), cursor.offset()), (2, 2));
}

#[test]
fn long_text_is_lexed_in_one_pass() {
    let line = "name_of_value: [int] = 1234567890 # note\r\n";
    let text = line.repeat(20_000);
    let tokens = lex(&text);
    assert_eq!(tokens.len(), 20_000 * 13 + 1);
    assert_eq!(lexemes(&tokens).concat(), text.replace('\r', ""));
    assert_eq!(tokens.last().unwrap().location.line, 20_000);
}
