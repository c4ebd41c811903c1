use funs::lexer::token::{Keyword, Literal, Token, TokenKind, TokenLocation};
use funs::lexer::Lexer;
use funs::parser::grammar::{Diagnostic, INITIAL_FUEL};
use funs::parser::tree::{replay, Child, Event, Tree, TreeKind};
use funs::parser::{Parse, ParseError, Parser};
use funs::source::Source;

fn lex(text: &str) -> Vec<Token> {
    Lexer::new(&Source::from(text.to_string())).collect()
}

fn parse(text: &str) -> Parse {
    Parser::new(lex(text)).parse().unwrap()
}

fn token(kind: TokenKind, lexeme: &str, line: usize, start: usize, end: usize) -> Token {
    Token::new(
        kind,
        lexeme.to_string(),
        TokenLocation::new(String::new(), line, start, end),
    )
}

fn leaf(kind: TokenKind, lexeme: &str, line: usize, start: usize, end: usize) -> Child {
    Child::Token(token(kind, lexeme, line, start, end))
}

fn node(kind: TreeKind, children: Vec<Child>) -> Child {
    Child::Tree(Tree { kind, children })
}

fn leaves(tree: &Tree) -> Vec<Token> {
    let mut found = Vec::new();
    for child in &tree.children {
        match child {
            Child::Tree(tree) => found.extend(leaves(tree)),
            Child::Token(token) => found.push(token.clone()),
        }
    }
    found
}

fn count(tree: &Tree, kind: TreeKind) -> usize {
    let below: usize = tree
        .children
        .iter()
        .map(|child| match child {
            Child::Tree(tree) => count(tree, kind),
            Child::Token(_) => 0,
        })
        .sum();
    below + usize::from(tree.kind == kind)
}

fn kinds_of_children(tree: &Tree) -> Vec<Option<TreeKind>> {
    tree.children
        .iter()
        .map(|child| match child {
            Child::Tree(tree) => Some(tree.kind),
            Child::Token(_) => None,
        })
        .collect()
}

#[test]
fn parser_drops_blanks() {
    let parser = Parser::new(lex("_x_int: int = 0\n"));
    let kinds: Vec<TokenKind> = parser.tokens().iter().map(|token| token.kind).collect();
    assert_eq!(
        kinds,
        vec![
            TokenKind::TokenIdentifier,
            TokenKind::TokenColon,
            TokenKind::TokenKeyword(Keyword::IntType),
            TokenKind::TokenAssign,
            TokenKind::TokenLiteral(Literal::Int),
            TokenKind::TokenNewLine,
            TokenKind::TokenEOF,
        ]
    );
    assert!(parser.diagnostics().is_empty());
    assert!(!parser.eof());
}

#[test]
fn variable_declaration_parses_to_its_tree() {
    let parsed = parse("_x_int: int = 0\n");
    let expected = Tree {
        kind: TreeKind::File,
        children: vec![
            node(
                TreeKind::StmtVarDecl,
                vec![
                    leaf(TokenKind::TokenIdentifier, "_x_int", 0, 0, 6),
                    leaf(TokenKind::TokenColon, ":", 0, 6, 7),
                    node(
                        TreeKind::TypeExpr,
                        vec![leaf(TokenKind::TokenKeyword(Keyword::IntType), "int", 0, 8, 11)],
                    ),
                    leaf(TokenKind::TokenAssign, "=", 0, 12, 13),
                    node(
                        TreeKind::StmtExpr,
                        vec![
                            node(
                                TreeKind::ExprLiteral,
                                vec![leaf(TokenKind::TokenLiteral(Literal::Int), "0", 0, 14, 15)],
                            ),
                            leaf(TokenKind::TokenNewLine, "\n", 0, 15, 15),
                        ],
                    ),
                ],
            ),
            leaf(TokenKind::TokenEOF, "", 1, 0, 0),
        ],
    };
    assert_eq!(parsed.tree, expected);
    assert!(parsed.diagnostics.is_empty());
}

#[test]
fn tree_holds_every_token_once() {
    let texts = [
        "",
        "x: int = 0\n",
        "# c\nx: [int] = 1\n)\ny: (a, b) = \"s\"\n",
        "= = =\n",
        "x: ((a, [b]), c) = true\n1.5\n",
        "f: (int) -> int = 0\n",
        "x:",
        "x: [",
    ];
    for text in texts {
        let parser = Parser::new(lex(text));
        let given = parser.tokens().clone();
        let parsed = parser.parse().unwrap();
        assert_eq!(parsed.tree.kind, TreeKind::File);
        assert_eq!(leaves(&parsed.tree), given, "text {:?}", text);
    }
}

#[test]
fn one_bad_token_costs_one_error_node() {
    let parsed = parse("x: int = 1\n)\ny: str = \"a\"\n");
    assert_eq!(
        kinds_of_children(&parsed.tree),
        vec![
            Some(TreeKind::StmtVarDecl),
            Some(TreeKind::ErrorTree),
            Some(TreeKind::ErrorTree),
            Some(TreeKind::StmtVarDecl),
            None,
        ]
    );
    let parsed = parse("x: int = 1\n) y: str = \"a\"\n");
    assert_eq!(
        kinds_of_children(&parsed.tree),
        vec![
            Some(TreeKind::StmtVarDecl),
            Some(TreeKind::ErrorTree),
            Some(TreeKind::StmtVarDecl),
            None,
        ]
    );
    assert_eq!(count(&parsed.tree, TreeKind::ErrorTree), 1);
    assert_eq!(
        parsed.tree.children[1],
        node(
            TreeKind::ErrorTree,
            vec![leaf(TokenKind::TokenCloseParen, ")", 1, 0, 1)]
        )
    );
    assert_eq!(
        parsed.diagnostics,
        vec![Diagnostic::Unexpected {
            message: "Expected statement".to_string(),
            at: 6
        }]
    );
    let first = parse("x: int = 1\n");
    let second = parse("y: str = \"a\"\n");
    assert_eq!(parsed.tree.children[0], first.tree.children[0]);
    match (&parsed.tree.children[2], &second.tree.children[0]) {
        (Child::Tree(found), Child::Tree(alone)) => {
            assert_eq!(found.kind, alone.kind);
            assert_eq!(kinds_of_children(found), kinds_of_children(alone));
            assert_eq!(count(found, TreeKind::ErrorTree), 0);
        }
        _ => panic!("statements are nodes"),
    }
}

#[test]
fn comment_is_a_node_of_its_own() {
    let parsed = parse("# note\n1\n");
    assert_eq!(
        parsed.tree.children,
        vec![
            node(
                TreeKind::Comment,
                vec![leaf(TokenKind::TokenComment, "# note", 0, 0, 6)]
            ),
            node(
                TreeKind::ErrorTree,
                vec![leaf(TokenKind::TokenNewLine, "\n", 0, 6, 6)]
            ),
            node(
                TreeKind::StmtExpr,
                vec![
                    node(
                        TreeKind::ExprLiteral,
                        vec![leaf(TokenKind::TokenLiteral(Literal::Int), "1", 1, 0, 1)]
                    ),
                    leaf(TokenKind::TokenNewLine, "\n", 1, 1, 1),
                ]
            ),
            leaf(TokenKind::TokenEOF, "", 2, 0, 0),
        ]
    );
}

#[test]
fn types_nest() {
    let parsed = parse("x: [([a], b)] = 1\n");
    let statement = match &parsed.tree.children[0] {
        Child::Tree(tree) => tree,
        Child::Token(_) => panic!("statement is a node"),
    };
    assert_eq!(statement.kind, TreeKind::StmtVarDecl);
    assert_eq!(
        statement.children[2],
        node(
            TreeKind::TypeExpr,
            vec![
                leaf(TokenKind::TokenOpenBracket, "[", 0, 3, 4),
                node(
                    TreeKind::TypeExpr,
                    vec![
                        leaf(TokenKind::TokenOpenParen, "(", 0, 4, 5),
                        node(
                            TreeKind::TypeExpr,
                            vec![
                                leaf(TokenKind::TokenOpenBracket, "[", 0, 5, 6),
                                node(
                                    TreeKind::TypeExpr,
                                    vec![leaf(TokenKind::TokenIdentifier, "a", 0, 6, 7)]
                                ),
                                leaf(TokenKind::TokenCloseBracket, "]", 0, 7, 8),
                            ]
                        ),
                        leaf(TokenKind::TokenComma, ",", 0, 8, 9),
                        node(
                            TreeKind::TypeExpr,
                            vec![leaf(TokenKind::TokenIdentifier, "b", 0, 10, 11)]
                        ),
                        leaf(TokenKind::TokenCloseParen, ")", 0, 11, 12),
                    ]
                ),
                leaf(TokenKind::TokenCloseBracket, "]", 0, 12, 13),
            ]
        )
    );
    assert!(parsed.diagnostics.is_empty());
    assert_eq!(count(&parsed.tree, TreeKind::ErrorTree), 0);
}

#[test]
fn missing_tokens_are_reported_and_not_skipped() {
    let parsed = parse("x: int 0\n");
    assert_eq!(
        parsed.diagnostics,
        vec![Diagnostic::MissingToken {
            expected: TokenKind::TokenAssign,
            at: 3
        }]
    );
    assert_eq!(count(&parsed.tree, TreeKind::ErrorTree), 0);
    assert_eq!(
        kinds_of_children(&parsed.tree),
        vec![Some(TreeKind::StmtVarDecl), None]
    );
}

#[test]
fn bad_type_and_bad_expression_are_error_nodes() {
    let parsed = parse("x: = y\n");
    assert_eq!(
        parsed.tree.children[0],
        node(
            TreeKind::StmtVarDecl,
            vec![
                leaf(TokenKind::TokenIdentifier, "x", 0, 0, 1),
                leaf(TokenKind::TokenColon, ":", 0, 1, 2),
                node(
                    TreeKind::TypeExpr,
                    vec![node(
                        TreeKind::ErrorTree,
                        vec![leaf(TokenKind::TokenAssign, "=", 0, 3, 4)]
                    )]
                ),
                node(
                    TreeKind::StmtExpr,
                    vec![
                        node(
                            TreeKind::ErrorTree,
                            vec![leaf(TokenKind::TokenIdentifier, "y", 0, 5, 6)]
                        ),
                        leaf(TokenKind::TokenNewLine, "\n", 0, 6, 6),
                    ]
                ),
            ]
        )
    );
    assert_eq!(
        parsed.diagnostics,
        vec![
            Diagnostic::Unexpected {
                message: "Expected type".to_string(),
                at: 2
            },
            Diagnostic::MissingToken {
                expected: TokenKind::TokenAssign,
                at: 3
            },
            Diagnostic::Unexpected {
                message: "Expected expression".to_string(),
                at: 3
            },
        ]
    );
}

#[test]
fn rules_stop_at_the_end_of_the_tokens() {
    let tokens = vec![
        token(TokenKind::TokenIdentifier, "x", 0, 0, 1),
        token(TokenKind::TokenColon, ":", 0, 1, 2),
    ];
    let parsed = Parser::new(tokens.clone()).parse().unwrap();
    assert_eq!(leaves(&parsed.tree), tokens);
    assert_eq!(
        parsed.tree.children,
        vec![node(
            TreeKind::StmtVarDecl,
            vec![
                leaf(TokenKind::TokenIdentifier, "x", 0, 0, 1),
                leaf(TokenKind::TokenColon, ":", 0, 1, 2),
                node(TreeKind::TypeExpr, vec![]),
                node(
                    TreeKind::StmtExpr,
                    vec![node(TreeKind::ErrorTree, vec![])]
                ),
            ]
        )]
    );
    assert_eq!(
        parsed.diagnostics,
        vec![
            Diagnostic::Unexpected {
                message: "Expected type".to_string(),
                at: 2
            },
            Diagnostic::MissingToken {
                expected: TokenKind::TokenAssign,
                at: 2
            },
            Diagnostic::Unexpected {
                message: "Expected expression".to_string(),
                at: 2
            },
            Diagnostic::MissingToken {
                expected: TokenKind::TokenNewLine,
                at: 2
            },
        ]
    );
}

#[test]
fn function_declaration_is_not_supported() {
    let parsed = parse("f: (");
    assert_eq!(
        kinds_of_children(&parsed.tree),
        vec![
            Some(TreeKind::ErrorTree),
            Some(TreeKind::ErrorTree),
            Some(TreeKind::ErrorTree),
            None
        ]
    );
    assert_eq!(
        parsed.diagnostics[0],
        Diagnostic::Unexpected {
            message: "Function declarations are not supported".to_string(),
            at: 0
        }
    );
}

#[test]
fn empty_token_array_parses_to_an_empty_file() {
    let parsed = Parser::new(Vec::new()).parse().unwrap();
    assert_eq!(
        parsed.tree,
        Tree {
            kind: TreeKind::File,
            children: vec![]
        }
    );
    assert!(parsed.diagnostics.is_empty());
}

#[test]
fn fuel_runs_out_when_nothing_is_taken() {
    let mut parser = Parser::new(lex("x"));
    for _ in 0..INITIAL_FUEL {
        assert_eq!(parser.nth(0), Ok(TokenKind::TokenIdentifier));
    }
    assert_eq!(parser.nth(0), Err(ParseError::FuelExhausted));
    assert_eq!(parser.at(TokenKind::TokenIdentifier), Err(ParseError::FuelExhausted));
    assert_eq!(parser.eat(TokenKind::TokenIdentifier), Err(ParseError::FuelExhausted));
    assert_eq!(parser.expect(TokenKind::TokenIdentifier), Err(ParseError::FuelExhausted));
    assert_eq!(parser.parse_type(), Err(ParseError::FuelExhausted));
    assert_eq!(parser.parse_file(), Err(ParseError::FuelExhausted));
    parser.advance();
    assert_eq!(parser.nth(0), Ok(TokenKind::TokenEOF));
}

#[test]
fn deep_nesting_cut_short_runs_out_of_fuel() {
    let shallow = format!("x: {}", "[".repeat(200));
    let parsed = Parser::new(lex(&shallow)).parse().unwrap();
    assert_eq!(count(&parsed.tree, TreeKind::TypeExpr), 201);
    let deep = format!("x: {}", "[".repeat(300));
    assert_eq!(
        Parser::new(lex(&deep)).parse(),
        Err(ParseError::FuelExhausted)
    );
    let closed = format!("x: {}a{} = 1\n", "[".repeat(300), "]".repeat(300));
    let parsed = Parser::new(lex(&closed)).parse().unwrap();
    assert_eq!(count(&parsed.tree, TreeKind::TypeExpr), 301);
    assert!(parsed.diagnostics.is_empty());
}

#[test]
fn lookahead_past_the_end_is_end_of_file() {
    let mut parser = Parser::new(lex("x"));
    assert_eq!(parser.nth(0), Ok(TokenKind::TokenIdentifier));
    assert_eq!(parser.nth(1), Ok(TokenKind::TokenEOF));
    assert_eq!(parser.nth(2), Ok(TokenKind::TokenEOF));
    assert_eq!(parser.nth(usize::MAX), Ok(TokenKind::TokenEOF));
    assert_eq!(parser.at(TokenKind::TokenColon), Ok(false));
    assert_eq!(parser.at(TokenKind::TokenIdentifier), Ok(true));
}

#[test]
fn eat_takes_only_what_matches() {
    let mut parser = Parser::new(lex("x:"));
    assert_eq!(parser.eat(TokenKind::TokenColon), Ok(false));
    assert_eq!(parser.eat(TokenKind::TokenIdentifier), Ok(true));
    assert_eq!(parser.eat(TokenKind::TokenColon), Ok(true));
    assert_eq!(parser.eat(TokenKind::TokenEOF), Ok(true));
    assert!(parser.eof());
    assert_eq!(parser.eat(TokenKind::TokenEOF), Ok(false));
    assert_eq!(parser.expect(TokenKind::TokenEOF), Ok(()));
    assert_eq!(
        parser.diagnostics(),
        &vec![Diagnostic::MissingToken {
            expected: TokenKind::TokenEOF,
            at: 3
        }]
    );
}

#[test]
fn span_is_named_when_it_closes() {
    let mut parser = Parser::new(lex("1"));
    let file = parser.open();
    let literal = parser.open();
    parser.advance();
    parser.close(literal, TreeKind::ExprLiteral);
    parser.advance_with_error("unexpected");
    parser.close(file, TreeKind::File);
    let tree = parser.build_tree();
    assert_eq!(
        tree,
        Tree {
            kind: TreeKind::File,
            children: vec![
                node(
                    TreeKind::ExprLiteral,
                    vec![leaf(TokenKind::TokenLiteral(Literal::Int), "1", 0, 0, 1)]
                ),
                node(
                    TreeKind::ErrorTree,
                    vec![leaf(TokenKind::TokenEOF, "", 0, 1, 1)]
                ),
            ]
        }
    );
}

#[test]
fn replay_folds_a_log_into_its_tree() {
    let events = vec![
        Event::Open { kind: TreeKind::File },
        Event::Advance,
        Event::Open { kind: TreeKind::TypeExpr },
        Event::Open { kind: TreeKind::ErrorTree },
        Event::Close,
        Event::Advance,
        Event::Close,
        Event::Close,
    ];
    let tokens = vec![
        token(TokenKind::TokenIdentifier, "a", 0, 0, 1),
        token(TokenKind::TokenIdentifier, "b", 0, 1, 2),
    ];
    assert_eq!(
        replay(events, tokens),
        Tree {
            kind: TreeKind::File,
            children: vec![
                leaf(TokenKind::TokenIdentifier, "a", 0, 0, 1),
                node(
                    TreeKind::TypeExpr,
                    vec![
                        node(TreeKind::ErrorTree, vec![]),
                        leaf(TokenKind::TokenIdentifier, "b", 0, 1, 2),
                    ]
                ),
            ]
        }
    );
}

#[test]
fn long_file_is_parsed_in_one_pass() {
    let text = "name_of_value: [int] = 1234567890\n".repeat(20_000);
    let parsed = parse(&text);
    assert_eq!(parsed.tree.children.len(), 20_001);
    assert_eq!(count(&parsed.tree, TreeKind::StmtVarDecl), 20_000);
    assert_eq!(count(&parsed.tree, TreeKind::ErrorTree), 0);
    assert!(parsed.diagnostics.is_empty());
}

#[test]
fn long_type_list_is_parsed() {
    let text = format!("x: [({})] = 1\n", vec!["int"; 50_000].join(", "));
    let parsed = parse(&text);
    assert_eq!(count(&parsed.tree, TreeKind::TypeExpr), 50_002);
    assert!(parsed.diagnostics.is_empty());
}

#[test]
fn statements_are_chosen_by_the_tokens_ahead() {
    let mut parser = Parser::new(lex("# c"));
    assert_eq!(parser.parse_statement(), Ok(()));
    let mut parser = Parser::new(lex("x y"));
    assert_eq!(parser.parse_statement(), Ok(()));
    assert_eq!(
        parser.diagnostics(),
        &vec![Diagnostic::Unexpected {
            message: "Expected statement".to_string(),
            at: 0
        }]
    );
    let mut parser = Parser::new(lex("x"));
    parser.recover("stray");
    parser.recover("stray");
    parser.recover("nothing left");
    assert!(parser.eof());
    assert_eq!(
        parser.diagnostics(),
        &vec![
            Diagnostic::Unexpected {
                message: "stray".to_string(),
                at: 0
            },
            Diagnostic::Unexpected {
                message: "stray".to_string(),
                at: 1
            },
            Diagnostic::Unexpected {
                message: "nothing left".to_string(),
                at: 2
            },
        ]
    );
    assert!(Parser::is_type_name(TokenKind::TokenIdentifier));
    assert!(Parser::is_type_name(TokenKind::TokenKeyword(Keyword::StrType)));
    assert!(!Parser::is_type_name(TokenKind::TokenKeyword(Keyword::If)));
    assert!(!Parser::is_type_name(TokenKind::TokenOpenParen));
}
