//! The grammar, as functions from a place in the token array to what a
//! rule makes of the tokens from there on.
//!
//! ```text
//! File        = (Comment | StmtVarDecl | StmtExpr)*
//! StmtVarDecl = Ident ":" Type "=" StmtExpr
//! StmtExpr    = Expr "\n"
//! Expr        = Int | Float | Bool | Str
//! Type        = Ident | "[" Type "]" | "(" Type ("," Type)* ")"
//! ```
//!
//! Every look at the tokens costs one unit of fuel and every token taken
//! refills it, so a rule that keeps looking without taking anything runs dry
//! and the parse stops.

use super::tree::{
    lemma_children_add, lemma_children_single, tokens_of, ChildView, TreeKind, TreeView,
};
use crate::lexer::token::{Keyword, TokenKind, TokenView};
use vstd::prelude::*;

verus! {

/// The fuel a parser starts with, and has again after every token it takes.
pub const INITIAL_FUEL: u32 = 256;

/// A message of the parser about the tokens it was given.
#[derive(Debug, PartialEq, Eq)]
pub enum Diagnostic {
    /// The token at index `at` should have been of kind `expected`.
    MissingToken { expected: TokenKind, at: usize },
    /// The token at index `at` fits no rule; `message` says which was tried.
    Unexpected { message: String, at: usize },
}

/// A [`Diagnostic`] as plain values.
pub enum DiagnosticView {
    MissingToken { expected: TokenKind, at: nat },
    Unexpected { message: Seq<char>, at: nat },
}

impl View for Diagnostic {
    type V = DiagnosticView;

    open spec fn view(&self) -> DiagnosticView {
        match self {
            Diagnostic::MissingToken { expected, at } => DiagnosticView::MissingToken {
                expected: *expected,
                at: *at as nat,
            },
            Diagnostic::Unexpected { message, at } => DiagnosticView::Unexpected {
                message: message@,
                at: *at as nat,
            },
        }
    }
}

/// The diagnostics of `diagnostics` as plain values, in the same order.
pub open spec fn diagnostic_views(diagnostics: Seq<Diagnostic>) -> Seq<DiagnosticView> {
    Seq::new(diagnostics.len(), |i: int| diagnostics[i]@)
}

/// Where a parse stands: the index of the next token, the fuel left, and
/// whether the fuel has lasted so far.
pub struct Point {
    pub pos: nat,
    pub fuel: nat,
    pub ok: bool,
}

impl Point {
    /// This point, out of fuel.
    pub open spec fn dry(self) -> Point {
        Point { ok: false, ..self }
    }
}

/// What a rule makes of the tokens it is given: the nodes and tokens it adds
/// to the span that is open, what it has to say, and the point it stops at.
pub struct Yield {
    pub end: Point,
    pub children: Seq<ChildView>,
    pub diagnostics: Seq<DiagnosticView>,
}

impl Yield {
    /// Nothing added and nothing said; the parse stands at `end`.
    pub open spec fn nothing(end: Point) -> Yield {
        Yield { end, children: Seq::empty(), diagnostics: Seq::empty() }
    }

    /// This, and right after it `next`.
    pub open spec fn followed_by(self, next: Yield) -> Yield {
        Yield {
            end: next.end,
            children: self.children + next.children,
            diagnostics: self.diagnostics + next.diagnostics,
        }
    }

    /// This, gathered under one node of kind `kind`.
    pub open spec fn wrapped(self, kind: TreeKind) -> Yield {
        Yield {
            end: self.end,
            children: seq![ChildView::Tree(TreeView { kind, children: self.children })],
            diagnostics: self.diagnostics,
        }
    }

    /// This, with `diagnostic` said after it.
    pub open spec fn saying(self, diagnostic: DiagnosticView) -> Yield {
        Yield { diagnostics: self.diagnostics.push(diagnostic), ..self }
    }
}

/// The kind of the token at index `i`, or end of file past the last token.
pub open spec fn kind_at(tokens: Seq<TokenView>, i: nat) -> TokenKind {
    if i < tokens.len() {
        tokens[i as int].kind
    } else {
        TokenKind::TokenEOF
    }
}

/// A look at the token `lookahead` places ahead: its kind, and the point
/// with one unit of fuel less. Without fuel the look fails.
pub open spec fn nth(tokens: Seq<TokenView>, at: Point, lookahead: nat) -> (TokenKind, Point) {
    if !at.ok || at.fuel == 0 {
        (TokenKind::TokenEOF, at.dry())
    } else {
        (kind_at(tokens, at.pos + lookahead), Point { fuel: (at.fuel - 1) as nat, ..at })
    }
}

/// Takes the next token into the open span and refills the fuel.
pub open spec fn advance(tokens: Seq<TokenView>, at: Point) -> Yield {
    if !at.ok {
        Yield::nothing(at)
    } else {
        Yield {
            end: Point { pos: at.pos + 1, fuel: INITIAL_FUEL as nat, ok: true },
            children: seq![ChildView::Token(tokens[at.pos as int])],
            diagnostics: Seq::empty(),
        }
    }
}

/// Takes the next token if there is one and it is of kind `kind`; says
/// whether it did.
pub open spec fn eat(tokens: Seq<TokenView>, at: Point, kind: TokenKind) -> (bool, Yield) {
    let (found, looked) = nth(tokens, at, 0);
    if looked.ok && found == kind && at.pos < tokens.len() {
        (true, advance(tokens, looked))
    } else {
        (false, Yield::nothing(looked))
    }
}

/// Takes the next token if it is of kind `kind`, and says so if it is not.
pub open spec fn expect(tokens: Seq<TokenView>, at: Point, kind: TokenKind) -> Yield {
    let (eaten, taken) = eat(tokens, at, kind);
    if eaten || !taken.end.ok {
        taken
    } else {
        taken.saying(DiagnosticView::MissingToken { expected: kind, at: at.pos })
    }
}

/// Takes the next token into an error node of its own and says `message`.
pub open spec fn advance_with_error(tokens: Seq<TokenView>, at: Point, message: Seq<char>) -> Yield {
    if !at.ok {
        Yield::nothing(at)
    } else {
        advance(tokens, at).wrapped(TreeKind::ErrorTree).saying(
            DiagnosticView::Unexpected { message, at: at.pos },
        )
    }
}

/// Says `message`, and takes the next token into an error node if there is one.
pub open spec fn recover(tokens: Seq<TokenView>, at: Point, message: Seq<char>) -> Yield {
    if !at.ok {
        Yield::nothing(at)
    } else if at.pos < tokens.len() {
        advance_with_error(tokens, at, message)
    } else {
        Yield::nothing(at).saying(DiagnosticView::Unexpected { message, at: at.pos })
    }
}

/// How many tokens are left at `at`; zero once the fuel has run out.
pub open spec fn left(tokens: Seq<TokenView>, at: Point) -> nat {
    if at.ok && at.pos < tokens.len() {
        (tokens.len() - at.pos) as nat
    } else {
        0
    }
}

/// Whether a token of kind `kind` names a type by itself: an identifier, or
/// one of the words `unit`, `int`, `float`, `bool` and `str`.
pub open spec fn is_type_name(kind: TokenKind) -> bool {
    match kind {
        TokenKind::TokenIdentifier => true,
        TokenKind::TokenKeyword(keyword) => {
            ||| keyword == Keyword::UnitType
            ||| keyword == Keyword::IntType
            ||| keyword == Keyword::FloatType
            ||| keyword == Keyword::BoolType
            ||| keyword == Keyword::StrType
        },
        _ => false,
    }
}

/// `Type = Ident | "[" Type "]" | "(" Type ("," Type)* ")"`, under a node of
/// kind `TypeExpr`. A token that starts none of these is taken as an error.
pub open spec fn parse_type(tokens: Seq<TokenView>, at: Point) -> Yield
    decreases left(tokens, at), 0nat,
{
    let (kind, looked) = nth(tokens, at, 0);
    if !looked.ok {
        Yield::nothing(looked)
    } else if is_type_name(kind) {
        expect(tokens, looked, kind).wrapped(TreeKind::TypeExpr)
    } else if kind == TokenKind::TokenOpenBracket {
        let open = expect(tokens, looked, TokenKind::TokenOpenBracket);
        let item = parse_type(tokens, open.end);
        let close = expect(tokens, item.end, TokenKind::TokenCloseBracket);
        open.followed_by(item).followed_by(close).wrapped(TreeKind::TypeExpr)
    } else if kind == TokenKind::TokenOpenParen {
        let open = expect(tokens, looked, TokenKind::TokenOpenParen);
        let items = parse_type_list(tokens, open.end);
        let close = expect(tokens, items.end, TokenKind::TokenCloseParen);
        open.followed_by(items).followed_by(close).wrapped(TreeKind::TypeExpr)
    } else {
        recover(tokens, looked, "Expected type"@).wrapped(TreeKind::TypeExpr)
    }
}

/// `Type ("," Type)*`: one type, and one more after every comma.
pub open spec fn parse_type_list(tokens: Seq<TokenView>, at: Point) -> Yield
    decreases left(tokens, at), 1nat,
{
    let item = parse_type(tokens, at);
    let (eaten, comma) = eat(tokens, item.end, TokenKind::TokenComma);
    if eaten && left(tokens, comma.end) < left(tokens, at) {
        item.followed_by(comma).followed_by(parse_type_list(tokens, comma.end))
    } else {
        item.followed_by(comma)
    }
}

/// `Expr = Int | Float | Bool | Str`, under a node of kind `ExprLiteral`.
/// Any other token is taken under an error node instead.
pub open spec fn parse_expr(tokens: Seq<TokenView>, at: Point) -> Yield {
    let (kind, looked) = nth(tokens, at, 0);
    if !looked.ok {
        Yield::nothing(looked)
    } else if kind is TokenLiteral {
        advance(tokens, looked).wrapped(TreeKind::ExprLiteral)
    } else {
        let skipped = if at.pos < tokens.len() {
            advance(tokens, looked)
        } else {
            Yield::nothing(looked)
        };
        skipped.wrapped(TreeKind::ErrorTree).saying(
            DiagnosticView::Unexpected { message: "Expected expression"@, at: at.pos },
        )
    }
}

/// `StmtExpr = Expr "\n"`, under a node of kind `StmtExpr`.
pub open spec fn parse_stmt_expr(tokens: Seq<TokenView>, at: Point) -> Yield {
    let expr = parse_expr(tokens, at);
    let end_of_line = expect(tokens, expr.end, TokenKind::TokenNewLine);
    expr.followed_by(end_of_line).wrapped(TreeKind::StmtExpr)
}

/// `StmtVarDecl = Ident ":" Type "=" StmtExpr`, under a node of kind
/// `StmtVarDecl`.
pub open spec fn parse_var_decl(tokens: Seq<TokenView>, at: Point) -> Yield {
    let name = expect(tokens, at, TokenKind::TokenIdentifier);
    let colon = expect(tokens, name.end, TokenKind::TokenColon);
    let type_expr = parse_type(tokens, colon.end);
    let assign = expect(tokens, type_expr.end, TokenKind::TokenAssign);
    let value = parse_stmt_expr(tokens, assign.end);
    name.followed_by(colon).followed_by(type_expr).followed_by(assign).followed_by(value).wrapped(TreeKind::StmtVarDecl)
}

/// A comment, under a node of its own.
pub open spec fn parse_comment(tokens: Seq<TokenView>, at: Point) -> Yield {
    if !at.ok {
        Yield::nothing(at)
    } else {
        advance(tokens, at).wrapped(TreeKind::Comment)
    }
}

/// Function declarations have no rule yet: the name is taken as an error.
pub open spec fn parse_fun_decl(tokens: Seq<TokenView>, at: Point) -> Yield {
    advance_with_error(tokens, at, "Function declarations are not supported"@)
}

/// One statement, chosen by the tokens ahead: a comment; `Ident ":" "("`, a
/// function declaration; `Ident ":"`, a variable declaration; a literal, an
/// expression statement. The end-of-file token is taken as it is, and any
/// other token as an error.
pub open spec fn parse_statement(tokens: Seq<TokenView>, at: Point) -> Yield {
    let (first, looked) = nth(tokens, at, 0);
    if !looked.ok {
        Yield::nothing(looked)
    } else if first == TokenKind::TokenEOF {
        advance(tokens, looked)
    } else if first == TokenKind::TokenComment {
        parse_comment(tokens, looked)
    } else if first == TokenKind::TokenIdentifier {
        let (second, looked) = nth(tokens, looked, 1);
        if !looked.ok {
            Yield::nothing(looked)
        } else if second == TokenKind::TokenColon {
            let (third, looked) = nth(tokens, looked, 2);
            if !looked.ok {
                Yield::nothing(looked)
            } else if third == TokenKind::TokenOpenParen {
                parse_fun_decl(tokens, looked)
            } else {
                parse_var_decl(tokens, looked)
            }
        } else {
            advance_with_error(tokens, looked, "Expected statement"@)
        }
    } else if first is TokenLiteral {
        parse_stmt_expr(tokens, looked)
    } else {
        advance_with_error(tokens, looked, "Expected statement"@)
    }
}

/// Whether `made` accounts for the tokens from `at` on: it stops at or
/// after `at` and inside the array, and its tokens are exactly those it
/// passed over.
pub open spec fn accounts(tokens: Seq<TokenView>, at: Point, made: Yield) -> bool {
    &&& at.pos <= made.end.pos <= tokens.len()
    &&& made.end.ok ==> at.ok
    &&& tokens_of(made.children) == tokens.subrange(at.pos as int, made.end.pos as int)
}

/// Whether `at` is a point a parse of `tokens` may stand at.
pub open spec fn within(tokens: Seq<TokenView>, at: Point) -> bool {
    at.pos <= tokens.len()
}

/// Nothing accounts for no tokens.
pub proof fn lemma_nothing_accounts(tokens: Seq<TokenView>, at: Point, end: Point)
    requires
        within(tokens, at),
        end.pos == at.pos,
        end.ok ==> at.ok,
    ensures
        accounts(tokens, at, Yield::nothing(end)),
{
    assert(tokens_of(Seq::<ChildView>::empty()) =~= tokens.subrange(at.pos as int, at.pos as int));
}

/// Two accounts, one after the other, are one account.
pub proof fn lemma_followed_by_accounts(
    tokens: Seq<TokenView>,
    at: Point,
    first: Yield,
    second: Yield,
)
    requires
        accounts(tokens, at, first),
        accounts(tokens, first.end, second),
    ensures
        accounts(tokens, at, first.followed_by(second)),
{
    lemma_children_add(first.children, second.children);
    assert(tokens.subrange(at.pos as int, first.end.pos as int) + tokens.subrange(
        first.end.pos as int,
        second.end.pos as int,
    ) =~= tokens.subrange(at.pos as int, second.end.pos as int));
}

/// An account gathered under one node is still an account.
pub proof fn lemma_wrapped_accounts(tokens: Seq<TokenView>, at: Point, made: Yield, kind: TreeKind)
    requires
        accounts(tokens, at, made),
    ensures
        accounts(tokens, at, made.wrapped(kind)),
{
    lemma_children_single(ChildView::Tree(TreeView { kind, children: made.children }));
}

/// Taking a token accounts for it.
pub proof fn lemma_advance_accounts(tokens: Seq<TokenView>, at: Point)
    requires
        within(tokens, at),
        at.ok ==> at.pos < tokens.len(),
    ensures
        accounts(tokens, at, advance(tokens, at)),
{
    if at.ok {
        lemma_children_single(ChildView::Token(tokens[at.pos as int]));
        assert(seq![tokens[at.pos as int]] =~= tokens.subrange(at.pos as int, at.pos as int + 1));
    } else {
        lemma_nothing_accounts(tokens, at, at);
    }
}

/// Eating and expecting a token account for it.
pub proof fn lemma_expect_accounts(tokens: Seq<TokenView>, at: Point, kind: TokenKind)
    requires
        within(tokens, at),
    ensures
        accounts(tokens, at, eat(tokens, at, kind).1),
        accounts(tokens, at, expect(tokens, at, kind)),
        eat(tokens, at, kind).0 ==> left(tokens, eat(tokens, at, kind).1.end) < left(tokens, at),
{
    let (found, looked) = nth(tokens, at, 0);
    if looked.ok && found == kind && at.pos < tokens.len() {
        lemma_advance_accounts(tokens, looked);
    } else {
        lemma_nothing_accounts(tokens, at, looked);
    }
}

/// Taking a token as an error accounts for it.
pub proof fn lemma_recover_accounts(tokens: Seq<TokenView>, at: Point, message: Seq<char>)
    requires
        within(tokens, at),
    ensures
        accounts(tokens, at, recover(tokens, at, message)),
        at.ok && at.pos < tokens.len() ==> accounts(
            tokens,
            at,
            advance_with_error(tokens, at, message),
        ),
{
    if at.ok && at.pos < tokens.len() {
        lemma_advance_accounts(tokens, at);
        lemma_wrapped_accounts(tokens, at, advance(tokens, at), TreeKind::ErrorTree);
    } else {
        lemma_nothing_accounts(tokens, at, at);
    }
}

/// A type accounts for its tokens.
pub proof fn lemma_type_accounts(tokens: Seq<TokenView>, at: Point)
    requires
        within(tokens, at),
    ensures
        accounts(tokens, at, parse_type(tokens, at)),
    decreases left(tokens, at), 0nat,
{
    let (kind, looked) = nth(tokens, at, 0);
    if !looked.ok {
        lemma_nothing_accounts(tokens, at, looked);
    } else if is_type_name(kind) {
        lemma_expect_accounts(tokens, looked, kind);
        lemma_wrapped_accounts(tokens, at, expect(tokens, looked, kind), TreeKind::TypeExpr);
    } else if kind == TokenKind::TokenOpenBracket {
        let open = expect(tokens, looked, TokenKind::TokenOpenBracket);
        lemma_expect_accounts(tokens, looked, TokenKind::TokenOpenBracket);
        let item = parse_type(tokens, open.end);
        lemma_type_accounts(tokens, open.end);
        let close = expect(tokens, item.end, TokenKind::TokenCloseBracket);
        lemma_expect_accounts(tokens, item.end, TokenKind::TokenCloseBracket);
        lemma_followed_by_accounts(tokens, at, open, item);
        lemma_followed_by_accounts(tokens, at, open.followed_by(item), close);
        lemma_wrapped_accounts(
            tokens,
            at,
            open.followed_by(item).followed_by(close),
            TreeKind::TypeExpr,
        );
    } else if kind == TokenKind::TokenOpenParen {
        let open = expect(tokens, looked, TokenKind::TokenOpenParen);
        lemma_expect_accounts(tokens, looked, TokenKind::TokenOpenParen);
        let items = parse_type_list(tokens, open.end);
        lemma_type_list_accounts(tokens, open.end);
        let close = expect(tokens, items.end, TokenKind::TokenCloseParen);
        lemma_expect_accounts(tokens, items.end, TokenKind::TokenCloseParen);
        lemma_followed_by_accounts(tokens, at, open, items);
        lemma_followed_by_accounts(tokens, at, open.followed_by(items), close);
        lemma_wrapped_accounts(
            tokens,
            at,
            open.followed_by(items).followed_by(close),
            TreeKind::TypeExpr,
        );
    } else {
        lemma_recover_accounts(tokens, looked, "Expected type"@);
        lemma_wrapped_accounts(
            tokens,
            at,
            recover(tokens, looked, "Expected type"@),
            TreeKind::TypeExpr,
        );
    }
}

/// A list of types accounts for its tokens.
pub proof fn lemma_type_list_accounts(tokens: Seq<TokenView>, at: Point)
    requires
        within(tokens, at),
    ensures
        accounts(tokens, at, parse_type_list(tokens, at)),
    decreases left(tokens, at), 1nat,
{
    let item = parse_type(tokens, at);
    lemma_type_accounts(tokens, at);
    let (eaten, comma) = eat(tokens, item.end, TokenKind::TokenComma);
    lemma_expect_accounts(tokens, item.end, TokenKind::TokenComma);
    lemma_followed_by_accounts(tokens, at, item, comma);
    if eaten && left(tokens, comma.end) < left(tokens, at) {
        lemma_type_list_accounts(tokens, comma.end);
        lemma_followed_by_accounts(
            tokens,
            at,
            item.followed_by(comma),
            parse_type_list(tokens, comma.end),
        );
    }
}

/// After a comma that was eaten, fewer tokens are left than before the
/// type in front of it: a list of types always goes on to its end.
pub proof fn lemma_type_list_goes_on(tokens: Seq<TokenView>, at: Point)
    requires
        within(tokens, at),
    ensures
        ({
            let item = parse_type(tokens, at);
            let (eaten, comma) = eat(tokens, item.end, TokenKind::TokenComma);
            eaten ==> left(tokens, comma.end) < left(tokens, at)
        }),
{
    lemma_type_accounts(tokens, at);
    lemma_expect_accounts(tokens, parse_type(tokens, at).end, TokenKind::TokenComma);
}

/// An expression accounts for its tokens.
pub proof fn lemma_expr_accounts(tokens: Seq<TokenView>, at: Point)
    requires
        within(tokens, at),
    ensures
        accounts(tokens, at, parse_expr(tokens, at)),
        accounts(tokens, at, parse_stmt_expr(tokens, at)),
        parse_expr(tokens, at).end.pos <= parse_stmt_expr(tokens, at).end.pos,
{
    let (kind, looked) = nth(tokens, at, 0);
    if !looked.ok {
        lemma_nothing_accounts(tokens, at, looked);
    } else if kind is TokenLiteral {
        lemma_advance_accounts(tokens, looked);
        lemma_wrapped_accounts(tokens, at, advance(tokens, looked), TreeKind::ExprLiteral);
    } else {
        if at.pos < tokens.len() {
            lemma_advance_accounts(tokens, looked);
            lemma_wrapped_accounts(tokens, at, advance(tokens, looked), TreeKind::ErrorTree);
        } else {
            lemma_nothing_accounts(tokens, at, looked);
            lemma_wrapped_accounts(tokens, at, Yield::nothing(looked), TreeKind::ErrorTree);
        }
    }
    let expr = parse_expr(tokens, at);
    lemma_expect_accounts(tokens, expr.end, TokenKind::TokenNewLine);
    lemma_followed_by_accounts(
        tokens,
        at,
        expr,
        expect(tokens, expr.end, TokenKind::TokenNewLine),
    );
    lemma_wrapped_accounts(
        tokens,
        at,
        expr.followed_by(expect(tokens, expr.end, TokenKind::TokenNewLine)),
        TreeKind::StmtExpr,
    );
}

/// A variable declaration accounts for its tokens.
pub proof fn lemma_var_decl_accounts(tokens: Seq<TokenView>, at: Point)
    requires
        within(tokens, at),
    ensures
        accounts(tokens, at, parse_var_decl(tokens, at)),
        expect(tokens, at, TokenKind::TokenIdentifier).end.pos <= parse_var_decl(
            tokens,
            at,
        ).end.pos,
{
    let name = expect(tokens, at, TokenKind::TokenIdentifier);
    let colon = expect(tokens, name.end, TokenKind::TokenColon);
    let type_expr = parse_type(tokens, colon.end);
    let assign = expect(tokens, type_expr.end, TokenKind::TokenAssign);
    let value = parse_stmt_expr(tokens, assign.end);
    lemma_expect_accounts(tokens, at, TokenKind::TokenIdentifier);
    lemma_expect_accounts(tokens, name.end, TokenKind::TokenColon);
    lemma_type_accounts(tokens, colon.end);
    lemma_expect_accounts(tokens, type_expr.end, TokenKind::TokenAssign);
    lemma_expr_accounts(tokens, assign.end);
    lemma_followed_by_accounts(tokens, at, name, colon);
    lemma_followed_by_accounts(tokens, at, name.followed_by(colon), type_expr);
    lemma_followed_by_accounts(tokens, at, name.followed_by(colon).followed_by(type_expr), assign);
    lemma_followed_by_accounts(
        tokens,
        at,
        name.followed_by(colon).followed_by(type_expr).followed_by(assign),
        value,
    );
    lemma_wrapped_accounts(
        tokens,
        at,
        name.followed_by(colon).followed_by(type_expr).followed_by(assign).followed_by(value),
        TreeKind::StmtVarDecl,
    );
}

/// A statement accounts for its tokens, and takes at least one.
pub proof fn lemma_statement_accounts(tokens: Seq<TokenView>, at: Point)
    requires
        within(tokens, at),
        at.pos < tokens.len(),
    ensures
        accounts(tokens, at, parse_statement(tokens, at)),
        at.ok ==> left(tokens, parse_statement(tokens, at).end) < left(tokens, at),
{
    let (first, looked) = nth(tokens, at, 0);
    if !looked.ok {
        lemma_nothing_accounts(tokens, at, looked);
    } else if first == TokenKind::TokenEOF {
        lemma_advance_accounts(tokens, looked);
    } else if first == TokenKind::TokenComment {
        lemma_advance_accounts(tokens, looked);
        lemma_wrapped_accounts(tokens, at, advance(tokens, looked), TreeKind::Comment);
    } else if first == TokenKind::TokenIdentifier {
        let (second, looked) = nth(tokens, looked, 1);
        if !looked.ok {
            lemma_nothing_accounts(tokens, at, looked);
        } else if second == TokenKind::TokenColon {
            let (third, looked) = nth(tokens, looked, 2);
            if !looked.ok {
                lemma_nothing_accounts(tokens, at, looked);
            } else if third == TokenKind::TokenOpenParen {
                lemma_recover_accounts(
                    tokens,
                    looked,
                    "Function declarations are not supported"@,
                );
            } else {
                lemma_var_decl_accounts(tokens, looked);
                lemma_expect_accounts(tokens, looked, TokenKind::TokenIdentifier);
            }
        } else {
            lemma_recover_accounts(tokens, looked, "Expected statement"@);
        }
    } else if first is TokenLiteral {
        lemma_expr_accounts(tokens, looked);
    } else {
        lemma_recover_accounts(tokens, looked, "Expected statement"@);
    }
}

/// `(Comment | StmtVarDecl | StmtExpr)*`: statements up to the end of the
/// token array.
pub open spec fn parse_statements(tokens: Seq<TokenView>, at: Point) -> Yield
    decreases left(tokens, at),
    via parse_statements_decreases
{
    if !at.ok || at.pos >= tokens.len() {
        Yield::nothing(at)
    } else {
        let statement = parse_statement(tokens, at);
        statement.followed_by(parse_statements(tokens, statement.end))
    }
}

#[via_fn]
proof fn parse_statements_decreases(tokens: Seq<TokenView>, at: Point) {
    if at.ok && at.pos < tokens.len() {
        lemma_statement_accounts(tokens, at);
    }
}

/// `File`: all the statements, under a node of kind `File`.
pub open spec fn parse_file(tokens: Seq<TokenView>, at: Point) -> Yield {
    parse_statements(tokens, at).wrapped(TreeKind::File)
}

/// The statements of a file account for all the tokens that were left.
pub proof fn lemma_statements_account(tokens: Seq<TokenView>, at: Point)
    requires
        within(tokens, at),
    ensures
        accounts(tokens, at, parse_statements(tokens, at)),
        accounts(tokens, at, parse_file(tokens, at)),
        parse_statements(tokens, at).end.ok ==> parse_statements(tokens, at).end.pos
            == tokens.len(),
    decreases left(tokens, at),
{
    if !at.ok || at.pos >= tokens.len() {
        lemma_nothing_accounts(tokens, at, at);
    } else {
        let statement = parse_statement(tokens, at);
        lemma_statement_accounts(tokens, at);
        lemma_statements_account(tokens, statement.end);
        lemma_followed_by_accounts(
            tokens,
            at,
            statement,
            parse_statements(tokens, statement.end),
        );
    }
    lemma_wrapped_accounts(tokens, at, parse_statements(tokens, at), TreeKind::File);
}

/// Once the fuel has run out, no rule brings it back.
pub proof fn lemma_dry_stays_dry(tokens: Seq<TokenView>, at: Point)
    requires
        !at.ok,
    ensures
        !parse_type(tokens, at).end.ok,
        !parse_type_list(tokens, at).end.ok,
        !parse_expr(tokens, at).end.ok,
        !parse_stmt_expr(tokens, at).end.ok,
        !parse_var_decl(tokens, at).end.ok,
        !parse_statement(tokens, at).end.ok,
        !parse_statements(tokens, at).end.ok,
        !parse_file(tokens, at).end.ok,
{
    let item = parse_type(tokens, at);
    assert(!item.end.ok);
    assert(!eat(tokens, item.end, TokenKind::TokenComma).0);
}

} // verus!
