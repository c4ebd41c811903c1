//! What the parser makes of well-formed text, and of one bad token in it.
//!
//! A tree is well formed if it is built by the rules of the grammar alone,
//! with no error node in it and no token missing. The parser reads the
//! tokens of such a tree back into that tree; and a token that starts no
//! statement, standing between two well-formed statements, costs one error
//! node and leaves both statements as they are.

use super::grammar::{
    eat, expect, is_type_name, kind_at, nth, parse_expr, parse_statement, parse_statements,
    parse_stmt_expr, parse_type, parse_type_list, parse_var_decl, DiagnosticView, Point, Yield,
    INITIAL_FUEL,
};
use super::tree::{
    lemma_children_add, lemma_children_single, tokens_of, ChildView, TreeKind, TreeView,
};
use crate::lexer::token::{TokenKind, TokenView};
use vstd::prelude::*;

verus! {

/// Whether `child` is a token of kind `kind`.
pub open spec fn is_token(child: ChildView, kind: TokenKind) -> bool {
    child matches ChildView::Token(token) && token.kind == kind
}

/// Whether `tree` is a type as the grammar writes it:
/// `Ident | "[" Type "]" | "(" Type ("," Type)* ")"`.
pub open spec fn is_type(tree: TreeView) -> bool
    decreases tree,
{
    let held = tree.children;
    &&& tree.kind == TreeKind::TypeExpr
    &&& held.len() >= 1
    &&& {
        ||| held.len() == 1 && (held[0] matches ChildView::Token(name) && is_type_name(name.kind))
        ||| {
            &&& held.len() == 3
            &&& is_token(held[0], TokenKind::TokenOpenBracket)
            &&& held[1] matches ChildView::Tree(item) && is_type(item)
            &&& is_token(held[2], TokenKind::TokenCloseBracket)
        }
        ||| {
            &&& held.len() >= 3
            &&& is_token(held[0], TokenKind::TokenOpenParen)
            &&& is_type_list(held.subrange(1, held.len() - 1))
            &&& is_token(held[held.len() - 1], TokenKind::TokenCloseParen)
        }
    }
}

/// Whether `items` is a list of types as the grammar writes it:
/// `Type ("," Type)*`.
pub open spec fn is_type_list(items: Seq<ChildView>) -> bool
    decreases items,
{
    &&& items.len() >= 1
    &&& items[0] matches ChildView::Tree(item) && is_type(item)
    &&& {
        ||| items.len() == 1
        ||| {
            &&& items.len() >= 3
            &&& is_token(items[1], TokenKind::TokenComma)
            &&& is_type_list(items.subrange(2, items.len() as int))
        }
    }
}

/// What a rule makes when it reads `children` and nothing goes wrong: it
/// stops after their tokens and has nothing to say.
pub open spec fn reads(at: Point, children: Seq<ChildView>, fuel: nat) -> Yield {
    Yield {
        end: Point { pos: at.pos + tokens_of(children).len(), fuel, ok: true },
        children,
        diagnostics: Seq::empty(),
    }
}

/// Whether the tokens of `children` stand in `tokens` from `at` on.
pub open spec fn stands_at(tokens: Seq<TokenView>, at: Point, children: Seq<ChildView>) -> bool {
    &&& at.ok
    &&& at.pos + tokens_of(children).len() <= tokens.len()
    &&& tokens.subrange(at.pos as int, (at.pos + tokens_of(children).len()) as int) == tokens_of(
        children,
    )
}

/// The tokens of a list of children that begins with `first`.
proof fn lemma_tokens_first(children: Seq<ChildView>)
    requires
        children.len() > 0,
    ensures
        tokens_of(children) == children[0].tokens() + tokens_of(
            children.subrange(1, children.len() as int),
        ),
{
    let rest = children.subrange(1, children.len() as int);
    assert(children =~= seq![children[0]] + rest);
    lemma_children_add(seq![children[0]], rest);
    lemma_children_single(children[0]);
}

/// The tokens of a list of children that ends with `last`.
proof fn lemma_tokens_last(children: Seq<ChildView>)
    requires
        children.len() > 0,
    ensures
        tokens_of(children) == tokens_of(children.drop_last()) + children.last().tokens(),
{
}

/// A part of what stands at a place stands at its own place.
proof fn lemma_stands_part(
    tokens: Seq<TokenView>,
    at: Point,
    before: Seq<TokenView>,
    part: Seq<ChildView>,
    after: Seq<TokenView>,
    whole: Seq<ChildView>,
    fuel: nat,
)
    requires
        stands_at(tokens, at, whole),
        tokens_of(whole) == before + tokens_of(part) + after,
    ensures
        stands_at(tokens, Point { pos: at.pos + before.len(), fuel, ok: true }, part),
        forall|i: int|
            0 <= i < after.len() ==> #[trigger] after[i] == tokens[at.pos + before.len()
                + tokens_of(part).len() + i],
        forall|i: int| 0 <= i < before.len() ==> #[trigger] before[i] == tokens[at.pos + i],
{
    let all = tokens_of(whole);
    let from = at.pos + before.len();
    let held = tokens_of(part);
    assert(tokens.subrange(from as int, (from + held.len()) as int) =~= held) by {
        assert forall|i: int| 0 <= i < held.len() implies tokens[from + i] == held[i] by {
            assert(tokens.subrange(at.pos as int, (at.pos + all.len()) as int)[before.len() + i]
                == all[before.len() + i]);
        }
    }
    assert forall|i: int| 0 <= i < after.len() implies #[trigger] after[i] == tokens[at.pos
        + before.len() + held.len() + i] by {
        assert(tokens.subrange(at.pos as int, (at.pos + all.len()) as int)[before.len()
            + held.len() + i] == all[before.len() + held.len() + i]);
    }
    assert forall|i: int| 0 <= i < before.len() implies #[trigger] before[i] == tokens[at.pos
        + i] by {
        assert(tokens.subrange(at.pos as int, (at.pos + all.len()) as int)[i] == all[i]);
    }
}

/// The parser reads the tokens of a well-formed type back into that type.
pub proof fn lemma_type_reads(tokens: Seq<TokenView>, at: Point, tree: TreeView)
    requires
        is_type(tree),
        stands_at(tokens, at, seq![ChildView::Tree(tree)]),
        at.fuel >= 2,
    ensures
        parse_type(tokens, at) == reads(at, seq![ChildView::Tree(tree)], INITIAL_FUEL as nat),
    decreases tree,
{
    let held = tree.children;
    let node = seq![ChildView::Tree(tree)];
    lemma_children_single(ChildView::Tree(tree));
    assert(tokens_of(node) == tokens_of(held));
    let (kind, looked) = nth(tokens, at, 0);
    lemma_tokens_first(held);
    let tail = held.subrange(1, held.len() as int);
    if held.len() == 1 {
        let name = held[0]->Token_0;
        assert(tail =~= Seq::<ChildView>::empty());
        assert(tokens_of(held) =~= seq![name]);
        assert(tokens.subrange(at.pos as int, (at.pos + 1) as int)[0] == name);
        let made = expect(tokens, looked, kind).wrapped(TreeKind::TypeExpr);
        assert(made.children =~= node) by {
            assert(expect(tokens, looked, kind).children =~= held);
        }
    } else if is_token(held[0], TokenKind::TokenOpenBracket) {
        let open_token = held[0]->Token_0;
        let item = held[1]->Tree_0;
        let close_token = held[2]->Token_0;
        lemma_tokens_first(tail);
        lemma_children_single(held[2]);
        assert(tail.subrange(1, tail.len() as int) =~= seq![held[2]]);
        assert(tokens_of(held) == seq![open_token] + item.tokens() + seq![close_token]);
        lemma_children_single(ChildView::Tree(item));
        lemma_stands_part(
            tokens,
            at,
            seq![open_token],
            seq![ChildView::Tree(item)],
            seq![close_token],
            node,
            INITIAL_FUEL as nat,
        );
        assert(seq![open_token][0] == tokens[at.pos as int]);
        let open = expect(tokens, looked, TokenKind::TokenOpenBracket);
        assert(open.end == Point { pos: at.pos + 1, fuel: INITIAL_FUEL as nat, ok: true });
        lemma_type_reads(tokens, open.end, item);
        let inner = parse_type(tokens, open.end);
        assert(seq![close_token][0] == tokens[(at.pos + 1 + item.tokens().len()) as int]);
        let close = expect(tokens, inner.end, TokenKind::TokenCloseBracket);
        let made = open.followed_by(inner).followed_by(close).wrapped(TreeKind::TypeExpr);
        assert(open.followed_by(inner).followed_by(close).children =~= held);
        assert(open.followed_by(inner).followed_by(close).diagnostics =~= Seq::<
            DiagnosticView,
        >::empty());
        assert(made.children =~= node);
    } else {
        let open_token = held[0]->Token_0;
        let close_token = held[held.len() - 1]->Token_0;
        let items = held.subrange(1, held.len() - 1);
        lemma_tokens_last(tail);
        assert(tail.drop_last() =~= items);
        lemma_children_single(held[held.len() - 1]);
        assert(tokens_of(held) == seq![open_token] + tokens_of(items) + seq![close_token]);
        lemma_stands_part(
            tokens,
            at,
            seq![open_token],
            items,
            seq![close_token],
            node,
            INITIAL_FUEL as nat,
        );
        assert(seq![open_token][0] == tokens[at.pos as int]);
        let open = expect(tokens, looked, TokenKind::TokenOpenParen);
        assert(open.end == Point { pos: at.pos + 1, fuel: INITIAL_FUEL as nat, ok: true });
        assert(seq![close_token][0] == tokens[(at.pos + 1 + tokens_of(items).len()) as int]);
        lemma_type_list_reads(tokens, open.end, items);
        let inner = parse_type_list(tokens, open.end);
        let close = expect(tokens, inner.end, TokenKind::TokenCloseParen);
        let made = open.followed_by(inner).followed_by(close).wrapped(TreeKind::TypeExpr);
        assert(open.followed_by(inner).followed_by(close).children =~= held);
        assert(open.followed_by(inner).followed_by(close).diagnostics =~= Seq::<
            DiagnosticView,
        >::empty());
        assert(made.children =~= node);
    }
}

/// The parser reads the tokens of a well-formed list of types back into
/// that list, up to the token after it, which is no comma.
pub proof fn lemma_type_list_reads(tokens: Seq<TokenView>, at: Point, items: Seq<ChildView>)
    requires
        is_type_list(items),
        stands_at(tokens, at, items),
        at.fuel >= 2,
        kind_at(tokens, at.pos + tokens_of(items).len()) != TokenKind::TokenComma,
    ensures
        parse_type_list(tokens, at) == reads(at, items, (INITIAL_FUEL - 1) as nat),
    decreases items,
{
    let first = items[0]->Tree_0;
    let tail = items.subrange(1, items.len() as int);
    lemma_tokens_first(items);
    lemma_children_single(items[0]);
    lemma_stands_part(
        tokens,
        at,
        Seq::empty(),
        seq![items[0]],
        tokens_of(tail),
        items,
        at.fuel,
    );
    assert(Seq::<TokenView>::empty() + tokens_of(seq![items[0]]) + tokens_of(tail) =~= tokens_of(
        items,
    ));
    lemma_type_reads(tokens, at, first);
    let item = parse_type(tokens, at);
    let (eaten, comma) = eat(tokens, item.end, TokenKind::TokenComma);
    if items.len() == 1 {
        assert(tail =~= Seq::<ChildView>::empty());
        assert(tokens_of(tail) =~= Seq::<TokenView>::empty());
        assert(!eaten);
        assert(item.followed_by(comma).children =~= items);
        assert(item.followed_by(comma).diagnostics =~= Seq::<DiagnosticView>::empty());
    } else {
        let comma_token = items[1]->Token_0;
        let rest = items.subrange(2, items.len() as int);
        lemma_tokens_first(tail);
        assert(tail.subrange(1, tail.len() as int) =~= rest);
        assert(tokens_of(items) == first.tokens() + seq![comma_token] + tokens_of(rest));
        lemma_stands_part(
            tokens,
            at,
            first.tokens() + seq![comma_token],
            rest,
            Seq::empty(),
            items,
            INITIAL_FUEL as nat,
        );
        assert(first.tokens() + seq![comma_token] + tokens_of(rest) + Seq::<TokenView>::empty()
            =~= tokens_of(items));
        assert((first.tokens() + seq![comma_token])[first.tokens().len() as int]
            == tokens[(at.pos + first.tokens().len()) as int]);
        assert(eaten);
        assert(comma.end == Point {
            pos: at.pos + first.tokens().len() + 1,
            fuel: INITIAL_FUEL as nat,
            ok: true,
        });
        lemma_type_list_reads(tokens, comma.end, rest);
        let more = parse_type_list(tokens, comma.end);
        assert(item.followed_by(comma).followed_by(more).children =~= items);
        assert(item.followed_by(comma).followed_by(more).diagnostics =~= Seq::<
            DiagnosticView,
        >::empty());
    }
}

/// Whether `tree` is an expression statement as the grammar writes it: a
/// literal and the line break after it.
pub open spec fn is_expr_statement(tree: TreeView) -> bool {
    let held = tree.children;
    &&& tree.kind == TreeKind::StmtExpr
    &&& held.len() == 2
    &&& held[0] matches ChildView::Tree(literal) && {
        &&& literal.kind == TreeKind::ExprLiteral
        &&& literal.children.len() == 1
        &&& literal.children[0] matches ChildView::Token(value) && value.kind is TokenLiteral
    }
    &&& is_token(held[1], TokenKind::TokenNewLine)
}

/// Whether `tree` is a variable declaration as the grammar writes it:
/// `Ident ":" Type "=" StmtExpr`. A declaration whose type begins with a
/// parenthesis reads as the start of a function declaration and is left out.
pub open spec fn is_var_decl(tree: TreeView) -> bool {
    let held = tree.children;
    &&& tree.kind == TreeKind::StmtVarDecl
    &&& held.len() == 5
    &&& is_token(held[0], TokenKind::TokenIdentifier)
    &&& is_token(held[1], TokenKind::TokenColon)
    &&& held[2] matches ChildView::Tree(type_expr) && is_type(type_expr) && !is_token(
        type_expr.children[0],
        TokenKind::TokenOpenParen,
    )
    &&& is_token(held[3], TokenKind::TokenAssign)
    &&& held[4] matches ChildView::Tree(value) && is_expr_statement(value)
}

/// Whether `tree` is a comment under its own node.
pub open spec fn is_comment(tree: TreeView) -> bool {
    &&& tree.kind == TreeKind::Comment
    &&& tree.children.len() == 1
    &&& is_token(tree.children[0], TokenKind::TokenComment)
}

/// Whether `tree` is a well-formed statement: a comment, an expression
/// statement or a variable declaration, with no error in it.
pub open spec fn is_statement(tree: TreeView) -> bool {
    is_comment(tree) || is_expr_statement(tree) || is_var_decl(tree)
}

/// Whether a token of kind `kind` may be the first of a statement.
pub open spec fn starts_statement(kind: TokenKind) -> bool {
    ||| kind == TokenKind::TokenComment
    ||| kind == TokenKind::TokenIdentifier
    ||| kind is TokenLiteral
}

/// The error node that holds the single token `token`.
pub open spec fn error_leaf(token: TokenView) -> TreeView {
    TreeView { kind: TreeKind::ErrorTree, children: seq![ChildView::Token(token)] }
}

/// The parser reads the tokens of a well-formed expression statement back
/// into that statement.
pub proof fn lemma_expr_statement_reads(tokens: Seq<TokenView>, at: Point, tree: TreeView)
    requires
        is_expr_statement(tree),
        stands_at(tokens, at, seq![ChildView::Tree(tree)]),
        at.fuel >= 1,
    ensures
        parse_stmt_expr(tokens, at) == reads(
            at,
            seq![ChildView::Tree(tree)],
            INITIAL_FUEL as nat,
        ),
{
    let held = tree.children;
    let node = seq![ChildView::Tree(tree)];
    let literal = held[0]->Tree_0;
    let value = literal.children[0]->Token_0;
    let line_break = held[1]->Token_0;
    lemma_children_single(ChildView::Tree(tree));
    lemma_tokens_first(held);
    assert(held.subrange(1, 2) =~= seq![held[1]]);
    lemma_children_single(held[1]);
    lemma_children_single(literal.children[0]);
    assert(literal.children =~= seq![literal.children[0]]);
    assert(tokens_of(held) =~= seq![value, line_break]);
    let window = tokens.subrange(at.pos as int, (at.pos + 2) as int);
    assert(window[0] == value);
    assert(window[1] == line_break);
    let expr = parse_expr(tokens, at);
    assert(expr.children =~= seq![held[0]]);
    let end_of_line = expect(tokens, expr.end, TokenKind::TokenNewLine);
    assert(expr.followed_by(end_of_line).children =~= held);
    assert(expr.followed_by(end_of_line).diagnostics =~= Seq::<DiagnosticView>::empty());
    assert(parse_stmt_expr(tokens, at).children =~= node);
}

/// The parser reads the tokens of a well-formed variable declaration back
/// into that declaration.
pub proof fn lemma_var_decl_reads(tokens: Seq<TokenView>, at: Point, tree: TreeView)
    requires
        is_var_decl(tree),
        stands_at(tokens, at, seq![ChildView::Tree(tree)]),
        at.fuel >= 1,
    ensures
        parse_var_decl(tokens, at) == reads(at, seq![ChildView::Tree(tree)], INITIAL_FUEL as nat),
        kind_at(tokens, at.pos) == TokenKind::TokenIdentifier,
        kind_at(tokens, at.pos + 1) == TokenKind::TokenColon,
        kind_at(tokens, at.pos + 2) != TokenKind::TokenOpenParen,
{
    let held = tree.children;
    let node = seq![ChildView::Tree(tree)];
    let name_token = held[0]->Token_0;
    let colon_token = held[1]->Token_0;
    let type_tree = held[2]->Tree_0;
    let assign_token = held[3]->Token_0;
    let value_tree = held[4]->Tree_0;
    lemma_children_single(ChildView::Tree(tree));
    lemma_children_single(held[2]);
    lemma_children_single(held[4]);
    let front = seq![name_token, colon_token];
    let middle = seq![assign_token];
    assert(tokens_of(held) =~= front + type_tree.tokens() + middle + value_tree.tokens()) by {
        lemma_tokens_first(held);
        let one = held.subrange(1, 5);
        lemma_tokens_first(one);
        let two = one.subrange(1, 4);
        lemma_tokens_first(two);
        let three = two.subrange(1, 3);
        lemma_tokens_first(three);
        let four = three.subrange(1, 2);
        assert(four =~= seq![held[4]]);
    }
    assert(front + type_tree.tokens() + (middle + value_tree.tokens()) =~= tokens_of(held));
    lemma_stands_part(
        tokens,
        at,
        front,
        seq![held[2]],
        middle + value_tree.tokens(),
        node,
        INITIAL_FUEL as nat,
    );
    assert(front + type_tree.tokens() + middle + value_tree.tokens() + Seq::<TokenView>::empty()
        =~= tokens_of(held));
    lemma_stands_part(
        tokens,
        at,
        front + type_tree.tokens() + middle,
        seq![held[4]],
        Seq::empty(),
        node,
        INITIAL_FUEL as nat,
    );
    assert(front[0] == tokens[at.pos as int]);
    assert(front[1] == tokens[(at.pos + 1) as int]);
    assert((middle + value_tree.tokens())[0] == tokens[(at.pos + 2 + type_tree.tokens().len())
        as int]);
    assert(type_tree.tokens().len() > 0 && type_tree.tokens()[0].kind
        != TokenKind::TokenOpenParen) by {
        lemma_tokens_first(type_tree.children);
    }
    assert(type_tree.tokens()[0] == tokens[(at.pos + 2) as int]) by {
        let all = tokens_of(held);
        assert(tokens.subrange(at.pos as int, (at.pos + all.len()) as int)[2] == all[2]);
    }
    let name = expect(tokens, at, TokenKind::TokenIdentifier);
    let colon = expect(tokens, name.end, TokenKind::TokenColon);
    assert(colon.end == Point { pos: at.pos + 2, fuel: INITIAL_FUEL as nat, ok: true });
    lemma_type_reads(tokens, colon.end, type_tree);
    let type_expr = parse_type(tokens, colon.end);
    let assign = expect(tokens, type_expr.end, TokenKind::TokenAssign);
    assert(assign.end == Point {
        pos: at.pos + 3 + type_tree.tokens().len(),
        fuel: INITIAL_FUEL as nat,
        ok: true,
    });
    lemma_expr_statement_reads(tokens, assign.end, value_tree);
    let value = parse_stmt_expr(tokens, assign.end);
    let inner = name.followed_by(colon).followed_by(type_expr).followed_by(assign).followed_by(
        value,
    );
    assert(inner.children =~= held);
    assert(inner.diagnostics =~= Seq::<DiagnosticView>::empty());
    assert(parse_var_decl(tokens, at).children =~= node);
}

/// The parser reads the tokens of a well-formed statement back into that
/// statement.
pub proof fn lemma_statement_reads(tokens: Seq<TokenView>, at: Point, tree: TreeView)
    requires
        is_statement(tree),
        stands_at(tokens, at, seq![ChildView::Tree(tree)]),
        at.fuel >= 4,
    ensures
        parse_statement(tokens, at) == reads(at, seq![ChildView::Tree(tree)], INITIAL_FUEL as nat),
        tree.tokens().len() > 0,
{
    let node = seq![ChildView::Tree(tree)];
    lemma_children_single(ChildView::Tree(tree));
    let (first, looked) = nth(tokens, at, 0);
    if is_comment(tree) {
        let comment = tree.children[0]->Token_0;
        assert(tree.children =~= seq![tree.children[0]]);
        lemma_children_single(tree.children[0]);
        assert(tokens.subrange(at.pos as int, (at.pos + 1) as int)[0] == comment);
        assert(parse_statement(tokens, at).children =~= node);
    } else if is_expr_statement(tree) {
        lemma_expr_statement_reads(tokens, looked, tree);
        let literal = tree.children[0]->Tree_0;
        let value = literal.children[0]->Token_0;
        lemma_tokens_first(tree.children);
        lemma_children_single(literal.children[0]);
        assert(literal.children =~= seq![literal.children[0]]);
        assert(tokens_of(tree.children)[0] == value);
        assert(tokens.subrange(at.pos as int, (at.pos + tree.tokens().len()) as int)[0]
            == value);
    } else {
        let looked = nth(tokens, nth(tokens, looked, 1).1, 2).1;
        lemma_var_decl_reads(tokens, looked, tree);
        lemma_tokens_first(tree.children);
    }
}

/// Whether `child` is what a file holds where a statement may stand: a
/// well-formed statement; the end-of-file token; or an error node around one
/// token that starts no statement.
pub open spec fn is_item(child: ChildView) -> bool {
    match child {
        ChildView::Tree(tree) => is_statement(tree) || is_stray(tree),
        ChildView::Token(token) => token.kind == TokenKind::TokenEOF,
    }
}

/// Whether `tree` is an error node around one token that starts no
/// statement and is not the end of the file.
pub open spec fn is_stray(tree: TreeView) -> bool {
    &&& tree.kind == TreeKind::ErrorTree
    &&& tree.children.len() == 1
    &&& tree.children[0] matches ChildView::Token(token) && !starts_statement(token.kind)
        && token.kind != TokenKind::TokenEOF
}

/// Whether every one of `items` is an item of a file.
pub open spec fn are_items(items: Seq<ChildView>) -> bool {
    forall|i: int| 0 <= i < items.len() ==> is_item(#[trigger] items[i])
}

/// What the parser has to say of `items` that begin at token `at`: of every
/// stray token, that a statement was expected where it stands.
pub open spec fn said_of(items: Seq<ChildView>, at: nat) -> Seq<DiagnosticView>
    decreases items.len(),
{
    if items.len() == 0 {
        Seq::empty()
    } else {
        let rest = said_of(items.subrange(1, items.len() as int), at + items[0].tokens().len());
        match items[0] {
            ChildView::Tree(tree) if is_stray(tree) => seq![
                DiagnosticView::Unexpected { message: "Expected statement"@, at },
            ] + rest,
            _ => rest,
        }
    }
}

/// The parser reads the tokens of one item back into that item.
proof fn lemma_item_reads(tokens: Seq<TokenView>, at: Point, item: ChildView)
    requires
        is_item(item),
        stands_at(tokens, at, seq![item]),
        at.fuel >= 4,
    ensures
        parse_statement(tokens, at).end == (Point {
            pos: at.pos + item.tokens().len(),
            fuel: INITIAL_FUEL as nat,
            ok: true,
        }),
        parse_statement(tokens, at).children == seq![item],
        parse_statement(tokens, at).diagnostics == said_of(seq![item], at.pos),
        item.tokens().len() > 0,
{
    lemma_children_single(item);
    let one = seq![item];
    assert(one.subrange(1, 1) =~= Seq::<ChildView>::empty());
    assert(said_of(one.subrange(1, 1), at.pos + item.tokens().len()) =~= Seq::<
        DiagnosticView,
    >::empty());
    match item {
        ChildView::Tree(tree) => {
            if is_statement(tree) {
                lemma_statement_reads(tokens, at, tree);
                assert(said_of(one, at.pos) =~= Seq::<DiagnosticView>::empty());
            } else {
                let token = tree.children[0]->Token_0;
                assert(tree.children =~= seq![tree.children[0]]);
                lemma_children_single(tree.children[0]);
                assert(tokens.subrange(at.pos as int, (at.pos + 1) as int)[0] == token);
                let made = parse_statement(tokens, at);
                assert(made.children =~= one);
                assert(made.diagnostics =~= said_of(one, at.pos));
            }
        },
        ChildView::Token(token) => {
            assert(tokens.subrange(at.pos as int, (at.pos + 1) as int)[0] == token);
            assert(said_of(one, at.pos) =~= Seq::<DiagnosticView>::empty());
            assert(parse_statement(tokens, at).children =~= one);
        },
    }
}

/// The parser reads a token array that is made of well-formed statements
/// and stray tokens back into those statements, with every stray token in
/// an error node of its own, and has one thing to say of every stray token.
pub proof fn lemma_items_read(tokens: Seq<TokenView>, at: Point, items: Seq<ChildView>)
    requires
        are_items(items),
        stands_at(tokens, at, items),
        at.pos + tokens_of(items).len() == tokens.len(),
        at.fuel >= 4,
    ensures
        parse_statements(tokens, at).end.ok,
        parse_statements(tokens, at).end.pos == tokens.len(),
        parse_statements(tokens, at).children == items,
        parse_statements(tokens, at).diagnostics == said_of(items, at.pos),
    decreases items.len(),
{
    if items.len() == 0 {
        assert(tokens_of(items) =~= Seq::<TokenView>::empty());
        assert(parse_statements(tokens, at).children =~= items);
    } else {
        let first = items[0];
        let rest = items.subrange(1, items.len() as int);
        lemma_tokens_first(items);
        lemma_children_single(first);
        assert(is_item(first));
        assert(are_items(rest)) by {
            assert forall|i: int| 0 <= i < rest.len() implies is_item(#[trigger] rest[i]) by {
                assert(rest[i] == items[i + 1]);
            }
        }
        lemma_stands_part(
            tokens,
            at,
            Seq::empty(),
            seq![first],
            tokens_of(rest),
            items,
            at.fuel,
        );
        assert(Seq::<TokenView>::empty() + tokens_of(seq![first]) + tokens_of(rest) =~= tokens_of(
            items,
        ));
        lemma_item_reads(tokens, at, first);
        let statement = parse_statement(tokens, at);
        lemma_stands_part(
            tokens,
            at,
            first.tokens(),
            rest,
            Seq::empty(),
            items,
            INITIAL_FUEL as nat,
        );
        assert(first.tokens() + tokens_of(rest) + Seq::<TokenView>::empty() =~= tokens_of(items));
        lemma_items_read(tokens, statement.end, rest);
        let more = parse_statements(tokens, statement.end);
        assert(at.pos < tokens.len());
        assert(parse_statements(tokens, at) == statement.followed_by(more));
        assert(statement.followed_by(more).children =~= items);
        assert(statement.followed_by(more).diagnostics =~= said_of(items, at.pos)) by {
            assert(said_of(seq![first], at.pos) + said_of(rest, at.pos + first.tokens().len())
                =~= said_of(items, at.pos)) by {
                let one = seq![first];
                assert(one.subrange(1, 1) =~= Seq::<ChildView>::empty());
                assert(said_of(one.subrange(1, 1), at.pos + first.tokens().len()) =~= Seq::<
                    DiagnosticView,
                >::empty());
            }
        }
    }
}

/// A token that starts no statement and is not the end of the file,
/// standing between two well-formed statements, is taken into one error node
/// of its own. The statement before it and the statement after it are read
/// as if it were not there, and the parse has one thing to say: that it
/// expected a statement where the token stands.
pub proof fn lemma_error_containment(
    before: TreeView,
    bad: TokenView,
    after: TreeView,
    fuel: nat,
)
    requires
        is_statement(before),
        is_statement(after),
        !starts_statement(bad.kind),
        bad.kind != TokenKind::TokenEOF,
        fuel >= 4,
    ensures
        ({
            let tokens = before.tokens() + seq![bad] + after.tokens();
            let made = parse_statements(tokens, Point { pos: 0, fuel, ok: true });
            &&& made.end.ok
            &&& made.children == seq![
                ChildView::Tree(before),
                ChildView::Tree(error_leaf(bad)),
                ChildView::Tree(after),
            ]
            &&& made.diagnostics == seq![
                DiagnosticView::Unexpected {
                    message: "Expected statement"@,
                    at: before.tokens().len(),
                },
            ]
        }),
{
    let tokens = before.tokens() + seq![bad] + after.tokens();
    let start = Point { pos: 0, fuel, ok: true };
    let stray = ChildView::Tree(error_leaf(bad));
    let items = seq![ChildView::Tree(before), stray, ChildView::Tree(after)];
    let tail = seq![stray, ChildView::Tree(after)];
    let last = seq![ChildView::Tree(after)];
    assert(is_stray(error_leaf(bad)));
    assert(!is_statement(error_leaf(bad)));
    assert(are_items(items));
    lemma_tokens_first(items);
    assert(items.subrange(1, 3) =~= tail);
    lemma_tokens_first(tail);
    assert(tail.subrange(1, 2) =~= last);
    lemma_children_single(ChildView::Tree(after));
    lemma_children_single(ChildView::Token(bad));
    assert(error_leaf(bad).tokens() =~= seq![bad]);
    assert(tokens_of(items) =~= tokens);
    assert(tokens.subrange(0, tokens.len() as int) =~= tokens);
    lemma_items_read(tokens, start, items);
    assert(said_of(items, 0) =~= seq![
        DiagnosticView::Unexpected { message: "Expected statement"@, at: before.tokens().len() },
    ]) by {
        assert(last.subrange(1, 1) =~= Seq::<ChildView>::empty());
        let after_all = before.tokens().len() + 1 + after.tokens().len();
        assert(said_of(last.subrange(1, 1), after_all as nat) =~= Seq::<DiagnosticView>::empty());
        assert(said_of(last, (before.tokens().len() + 1) as nat) =~= Seq::<
            DiagnosticView,
        >::empty());
        assert(said_of(tail, before.tokens().len()) =~= seq![
            DiagnosticView::Unexpected {
                message: "Expected statement"@,
                at: before.tokens().len(),
            },
        ]);
    }
}

} // verus!
