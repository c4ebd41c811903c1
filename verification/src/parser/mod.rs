//! Tree building: from tokens to a syntax tree.
//!
//! The [`Parser`] walks the token array once and writes a log of events; a
//! second pass folds the log into the [`Tree`]. A rule opens its span before
//! it knows what the span will be, and names it when it closes it. A token
//! that starts nothing is taken into an error node of its own, so that one
//! bad token costs one leaf.

pub mod grammar;
pub mod laws;
pub mod recovery;
pub mod tree;

use crate::lexer::token::{token_views, Keyword, Token, TokenKind, TokenView};
use grammar::{
    diagnostic_views, lemma_dry_stays_dry, lemma_statement_accounts, lemma_type_list_goes_on, left,
    Diagnostic, DiagnosticView, Point, Yield, INITIAL_FUEL,
};
use tree::{
    events_of, finished, lemma_children_add, lemma_children_single, replay, ChildView, Event, Tree,
    TreeKind, TreeView,
};
use laws::{file_tree, lemma_file_log_finished, lemma_tree_determined};
use vstd::prelude::*;

verus! {

/// Why a parse stopped without a tree.
#[derive(Clone, Copy, Debug, PartialEq, Eq, Structural)]
pub enum ParseError {
    /// A rule kept looking at the tokens without taking any.
    FuelExhausted,
}

/// What a parse gives: the tree, and what there was to say about the tokens.
#[derive(Debug, PartialEq, Eq)]
pub struct Parse {
    pub tree: Tree,
    pub diagnostics: Vec<Diagnostic>,
}

/// The place in the log where a span was opened.
pub struct MarkOpened {
    index: usize,
}

impl View for MarkOpened {
    type V = nat;

    closed spec fn view(&self) -> nat {
        self.index as nat
    }
}

/// The state of a parse: the tokens, how far it has read, the fuel left,
/// the log written so far and what there was to say.
#[derive(Debug)]
pub struct Parser {
    /// The tokens the parser reads.
    tokens: Vec<Token>,
    /// How many looks at the tokens are left before the parse stops.
    fuel: u32,
    /// The index of the next token.
    pos: usize,
    /// The log written so far.
    events: Vec<Event>,
    /// What there was to say so far.
    diagnostics: Vec<Diagnostic>,
}

/// A [`Parser`] as plain values.
pub struct ParserView {
    pub tokens: Seq<TokenView>,
    pub pos: nat,
    pub fuel: nat,
    pub events: Seq<Event>,
    pub diagnostics: Seq<DiagnosticView>,
}

/// Whether tokens of kind `kind` are left out of the tree: blanks and tabs.
pub open spec fn is_blank(kind: TokenKind) -> bool {
    kind == TokenKind::TokenSpace || kind == TokenKind::TokenTab
}

/// Holds of the tokens the parser reads.
pub open spec fn not_blank() -> spec_fn(TokenView) -> bool {
    |token: TokenView| !is_blank(token.kind)
}

impl ParserView {
    /// The parser before its first step on `tokens`: blanks are dropped,
    /// the log is empty and the fuel is full.
    pub open spec fn start(tokens: Seq<TokenView>) -> ParserView {
        ParserView {
            tokens: tokens.filter(not_blank()),
            pos: 0,
            fuel: INITIAL_FUEL as nat,
            events: Seq::empty(),
            diagnostics: Seq::empty(),
        }
    }

    pub open spec fn wf(self) -> bool {
        self.pos <= self.tokens.len() && self.fuel <= INITIAL_FUEL
    }

    /// Whether every token has been taken.
    pub open spec fn eof(self) -> bool {
        self.pos == self.tokens.len()
    }

    /// Where the parse stands.
    pub open spec fn point(self) -> Point {
        Point { pos: self.pos, fuel: self.fuel, ok: true }
    }

    /// The parser with a span opened.
    pub open spec fn opened(self) -> ParserView {
        ParserView { events: self.events.push(Event::Open { kind: TreeKind::ErrorTree }), ..self }
    }

    /// The parser with the span opened at `mark` closed as a `kind`.
    pub open spec fn closed(self, mark: nat, kind: TreeKind) -> ParserView {
        ParserView {
            events: self.events.update(mark as int, Event::Open { kind }).push(Event::Close),
            ..self
        }
    }

    /// The parser after a rule has made `made`: it stands where the rule
    /// stopped, and the log and the diagnostics have grown by what the rule
    /// added.
    pub open spec fn extended(self, made: Yield) -> ParserView {
        ParserView {
            tokens: self.tokens,
            pos: made.end.pos,
            fuel: made.end.fuel,
            events: self.events + events_of(made.children),
            diagnostics: self.diagnostics + made.diagnostics,
        }
    }
}

/// Whether a rule that makes `made` of the tokens at `before` answered
/// `answer` and left the parser at `after`: it fails exactly when the fuel
/// runs out, and else the parser has grown by `made`. A rule that fails
/// leaves the parser without fuel, and takes back nothing that was
/// written or said before.
pub open spec fn parsed(
    before: ParserView,
    made: Yield,
    answer: Result<(), ParseError>,
    after: ParserView,
) -> bool {
    &&& answer is Ok <==> made.end.ok
    &&& answer is Ok ==> after == before.extended(made)
    &&& answer is Err ==> {
        &&& after.fuel == 0
        &&& before.events.is_prefix_of(after.events)
        &&& before.diagnostics.is_prefix_of(after.diagnostics)
    }
    &&& after.tokens == before.tokens
}

/// Growing by nothing moves the point and leaves the rest.
pub proof fn lemma_extended_nothing(before: ParserView, end: Point)
    ensures
        before.extended(Yield::nothing(end)) == (ParserView {
            pos: end.pos,
            fuel: end.fuel,
            ..before
        }),
{
    assert(events_of(Seq::<ChildView>::empty()) =~= Seq::<Event>::empty());
    assert(before.events + Seq::<Event>::empty() =~= before.events);
    assert(before.diagnostics + Seq::<DiagnosticView>::empty() =~= before.diagnostics);
}

/// Growing by two yields in turn is growing by one after the other.
pub proof fn lemma_extended_twice(before: ParserView, first: Yield, second: Yield)
    ensures
        before.extended(first).extended(second) == before.extended(first.followed_by(second)),
{
    lemma_children_add(first.children, second.children);
    assert((before.events + events_of(first.children)) + events_of(second.children)
        =~= before.events + (events_of(first.children) + events_of(second.children)));
    assert((before.diagnostics + first.diagnostics) + second.diagnostics =~= before.diagnostics
        + (first.diagnostics + second.diagnostics));
}

/// Opening a span, growing by `made` and closing the span as a `kind` is
/// growing by `made` under a node of that kind.
pub proof fn lemma_extended_wrapped(before: ParserView, made: Yield, kind: TreeKind)
    ensures
        before.opened().extended(made).closed(before.events.len(), kind) == before.extended(
            made.wrapped(kind),
        ),
{
    let node = ChildView::Tree(TreeView { kind, children: made.children });
    lemma_children_single(node);
    let written = before.opened().extended(made).closed(before.events.len(), kind).events;
    assert(written =~= before.events + node.events());
}

/// Nothing, and then a yield, is that yield.
pub proof fn lemma_followed_by_nothing(made: Yield, at: Point)
    ensures
        Yield::nothing(at).followed_by(made) == made,
{
    assert(Seq::<ChildView>::empty() + made.children =~= made.children);
    assert(Seq::<DiagnosticView>::empty() + made.diagnostics =~= made.diagnostics);
}

/// A yield, and then nothing where it stops, is that yield.
pub proof fn lemma_followed_by_nothing_after(made: Yield)
    ensures
        made.followed_by(Yield::nothing(made.end)) == made,
{
    assert(made.children + Seq::<ChildView>::empty() =~= made.children);
    assert(made.diagnostics + Seq::<DiagnosticView>::empty() =~= made.diagnostics);
}

/// Three yields in a row may be read from either end.
pub proof fn lemma_followed_by_twice(first: Yield, second: Yield, third: Yield)
    ensures
        first.followed_by(second).followed_by(third) == first.followed_by(
            second.followed_by(third),
        ),
{
    assert((first.children + second.children) + third.children =~= first.children + (
    second.children + third.children));
    assert((first.diagnostics + second.diagnostics) + third.diagnostics =~= first.diagnostics + (
    second.diagnostics + third.diagnostics));
}

impl View for Parser {
    type V = ParserView;

    closed spec fn view(&self) -> ParserView {
        ParserView {
            tokens: token_views(self.tokens@),
            pos: self.pos as nat,
            fuel: self.fuel as nat,
            events: self.events@,
            diagnostics: diagnostic_views(self.diagnostics@),
        }
    }
}

impl Parser {
    /// The invariant every parser made by this module keeps.
    pub open spec fn wf(&self) -> bool {
        self@.wf()
    }

    /// A parser over `tokens`. Blanks and tabs carry no meaning and are left out.
    pub fn new(tokens: Vec<Token>) -> (parser: Parser)
        ensures
            parser@ == ParserView::start(token_views(tokens@)),
            parser.wf(),
    {
        let ghost given = token_views(tokens@);
        let mut kept: Vec<Token> = Vec::new();
        proof {
            reveal(Seq::filter);
            assert(given.take(0) =~= Seq::<TokenView>::empty());
        }
        for token in it: tokens
            invariant
                it.seq() == tokens@,
                given == token_views(tokens@),
                token_views(kept@) == given.take(it.index() as int).filter(not_blank()),
        {
            let ghost seen = given.take(it.index() as int);
            let ghost before = token_views(kept@);
            proof {
                reveal(Seq::filter);
                assert(given.take(it.index() + 1).drop_last() =~= seen);
                assert(given.take(it.index() + 1).last() == token@);
            }
            match token.kind {
                TokenKind::TokenSpace | TokenKind::TokenTab => {},
                _ => {
                    kept.push(token);
                    assert(token_views(kept@) =~= before.push(token@));
                },
            }
        }
        assert(given.take(given.len() as int) =~= given);
        let parser = Parser {
            tokens: kept,
            fuel: INITIAL_FUEL,
            pos: 0,
            events: Vec::new(),
            diagnostics: Vec::new(),
        };
        assert(diagnostic_views(parser.diagnostics@) =~= Seq::<DiagnosticView>::empty());
        parser
    }

    /// The tokens the parser reads.
    pub fn tokens(&self) -> (tokens: &Vec<Token>)
        ensures
            token_views(tokens@) == self@.tokens,
    {
        &self.tokens
    }

    /// What there was to say so far.
    pub fn diagnostics(&self) -> (diagnostics: &Vec<Diagnostic>)
        ensures
            diagnostic_views(diagnostics@) == self@.diagnostics,
    {
        &self.diagnostics
    }

    /// Opens a span. Until it is closed it counts as an error.
    pub fn open(&mut self) -> (mark: MarkOpened)
        ensures
            mark@ == old(self)@.events.len(),
            final(self)@ == old(self)@.opened(),
    {
        let mark = MarkOpened { index: self.events.len() };
        self.events.push(Event::Open { kind: TreeKind::ErrorTree });
        mark
    }

    /// Closes the span opened at `mark` and names it a `kind`.
    pub fn close(&mut self, mark: MarkOpened, kind: TreeKind)
        requires
            mark@ < old(self)@.events.len(),
        ensures
            final(self)@ == old(self)@.closed(mark@, kind),
    {
        self.events.set(mark.index, Event::Open { kind });
        self.events.push(Event::Close);
    }

    /// Takes the next token into the open span and refills the fuel.
    pub fn advance(&mut self)
        requires
            old(self).wf(),
            !old(self)@.eof(),
        ensures
            final(self)@ == old(self)@.extended(
                grammar::advance(old(self)@.tokens, old(self)@.point()),
            ),
            final(self).wf(),
    {
        proof {
            lemma_children_single(ChildView::Token(self@.tokens[self@.pos as int]));
            assert(self@.diagnostics + Seq::<DiagnosticView>::empty() =~= self@.diagnostics);
            assert(self@.tokens.len() == self.tokens.len());
        }
        self.fuel = INITIAL_FUEL;
        self.events.push(Event::Advance);
        self.pos += 1;
        proof {
            let made = grammar::advance(old(self)@.tokens, old(self)@.point());
            assert(self@.events =~= old(self)@.extended(made).events);
        }
    }

    /// Whether every token has been taken.
    pub fn eof(&self) -> (eof: bool)
        ensures
            eof == self@.eof(),
    {
        self.pos == self.tokens.len()
    }

    /// The kind of the token `lookahead` places ahead, or end of file past
    /// the last token. Every look costs one unit of fuel; without fuel the
    /// look fails.
    pub fn nth(&mut self, lookahead: usize) -> (answer: Result<TokenKind, ParseError>)
        requires
            old(self).wf(),
        ensures
            final(self).wf(),
            match answer {
                Ok(kind) => {
                    let (found, looked) = grammar::nth(
                        old(self)@.tokens,
                        old(self)@.point(),
                        lookahead as nat,
                    );
                    &&& looked.ok
                    &&& kind == found
                    &&& final(self)@ == old(self)@.extended(Yield::nothing(looked))
                },
                Err(_) => old(self)@.fuel == 0 && final(self)@ == old(self)@,
            },
    {
        if self.fuel == 0 {
            return Err(ParseError::FuelExhausted);
        }
        proof {
            lemma_extended_nothing(
                self@,
                grammar::nth(self@.tokens, self@.point(), lookahead as nat).1,
            );
        }
        self.fuel = self.fuel - 1;
        if lookahead < self.tokens.len() - self.pos {
            Ok(self.tokens[self.pos + lookahead].kind)
        } else {
            Ok(TokenKind::TokenEOF)
        }
    }

    /// Whether the next token is of kind `kind`.
    pub fn at(&mut self, kind: TokenKind) -> (answer: Result<bool, ParseError>)
        requires
            old(self).wf(),
        ensures
            final(self).wf(),
            match answer {
                Ok(found) => {
                    let (next, looked) = grammar::nth(old(self)@.tokens, old(self)@.point(), 0);
                    &&& looked.ok
                    &&& found == (next == kind)
                    &&& final(self)@ == old(self)@.extended(Yield::nothing(looked))
                },
                Err(_) => old(self)@.fuel == 0 && final(self)@ == old(self)@,
            },
    {
        let next = self.nth(0)?;
        Ok(next == kind)
    }

    /// Takes the next token if there is one and it is of kind `kind`, and
    /// says whether it did.
    pub fn eat(&mut self, kind: TokenKind) -> (answer: Result<bool, ParseError>)
        requires
            old(self).wf(),
        ensures
            final(self).wf(),
            match answer {
                Ok(eaten) => {
                    let made = grammar::eat(old(self)@.tokens, old(self)@.point(), kind);
                    &&& made.1.end.ok
                    &&& eaten == made.0
                    &&& final(self)@ == old(self)@.extended(made.1)
                },
                Err(_) => old(self)@.fuel == 0 && final(self)@ == old(self)@,
            },
    {
        let ghost before = self@;
        if self.at(kind)? && !self.eof() {
            self.advance();
            proof {
                let (found, point) = grammar::nth(before.tokens, before.point(), 0);
                lemma_extended_twice(
                    before,
                    Yield::nothing(point),
                    grammar::advance(before.tokens, point),
                );
                assert(Yield::nothing(point).followed_by(grammar::advance(before.tokens, point))
                    =~= grammar::advance(before.tokens, point)) by {
                    let step = grammar::advance(before.tokens, point);
                    assert(Seq::<ChildView>::empty() + step.children =~= step.children);
                    assert(Seq::<DiagnosticView>::empty() + step.diagnostics
                        =~= step.diagnostics);
                }
            }
            Ok(true)
        } else {
            Ok(false)
        }
    }

    fn report(&mut self, diagnostic: Diagnostic)
        ensures
            final(self)@ == (ParserView {
                diagnostics: old(self)@.diagnostics.push(diagnostic@),
                ..old(self)@
            }),
    {
        let ghost before = diagnostic_views(self.diagnostics@);
        self.diagnostics.push(diagnostic);
        assert(diagnostic_views(self.diagnostics@) =~= before.push(diagnostic@));
    }

    /// Takes the next token if it is of kind `kind`; if it is not, says so
    /// and leaves it where it is.
    pub fn expect(&mut self, kind: TokenKind) -> (answer: Result<(), ParseError>)
        requires
            old(self).wf(),
        ensures
            final(self).wf(),
            parsed(
                old(self)@,
                grammar::expect(old(self)@.tokens, old(self)@.point(), kind),
                answer,
                final(self)@,
            ),
    {
        let at = self.pos;
        if self.eat(kind)? {
            return Ok(());
        }
        self.report(Diagnostic::MissingToken { expected: kind, at });
        proof {
            let made = grammar::expect(old(self)@.tokens, old(self)@.point(), kind);
            assert(self@.events =~= old(self)@.extended(made).events) by {
                assert(events_of(Seq::<ChildView>::empty()) =~= Seq::<Event>::empty());
            }
            assert(self@.diagnostics =~= old(self)@.extended(made).diagnostics);
        }
        Ok(())
    }

    /// Takes the next token into an error node of its own and says `error`.
    pub fn advance_with_error(&mut self, error: &str)
        requires
            old(self).wf(),
            !old(self)@.eof(),
        ensures
            final(self).wf(),
            final(self)@ == old(self)@.extended(
                grammar::advance_with_error(old(self)@.tokens, old(self)@.point(), error@),
            ),
    {
        let ghost before = self@;
        let m = self.open();
        self.report(Diagnostic::Unexpected { message: error.to_owned(), at: self.pos });
        self.advance();
        self.close(m, TreeKind::ErrorTree);
        proof {
            let step = grammar::advance(before.tokens, before.point());
            lemma_extended_wrapped(before, step, TreeKind::ErrorTree);
            let made = grammar::advance_with_error(before.tokens, before.point(), error@);
            assert(self@.events =~= before.extended(made).events);
            assert(self@.diagnostics =~= before.extended(made).diagnostics);
        }
    }

    /// Says `message`, and takes the next token into an error node of its
    /// own if there is one.
    pub fn recover(&mut self, message: &str)
        requires
            old(self).wf(),
        ensures
            final(self).wf(),
            final(self)@ == old(self)@.extended(
                grammar::recover(old(self)@.tokens, old(self)@.point(), message@),
            ),
    {
        if self.eof() {
            self.report(Diagnostic::Unexpected { message: message.to_owned(), at: self.pos });
            proof {
                let made = grammar::recover(old(self)@.tokens, old(self)@.point(), message@);
                assert(events_of(Seq::<ChildView>::empty()) =~= Seq::<Event>::empty());
                assert(self@.events =~= old(self)@.extended(made).events);
                assert(self@.diagnostics =~= old(self)@.extended(made).diagnostics);
            }
        } else {
            self.advance_with_error(message);
        }
    }

    /// Whether a token of kind `kind` names a type by itself.
    pub fn is_type_name(kind: TokenKind) -> (named: bool)
        ensures
            named == grammar::is_type_name(kind),
    {
        match kind {
            TokenKind::TokenIdentifier => true,
            TokenKind::TokenKeyword(keyword) => match keyword {
                Keyword::UnitType
                | Keyword::IntType
                | Keyword::FloatType
                | Keyword::BoolType
                | Keyword::StrType => true,
                _ => false,
            },
            _ => false,
        }
    }

    /// `Type = Ident | "[" Type "]" | "(" Type ("," Type)* ")"`
    pub fn parse_type(&mut self) -> (answer: Result<(), ParseError>)
        requires
            old(self).wf(),
        ensures
            final(self).wf(),
            parsed(
                old(self)@,
                grammar::parse_type(old(self)@.tokens, old(self)@.point()),
                answer,
                final(self)@,
            ),
        decreases left(old(self)@.tokens, old(self)@.point()), 0nat,
    {
        let ghost before = self@;
        let ghost tokens = before.tokens;
        let m = self.open();
        let kind = self.nth(0)?;
        let ghost looked = grammar::nth(tokens, before.point(), 0).1;
        proof {
            lemma_extended_nothing(before.opened(), looked);
        }
        if Self::is_type_name(kind) {
            self.expect(kind)?;
            self.close(m, TreeKind::TypeExpr);
            proof {
                let name = grammar::expect(tokens, looked, kind);
                lemma_extended_wrapped(before, name, TreeKind::TypeExpr);
            }
        } else if kind == TokenKind::TokenOpenBracket {
            let ghost open = grammar::expect(tokens, looked, TokenKind::TokenOpenBracket);
            let ghost item = grammar::parse_type(tokens, open.end);
            let ghost close = grammar::expect(tokens, item.end, TokenKind::TokenCloseBracket);
            self.expect(TokenKind::TokenOpenBracket)?;
            self.parse_type()?;
            self.expect(TokenKind::TokenCloseBracket)?;
            self.close(m, TreeKind::TypeExpr);
            proof {
                lemma_extended_twice(before.opened(), open, item);
                lemma_extended_twice(before.opened(), open.followed_by(item), close);
                lemma_extended_wrapped(
                    before,
                    open.followed_by(item).followed_by(close),
                    TreeKind::TypeExpr,
                );
            }
        } else if kind == TokenKind::TokenOpenParen {
            let ghost open = grammar::expect(tokens, looked, TokenKind::TokenOpenParen);
            let ghost items = grammar::parse_type_list(tokens, open.end);
            let ghost close = grammar::expect(tokens, items.end, TokenKind::TokenCloseParen);
            proof {
                if !open.end.ok {
                    lemma_dry_stays_dry(tokens, open.end);
                }
            }
            self.expect(TokenKind::TokenOpenParen)?;
            self.parse_type_list()?;
            self.expect(TokenKind::TokenCloseParen)?;
            self.close(m, TreeKind::TypeExpr);
            proof {
                lemma_extended_twice(before.opened(), open, items);
                lemma_extended_twice(before.opened(), open.followed_by(items), close);
                lemma_extended_wrapped(
                    before,
                    open.followed_by(items).followed_by(close),
                    TreeKind::TypeExpr,
                );
            }
        } else {
            self.recover("Expected type");
            self.close(m, TreeKind::TypeExpr);
            proof {
                lemma_extended_wrapped(
                    before,
                    grammar::recover(tokens, looked, "Expected type"@),
                    TreeKind::TypeExpr,
                );
            }
        }
        Ok(())
    }

    /// `Type ("," Type)*`
    pub fn parse_type_list(&mut self) -> (answer: Result<(), ParseError>)
        requires
            old(self).wf(),
        ensures
            final(self).wf(),
            parsed(
                old(self)@,
                grammar::parse_type_list(old(self)@.tokens, old(self)@.point()),
                answer,
                final(self)@,
            ),
        decreases left(old(self)@.tokens, old(self)@.point()), 1nat,
    {
        let ghost before = self@;
        let ghost tokens = before.tokens;
        let ghost whole = grammar::parse_type_list(tokens, before.point());
        let ghost mut done = Yield::nothing(before.point());
        let ghost mut from = before.point();
        proof {
            lemma_extended_nothing(before, before.point());
            lemma_followed_by_nothing(whole, before.point());
            lemma_followed_by_nothing(grammar::parse_type(tokens, from), before.point());
        }
        self.parse_type()?;
        loop
            invariant_except_break
                self@ == before.extended(done.followed_by(grammar::parse_type(tokens, from))),
                grammar::parse_type(tokens, from).end == self@.point(),
            invariant
                self.wf(),
                before == old(self)@,
                tokens == before.tokens,
                whole == grammar::parse_type_list(tokens, before.point()),
                from.ok,
                left(tokens, from) <= left(tokens, before.point()),
                done.end == from,
                whole == done.followed_by(grammar::parse_type_list(tokens, from)),
            ensures
                self.wf(),
                self@ == before.extended(whole),
                whole.end.ok,
            decreases left(tokens, from),
        {
            let ghost item = grammar::parse_type(tokens, from);
            let ghost comma = grammar::eat(tokens, item.end, TokenKind::TokenComma).1;
            let ghost more = grammar::parse_type_list(tokens, comma.end);
            let ghost next = grammar::parse_type(tokens, comma.end);
            proof {
                lemma_type_list_goes_on(tokens, from);
                lemma_extended_twice(before, done.followed_by(item), comma);
                lemma_followed_by_twice(done, item, comma);
                lemma_followed_by_twice(done, item.followed_by(comma), more);
                lemma_followed_by_twice(item, comma, more);
                lemma_extended_twice(before, done.followed_by(item).followed_by(comma), next);
                if !comma.end.ok {
                    lemma_dry_stays_dry(tokens, comma.end);
                }
                if !next.end.ok {
                    lemma_dry_stays_dry(tokens, next.end);
                }
            }
            if !self.eat(TokenKind::TokenComma)? {
                break ;
            }
            self.parse_type()?;
            proof {
                done = done.followed_by(item).followed_by(comma);
                from = comma.end;
            }
        }
        Ok(())
    }

    /// `Expr = Int | Float | Bool | Str`
    pub fn parse_expr(&mut self) -> (answer: Result<(), ParseError>)
        requires
            old(self).wf(),
        ensures
            final(self).wf(),
            parsed(
                old(self)@,
                grammar::parse_expr(old(self)@.tokens, old(self)@.point()),
                answer,
                final(self)@,
            ),
    {
        let ghost before = self@;
        let ghost tokens = before.tokens;
        let m = self.open();
        let kind = self.nth(0)?;
        let ghost looked = grammar::nth(tokens, before.point(), 0).1;
        proof {
            lemma_extended_nothing(before.opened(), looked);
        }
        match kind {
            TokenKind::TokenLiteral(_) => {
                self.advance();
                self.close(m, TreeKind::ExprLiteral);
                proof {
                    lemma_extended_wrapped(
                        before,
                        grammar::advance(tokens, looked),
                        TreeKind::ExprLiteral,
                    );
                }
            },
            _ => {
                let at = self.pos;
                let ghost skipped = if before.pos < tokens.len() {
                    grammar::advance(tokens, looked)
                } else {
                    Yield::nothing(looked)
                };
                if !self.eof() {
                    self.advance();
                }
                self.close(m, TreeKind::ErrorTree);
                self.report(
                    Diagnostic::Unexpected { message: "Expected expression".to_owned(), at },
                );
                proof {
                    lemma_extended_wrapped(before, skipped, TreeKind::ErrorTree);
                    let made = grammar::parse_expr(tokens, before.point());
                    assert(self@.diagnostics =~= before.extended(made).diagnostics);
                }
            },
        }
        Ok(())
    }

    /// `StmtExpr = Expr "\n"`
    pub fn parse_stmt_expr(&mut self) -> (answer: Result<(), ParseError>)
        requires
            old(self).wf(),
        ensures
            final(self).wf(),
            parsed(
                old(self)@,
                grammar::parse_stmt_expr(old(self)@.tokens, old(self)@.point()),
                answer,
                final(self)@,
            ),
    {
        let ghost before = self@;
        let ghost tokens = before.tokens;
        let ghost expr = grammar::parse_expr(tokens, before.point());
        let ghost end_of_line = grammar::expect(tokens, expr.end, TokenKind::TokenNewLine);
        let m = self.open();
        self.parse_expr()?;
        self.expect(TokenKind::TokenNewLine)?;
        self.close(m, TreeKind::StmtExpr);
        proof {
            lemma_extended_twice(before.opened(), expr, end_of_line);
            lemma_extended_wrapped(before, expr.followed_by(end_of_line), TreeKind::StmtExpr);
        }
        Ok(())
    }

    /// `StmtVarDecl = Ident ":" Type "=" StmtExpr`
    pub fn parse_var_decl(&mut self) -> (answer: Result<(), ParseError>)
        requires
            old(self).wf(),
        ensures
            final(self).wf(),
            parsed(
                old(self)@,
                grammar::parse_var_decl(old(self)@.tokens, old(self)@.point()),
                answer,
                final(self)@,
            ),
    {
        let ghost before = self@;
        let ghost tokens = before.tokens;
        let ghost name = grammar::expect(tokens, before.point(), TokenKind::TokenIdentifier);
        let ghost colon = grammar::expect(tokens, name.end, TokenKind::TokenColon);
        let ghost type_expr = grammar::parse_type(tokens, colon.end);
        let ghost assign = grammar::expect(tokens, type_expr.end, TokenKind::TokenAssign);
        let ghost value = grammar::parse_stmt_expr(tokens, assign.end);
        let m = self.open();
        self.expect(TokenKind::TokenIdentifier)?;
        self.expect(TokenKind::TokenColon)?;
        self.parse_type()?;
        self.expect(TokenKind::TokenAssign)?;
        self.parse_stmt_expr()?;
        self.close(m, TreeKind::StmtVarDecl);
        proof {
            let opened = before.opened();
            lemma_extended_twice(opened, name, colon);
            lemma_extended_twice(opened, name.followed_by(colon), type_expr);
            lemma_extended_twice(opened, name.followed_by(colon).followed_by(type_expr), assign);
            lemma_extended_twice(
                opened,
                name.followed_by(colon).followed_by(type_expr).followed_by(assign),
                value,
            );
            lemma_extended_wrapped(
                before,
                name.followed_by(colon).followed_by(type_expr).followed_by(assign).followed_by(
                    value,
                ),
                TreeKind::StmtVarDecl,
            );
        }
        Ok(())
    }

    /// A comment, under a node of its own.
    pub fn parse_comment(&mut self)
        requires
            old(self).wf(),
            !old(self)@.eof(),
        ensures
            final(self).wf(),
            final(self)@ == old(self)@.extended(
                grammar::parse_comment(old(self)@.tokens, old(self)@.point()),
            ),
    {
        let ghost before = self@;
        let m = self.open();
        self.advance();
        self.close(m, TreeKind::Comment);
        proof {
            lemma_extended_wrapped(
                before,
                grammar::advance(before.tokens, before.point()),
                TreeKind::Comment,
            );
        }
    }

    /// Function declarations have no rule yet: the name is taken as an error.
    pub fn parse_fun_decl(&mut self)
        requires
            old(self).wf(),
            !old(self)@.eof(),
        ensures
            final(self).wf(),
            final(self)@ == old(self)@.extended(
                grammar::parse_fun_decl(old(self)@.tokens, old(self)@.point()),
            ),
    {
        self.advance_with_error("Function declarations are not supported");
    }

    /// One statement, chosen by the tokens ahead.
    pub fn parse_statement(&mut self) -> (answer: Result<(), ParseError>)
        requires
            old(self).wf(),
            !old(self)@.eof(),
        ensures
            final(self).wf(),
            parsed(
                old(self)@,
                grammar::parse_statement(old(self)@.tokens, old(self)@.point()),
                answer,
                final(self)@,
            ),
    {
        let ghost before = self@;
        let ghost tokens = before.tokens;
        let first = self.nth(0)?;
        let ghost looked = grammar::nth(tokens, before.point(), 0).1;
        proof {
            lemma_extended_nothing(before, looked);
        }
        match first {
            TokenKind::TokenEOF => {
                self.advance();
                Ok(())
            },
            TokenKind::TokenComment => {
                self.parse_comment();
                Ok(())
            },
            TokenKind::TokenIdentifier => {
                let second = self.nth(1)?;
                let ghost looked = grammar::nth(tokens, looked, 1).1;
                proof {
                    lemma_extended_nothing(before, looked);
                }
                if second == TokenKind::TokenColon {
                    let third = self.nth(2)?;
                    let ghost looked = grammar::nth(tokens, looked, 2).1;
                    proof {
                        lemma_extended_nothing(before, looked);
                    }
                    if third == TokenKind::TokenOpenParen {
                        self.parse_fun_decl();
                        Ok(())
                    } else {
                        self.parse_var_decl()
                    }
                } else {
                    self.advance_with_error("Expected statement");
                    Ok(())
                }
            },
            TokenKind::TokenLiteral(_) => self.parse_stmt_expr(),
            _ => {
                self.advance_with_error("Expected statement");
                Ok(())
            },
        }
    }

    /// `File = (Comment | StmtVarDecl | StmtExpr)*`
    pub fn parse_file(&mut self) -> (answer: Result<(), ParseError>)
        requires
            old(self).wf(),
        ensures
            final(self).wf(),
            parsed(
                old(self)@,
                grammar::parse_file(old(self)@.tokens, old(self)@.point()),
                answer,
                final(self)@,
            ),
    {
        let ghost before = self@;
        let ghost tokens = before.tokens;
        let ghost whole = grammar::parse_statements(tokens, before.point());
        let m = self.open();
        let ghost mut done = Yield::nothing(before.point());
        proof {
            lemma_extended_nothing(before.opened(), before.point());
            lemma_followed_by_nothing(whole, before.point());
        }
        while !self.eof()
            invariant
                self.wf(),
                before == old(self)@,
                tokens == before.tokens,
                whole == grammar::parse_statements(tokens, before.point()),
                m@ == before.events.len(),
                self@ == before.opened().extended(done),
                done.end == self@.point(),
                whole == done.followed_by(grammar::parse_statements(tokens, done.end)),
            decreases left(tokens, self@.point()),
        {
            let ghost statement = grammar::parse_statement(tokens, done.end);
            let ghost rest = grammar::parse_statements(tokens, statement.end);
            proof {
                lemma_statement_accounts(tokens, done.end);
                lemma_extended_twice(before.opened(), done, statement);
                lemma_followed_by_twice(done, statement, rest);
                if !statement.end.ok {
                    lemma_dry_stays_dry(tokens, statement.end);
                }
            }
            self.parse_statement()?;
            proof {
                done = done.followed_by(statement);
            }
        }
        self.close(m, TreeKind::File);
        proof {
            lemma_followed_by_nothing_after(done);
            lemma_extended_wrapped(before, done, TreeKind::File);
        }
        Ok(())
    }

    /// Parses the whole token array: writes the log, then folds it into
    /// the tree. Stops without a tree if a rule runs out of fuel.
    pub fn parse(self) -> (answer: Result<Parse, ParseError>)
        requires
            self.wf(),
            self@.pos == 0,
            self@.events.len() == 0,
        ensures
            match answer {
                Ok(parse) => {
                    &&& grammar::parse_statements(self@.tokens, self@.point()).end.ok
                    &&& parse.tree@ == file_tree(self@.tokens, self@.fuel)
                    &&& diagnostic_views(parse.diagnostics@) == self@.diagnostics
                        + grammar::parse_statements(self@.tokens, self@.point()).diagnostics
                },
                Err(_) => !grammar::parse_statements(self@.tokens, self@.point()).end.ok,
            },
    {
        let ghost before = self@;
        let ghost expected = file_tree(before.tokens, before.fuel);
        let mut parser = self;
        parser.parse_file()?;
        proof {
            lemma_file_log_finished(before.tokens, before.fuel);
            assert(parser@.events =~= expected.events());
        }
        let Parser { tokens, events, diagnostics, .. } = parser;
        let tree = replay(events, tokens);
        proof {
            lemma_tree_determined(tree@, expected);
        }
        Ok(Parse { tree, diagnostics })
    }

    /// Folds the finished log into the tree.
    pub fn build_tree(self) -> (tree: Tree)
        requires
            finished(self@.events, self@.tokens.len()),
        ensures
            tree@.events() == self@.events,
            tree@.tokens() == self@.tokens,
    {
        replay(self.events, self.tokens)
    }
}

} // verus!
