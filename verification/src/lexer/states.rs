//! The lexical state machine: one transition function per state.
//!
//! A visit looks at the next unread character and answers with the state to
//! enter and the action the driver applies to the cursor. A visit that emits
//! a token has already widened the pending lexeme to the token's text.

use super::cursor::{Cursor, CursorView};
use super::token::{
    classify, is_ascii_digit, is_digit, is_symbol_char, is_symbol_prefix, Literal, Token,
    TokenKind, TokenView,
};
use super::{Lexer, LexerError};
use crate::text::{unicode_alphabetic, unicode_numeric};
use vstd::prelude::*;

verus! {

/// The states of the machine.
#[derive(Clone, Copy, Debug, PartialEq, Eq, Structural)]
pub enum State {
    /// Between tokens.
    Start,
    /// Inside a string literal, after its opening quote.
    String,
    /// Inside a comment, after its `#`.
    Comment,
    /// Inside a number.
    Number,
    /// Inside an identifier or keyword.
    Word,
    /// Inside a punctuation or operator symbol.
    Symbol,
    /// At the end of the text, before the end-of-file token.
    EOF,
    /// After the end-of-file token.
    End,
}

/// What the driver does to the cursor after a visit.
#[derive(Debug)]
pub enum TransitionKind {
    /// Step over the next character.
    Consume,
    /// Take the next character into the pending lexeme.
    AdvanceOffset,
    /// Leave the cursor where it is.
    Empty,
    /// Hand out the token and start a new pending lexeme after it.
    EmitToken(Token),
    /// Stop: the text is exhausted.
    End,
}

/// A [`TransitionKind`] as plain values.
pub enum TransitionKindView {
    Consume,
    AdvanceOffset,
    Empty,
    EmitToken(TokenView),
    End,
}

impl View for TransitionKind {
    type V = TransitionKindView;

    open spec fn view(&self) -> TransitionKindView {
        match self {
            TransitionKind::Consume => TransitionKindView::Consume,
            TransitionKind::AdvanceOffset => TransitionKindView::AdvanceOffset,
            TransitionKind::Empty => TransitionKindView::Empty,
            TransitionKind::EmitToken(token) => TransitionKindView::EmitToken(token@),
            TransitionKind::End => TransitionKindView::End,
        }
    }
}

impl TransitionKindView {
    /// The cursor after the driver has applied this action to `cursor`.
    pub open spec fn apply(self, cursor: CursorView) -> CursorView {
        match self {
            TransitionKindView::Consume => cursor.consume(),
            TransitionKindView::AdvanceOffset => cursor.advance_offset(),
            TransitionKindView::Empty => cursor,
            TransitionKindView::EmitToken(_) => cursor.align(),
            TransitionKindView::End => cursor,
        }
    }

    /// The token this action hands out, if any.
    pub open spec fn token(self) -> Option<TokenView> {
        match self {
            TransitionKindView::EmitToken(token) => Some(token),
            _ => None,
        }
    }
}

impl TransitionKind {
    /// Applies the action to the cursor.
    pub fn apply(&self, cursor: &mut Cursor)
        requires
            old(cursor).wf(),
        ensures
            final(cursor)@ == self@.apply(old(cursor)@),
            final(cursor).wf(),
    {
        match self {
            TransitionKind::Consume => {
                cursor.consume();
            },
            TransitionKind::AdvanceOffset => {
                cursor.advance_offset();
            },
            TransitionKind::Empty => {},
            TransitionKind::EmitToken(_) => cursor.align(),
            TransitionKind::End => {},
        }
    }
}

/// The answer of a visit: the state to enter and the action to apply.
#[derive(Debug)]
pub struct Transition {
    state: State,
    transition_kind: TransitionKind,
}

/// A [`Transition`] as plain values.
pub struct TransitionView {
    pub state: State,
    pub kind: TransitionKindView,
}

impl View for Transition {
    type V = TransitionView;

    closed spec fn view(&self) -> TransitionView {
        TransitionView { state: self.state, kind: self.transition_kind@ }
    }
}

impl Transition {
    pub fn new(state: State, consume_kind: TransitionKind) -> (transition: Transition)
        ensures
            transition@ == (TransitionView { state, kind: consume_kind@ }),
    {
        Transition { state, transition_kind: consume_kind }
    }

    pub fn into_parts(self) -> (parts: (State, TransitionKind))
        ensures
            parts.0 == self@.state,
            parts.1@ == self@.kind,
    {
        (self.state, self.transition_kind)
    }
}

/// What a visit leaves behind: its answer, and the cursor as it stands
/// before the driver applies the action.
pub struct Visit {
    pub transition: TransitionView,
    pub cursor: CursorView,
}

impl Visit {
    /// A visit that leaves the cursor alone and asks the driver for `kind`.
    pub open spec fn step(state: State, kind: TransitionKindView, cursor: CursorView) -> Visit {
        Visit { transition: TransitionView { state, kind }, cursor }
    }

    /// A visit that emits the pending lexeme of `cursor` as a token of kind `kind`.
    pub open spec fn emit(state: State, kind: TokenKind, cursor: CursorView) -> Visit {
        Visit::step(state, TransitionKindView::EmitToken(cursor.token(kind)), cursor)
    }
}

/// The kind of a number: a float if its text holds a decimal point, else an integer.
pub open spec fn number_literal(lexeme: Seq<char>) -> TokenKind {
    if lexeme.contains('.') {
        TokenKind::TokenLiteral(Literal::Float)
    } else {
        TokenKind::TokenLiteral(Literal::Int)
    }
}

/// Between tokens: the next character decides what is being read.
///
/// A blank or an unrecognised character is a token by itself. A carriage
/// return is deleted from the text. A quote, a `#`, a digit, a letter or `_`
/// opens the pending lexeme in the matching state. A symbol character is left
/// for the symbol state to look at again.
pub open spec fn visit_start(cursor: CursorView) -> Visit {
    match cursor.peek() {
        None => Visit::step(State::EOF, TransitionKindView::Consume, cursor),
        Some(c) => {
            if c == ' ' {
                Visit::emit(State::Start, TokenKind::TokenSpace, cursor.advance_offset())
            } else if c == '\t' {
                Visit::emit(State::Start, TokenKind::TokenTab, cursor.advance_offset())
            } else if c == '\r' {
                Visit::step(
                    State::Start,
                    TransitionKindView::Empty,
                    cursor.remove_carriage_return(),
                )
            } else if c == '"' {
                Visit::step(State::String, TransitionKindView::AdvanceOffset, cursor)
            } else if c == '_' {
                Visit::step(State::Word, TransitionKindView::AdvanceOffset, cursor)
            } else if is_digit(c) {
                Visit::step(State::Number, TransitionKindView::AdvanceOffset, cursor)
            } else if c == '#' {
                Visit::step(State::Comment, TransitionKindView::AdvanceOffset, cursor)
            } else if is_symbol_char(c) {
                Visit::step(State::Symbol, TransitionKindView::Empty, cursor)
            } else if unicode_alphabetic(c) {
                Visit::step(State::Word, TransitionKindView::AdvanceOffset, cursor)
            } else {
                Visit::emit(State::Start, TokenKind::TokenUnknown, cursor.advance_offset())
            }
        },
    }
}

/// Inside a string literal: everything up to and including the closing quote
/// belongs to it. A literal that the end of the text cuts short is emitted
/// as an unknown token.
pub open spec fn visit_string(cursor: CursorView) -> Visit {
    match cursor.peek() {
        None => Visit::emit(State::Start, TokenKind::TokenUnknown, cursor),
        Some(c) => {
            if c == '"' {
                Visit::emit(
                    State::Start,
                    TokenKind::TokenLiteral(Literal::Str),
                    cursor.advance_offset(),
                )
            } else {
                Visit::step(State::String, TransitionKindView::AdvanceOffset, cursor)
            }
        },
    }
}

/// Inside a comment: it runs up to the end of the line, which is left unread.
pub open spec fn visit_comment(cursor: CursorView) -> Visit {
    match cursor.peek() {
        Some(c) if c != '\n' && c != '\r' => Visit::step(
            State::Comment,
            TransitionKindView::AdvanceOffset,
            cursor,
        ),
        _ => Visit::emit(State::Start, TokenKind::TokenComment, cursor),
    }
}

/// Inside a number: digits and decimal points belong to it.
pub open spec fn visit_number(cursor: CursorView) -> Visit {
    match cursor.peek() {
        Some(c) if is_digit(c) || c == '.' => Visit::step(
            State::Number,
            TransitionKindView::AdvanceOffset,
            cursor,
        ),
        _ => Visit::emit(State::Start, number_literal(cursor.pending()), cursor),
    }
}

/// Inside a word: letters, digits and `_` belong to it; its kind is looked
/// up once it ends.
pub open spec fn visit_word(cursor: CursorView) -> Visit {
    match cursor.peek() {
        Some(c) if unicode_alphabetic(c) || unicode_numeric(c) || c == '_' => Visit::step(
            State::Word,
            TransitionKindView::AdvanceOffset,
            cursor,
        ),
        _ => Visit::emit(State::Start, classify(cursor.pending()), cursor),
    }
}

/// The line-break token at `cursor`, which stands before a line break.
pub open spec fn new_line_token(cursor: CursorView) -> TokenView {
    TokenView {
        kind: TokenKind::TokenNewLine,
        lexeme: cursor.new_line().pending(),
        location: cursor.location,
    }
}

/// Inside a symbol.
///
/// A line break is always a token of its own: pending text is emitted first,
/// and the line break on the next visit. `-`, `=` and `+` wait for what
/// follows them. Any other symbol character ends the symbol and belongs to
/// it; any other character ends it and does not.
pub open spec fn visit_symbol(cursor: CursorView) -> Visit {
    let pending = cursor.pending();
    match cursor.peek() {
        None => {
            if pending.len() == 0 {
                Visit::step(State::EOF, TransitionKindView::Consume, cursor)
            } else {
                Visit::emit(State::EOF, classify(pending), cursor)
            }
        },
        Some(c) => {
            if c == '\n' {
                if pending.len() == 0 {
                    Visit::step(
                        State::Start,
                        TransitionKindView::EmitToken(new_line_token(cursor)),
                        cursor.new_line(),
                    )
                } else if classify(pending) == TokenKind::TokenAssign {
                    Visit::emit(State::Start, TokenKind::TokenAssign, cursor)
                } else {
                    Visit::emit(State::Symbol, classify(pending), cursor)
                }
            } else if is_symbol_prefix(c) {
                Visit::step(State::Symbol, TransitionKindView::AdvanceOffset, cursor)
            } else if is_symbol_char(c) {
                let merged = cursor.advance_offset();
                Visit::emit(State::Start, classify(merged.pending()), merged)
            } else if pending.len() == 0 {
                Visit::step(State::Start, TransitionKindView::Empty, cursor)
            } else {
                Visit::emit(State::Start, classify(pending), cursor)
            }
        },
    }
}

/// At the end of the text: the end-of-file token, with an empty lexeme.
pub open spec fn visit_eof(cursor: CursorView) -> Visit {
    Visit::emit(State::End, TokenKind::TokenEOF, cursor.align())
}

/// After the end-of-file token: nothing more.
pub open spec fn visit_end(cursor: CursorView) -> Visit {
    Visit::step(State::End, TransitionKindView::End, cursor)
}

/// The visit of `state` at `cursor`.
pub open spec fn visit(state: State, cursor: CursorView) -> Visit {
    match state {
        State::Start => visit_start(cursor),
        State::String => visit_string(cursor),
        State::Comment => visit_comment(cursor),
        State::Number => visit_number(cursor),
        State::Word => visit_word(cursor),
        State::Symbol => visit_symbol(cursor),
        State::EOF => visit_eof(cursor),
        State::End => visit_end(cursor),
    }
}

/// Whether a visit of `state` at `before` answered `answer` and left the cursor at `after`.
pub open spec fn visited(
    state: State,
    before: CursorView,
    answer: Result<Transition, LexerError>,
    after: CursorView,
) -> bool {
    &&& answer matches Ok(transition)
    &&& transition@ == visit(state, before).transition
    &&& after == visit(state, before).cursor
}

fn emit(state: State, kind: TokenKind, cursor: &Cursor) -> (transition: Transition)
    requires
        cursor.wf(),
    ensures
        transition@ == Visit::emit(state, kind, cursor@).transition,
{
    Lexer::proceed(state, TransitionKind::EmitToken(cursor.token(kind)))
}

impl State {
    /// Runs the transition function of this state.
    pub fn visit(&self, cursor: &mut Cursor) -> (answer: Result<Transition, LexerError>)
        requires
            old(cursor).wf(),
        ensures
            visited(*self, old(cursor)@, answer, final(cursor)@),
            final(cursor).wf(),
    {
        match self {
            State::Start => StateStart.visit(cursor),
            State::String => StateString.visit(cursor),
            State::Comment => StateComment.visit(cursor),
            State::Number => StateNumber.visit(cursor),
            State::Word => StateWord.visit(cursor),
            State::Symbol => StateSymbol.visit(cursor),
            State::EOF => StateEOF.visit(cursor),
            State::End => StateEnd.visit(cursor),
        }
    }
}

#[derive(Debug)]
pub struct StateStart;

impl StateStart {
    pub fn visit(&self, cursor: &mut Cursor) -> (answer: Result<Transition, LexerError>)
        requires
            old(cursor).wf(),
        ensures
            visited(State::Start, old(cursor)@, answer, final(cursor)@),
            final(cursor).wf(),
    {
        match cursor.peek() {
            None => Ok(Lexer::proceed(State::EOF, TransitionKind::Consume)),
            Some(c) => {
                if c == ' ' {
                    cursor.advance_offset();
                    Ok(emit(State::Start, TokenKind::TokenSpace, cursor))
                } else if c == '\t' {
                    cursor.advance_offset();
                    Ok(emit(State::Start, TokenKind::TokenTab, cursor))
                } else if c == '\r' {
                    cursor.remove_carriage_return();
                    Ok(Lexer::proceed(State::Start, TransitionKind::Empty))
                } else if c == '"' {
                    Ok(Lexer::proceed(State::String, TransitionKind::AdvanceOffset))
                } else if c == '_' {
                    Ok(Lexer::proceed(State::Word, TransitionKind::AdvanceOffset))
                } else if is_ascii_digit(c) {
                    Ok(Lexer::proceed(State::Number, TransitionKind::AdvanceOffset))
                } else if c == '#' {
                    Ok(Lexer::proceed(State::Comment, TransitionKind::AdvanceOffset))
                } else if TokenKind::is_symbol_char(c) {
                    Ok(Lexer::proceed(State::Symbol, TransitionKind::Empty))
                } else if c.is_alphabetic() {
                    Ok(Lexer::proceed(State::Word, TransitionKind::AdvanceOffset))
                } else {
                    cursor.advance_offset();
                    Ok(emit(State::Start, TokenKind::TokenUnknown, cursor))
                }
            },
        }
    }
}

#[derive(Debug)]
pub struct StateString;

impl StateString {
    pub fn visit(&self, cursor: &mut Cursor) -> (answer: Result<Transition, LexerError>)
        requires
            old(cursor).wf(),
        ensures
            visited(State::String, old(cursor)@, answer, final(cursor)@),
            final(cursor).wf(),
    {
        match cursor.peek() {
            None => Ok(emit(State::Start, TokenKind::TokenUnknown, cursor)),
            Some(c) => {
                if c == '"' {
                    cursor.advance_offset();
                    Ok(emit(State::Start, TokenKind::TokenLiteral(Literal::Str), cursor))
                } else {
                    Ok(Lexer::proceed(State::String, TransitionKind::AdvanceOffset))
                }
            },
        }
    }
}

#[derive(Debug)]
pub struct StateComment;

impl StateComment {
    pub fn visit(&self, cursor: &mut Cursor) -> (answer: Result<Transition, LexerError>)
        requires
            old(cursor).wf(),
        ensures
            visited(State::Comment, old(cursor)@, answer, final(cursor)@),
            final(cursor).wf(),
    {
        match cursor.peek() {
            Some(c) if c != '\n' && c != '\r' => Ok(
                Lexer::proceed(State::Comment, TransitionKind::AdvanceOffset),
            ),
            _ => Ok(emit(State::Start, TokenKind::TokenComment, cursor)),
        }
    }
}

#[derive(Debug)]
pub struct StateNumber;

impl StateNumber {
    fn literal_kind(cursor: &Cursor) -> (kind: TokenKind)
        requires
            cursor.wf(),
        ensures
            kind == number_literal(cursor@.pending()),
    {
        let chars = cursor.source().content();
        let from = cursor.index();
        let to = cursor.offset();
        let ghost pending = cursor@.pending();
        let mut i: usize = from;
        while i < to
            invariant
                from <= i <= to <= chars.len(),
                pending == chars@.subrange(from as int, to as int),
                pending == cursor@.pending(),
                !pending.subrange(0, i - from).contains('.'),
            decreases to - i,
        {
            if chars[i] == '.' {
                assert(pending[i - from] == '.');
                assert(pending.contains('.'));
                return TokenKind::TokenLiteral(Literal::Float);
            }
            proof {
                let before = pending.subrange(0, i - from);
                let after = pending.subrange(0, i - from + 1);
                if after.contains('.') {
                    let k = choose|k: int| 0 <= k < after.len() && after[k] == '.';
                    assert(before[k] == '.');
                }
            }
            i += 1;
        }
        assert(pending.subrange(0, to - from) == pending);
        TokenKind::TokenLiteral(Literal::Int)
    }

    pub fn visit(&self, cursor: &mut Cursor) -> (answer: Result<Transition, LexerError>)
        requires
            old(cursor).wf(),
        ensures
            visited(State::Number, old(cursor)@, answer, final(cursor)@),
            final(cursor).wf(),
    {
        match cursor.peek() {
            Some(c) if is_ascii_digit(c) || c == '.' => Ok(
                Lexer::proceed(State::Number, TransitionKind::AdvanceOffset),
            ),
            _ => {
                let token_kind = Self::literal_kind(cursor);
                Ok(emit(State::Start, token_kind, cursor))
            },
        }
    }
}

fn pending_kind(cursor: &Cursor) -> (kind: TokenKind)
    requires
        cursor.wf(),
    ensures
        kind == classify(cursor@.pending()),
{
    TokenKind::of_chars(cursor.source().content(), cursor.index(), cursor.offset())
}

#[derive(Debug)]
pub struct StateWord;

impl StateWord {
    pub fn visit(&self, cursor: &mut Cursor) -> (answer: Result<Transition, LexerError>)
        requires
            old(cursor).wf(),
        ensures
            visited(State::Word, old(cursor)@, answer, final(cursor)@),
            final(cursor).wf(),
    {
        match cursor.peek() {
            Some(c) if c.is_alphanumeric() || c == '_' => Ok(
                Lexer::proceed(State::Word, TransitionKind::AdvanceOffset),
            ),
            _ => {
                let token_kind = pending_kind(cursor);
                Ok(emit(State::Start, token_kind, cursor))
            },
        }
    }
}

#[derive(Debug)]
pub struct StateSymbol;

impl StateSymbol {
    pub fn visit(&self, cursor: &mut Cursor) -> (answer: Result<Transition, LexerError>)
        requires
            old(cursor).wf(),
        ensures
            visited(State::Symbol, old(cursor)@, answer, final(cursor)@),
            final(cursor).wf(),
    {
        let empty = cursor.index() == cursor.offset();
        match cursor.peek() {
            None => {
                if empty {
                    Ok(Lexer::proceed(State::EOF, TransitionKind::Consume))
                } else {
                    let token_kind = pending_kind(cursor);
                    Ok(emit(State::EOF, token_kind, cursor))
                }
            },
            Some(c) => {
                if c == '\n' {
                    if empty {
                        let location = cursor.location().clone();
                        cursor.new_line();
                        let token = Token::new(TokenKind::TokenNewLine, cursor.lexeme(), location);
                        Ok(Lexer::proceed(State::Start, TransitionKind::EmitToken(token)))
                    } else {
                        let token_kind = pending_kind(cursor);
                        if token_kind == TokenKind::TokenAssign {
                            Ok(emit(State::Start, token_kind, cursor))
                        } else {
                            Ok(emit(State::Symbol, token_kind, cursor))
                        }
                    }
                } else if TokenKind::is_symbol_prefix_char(c) {
                    Ok(Lexer::proceed(State::Symbol, TransitionKind::AdvanceOffset))
                } else if TokenKind::is_symbol_char(c) {
                    cursor.advance_offset();
                    let token_kind = pending_kind(cursor);
                    Ok(emit(State::Start, token_kind, cursor))
                } else if empty {
                    Ok(Lexer::proceed(State::Start, TransitionKind::Empty))
                } else {
                    let token_kind = pending_kind(cursor);
                    Ok(emit(State::Start, token_kind, cursor))
                }
            },
        }
    }
}

#[derive(Debug)]
pub struct StateEOF;

impl StateEOF {
    pub fn visit(&self, cursor: &mut Cursor) -> (answer: Result<Transition, LexerError>)
        requires
            old(cursor).wf(),
        ensures
            visited(State::EOF, old(cursor)@, answer, final(cursor)@),
            final(cursor).wf(),
    {
        cursor.align();
        Ok(emit(State::End, TokenKind::TokenEOF, cursor))
    }
}

#[derive(Debug)]
pub struct StateEnd;

impl StateEnd {
    pub fn visit(&self, _cursor: &mut Cursor) -> (answer: Result<Transition, LexerError>)
        ensures
            visited(State::End, old(_cursor)@, answer, final(_cursor)@),
            old(_cursor).wf() ==> final(_cursor).wf(),
    {
        Ok(Lexer::proceed(State::End, TransitionKind::End))
    }
}

} // verus!
