//! Lexical analysis: from characters to tokens.
//!
//! The [`Lexer`] drives the state machine of [`states`] over a [`Cursor`]:
//! it visits the current state, applies the action the visit asks for, and
//! hands out the token when one is emitted. [`LexerView::tokens`] says, for
//! every text, which tokens come out.

pub mod cursor;
pub mod display;
pub mod laws;
pub mod states;
pub mod token;

use crate::source::{Source, SourceView};
use cursor::{Cursor, CursorView};
use states::{visit, State, Transition, TransitionKind, TransitionView, Visit};
use token::{is_symbol_char, token_views, Token, TokenView};
use vstd::prelude::*;

verus! {

/// The failure a state may report. No state reports one: what cannot be read
/// becomes a token of its own.
#[derive(Clone, Copy, Debug, PartialEq, Eq, Structural)]
pub enum LexerError {
    LexerError,
}

/// The tokenizer: a cursor over the text and the state the machine is in.
#[derive(Debug)]
pub struct Lexer {
    cursor: Cursor,
    state: State,
}

/// A [`Lexer`] as plain values.
pub struct LexerView {
    pub cursor: CursorView,
    pub state: State,
}

impl LexerView {
    /// The lexer at the start of `source`.
    pub open spec fn start(source: SourceView) -> LexerView {
        LexerView { cursor: CursorView::start(source), state: State::Start }
    }

    /// What the visit of the current state answers.
    pub open spec fn visit(self) -> Visit {
        visit(self.state, self.cursor)
    }

    /// The lexer after one visit and the action it asked for.
    pub open spec fn turn(self) -> LexerView {
        let visit = self.visit();
        LexerView {
            cursor: visit.transition.kind.apply(visit.cursor),
            state: visit.transition.state,
        }
    }

    /// The token the next visit emits, if it emits one.
    pub open spec fn emitted(self) -> Option<TokenView> {
        self.visit().transition.kind.token()
    }

    /// Whether the next unread character belongs to the punctuation table.
    pub open spec fn at_symbol(self) -> bool {
        self.cursor.peek() matches Some(c) && is_symbol_char(c)
    }

    /// How many visits without progress in the text the current state can
    /// still lead to, counted generously.
    pub open spec fn weight(self) -> nat {
        let empty = self.cursor.index == self.cursor.offset;
        match self.state {
            State::End => 0,
            State::EOF => 1,
            State::Start => if !self.at_symbol() {
                2
            } else if empty {
                4
            } else {
                6
            },
            State::Symbol => if self.at_symbol() && empty {
                3
            } else {
                5
            },
            _ => 7,
        }
    }

    /// A bound on the visits left: it falls with every turn.
    pub open spec fn measure(self) -> nat {
        (8 * (self.cursor.text().len() - self.cursor.offset) + self.weight()) as nat
    }

    /// The next token, if there is one, and the lexer after it was handed out.
    pub open spec fn next(self) -> (Option<TokenView>, LexerView)
        decreases self.measure(),
        when self.cursor.wf()
        via Self::next_decreases
    {
        if self.state == State::End {
            (None, self)
        } else if self.emitted() is Some {
            (self.emitted(), self.turn())
        } else {
            self.turn().next()
        }
    }

    #[via_fn]
    proof fn next_decreases(self) {
        if self.state != State::End {
            self.lemma_turn();
        }
    }

    /// Every token from here to the end of the text, in order.
    pub open spec fn tokens(self) -> Seq<TokenView>
        decreases self.measure(),
        when self.cursor.wf()
        via Self::tokens_decreases
    {
        if self.state == State::End {
            Seq::empty()
        } else if self.emitted() is Some {
            seq![self.emitted()->0] + self.turn().tokens()
        } else {
            self.turn().tokens()
        }
    }

    #[via_fn]
    proof fn tokens_decreases(self) {
        if self.state != State::End {
            self.lemma_turn();
        }
    }

    /// What `next` hands out is the head of `tokens`, and the lexer it
    /// leaves yields the rest.
    pub proof fn lemma_next(self)
        requires
            self.cursor.wf(),
        ensures
            self.next().1.cursor.wf(),
            self.next().1.cursor.text().len() <= self.cursor.text().len(),
            match self.next().0 {
                Some(token) => {
                    &&& self.tokens() == seq![token] + self.next().1.tokens()
                    &&& self.next().1.measure() < self.measure()
                },
                None => self.tokens() == Seq::<TokenView>::empty() && self.next().1.state
                    == State::End,
            },
        decreases self.measure(),
    {
        if self.state != State::End {
            self.lemma_turn();
            if self.emitted() is None {
                self.turn().lemma_next();
            }
        }
    }

    /// A turn keeps the cursor well-formed and brings the end nearer.
    pub proof fn lemma_turn(self)
        requires
            self.cursor.wf(),
            self.state != State::End,
        ensures
            self.turn().cursor.wf(),
            self.turn().measure() < self.measure(),
            self.turn().cursor.text().len() <= self.cursor.text().len(),
    {
    }
}

impl View for Lexer {
    type V = LexerView;

    closed spec fn view(&self) -> LexerView {
        LexerView { cursor: self.cursor@, state: self.state }
    }
}

impl Lexer {
    /// The invariant every lexer made by this module keeps.
    pub open spec fn wf(&self) -> bool {
        self@.cursor.wf() && self@.cursor.text().len() <= usize::MAX
    }

    /// A lexer at the start of a copy of `source`.
    pub fn new(source: &Source) -> (lexer: Lexer)
        ensures
            lexer@ == LexerView::start(source@),
            lexer.wf(),
    {
        Lexer { cursor: Cursor::from(source), state: State::Start }
    }

    pub fn cursor(&self) -> (cursor: &Cursor)
        ensures
            cursor@ == self@.cursor,
    {
        &self.cursor
    }

    fn proceed(state: State, transition_kind: TransitionKind) -> (transition: Transition)
        ensures
            transition@ == (TransitionView { state, kind: transition_kind@ }),
    {
        Transition::new(state, transition_kind)
    }

    /// Hands out all the tokens that are left, the end-of-file token last.
    pub fn collect(&mut self) -> (tokens: Vec<Token>)
        requires
            old(self).wf(),
        ensures
            final(self).wf(),
            final(self)@.state == State::End,
            token_views(tokens@) == old(self)@.tokens(),
    {
        let mut tokens: Vec<Token> = Vec::new();
        loop
            invariant
                self.wf(),
                token_views(tokens@) + self@.tokens() == old(self)@.tokens(),
            ensures
                self.wf(),
                self@.state == State::End,
                token_views(tokens@) == old(self)@.tokens(),
            decreases self@.measure(),
        {
            let ghost before = self@;
            let ghost seen = tokens@;
            proof {
                before.lemma_next();
            }
            match self.next() {
                Some(token) => {
                    tokens.push(token);
                    assert(token_views(tokens@) == token_views(seen) + seq![token@]);
                },
                None => {
                    break ;
                },
            }
        }
        tokens
    }

    /// Hands out the next token, or `None` once the end-of-file token has
    /// been handed out.
    pub fn next(&mut self) -> (token: Option<Token>)
        requires
            old(self).wf(),
        ensures
            final(self).wf(),
            final(self)@ == old(self)@.next().1,
            match token {
                Some(token) => old(self)@.next().0 == Some(token@),
                None => old(self)@.next().0 is None,
            },
    {
        loop
            invariant
                self.wf(),
                self@.next() == old(self)@.next(),
            decreases self@.measure(),
        {
            let ghost before = self@;
            let transition = match self.state.visit(&mut self.cursor) {
                Ok(transition) => transition,
                Err(_) => {
                    return None;
                },
            };
            let (state, transition_kind) = transition.into_parts();
            self.state = state;
            transition_kind.apply(&mut self.cursor);
            proof {
                if before.state != State::End {
                    before.lemma_turn();
                }
            }
            if let TransitionKind::EmitToken(token) = transition_kind {
                return Some(token);
            }
            if let TransitionKind::End = transition_kind {
                return None;
            }
        }
    }
}

} // verus!
