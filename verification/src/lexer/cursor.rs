//! The position cursor: the text being read, where the pending lexeme starts,
//! and how far the lexer has looked ahead.

use super::token::{LocationView, Token, TokenKind, TokenLocation, TokenView};
use crate::text::string_of;
use crate::source::{Source, SourceView};
use vstd::prelude::*;

verus! {

/// Owns the text and two indices into it: `index`, where the pending lexeme
/// begins, and `offset`, the next unread character. `location` follows both in
/// line and column terms.
#[derive(Debug)]
pub struct Cursor {
    source: Source,
    location: TokenLocation,
    index: usize,
    offset: usize,
}

/// A [`Cursor`] as plain values.
pub struct CursorView {
    pub source: SourceView,
    pub location: LocationView,
    pub index: nat,
    pub offset: nat,
}

impl CursorView {
    /// The cursor at the start of `source`.
    pub open spec fn start(source: SourceView) -> CursorView {
        CursorView {
            source,
            location: LocationView {
                file_path: source.file_path,
                line: 0,
                column_start: 0,
                column_end: 0,
            },
            index: 0,
            offset: 0,
        }
    }

    /// The text being read.
    pub open spec fn text(self) -> Seq<char> {
        self.source.content
    }

    /// The indices lie in the text in order, and the location never runs
    /// ahead of what has been read.
    pub open spec fn wf(self) -> bool {
        &&& self.index <= self.offset <= self.text().len()
        &&& self.location.column_start <= self.location.column_end <= self.offset
        &&& self.location.line <= self.offset
    }

    /// Whether every character has been read.
    pub open spec fn is_eof(self) -> bool {
        self.offset >= self.text().len()
    }

    /// The next unread character, if any.
    pub open spec fn peek(self) -> Option<char> {
        if self.is_eof() {
            None
        } else {
            Some(self.text()[self.offset as int])
        }
    }

    /// The text of the pending lexeme.
    pub open spec fn pending(self) -> Seq<char> {
        self.text().subrange(self.index as int, self.offset as int)
    }

    /// The token of kind `kind` that covers the pending lexeme.
    pub open spec fn token(self, kind: TokenKind) -> TokenView {
        TokenView { kind, lexeme: self.pending(), location: self.location }
    }

    /// Steps over one character, moving both ends of the pending lexeme.
    pub open spec fn consume(self) -> CursorView {
        if self.is_eof() {
            self
        } else {
            CursorView {
                location: self.location.advance_column_start().advance_column_end(),
                index: self.index + 1,
                offset: self.offset + 1,
                ..self
            }
        }
    }

    /// Takes one more character into the pending lexeme.
    pub open spec fn advance_offset(self) -> CursorView {
        if self.is_eof() {
            self
        } else {
            CursorView {
                location: self.location.advance_column_end(),
                offset: self.offset + 1,
                ..self
            }
        }
    }

    /// Starts a new, empty pending lexeme where the current one ends.
    pub open spec fn align(self) -> CursorView {
        CursorView { location: self.location.align(), index: self.offset, ..self }
    }

    /// Steps over a line break onto the first column of the next line.
    pub open spec fn new_line(self) -> CursorView {
        if self.is_eof() {
            self
        } else {
            CursorView {
                location: self.location.advance_line(),
                index: self.offset,
                offset: self.offset + 1,
                ..self
            }
        }
    }

    /// Deletes the next unread character from the text.
    pub open spec fn remove_carriage_return(self) -> CursorView {
        CursorView {
            source: SourceView {
                content: self.text().remove(self.offset as int),
                ..self.source
            },
            ..self
        }
    }
}

impl View for Cursor {
    type V = CursorView;

    closed spec fn view(&self) -> CursorView {
        CursorView {
            source: self.source@,
            location: self.location@,
            index: self.index as nat,
            offset: self.offset as nat,
        }
    }
}

impl Cursor {
    /// The invariant every cursor made by this module keeps.
    pub open spec fn wf(&self) -> bool {
        self@.wf() && self@.text().len() <= usize::MAX
    }

    /// The next unread character, or `None` at the end of the text.
    pub fn peek(&self) -> (next: Option<char>)
        ensures
            next == self@.peek(),
    {
        if self.is_eof() {
            return None;
        }
        Some(self.source.content()[self.offset])
    }

    pub fn source(&self) -> (source: &Source)
        ensures
            source@ == self@.source,
    {
        &self.source
    }

    pub fn location(&self) -> (location: &TokenLocation)
        ensures
            location@ == self@.location,
    {
        &self.location
    }

    pub fn index(&self) -> (index: usize)
        ensures
            index == self@.index,
    {
        self.index
    }

    pub fn offset(&self) -> (offset: usize)
        ensures
            offset == self@.offset,
    {
        self.offset
    }

    /// Whether every character has been read.
    pub fn is_eof(&self) -> (eof: bool)
        ensures
            eof == self@.is_eof(),
    {
        self.offset >= self.source.content().len()
    }

    /// The text of the pending lexeme.
    pub fn lexeme(&self) -> (lexeme: String)
        requires
            self.wf(),
        ensures
            lexeme@ == self@.pending(),
    {
        string_of(self.source.content(), self.index, self.offset)
    }

    /// The token of kind `kind` that covers the pending lexeme.
    pub fn token(&self, kind: TokenKind) -> (token: Token)
        requires
            self.wf(),
        ensures
            token@ == self@.token(kind),
    {
        Token::new(kind, self.lexeme(), self.location.clone())
    }

    /// Steps over the next character and moves the start of the pending
    /// lexeme with it; does nothing at the end of the text.
    pub fn consume(&mut self)
        requires
            old(self).wf(),
        ensures
            final(self)@ == old(self)@.consume(),
            final(self).wf(),
    {
        if self.is_eof() {
            return ;
        }
        self.location.advance_column_start();
        self.location.advance_column_end();
        self.index += 1;
        self.offset += 1;
    }

    /// Takes the next character into the pending lexeme; does nothing at the
    /// end of the text.
    pub fn advance_offset(&mut self)
        requires
            old(self).wf(),
        ensures
            final(self)@ == old(self)@.advance_offset(),
            final(self).wf(),
    {
        if self.is_eof() {
            return ;
        }
        self.location.advance_column_end();
        self.offset += 1;
    }

    /// Starts a new, empty pending lexeme where the current one ends.
    pub fn align(&mut self)
        ensures
            final(self)@ == old(self)@.align(),
            old(self).wf() ==> final(self).wf(),
    {
        let column_end = self.location.column_end();
        self.location.set_column_start(column_end);
        self.index = self.offset;
    }

    /// Deletes the next unread character from the text, leaving the indices
    /// and the location as they are.
    pub fn remove_carriage_return(&mut self)
        requires
            !old(self)@.is_eof(),
        ensures
            final(self)@ == old(self)@.remove_carriage_return(),
            old(self).wf() ==> final(self).wf(),
    {
        self.source.content_mut().remove(self.offset);
    }

    /// Steps over a line break: the location moves to the first column of the
    /// next line and the pending lexeme becomes the line break itself. Does
    /// nothing at the end of the text.
    pub fn new_line(&mut self)
        requires
            old(self).wf(),
        ensures
            final(self)@ == old(self)@.new_line(),
            final(self).wf(),
    {
        if self.is_eof() {
            return ;
        }
        self.location.advance_line();
        self.index = self.offset;
        self.offset += 1;
    }
}

/// A cursor is known by its view alone, so `from` states what it returns in
/// its own contract.
impl<'a> vstd::std_specs::convert::FromSpecImpl<&'a Source> for Cursor {
    open spec fn obeys_from_spec() -> bool {
        false
    }

    open spec fn from_spec(source: &'a Source) -> Self {
        arbitrary()
    }
}

impl<'a> From<&'a Source> for Cursor {
    /// A cursor at the start of a copy of `source`.
    fn from(source: &'a Source) -> (cursor: Cursor)
        ensures
            cursor@ == CursorView::start(source@),
            cursor.wf(),
    {
        let source = source.clone();
        let location = TokenLocation::from(source.file_path());
        proof {
            source.lemma_content_fits();
        }
        Cursor { source, location, index: 0, offset: 0 }
    }
}

} // verus!
