//! Source text handed to the lexer.

use crate::text::chars_of;
use vstd::prelude::*;

verus! {

/// An in-memory source file: the path it is known by and its characters.
#[derive(Debug)]
pub struct Source {
    file_path: String,
    content: Vec<char>,
}

/// What a [`Source`] holds, as plain sequences.
pub struct SourceView {
    pub file_path: Seq<char>,
    pub content: Seq<char>,
}

impl View for Source {
    type V = SourceView;

    closed spec fn view(&self) -> SourceView {
        SourceView { file_path: self.file_path@, content: self.content@ }
    }
}

impl Source {
    /// A source known by `file_path` whose text is `content`.
    pub fn new(file_path: String, content: String) -> (source: Source)
        ensures
            source@ == (SourceView { file_path: file_path@, content: content@ }),
    {
        Source { file_path, content: chars_of(content.as_str()) }
    }

    /// The text of a source fits in memory.
    pub proof fn lemma_content_fits(&self)
        ensures
            self@.content.len() <= usize::MAX,
    {
        assert(self.content.len() == self.content@.len());
    }

    /// The path that identifies this text.
    pub fn file_path(&self) -> (path: &String)
        ensures
            path@ == self@.file_path,
    {
        &self.file_path
    }

    /// The characters of the text.
    pub fn content(&self) -> (content: &Vec<char>)
        ensures
            content@ == self@.content,
    {
        &self.content
    }

    /// The characters of the text, open to in-place edits.
    pub fn content_mut(&mut self) -> (content: &mut Vec<char>)
        ensures
            content@ == old(self)@.content,
            final(self)@ == (SourceView {
                file_path: old(self)@.file_path,
                content: final(content)@,
            }),
    {
        &mut self.content
    }
}

impl Clone for Source {
    fn clone(&self) -> (copy: Self)
        ensures
            copy@ == self@,
    {
        Source { file_path: self.file_path.clone(), content: self.content.clone() }
    }
}

/// A source is known by its view alone, so `from` states what it returns in
/// its own contract.
impl vstd::std_specs::convert::FromSpecImpl<String> for Source {
    open spec fn obeys_from_spec() -> bool {
        false
    }

    open spec fn from_spec(content: String) -> Self {
        arbitrary()
    }
}

impl From<String> for Source {
    /// A source with an empty path whose text is `content`.
    fn from(content: String) -> (source: Source)
        ensures
            source@ == (SourceView { file_path: Seq::<char>::empty(), content: content@ }),
    {
        Source { file_path: String::new(), content: chars_of(content.as_str()) }
    }
}

} // verus!
