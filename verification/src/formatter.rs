//! The formatter: the comment table it reads and the document it writes.
use vstd::prelude::*;
use crate::comments::{Comments, SourceComment};
use crate::format_element::FormatElement;
use crate::token::SyntaxToken;

verus! {

/// Holds the comments of the tree being formatted, the elements written so far,
/// the start offsets of the tokens printed so far, and the comments marked formatted so far.
pub struct Formatter {
    comments: Comments,
    elements: Vec<FormatElement>,
    printed_tokens: Vec<u32>,
    formatted: Vec<SourceComment>,
}

impl Formatter {
    pub closed spec fn comments_spec(self) -> Comments {
        self.comments
    }

    pub closed spec fn elements_spec(self) -> Seq<FormatElement> {
        self.elements@
    }

    pub closed spec fn printed_spec(self) -> Seq<u32> {
        self.printed_tokens@
    }

    pub closed spec fn formatted_spec(self) -> Seq<SourceComment> {
        self.formatted@
    }

    /// A formatter over `comments` that has written nothing.
    pub fn new(comments: Comments) -> (r: Formatter)
        ensures
            r.comments_spec() == comments,
            r.elements_spec() == Seq::<FormatElement>::empty(),
            r.printed_spec() == Seq::<u32>::empty(),
            r.formatted_spec() == Seq::<SourceComment>::empty(),
    {
        Formatter { comments, elements: Vec::new(), printed_tokens: Vec::new(), formatted: Vec::new() }
    }

    /// The comment table.
    pub fn comments(&self) -> (r: &Comments)
        ensures
            *r == self.comments_spec(),
    {
        &self.comments
    }

    /// The elements written so far.
    pub fn elements(&self) -> (r: &[FormatElement])
        ensures
            r@ == self.elements_spec(),
    {
        self.elements.as_slice()
    }

    /// The start offsets of the tokens printed so far, in the order they were printed.
    pub fn printed_tokens(&self) -> (r: &[u32])
        ensures
            r@ == self.printed_spec(),
    {
        self.printed_tokens.as_slice()
    }

    /// Appends one element.
    pub fn write_element(&mut self, element: FormatElement)
        ensures
            final(self).elements_spec() == old(self).elements_spec().push(element),
            final(self).comments_spec() == old(self).comments_spec(),
            final(self).printed_spec() == old(self).printed_spec(),
            final(self).formatted_spec() == old(self).formatted_spec(),
    {
        self.elements.push(element);
    }

    /// Appends the given elements in order.
    pub fn write_elements(&mut self, elements: &[FormatElement])
        ensures
            final(self).elements_spec() == old(self).elements_spec() + elements@,
            final(self).comments_spec() == old(self).comments_spec(),
            final(self).printed_spec() == old(self).printed_spec(),
            final(self).formatted_spec() == old(self).formatted_spec(),
    {
        let ghost start = self.elements@;
        let mut i: usize = 0;
        while i < elements.len()
            invariant
                i <= elements@.len(),
                self.elements@ == start + elements@.subrange(0, i as int),
                self.comments == old(self).comments,
                self.printed_tokens@ == old(self).printed_tokens@,
                self.formatted@ == old(self).formatted@,
            decreases elements@.len() - i,
        {
            self.elements.push(elements[i]);
            i = i + 1;
            assert(elements@.subrange(0, i as int) == elements@.subrange(0, i - 1) + seq![elements@[i - 1]]);
        }
        assert(elements@.subrange(0, elements@.len() as int) == elements@);
    }

    /// Records that `token` has been printed.
    pub fn track_token(&mut self, token: &SyntaxToken)
        ensures
            final(self).printed_spec() == old(self).printed_spec().push(token.text_range.start_spec()),
            final(self).elements_spec() == old(self).elements_spec(),
            final(self).comments_spec() == old(self).comments_spec(),
            final(self).formatted_spec() == old(self).formatted_spec(),
    {
        self.printed_tokens.push(token.text_range.start());
    }

    /// Records that `comment` has been formatted.
    pub fn mark_formatted(&mut self, comment: &SourceComment)
        ensures
            final(self).formatted_spec() == old(self).formatted_spec().push(*comment),
            final(self).elements_spec() == old(self).elements_spec(),
            final(self).comments_spec() == old(self).comments_spec(),
            final(self).printed_spec() == old(self).printed_spec(),
    {
        self.formatted.push(*comment);
    }

    /// The comments marked formatted so far, in the order they were marked.
    pub fn formatted_comments(&self) -> (r: &[SourceComment])
        ensures
            r@ == self.formatted_spec(),
    {
        self.formatted.as_slice()
    }
}

} // verus!
