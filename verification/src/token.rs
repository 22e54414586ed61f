//! Tokens and the trivia around them.
use vstd::prelude::*;
use crate::comments::{CommentKind, CommentPiece};
use crate::text::TextRange;

verus! {

/// One piece of the trivia before or after a token.
#[derive(Clone, Copy, Debug, PartialEq, Eq)]
pub enum TriviaPiece {
    /// A run of whitespace on one line.
    Whitespace,
    /// A line break.
    Newline,
    /// A comment, of the kind the language's comment style gives it.
    Comment(CommentKind, CommentPiece),
    /// Source text that the parser skipped, at the given range.
    Skipped(TextRange),
}

/// A token with its trivia.
pub struct SyntaxToken {
    /// The range of the token, trivia included.
    pub text_range: TextRange,
    /// The range of the token's own text, trivia excluded.
    pub text_trimmed_range: TextRange,
    /// The trivia before the token.
    pub leading_trivia: Vec<TriviaPiece>,
    /// The trailing trivia of the token before this one; `None` for the first token.
    pub prev_trailing_trivia: Option<Vec<TriviaPiece>>,
}

impl SyntaxToken {
    /// The token's leading trivia holds skipped token text.
    pub open spec fn has_skipped_spec(&self) -> bool {
        exists|i: int| 0 <= i < self.leading_trivia@.len() && #[trigger] self.leading_trivia@[i] is Skipped
    }

    /// The number of trivia pieces before the token and in the previous token's trailing trivia.
    pub open spec fn trivia_count(&self) -> int {
        self.leading_trivia@.len() + match self.prev_trailing_trivia {
            Some(t) => t@.len() as int,
            None => 0int,
        }
    }

    /// Whether the token's leading trivia holds skipped token text.
    pub fn has_skipped(&self) -> (r: bool)
        ensures
            r == self.has_skipped_spec(),
    {
        let mut i: usize = 0;
        while i < self.leading_trivia.len()
            invariant
                i <= self.leading_trivia@.len(),
                forall|j: int| 0 <= j < i ==> !(#[trigger] self.leading_trivia@[j] is Skipped),
            decreases self.leading_trivia@.len() - i,
        {
            match self.leading_trivia[i] {
                TriviaPiece::Skipped(_) => {
                    return true;
                },
                _ => {},
            }
            i = i + 1;
        }
        false
    }
}

} // verus!
