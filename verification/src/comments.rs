//! Comments as the formatter sees them, and the table that attaches them to syntax nodes.
use vstd::prelude::*;
use crate::text::TextRange;

verus! {

/// The shape of a comment.
#[derive(Clone, Copy, Debug, PartialEq, Eq)]
pub enum CommentKind {
    /// A block comment that spans lines or is meant to stand on its own, such as `/** docs */`.
    Block,
    /// A block comment inside a line, such as `a /* b */ c`.
    InlineBlock,
    /// A comment that ends at the end of its line, such as `// text`.
    Line,
}

impl CommentKind {
    pub open spec fn is_line_spec(self) -> bool {
        self is Line
    }

    /// Whether this is a line comment.
    pub fn is_line(&self) -> (r: bool)
        ensures
            r == self.is_line_spec(),
    {
        match self {
            CommentKind::Line => true,
            _ => false,
        }
    }
}

/// A comment trivia piece: what the layout rules read of its text.
#[derive(Clone, Copy, Debug, PartialEq, Eq)]
pub struct CommentPiece {
    /// Where the comment stands in the source text.
    pub range: TextRange,
    /// Whether the comment's text holds a line break.
    pub has_newline: bool,
    /// Whether the comment is a documentation comment (`/** ... */`).
    pub is_doc: bool,
}

/// A comment together with the line breaks around it in the source.
#[derive(Clone, Copy, Debug, PartialEq, Eq)]
pub struct SourceComment {
    pub kind: CommentKind,
    /// Line breaks between the comment and what precedes it.
    pub lines_before: u32,
    /// Line breaks between the comment and what follows it.
    pub lines_after: u32,
    pub piece: CommentPiece,
}

/// A syntax node, known to the comment table by its key.
#[derive(Clone, Copy, Debug, PartialEq, Eq)]
pub struct SyntaxNode {
    pub key: u64,
}

/// The comments attached to one node.
pub struct NodeComments {
    node: u64,
    leading: Vec<SourceComment>,
    dangling: Vec<SourceComment>,
    trailing: Vec<SourceComment>,
}

/// The leading, dangling and trailing comments of each node.
pub struct Comments {
    entries: Vec<NodeComments>,
}

impl Comments {
    /// No node appears twice in the table.
    #[verifier::type_invariant]
    spec fn keys_unique(self) -> bool {
        forall|i: int, j: int|
            0 <= i < self.entries@.len() && 0 <= j < self.entries@.len() && i != j
                ==> #[trigger] self.entries@[i].node != #[trigger] self.entries@[j].node
    }

    spec fn has_entry(self, node: u64) -> bool {
        exists|i: int| 0 <= i < self.entries@.len() && #[trigger] self.entries@[i].node == node
    }

    spec fn entry_of(self, node: u64) -> NodeComments {
        self.entries@[choose|i: int| 0 <= i < self.entries@.len() && #[trigger] self.entries@[i].node == node]
    }

    /// The leading comments of `node`: empty where the table holds none.
    pub closed spec fn leading_of(self, node: u64) -> Seq<SourceComment> {
        if self.has_entry(node) { self.entry_of(node).leading@ } else { Seq::empty() }
    }

    /// The dangling comments of `node`: empty where the table holds none.
    pub closed spec fn dangling_of(self, node: u64) -> Seq<SourceComment> {
        if self.has_entry(node) { self.entry_of(node).dangling@ } else { Seq::empty() }
    }

    /// The trailing comments of `node`: empty where the table holds none.
    pub closed spec fn trailing_of(self, node: u64) -> Seq<SourceComment> {
        if self.has_entry(node) { self.entry_of(node).trailing@ } else { Seq::empty() }
    }

    /// A table without comments.
    pub fn new() -> (r: Comments)
        ensures
            forall|k: u64| #[trigger] r.leading_of(k) == Seq::<SourceComment>::empty(),
            forall|k: u64| #[trigger] r.dangling_of(k) == Seq::<SourceComment>::empty(),
            forall|k: u64| #[trigger] r.trailing_of(k) == Seq::<SourceComment>::empty(),
    {
        Comments { entries: Vec::new() }
    }

    /// The index of the entry of `node`, if there is one.
    fn position(&self, node: u64) -> (r: Option<usize>)
        ensures
            match r {
                Some(i) => i < self.entries@.len() && self.entries@[i as int].node == node,
                None => !self.has_entry(node),
            },
    {
        let mut i: usize = 0;
        while i < self.entries.len()
            invariant
                i <= self.entries@.len(),
                forall|j: int| 0 <= j < i ==> #[trigger] self.entries@[j].node != node,
            decreases self.entries@.len() - i,
        {
            if self.entries[i].node == node {
                return Some(i);
            }
            i = i + 1;
        }
        None
    }

    /// The entry found at `i` is the one the specification picks.
    proof fn lemma_entry_at(self, node: u64, i: int)
        requires
            0 <= i < self.entries@.len(),
            self.entries@[i].node == node,
            self.keys_unique(),
        ensures
            self.has_entry(node),
            self.entry_of(node) == self.entries@[i],
    {
        let j = choose|j: int| 0 <= j < self.entries@.len() && #[trigger] self.entries@[j].node == node;
        assert(self.entries@[i].node == node);
        assert(self.entries@[j].node == node);
    }

    /// The leading comments of `node`.
    pub fn leading_comments(&self, node: &SyntaxNode) -> (r: &[SourceComment])
        ensures
            r@ == self.leading_of(node.key),
    {
        proof {
            use_type_invariant(self);
        }
        match self.position(node.key) {
            Some(i) => {
                proof {
                    self.lemma_entry_at(node.key, i as int);
                }
                self.entries[i].leading.as_slice()
            },
            None => &[],
        }
    }

    /// The dangling comments of `node`.
    pub fn dangling_comments(&self, node: &SyntaxNode) -> (r: &[SourceComment])
        ensures
            r@ == self.dangling_of(node.key),
    {
        proof {
            use_type_invariant(self);
        }
        match self.position(node.key) {
            Some(i) => {
                proof {
                    self.lemma_entry_at(node.key, i as int);
                }
                self.entries[i].dangling.as_slice()
            },
            None => &[],
        }
    }

    /// The trailing comments of `node`.
    pub fn trailing_comments(&self, node: &SyntaxNode) -> (r: &[SourceComment])
        ensures
            r@ == self.trailing_of(node.key),
    {
        proof {
            use_type_invariant(self);
        }
        match self.position(node.key) {
            Some(i) => {
                proof {
                    self.lemma_entry_at(node.key, i as int);
                }
                self.entries[i].trailing.as_slice()
            },
            None => &[],
        }
    }

    /// Sets the comments of `node`, replacing any it had.
    pub fn insert(
        &mut self,
        node: &SyntaxNode,
        leading: Vec<SourceComment>,
        dangling: Vec<SourceComment>,
        trailing: Vec<SourceComment>,
    )
        ensures
            forall|k: u64| #[trigger] final(self).leading_of(k)
                == if k == node.key { leading@ } else { old(self).leading_of(k) },
            forall|k: u64| #[trigger] final(self).dangling_of(k)
                == if k == node.key { dangling@ } else { old(self).dangling_of(k) },
            forall|k: u64| #[trigger] final(self).trailing_of(k)
                == if k == node.key { trailing@ } else { old(self).trailing_of(k) },
    {
        proof {
            use_type_invariant(&*self);
        }
        let ghost old_self = *self;
        let entry = NodeComments { node: node.key, leading, dangling, trailing };
        let ghost e = entry;
        let pos = self.position(node.key);
        let mut entries: Vec<NodeComments> = Vec::new();
        std::mem::swap(&mut entries, &mut self.entries);
        match pos {
            Some(i) => {
                entries.set(i, entry);
                self.entries = entries;
                proof {
                    use_type_invariant(&*self);
                    assert forall|k: u64| true implies {
                        &&& self.leading_of(k) == if k == node.key { e.leading@ } else { old_self.leading_of(k) }
                        &&& self.dangling_of(k) == if k == node.key { e.dangling@ } else { old_self.dangling_of(k) }
                        &&& self.trailing_of(k) == if k == node.key { e.trailing@ } else { old_self.trailing_of(k) }
                    } by {
                        if k == node.key {
                            self.lemma_entry_at(k, i as int);
                        } else if old_self.has_entry(k) {
                            let j = choose|j: int| 0 <= j < old_self.entries@.len() && #[trigger] old_self.entries@[j].node == k;
                            old_self.lemma_entry_at(k, j);
                            self.lemma_entry_at(k, j);
                        } else {
                            assert(!self.has_entry(k));
                        }
                    }
                }
            },
            None => {
                entries.push(entry);
                self.entries = entries;
                proof {
                    use_type_invariant(&*self);
                    let n = old_self.entries@.len() as int;
                    assert forall|k: u64| true implies {
                        &&& self.leading_of(k) == if k == node.key { e.leading@ } else { old_self.leading_of(k) }
                        &&& self.dangling_of(k) == if k == node.key { e.dangling@ } else { old_self.dangling_of(k) }
                        &&& self.trailing_of(k) == if k == node.key { e.trailing@ } else { old_self.trailing_of(k) }
                    } by {
                        if k == node.key {
                            self.lemma_entry_at(k, n);
                        } else if old_self.has_entry(k) {
                            let j = choose|j: int| 0 <= j < old_self.entries@.len() && #[trigger] old_self.entries@[j].node == k;
                            old_self.lemma_entry_at(k, j);
                            self.lemma_entry_at(k, j);
                        } else {
                            assert(!self.has_entry(k)) by {
                                if self.has_entry(k) {
                                    let j = choose|j: int| 0 <= j < self.entries@.len() && #[trigger] self.entries@[j].node == k;
                                    assert(j < n);
                                    assert(old_self.entries@[j].node == k);
                                }
                            }
                        }
                    }
                }
            },
        }
    }
}

} // verus!
