//! Layout of leading, trailing and dangling comments, and of skipped token trivia.
use vstd::prelude::*;
use crate::comments::{CommentKind, SourceComment, SyntaxNode};
use crate::format_element::{FormatElement, GroupId, PrintMode};
use crate::formatter::Formatter;
use crate::text::TextRange;
use crate::token::{SyntaxToken, TriviaPiece};

verus! {

/// Whether two comments are nestled: both are multi-line documentation comments and the
/// second starts exactly where the first ends.
pub open spec fn nestled(first: SourceComment, second: SourceComment) -> bool {
    &&& first.piece.has_newline
    &&& second.piece.has_newline
    &&& second.piece.range.start_spec() == first.piece.range.end_spec()
    &&& first.piece.is_doc
    &&& second.piece.is_doc
}

/// Returns true if both comments are multi-line documentation comments with nothing
/// between them. Such comments (a JSDoc pattern for overloaded types) are kept adjacent.
pub fn should_nestle_adjacent_doc_comments(
    first_comment: &SourceComment,
    second_comment: &SourceComment,
) -> (r: bool)
    ensures
        r == nestled(*first_comment, *second_comment),
{
    let first = &first_comment.piece;
    let second = &second_comment.piece;
    first.has_newline && second.has_newline && second.range.start() == first.range.end()
        && first.is_doc && second.is_doc
}

/// `[space]` when `b`, nothing otherwise.
pub open spec fn maybe_space(b: bool) -> Seq<FormatElement> {
    if b { seq![FormatElement::Space] } else { Seq::empty() }
}

/// What follows a leading comment, given the comment after it.
pub open spec fn leading_separator(comment: SourceComment, next: Option<SourceComment>) -> Seq<FormatElement> {
    match comment.kind {
        CommentKind::Line => if comment.lines_after <= 1 {
            seq![FormatElement::HardLineBreak]
        } else {
            seq![FormatElement::EmptyLine]
        },
        _ => if comment.lines_after == 0 {
            maybe_space(!(next matches Some(n) && nestled(comment, n)))
        } else if comment.lines_after == 1 {
            if comment.lines_before == 0 {
                seq![FormatElement::SoftLineBreakOrSpace]
            } else {
                seq![FormatElement::HardLineBreak]
            }
        } else {
            seq![FormatElement::EmptyLine]
        },
    }
}

/// The comment after `comments[i]`, if any.
pub open spec fn next_of(comments: Seq<SourceComment>, i: int) -> Option<SourceComment> {
    if i + 1 < comments.len() { Some(comments[i + 1]) } else { None }
}

/// The elements written for the leading comment `comments[i]`.
pub open spec fn leading_item(comments: Seq<SourceComment>, i: int) -> Seq<FormatElement> {
    seq![FormatElement::Comment(comments[i])] + leading_separator(comments[i], next_of(comments, i))
}

/// The elements written for the first `n` leading comments.
pub open spec fn leading_prefix(comments: Seq<SourceComment>, n: int) -> Seq<FormatElement>
    decreases n,
{
    if n <= 0 { Seq::empty() } else { leading_prefix(comments, n - 1) + leading_item(comments, n - 1) }
}

/// The layout of a node's leading comments.
pub open spec fn leading_layout(comments: Seq<SourceComment>) -> Seq<FormatElement> {
    leading_prefix(comments, comments.len() as int)
}

/// Writes `comments` as leading comments.
fn write_leading_comments(comments: &[SourceComment], f: &mut Formatter)
    ensures
        final(f).elements_spec() == old(f).elements_spec() + leading_layout(comments@),
        final(f).comments_spec() == old(f).comments_spec(),
        final(f).printed_spec() == old(f).printed_spec(),
        final(f).formatted_spec() == old(f).formatted_spec() + comments@,
{
    let ghost start = f.elements_spec();
    let n = comments.len();
    let mut i: usize = 0;
    while i < n
        invariant
            n == comments@.len(),
            i <= n,
            f.elements_spec() == start + leading_prefix(comments@, i as int),
            f.comments_spec() == old(f).comments_spec(),
            f.printed_spec() == old(f).printed_spec(),
            f.formatted_spec() == old(f).formatted_spec() + comments@.take(i as int),
        decreases n - i,
    {
        let comment = &comments[i];
        f.write_element(FormatElement::Comment(*comment));
        match comment.kind {
            CommentKind::Block | CommentKind::InlineBlock => {
                if comment.lines_after == 0 {
                    let should_nestle = i + 1 < n && should_nestle_adjacent_doc_comments(
                        comment,
                        &comments[i + 1],
                    );
                    if !should_nestle {
                        f.write_element(FormatElement::Space);
                    }
                } else if comment.lines_after == 1 {
                    if comment.lines_before == 0 {
                        f.write_element(FormatElement::SoftLineBreakOrSpace);
                    } else {
                        f.write_element(FormatElement::HardLineBreak);
                    }
                } else {
                    f.write_element(FormatElement::EmptyLine);
                }
            },
            CommentKind::Line => {
                if comment.lines_after <= 1 {
                    f.write_element(FormatElement::HardLineBreak);
                } else {
                    f.write_element(FormatElement::EmptyLine);
                }
            },
        }
        f.mark_formatted(comment);
        assert(comments@.take(i + 1) == comments@.take(i as int).push(*comment));
        i = i + 1;
    }
    assert(comments@.take(n as int) == comments@);
}

/// Formats the leading comments of a node.
#[derive(Debug, Copy, Clone)]
pub enum FormatLeadingComments<'a> {
    /// The leading comments that the comment table holds for the node.
    Node(&'a SyntaxNode),
    /// The given comments.
    Comments(&'a [SourceComment]),
}

/// Formats the leading comments of `node`.
pub fn format_leading_comments<'a>(node: &'a SyntaxNode) -> (r: FormatLeadingComments<'a>)
    ensures
        r == FormatLeadingComments::Node(node),
{
    FormatLeadingComments::Node(node)
}

impl<'a> FormatLeadingComments<'a> {
    /// The comments this formats, read from the comment table `comments` where it names a node.
    pub open spec fn comments_from(self, comments: crate::comments::Comments) -> Seq<SourceComment> {
        match self {
            FormatLeadingComments::Node(node) => comments.leading_of(node.key),
            FormatLeadingComments::Comments(cs) => cs@,
        }
    }

    /// Writes each comment followed by the break or space that its source position calls for.
    pub fn fmt(&self, f: &mut Formatter)
        ensures
            final(f).elements_spec() == old(f).elements_spec() + leading_layout(
                self.comments_from(old(f).comments_spec()),
            ),
            final(f).comments_spec() == old(f).comments_spec(),
            final(f).printed_spec() == old(f).printed_spec(),
            final(f).formatted_spec() == old(f).formatted_spec() + self.comments_from(
                old(f).comments_spec(),
            ),
    {
        let leading = match self {
            FormatLeadingComments::Node(node) => vstd::slice::slice_to_vec(
                f.comments().leading_comments(node),
            ),
            FormatLeadingComments::Comments(comments) => vstd::slice::slice_to_vec(comments),
        };
        write_leading_comments(leading.as_slice(), f);
    }
}


/// Some comment up to and including `comments[i]` had a line break before it, so
/// `comments[i]` is on a line after the code it trails.
pub open spec fn after_line_break(comments: Seq<SourceComment>, i: int) -> bool {
    exists|j: int| 0 <= j <= i && (#[trigger] comments[j]).lines_before > 0
}

/// The comment before `comments[i]`, if any.
pub open spec fn previous_of(comments: Seq<SourceComment>, i: int) -> Option<SourceComment> {
    if i > 0 { Some(comments[i - 1]) } else { None }
}

/// What separates a trailing comment on its own line from what precedes it.
pub open spec fn trailing_line_separator(
    comment: SourceComment,
    previous: Option<SourceComment>,
    nestle: bool,
) -> Seq<FormatElement> {
    if nestle {
        Seq::empty()
    } else if comment.lines_before == 0 {
        if previous matches Some(p) && p.kind.is_line_spec() {
            seq![FormatElement::HardLineBreak]
        } else {
            seq![FormatElement::Space]
        }
    } else if comment.lines_before == 1 {
        seq![FormatElement::HardLineBreak]
    } else {
        seq![FormatElement::EmptyLine]
    }
}

/// The elements written for the trailing comment `comments[i]`.
pub open spec fn trailing_item(comments: Seq<SourceComment>, i: int) -> Seq<FormatElement> {
    let comment = comments[i];
    let previous = previous_of(comments, i);
    let nestle = previous matches Some(p) && nestled(p, comment);
    if after_line_break(comments, i) {
        seq![FormatElement::StartLineSuffix] + trailing_line_separator(comment, previous, nestle)
            + seq![FormatElement::Comment(comment), FormatElement::EndLineSuffix, FormatElement::ExpandParent]
    } else {
        let content = maybe_space(!nestle) + seq![FormatElement::Comment(comment)];
        if comment.kind.is_line_spec() {
            seq![FormatElement::StartLineSuffix] + content
                + seq![FormatElement::EndLineSuffix, FormatElement::ExpandParent]
        } else {
            content
        }
    }
}

/// The elements written for the first `n` trailing comments.
pub open spec fn trailing_prefix(comments: Seq<SourceComment>, n: int) -> Seq<FormatElement>
    decreases n,
{
    if n <= 0 { Seq::empty() } else { trailing_prefix(comments, n - 1) + trailing_item(comments, n - 1) }
}

/// The layout of a node's trailing comments.
pub open spec fn trailing_layout(comments: Seq<SourceComment>) -> Seq<FormatElement> {
    trailing_prefix(comments, comments.len() as int)
}

/// The elements of the trailing comment `comments[i]`; `on_own_line` tells whether some
/// comment up to it had a line break before it.
fn trailing_item_elements(comments: &[SourceComment], i: usize, on_own_line: bool) -> (r: Vec<FormatElement>)
    requires
        i < comments@.len(),
        on_own_line == after_line_break(comments@, i as int),
    ensures
        r@ == trailing_item(comments@, i as int),
{
    let comment = &comments[i];
    let should_nestle = i > 0 && should_nestle_adjacent_doc_comments(&comments[i - 1], comment);
    let mut out: Vec<FormatElement> = Vec::new();
    if on_own_line {
        out.push(FormatElement::StartLineSuffix);
        if should_nestle {
        } else if comment.lines_before == 0 {
            if i > 0 && comments[i - 1].kind.is_line() {
                out.push(FormatElement::HardLineBreak);
            } else {
                out.push(FormatElement::Space);
            }
        } else if comment.lines_before == 1 {
            out.push(FormatElement::HardLineBreak);
        } else {
            out.push(FormatElement::EmptyLine);
        }
        out.push(FormatElement::Comment(*comment));
        out.push(FormatElement::EndLineSuffix);
        out.push(FormatElement::ExpandParent);
    } else if comment.kind.is_line() {
        out.push(FormatElement::StartLineSuffix);
        if !should_nestle {
            out.push(FormatElement::Space);
        }
        out.push(FormatElement::Comment(*comment));
        out.push(FormatElement::EndLineSuffix);
        out.push(FormatElement::ExpandParent);
    } else {
        if !should_nestle {
            out.push(FormatElement::Space);
        }
        out.push(FormatElement::Comment(*comment));
    }
    out
}

/// Writes `comments` as trailing comments.
fn write_trailing_comments(comments: &[SourceComment], f: &mut Formatter)
    ensures
        final(f).elements_spec() == old(f).elements_spec() + trailing_layout(comments@),
        final(f).comments_spec() == old(f).comments_spec(),
        final(f).printed_spec() == old(f).printed_spec(),
        final(f).formatted_spec() == old(f).formatted_spec() + comments@,
{
    let ghost start = f.elements_spec();
    let n = comments.len();
    let mut any_lines_before = false;
    let mut i: usize = 0;
    while i < n
        invariant
            n == comments@.len(),
            i <= n,
            f.elements_spec() == start + trailing_prefix(comments@, i as int),
            f.comments_spec() == old(f).comments_spec(),
            f.printed_spec() == old(f).printed_spec(),
            f.formatted_spec() == old(f).formatted_spec() + comments@.take(i as int),
            i > 0 ==> (any_lines_before == after_line_break(comments@, i - 1)),
            i == 0 ==> !any_lines_before,
        decreases n - i,
    {
        let comment = &comments[i];
        if comment.lines_before > 0 {
            any_lines_before = true;
        }
        proof {
            if any_lines_before {
                if comment.lines_before > 0 {
                    assert(comments@[i as int].lines_before > 0);
                } else {
                    let j = choose|j: int| 0 <= j <= i - 1 && (#[trigger] comments@[j]).lines_before > 0;
                    assert(comments@[j].lines_before > 0);
                }
            } else {
                assert forall|j: int| 0 <= j <= i implies !((#[trigger] comments@[j]).lines_before > 0) by {
                    if j < i {
                        if comments@[j].lines_before > 0 {
                            assert(after_line_break(comments@, i - 1));
                        }
                    }
                }
            }
            assert(any_lines_before == after_line_break(comments@, i as int));
        }
        let item = trailing_item_elements(comments, i, any_lines_before);
        f.write_elements(item.as_slice());
        f.mark_formatted(comment);
        assert(comments@.take(i + 1) == comments@.take(i as int).push(*comment));
        i = i + 1;
    }
    assert(comments@.take(n as int) == comments@);
}

/// Formats the trailing comments of a node.
#[derive(Debug, Clone, Copy)]
pub enum FormatTrailingComments<'a> {
    /// The trailing comments that the comment table holds for the node.
    Node(&'a SyntaxNode),
    /// The given comments.
    Comments(&'a [SourceComment]),
}

/// Formats the trailing comments of `node`.
pub fn format_trailing_comments<'a>(node: &'a SyntaxNode) -> (r: FormatTrailingComments<'a>)
    ensures
        r == FormatTrailingComments::Node(node),
{
    FormatTrailingComments::Node(node)
}

impl<'a> FormatTrailingComments<'a> {
    /// The comments this formats, read from the comment table `comments` where it names a node.
    pub open spec fn comments_from(self, comments: crate::comments::Comments) -> Seq<SourceComment> {
        match self {
            FormatTrailingComments::Node(node) => comments.trailing_of(node.key),
            FormatTrailingComments::Comments(cs) => cs@,
        }
    }

    /// Writes each comment after a space, or, once a comment has stood on a line of its own,
    /// as a line suffix that expands the enclosing group.
    pub fn fmt(&self, f: &mut Formatter)
        ensures
            final(f).elements_spec() == old(f).elements_spec() + trailing_layout(
                self.comments_from(old(f).comments_spec()),
            ),
            final(f).comments_spec() == old(f).comments_spec(),
            final(f).printed_spec() == old(f).printed_spec(),
            final(f).formatted_spec() == old(f).formatted_spec() + self.comments_from(
                old(f).comments_spec(),
            ),
    {
        let trailing = match self {
            FormatTrailingComments::Node(node) => vstd::slice::slice_to_vec(
                f.comments().trailing_comments(node),
            ),
            FormatTrailingComments::Comments(comments) => vstd::slice::slice_to_vec(comments),
        };
        write_trailing_comments(trailing.as_slice(), f);
    }
}


/// How dangling comments are indented.
#[derive(Copy, Clone, Debug, PartialEq, Eq)]
pub enum DanglingIndentMode {
    /// Writes every comment on its own line and indents them with a block indent.
    Block,
    /// Writes every comment on its own line and indents them with a soft line indent.
    /// Writes a line break after the last comment if it is a line comment.
    Soft,
    /// Writes every comment on its own line.
    NoIndent,
}

/// The elements written for the dangling comment `comments[i]`.
pub open spec fn dangling_item(comments: Seq<SourceComment>, i: int) -> Seq<FormatElement> {
    let separator = if i > 0 && !nestled(comments[i - 1], comments[i]) {
        seq![FormatElement::HardLineBreak]
    } else {
        Seq::empty()
    };
    separator + seq![FormatElement::Comment(comments[i])]
}

/// The elements written for the first `n` dangling comments.
pub open spec fn dangling_prefix(comments: Seq<SourceComment>, n: int) -> Seq<FormatElement>
    decreases n,
{
    if n <= 0 { Seq::empty() } else { dangling_prefix(comments, n - 1) + dangling_item(comments, n - 1) }
}

/// The dangling comments, without the indentation around them.
pub open spec fn dangling_body(comments: Seq<SourceComment>, mode: DanglingIndentMode) -> Seq<FormatElement> {
    let closing = if mode is Soft && comments.len() > 0 && comments.last().kind.is_line_spec() {
        seq![FormatElement::HardLineBreak]
    } else {
        Seq::empty()
    };
    dangling_prefix(comments, comments.len() as int) + closing
}

/// The layout of dangling comments: nothing where there are none.
pub open spec fn dangling_layout(comments: Seq<SourceComment>, mode: DanglingIndentMode) -> Seq<FormatElement> {
    if comments.len() == 0 {
        Seq::empty()
    } else {
        match mode {
            DanglingIndentMode::Block => seq![FormatElement::StartBlockIndent] + dangling_body(comments, mode)
                + seq![FormatElement::EndBlockIndent],
            DanglingIndentMode::Soft => seq![FormatElement::StartGroup, FormatElement::StartSoftBlockIndent]
                + dangling_body(comments, mode) + seq![FormatElement::EndSoftBlockIndent, FormatElement::EndGroup],
            DanglingIndentMode::NoIndent => dangling_body(comments, mode),
        }
    }
}

/// Writes the dangling comments without the indentation around them.
fn write_dangling_body(comments: &[SourceComment], mode: DanglingIndentMode, f: &mut Formatter)
    ensures
        final(f).elements_spec() == old(f).elements_spec() + dangling_body(comments@, mode),
        final(f).comments_spec() == old(f).comments_spec(),
        final(f).printed_spec() == old(f).printed_spec(),
        final(f).formatted_spec() == old(f).formatted_spec() + comments@,
{
    let ghost start = f.elements_spec();
    let n = comments.len();
    let mut i: usize = 0;
    while i < n
        invariant
            n == comments@.len(),
            i <= n,
            f.elements_spec() == start + dangling_prefix(comments@, i as int),
            f.comments_spec() == old(f).comments_spec(),
            f.printed_spec() == old(f).printed_spec(),
            f.formatted_spec() == old(f).formatted_spec() + comments@.take(i as int),
        decreases n - i,
    {
        let comment = &comments[i];
        if i > 0 && !should_nestle_adjacent_doc_comments(&comments[i - 1], comment) {
            f.write_element(FormatElement::HardLineBreak);
        }
        f.write_element(FormatElement::Comment(*comment));
        f.mark_formatted(comment);
        assert(comments@.take(i + 1) == comments@.take(i as int).push(*comment));
        i = i + 1;
    }
    assert(comments@.take(n as int) == comments@);
    let soft = match mode {
        DanglingIndentMode::Soft => true,
        _ => false,
    };
    if soft && n > 0 && comments[n - 1].kind.is_line() {
        f.write_element(FormatElement::HardLineBreak);
    }
}

/// Writes `comments` as dangling comments indented by `mode`.
fn write_dangling_comments(comments: &[SourceComment], mode: DanglingIndentMode, f: &mut Formatter)
    ensures
        final(f).elements_spec() == old(f).elements_spec() + dangling_layout(comments@, mode),
        final(f).comments_spec() == old(f).comments_spec(),
        final(f).printed_spec() == old(f).printed_spec(),
        final(f).formatted_spec() == old(f).formatted_spec() + comments@,
{
    if comments.len() == 0 {
        assert(old(f).formatted_spec() + comments@ == old(f).formatted_spec());
        return;
    }
    match mode {
        DanglingIndentMode::Block => {
            f.write_element(FormatElement::StartBlockIndent);
            write_dangling_body(comments, mode, f);
            f.write_element(FormatElement::EndBlockIndent);
        },
        DanglingIndentMode::Soft => {
            f.write_element(FormatElement::StartGroup);
            f.write_element(FormatElement::StartSoftBlockIndent);
            write_dangling_body(comments, mode, f);
            f.write_element(FormatElement::EndSoftBlockIndent);
            f.write_element(FormatElement::EndGroup);
        },
        DanglingIndentMode::NoIndent => {
            write_dangling_body(comments, mode, f);
        },
    }
}

/// Formats the dangling comments of a node, or given dangling comments.
pub enum FormatDanglingComments<'a> {
    /// The dangling comments that the comment table holds for the node.
    Node { node: &'a SyntaxNode, indent: DanglingIndentMode },
    /// The given comments.
    Comments { comments: &'a [SourceComment], indent: DanglingIndentMode },
}

/// Formats the dangling comments of `node`, without indentation.
pub fn format_dangling_comments<'a>(node: &'a SyntaxNode) -> (r: FormatDanglingComments<'a>)
    ensures
        r == (FormatDanglingComments::Node { node, indent: DanglingIndentMode::NoIndent }),
{
    FormatDanglingComments::Node { node, indent: DanglingIndentMode::NoIndent }
}

impl<'a> FormatDanglingComments<'a> {
    /// The indentation mode.
    pub open spec fn indent_spec(self) -> DanglingIndentMode {
        match self {
            FormatDanglingComments::Node { indent, .. } => indent,
            FormatDanglingComments::Comments { indent, .. } => indent,
        }
    }

    /// The comments this formats, read from the comment table `comments` where it names a node.
    pub open spec fn comments_from(self, comments: crate::comments::Comments) -> Seq<SourceComment> {
        match self {
            FormatDanglingComments::Node { node, .. } => comments.dangling_of(node.key),
            FormatDanglingComments::Comments { comments: cs, .. } => cs@,
        }
    }

    /// The same comments with the indentation mode `mode`.
    pub open spec fn with_indent_spec(self, mode: DanglingIndentMode) -> Self {
        match self {
            FormatDanglingComments::Node { node, .. } => FormatDanglingComments::Node { node, indent: mode },
            FormatDanglingComments::Comments { comments, .. } => FormatDanglingComments::Comments {
                comments,
                indent: mode,
            },
        }
    }

    /// Indents the comments with a block indent.
    pub fn with_block_indent(self) -> (r: Self)
        ensures
            r == self.with_indent_spec(DanglingIndentMode::Block),
    {
        self.with_indent_mode(DanglingIndentMode::Block)
    }

    /// Indents the comments with a soft block indent.
    pub fn with_soft_block_indent(self) -> (r: Self)
        ensures
            r == self.with_indent_spec(DanglingIndentMode::Soft),
    {
        self.with_indent_mode(DanglingIndentMode::Soft)
    }

    fn with_indent_mode(self, mode: DanglingIndentMode) -> (r: Self)
        ensures
            r == self.with_indent_spec(mode),
    {
        match self {
            FormatDanglingComments::Node { node, .. } => FormatDanglingComments::Node { node, indent: mode },
            FormatDanglingComments::Comments { comments, .. } => FormatDanglingComments::Comments {
                comments,
                indent: mode,
            },
        }
    }

    fn indent(&self) -> (r: DanglingIndentMode)
        ensures
            r == self.indent_spec(),
    {
        match self {
            FormatDanglingComments::Node { indent, .. } => *indent,
            FormatDanglingComments::Comments { indent, .. } => *indent,
        }
    }

    /// Writes nothing where there are no comments; otherwise writes each comment on its own
    /// line (nestled documentation comments stay adjacent), indented by the indentation mode.
    pub fn fmt(&self, f: &mut Formatter)
        ensures
            final(f).elements_spec() == old(f).elements_spec() + dangling_layout(
                self.comments_from(old(f).comments_spec()),
                self.indent_spec(),
            ),
            final(f).comments_spec() == old(f).comments_spec(),
            final(f).printed_spec() == old(f).printed_spec(),
            final(f).formatted_spec() == old(f).formatted_spec() + self.comments_from(
                old(f).comments_spec(),
            ),
    {
        let dangling = match self {
            FormatDanglingComments::Node { node, .. } => vstd::slice::slice_to_vec(
                f.comments().dangling_comments(node),
            ),
            FormatDanglingComments::Comments { comments, .. } => vstd::slice::slice_to_vec(comments),
        };
        let mode = self.indent();
        write_dangling_comments(dangling.as_slice(), mode, f);
    }
}


/// What the skipped-trivia scan knows after some of the token's leading pieces.
pub struct SkippedScan {
    /// Line breaks since the last comment or skipped piece.
    pub lines: int,
    /// Whitespace pieces since the last line break, comment or skipped piece.
    pub spaces: int,
    /// The comments since the last skipped piece.
    pub dangling: Seq<SourceComment>,
    /// The range from the first skipped piece to the last one so far.
    pub skipped: Option<TextRange>,
    /// The elements written so far.
    pub written: Seq<FormatElement>,
}

/// Line breaks and whitespace at the end of `pieces` (scanned backwards from `lines` and
/// `spaces` up to the first piece that is neither).
pub open spec fn trailing_counts(pieces: Seq<TriviaPiece>, lines: int, spaces: int) -> (int, int)
    decreases pieces.len(),
{
    if pieces.len() == 0 {
        (lines, spaces)
    } else {
        match pieces.last() {
            TriviaPiece::Whitespace => trailing_counts(pieces.drop_last(), lines, spaces + 1),
            TriviaPiece::Newline => trailing_counts(pieces.drop_last(), lines + 1, 0),
            _ => (lines, spaces),
        }
    }
}

/// A space, a line break, or an empty line for zero, one, or more line breaks in the source.
pub open spec fn lines_separator(lines: int) -> Seq<FormatElement> {
    if lines == 0 {
        seq![FormatElement::Space]
    } else if lines == 1 {
        seq![FormatElement::HardLineBreak]
    } else {
        seq![FormatElement::EmptyLine]
    }
}

/// Nothing, a space, or a line break, as the source had between two pieces of text.
pub open spec fn source_separator(lines: int, spaces: int) -> Seq<FormatElement> {
    if lines == 0 {
        maybe_space(spaces != 0)
    } else {
        seq![FormatElement::HardLineBreak]
    }
}

/// What is written before the first skipped piece.
pub open spec fn separator_before_skipped(no_dangling: bool, lines: int, spaces: int) -> Seq<FormatElement> {
    if no_dangling { source_separator(lines, spaces) } else { lines_separator(lines) }
}

/// The scan after one more leading piece.
pub open spec fn scan_step(st: SkippedScan, piece: TriviaPiece) -> SkippedScan {
    match piece {
        TriviaPiece::Whitespace => SkippedScan { spaces: st.spaces + 1, ..st },
        TriviaPiece::Newline => SkippedScan { lines: st.lines + 1, spaces: 0, ..st },
        TriviaPiece::Comment(kind, comment) => SkippedScan {
            lines: 0,
            spaces: 0,
            dangling: st.dangling.push(
                SourceComment { kind, lines_before: st.lines as u32, lines_after: 0, piece: comment },
            ),
            ..st
        },
        TriviaPiece::Skipped(range) => SkippedScan {
            lines: 0,
            spaces: 0,
            dangling: Seq::empty(),
            skipped: Some(
                match st.skipped {
                    Some(r) => r.cover_spec(range),
                    None => range,
                },
            ),
            written: if st.skipped is None {
                st.written + separator_before_skipped(st.dangling.len() == 0, st.lines, st.spaces)
            } else {
                st.written
            },
        },
    }
}

/// The scan after the first `n` of `pieces`.
pub open spec fn scan_prefix(pieces: Seq<TriviaPiece>, n: int, init: SkippedScan) -> SkippedScan
    decreases n,
{
    if n <= 0 { init } else { scan_step(scan_prefix(pieces, n - 1, init), pieces[n - 1]) }
}

/// The scan state before the token's leading pieces: the line breaks and whitespace at the end
/// of the previous token's trailing trivia.
pub open spec fn initial_scan(token: SyntaxToken) -> SkippedScan {
    let (lines, spaces) = match token.prev_trailing_trivia {
        Some(t) => trailing_counts(t@, 0, 0),
        None => (0, 0),
    };
    SkippedScan { lines, spaces, dangling: Seq::empty(), skipped: None, written: Seq::empty() }
}

/// The scan state after all of the token's leading pieces.
pub open spec fn final_scan(token: SyntaxToken) -> SkippedScan {
    scan_prefix(token.leading_trivia@, token.leading_trivia@.len() as int, initial_scan(token))
}

/// The range printed verbatim: from the first skipped piece to the last, or the empty range at
/// the token's start where there is none.
pub open spec fn verbatim_range(token: SyntaxToken) -> TextRange {
    match final_scan(token).skipped {
        Some(r) => r,
        None => TextRange::empty_spec(token.text_range.start_spec()),
    }
}

/// What is written after the verbatim text.
pub open spec fn after_verbatim(dangling: Seq<SourceComment>, lines: int, spaces: int) -> Seq<FormatElement> {
    if dangling.len() == 0 {
        source_separator(lines, spaces)
    } else {
        lines_separator(dangling[0].lines_before as int) + dangling_layout(
            dangling,
            DanglingIndentMode::NoIndent,
        ) + (if lines == 0 {
            seq![FormatElement::Space]
        } else {
            seq![FormatElement::HardLineBreak]
        })
    }
}

/// The layout of a token's skipped token trivia.
pub open spec fn skipped_trivia_layout(token: SyntaxToken) -> Seq<FormatElement> {
    let st = final_scan(token);
    let range = verbatim_range(token);
    st.written + seq![
        FormatElement::StartVerbatim(range.len_spec() as u32),
        FormatElement::TokenText(range),
        FormatElement::EndVerbatim,
    ] + after_verbatim(st.dangling, st.lines, st.spaces)
}

/// Line breaks and whitespace at the end of the previous token's trailing trivia.
fn count_trailing(pieces: &[TriviaPiece]) -> (r: (u32, u32))
    requires
        pieces@.len() <= u32::MAX,
    ensures
        (r.0 as int, r.1 as int) == trailing_counts(pieces@, 0, 0),
        r.0 + r.1 <= pieces@.len(),
{
    let mut lines: u32 = 0;
    let mut spaces: u32 = 0;
    let mut j: usize = pieces.len();
    let mut done = false;
    assert(pieces@.take(j as int) == pieces@);
    while j > 0 && !done
        invariant
            j <= pieces@.len() <= u32::MAX,
            trailing_counts(pieces@, 0, 0) == trailing_counts(pieces@.take(j as int), lines as int, spaces as int),
            done ==> trailing_counts(pieces@.take(j as int), lines as int, spaces as int) == (lines as int, spaces as int),
            lines + spaces + j <= pieces@.len(),
        decreases 2 * j + if done { 0int } else { 1int },
    {
        assert(pieces@.take(j as int).drop_last() == pieces@.take(j - 1));
        assert(pieces@.take(j as int).last() == pieces@[j - 1]);
        match pieces[j - 1] {
            TriviaPiece::Whitespace => {
                spaces = spaces + 1;
                j = j - 1;
            },
            TriviaPiece::Newline => {
                spaces = 0;
                lines = lines + 1;
                j = j - 1;
            },
            _ => {
                done = true;
            },
        }
    }
    assert(pieces@.take(0) == Seq::<TriviaPiece>::empty());
    (lines, spaces)
}

/// Writes the separator before the first skipped piece.
fn write_separator_before_skipped(no_dangling: bool, lines: u32, spaces: u32, f: &mut Formatter)
    ensures
        final(f).elements_spec() == old(f).elements_spec() + separator_before_skipped(
            no_dangling,
            lines as int,
            spaces as int,
        ),
        final(f).comments_spec() == old(f).comments_spec(),
        final(f).printed_spec() == old(f).printed_spec(),
        final(f).formatted_spec() == old(f).formatted_spec(),
{
    if no_dangling {
        if lines == 0 {
            if spaces != 0 {
                f.write_element(FormatElement::Space);
            }
        } else {
            f.write_element(FormatElement::HardLineBreak);
        }
    } else {
        if lines == 0 {
            f.write_element(FormatElement::Space);
        } else if lines == 1 {
            f.write_element(FormatElement::HardLineBreak);
        } else {
            f.write_element(FormatElement::EmptyLine);
        }
    }
}

/// Writes the verbatim text of `range`, then the comments after the last skipped piece with
/// the spacing around them.
fn write_verbatim(range: TextRange, dangling: &[SourceComment], lines: u32, spaces: u32, f: &mut Formatter)
    ensures
        final(f).elements_spec() == old(f).elements_spec() + seq![
            FormatElement::StartVerbatim(range.len_spec() as u32),
            FormatElement::TokenText(range),
            FormatElement::EndVerbatim,
        ] + after_verbatim(dangling@, lines as int, spaces as int),
        final(f).comments_spec() == old(f).comments_spec(),
        final(f).printed_spec() == old(f).printed_spec(),
        final(f).formatted_spec() == old(f).formatted_spec() + dangling@,
{
    f.write_element(FormatElement::StartVerbatim(range.len()));
    f.write_element(FormatElement::TokenText(range));
    f.write_element(FormatElement::EndVerbatim);
    if dangling.len() == 0 {
        assert(old(f).formatted_spec() + dangling@ == old(f).formatted_spec());
        if lines == 0 {
            if spaces != 0 {
                f.write_element(FormatElement::Space);
            }
        } else {
            f.write_element(FormatElement::HardLineBreak);
        }
    } else {
        let first_lines = dangling[0].lines_before;
        if first_lines == 0 {
            f.write_element(FormatElement::Space);
        } else if first_lines == 1 {
            f.write_element(FormatElement::HardLineBreak);
        } else {
            f.write_element(FormatElement::EmptyLine);
        }
        let format_dangling = FormatDanglingComments::Comments {
            comments: dangling,
            indent: DanglingIndentMode::NoIndent,
        };
        format_dangling.fmt(f);
        if lines == 0 {
            f.write_element(FormatElement::Space);
        } else {
            f.write_element(FormatElement::HardLineBreak);
        }
    }
}

/// Writes the token's skipped token trivia: the text from the first skipped piece to the last,
/// verbatim, with the spacing the source had around it, and the comments between the last
/// skipped piece and the token.
fn write_skipped_token_trivia(token: &SyntaxToken, f: &mut Formatter)
    requires
        token.trivia_count() <= u32::MAX,
    ensures
        final(f).elements_spec() == old(f).elements_spec() + skipped_trivia_layout(*token),
        final(f).comments_spec() == old(f).comments_spec(),
        final(f).printed_spec() == old(f).printed_spec(),
        final(f).formatted_spec() == old(f).formatted_spec() + final_scan(*token).dangling,
{
    let ghost start = f.elements_spec();
    let (mut lines, mut spaces) = match &token.prev_trailing_trivia {
        Some(trailing) => count_trailing(trailing.as_slice()),
        None => (0u32, 0u32),
    };
    let ghost prev_len: int = token.trivia_count() - token.leading_trivia@.len();
    let ghost init = initial_scan(*token);
    let ghost pieces = token.leading_trivia@;
    let mut dangling: Vec<SourceComment> = Vec::new();
    let mut skipped_range: Option<TextRange> = None;
    let n = token.leading_trivia.len();
    let mut i: usize = 0;
    while i < n
        invariant
            n == pieces.len(),
            pieces == token.leading_trivia@,
            i <= n,
            prev_len + n <= u32::MAX,
            lines + spaces <= prev_len + i,
            scan_prefix(pieces, i as int, init).lines == lines as int,
            scan_prefix(pieces, i as int, init).spaces == spaces as int,
            scan_prefix(pieces, i as int, init).dangling == dangling@,
            scan_prefix(pieces, i as int, init).skipped == skipped_range,
            f.elements_spec() == start + scan_prefix(pieces, i as int, init).written,
            f.comments_spec() == old(f).comments_spec(),
            f.printed_spec() == old(f).printed_spec(),
            f.formatted_spec() == old(f).formatted_spec(),
        decreases n - i,
    {
        let ghost st = scan_prefix(pieces, i as int, init);
        let ghost f_before = f.elements_spec();
        match token.leading_trivia[i] {
            TriviaPiece::Whitespace => {
                spaces = spaces + 1;
            },
            TriviaPiece::Newline => {
                lines = lines + 1;
                spaces = 0;
            },
            TriviaPiece::Comment(kind, comment) => {
                dangling.push(SourceComment { kind, lines_before: lines, lines_after: 0, piece: comment });
                lines = 0;
                spaces = 0;
            },
            TriviaPiece::Skipped(range) => {
                match skipped_range {
                    Some(current) => {
                        skipped_range = Some(current.cover(range));
                    },
                    None => {
                        write_separator_before_skipped(dangling.len() == 0, lines, spaces, f);
                        skipped_range = Some(range);
                    },
                }
                lines = 0;
                spaces = 0;
                dangling = Vec::new();
            },
        }
        proof {
            assert(scan_prefix(pieces, i + 1, init) == scan_step(st, pieces[i as int]));
        }
        i = i + 1;
    }
    let range = match skipped_range {
        Some(r) => r,
        None => TextRange::empty(token.text_range.start()),
    };
    write_verbatim(range, dangling.as_slice(), lines, spaces, f);
}

/// The layout of a token's skipped token trivia: nothing where it has none.
pub open spec fn token_skipped_layout(token: SyntaxToken) -> Seq<FormatElement> {
    if token.has_skipped_spec() { skipped_trivia_layout(token) } else { Seq::empty() }
}

/// The trivia of `token` fits the `u32` offsets of a source text, as far as the skipped-trivia
/// layout reads it.
pub open spec fn skipped_trivia_fits(token: SyntaxToken) -> bool {
    token.has_skipped_spec() ==> token.trivia_count() <= u32::MAX
}

/// The comments that a token's skipped token trivia layout writes: nothing where it has none.
pub open spec fn skipped_trivia_comments(token: SyntaxToken) -> Seq<SourceComment> {
    if token.has_skipped_spec() { final_scan(token).dangling } else { Seq::empty() }
}

/// Formats a token's leading trivia for tokens that the formatter itself writes.
///
/// Every method has a body; a token formatter of a language implements the trait for its type
/// and keeps the bodies.
pub trait FormatToken {
    /// Whether `token` has skipped token trivia.
    fn has_skipped(&self, token: &SyntaxToken, f: &mut Formatter) -> (r: bool)
        ensures
            r == token.has_skipped_spec(),
            *final(f) == *old(f),
    {
        token.has_skipped()
    }

    /// Formats a token that the formatter removes: marks it printed and keeps its skipped
    /// token trivia.
    fn format_removed(&self, token: &SyntaxToken, f: &mut Formatter)
        requires
            skipped_trivia_fits(*token),
        ensures
            final(f).printed_spec() == old(f).printed_spec().push(token.text_range.start_spec()),
            final(f).elements_spec() == old(f).elements_spec() + token_skipped_layout(*token),
            final(f).formatted_spec() == old(f).formatted_spec() + skipped_trivia_comments(*token),
            final(f).comments_spec() == old(f).comments_spec(),
    {
        f.track_token(token);
        self.format_skipped_token_trivia(token, f)
    }

    /// Formats the skipped token trivia of `token`.
    fn format_skipped_token_trivia(&self, token: &SyntaxToken, f: &mut Formatter)
        requires
            skipped_trivia_fits(*token),
        ensures
            final(f).elements_spec() == old(f).elements_spec() + token_skipped_layout(*token),
            final(f).formatted_spec() == old(f).formatted_spec() + skipped_trivia_comments(*token),
            final(f).comments_spec() == old(f).comments_spec(),
            final(f).printed_spec() == old(f).printed_spec(),
    {
        if token.has_skipped() {
            self.fmt_skipped(token, f)
        } else {
            assert(old(f).elements_spec() + Seq::<FormatElement>::empty() == old(f).elements_spec());
            assert(old(f).formatted_spec() + Seq::<SourceComment>::empty() == old(f).formatted_spec());
        }
    }

    /// Formats a token without its skipped token trivia: its own text, trivia excluded.
    /// The caller formats the skipped trivia.
    fn format_trimmed_token_trivia(&self, token: &SyntaxToken, f: &mut Formatter)
        ensures
            final(f).elements_spec() == old(f).elements_spec().push(
                FormatElement::TokenText(token.text_trimmed_range),
            ),
            final(f).comments_spec() == old(f).comments_spec(),
            final(f).printed_spec() == old(f).printed_spec(),
            final(f).formatted_spec() == old(f).formatted_spec(),
    {
        f.write_element(FormatElement::TokenText(token.text_trimmed_range))
    }

    /// Prints `content` in place of `token`: marks the token printed, writes its skipped token
    /// trivia, then `content`.
    fn format_replaced(&self, token: &SyntaxToken, content: &[FormatElement], f: &mut Formatter)
        requires
            skipped_trivia_fits(*token),
        ensures
            final(f).printed_spec() == old(f).printed_spec().push(token.text_range.start_spec()),
            final(f).elements_spec() == old(f).elements_spec() + token_skipped_layout(*token)
                + content@,
            final(f).formatted_spec() == old(f).formatted_spec() + skipped_trivia_comments(*token),
            final(f).comments_spec() == old(f).comments_spec(),
    {
        f.track_token(token);
        self.format_skipped_token_trivia(token, f);
        f.write_elements(content)
    }

    /// Writes the skipped token trivia of `token`, as `FormatSkippedTokenTrivia` does.
    fn fmt_skipped(&self, token: &SyntaxToken, f: &mut Formatter)
        requires
            token.trivia_count() <= u32::MAX,
        ensures
            final(f).elements_spec() == old(f).elements_spec() + skipped_trivia_layout(*token),
            final(f).formatted_spec() == old(f).formatted_spec() + final_scan(*token).dangling,
            final(f).comments_spec() == old(f).comments_spec(),
            final(f).printed_spec() == old(f).printed_spec(),
    {
        format_skipped_token_trivia(token).fmt_skipped(f)
    }
}

/// Formats a token only if its enclosing group breaks; where it fits on a line, the token is
/// left out but its skipped token trivia is kept.
pub struct FormatOnlyIfBreaks<'a, 'content, F> {
    token: &'a SyntaxToken,
    content: &'content [FormatElement],
    group_id: Option<GroupId>,
    ok_skipped: F,
}

/// Formats `content` only if the group breaks; otherwise writes what `ok_skipped` gives for the
/// token's skipped token trivia, where the token has such trivia.
pub fn format_only_if_breaks<'a, 'content, F>(
    token: &'a SyntaxToken,
    content: &'content [FormatElement],
    ok_skipped: F,
) -> (r: FormatOnlyIfBreaks<'a, 'content, F>)
    where
        F: Fn(&SyntaxToken) -> Vec<FormatElement>,
    ensures
        r.token_spec() == *token,
        r.content_spec() == content@,
        r.group_id_spec() == None::<GroupId>,
        r.ok_skipped_spec() == ok_skipped,
{
    FormatOnlyIfBreaks { token, content, group_id: None, ok_skipped }
}

impl<'a, 'content, F> FormatOnlyIfBreaks<'a, 'content, F> where F: Fn(&SyntaxToken) -> Vec<FormatElement> {
    pub closed spec fn token_spec(self) -> SyntaxToken {
        *self.token
    }

    pub closed spec fn content_spec(self) -> Seq<FormatElement> {
        self.content@
    }

    pub closed spec fn group_id_spec(self) -> Option<GroupId> {
        self.group_id
    }

    pub closed spec fn ok_skipped_spec(self) -> F {
        self.ok_skipped
    }

    /// Makes the content depend on the group `group_id` rather than on the enclosing group.
    pub fn with_group_id(self, group_id: Option<GroupId>) -> (r: Self)
        ensures
            r.token_spec() == self.token_spec(),
            r.content_spec() == self.content_spec(),
            r.group_id_spec() == group_id,
            r.ok_skipped_spec() == self.ok_skipped_spec(),
    {
        let mut this = self;
        this.group_id = group_id;
        this
    }

    /// What is written while the group breaks.
    pub open spec fn breaking_layout(self) -> Seq<FormatElement> {
        seq![FormatElement::StartConditionalContent(PrintMode::Expanded, self.group_id_spec())]
            + self.content_spec() + seq![FormatElement::EndConditionalContent]
    }

    /// What is written while the group fits on a line, given what `ok_skipped` gave for the token.
    pub open spec fn flat_layout(self, skipped: Seq<FormatElement>) -> Seq<FormatElement> {
        seq![FormatElement::StartConditionalContent(PrintMode::Flat, self.group_id_spec())] + skipped
            + seq![FormatElement::EndConditionalContent]
    }

    /// Writes the content as content of the breaking group, and, where the token has skipped
    /// token trivia, what `ok_skipped` gives for the token as content of the group on one line.
    /// `ok_skipped` is called on the token exactly when it has skipped token trivia.
    pub fn fmt(&self, f: &mut Formatter)
        requires
            self.token_spec().has_skipped_spec() ==> call_requires(
                self.ok_skipped_spec(),
                (&self.token_spec(),),
            ),
        ensures
            !self.token_spec().has_skipped_spec() ==> final(f).elements_spec()
                == old(f).elements_spec() + self.breaking_layout(),
            self.token_spec().has_skipped_spec() ==> exists|skipped: Vec<FormatElement>|
                call_ensures(self.ok_skipped_spec(), (&self.token_spec(),), skipped)
                    && final(f).elements_spec() == old(f).elements_spec() + self.breaking_layout()
                    + #[trigger] self.flat_layout(skipped@),
            final(f).elements_spec().len() >= old(f).elements_spec().len() + self.content_spec().len() + 2,
            final(f).elements_spec().take(old(f).elements_spec().len() as int) == old(f).elements_spec(),
            final(f).elements_spec()[old(f).elements_spec().len() as int]
                == FormatElement::StartConditionalContent(PrintMode::Expanded, self.group_id_spec()),
            forall|j: int|
                0 <= j < self.content_spec().len() ==> #[trigger] final(f).elements_spec()[old(
                    f,
                ).elements_spec().len() + 1 + j] == self.content_spec()[j],
            final(f).elements_spec()[old(f).elements_spec().len() + 1 + self.content_spec().len() as int]
                == FormatElement::EndConditionalContent,
            !self.token_spec().has_skipped_spec() ==> final(f).elements_spec().len()
                == old(f).elements_spec().len() + self.content_spec().len() + 2,
            final(f).comments_spec() == old(f).comments_spec(),
            final(f).printed_spec() == old(f).printed_spec(),
            final(f).formatted_spec() == old(f).formatted_spec(),
    {
        let ghost before = f.elements_spec();
        f.write_element(FormatElement::StartConditionalContent(PrintMode::Expanded, self.group_id));
        f.write_elements(self.content);
        f.write_element(FormatElement::EndConditionalContent);
        if self.token.has_skipped() {
            let skipped = (self.ok_skipped)(self.token);
            f.write_element(FormatElement::StartConditionalContent(PrintMode::Flat, self.group_id));
            f.write_elements(skipped.as_slice());
            f.write_element(FormatElement::EndConditionalContent);
            assert(f.elements_spec() == old(f).elements_spec() + self.breaking_layout()
                + self.flat_layout(skipped@));
            assert(f.elements_spec() == before + self.breaking_layout() + self.flat_layout(skipped@));
        }
    }
}

/// Formats the skipped token trivia of a token.
pub struct FormatSkippedTokenTrivia<'a> {
    token: &'a SyntaxToken,
}

/// Formats the skipped token trivia of `token`.
pub fn format_skipped_token_trivia<'a>(token: &'a SyntaxToken) -> (r: FormatSkippedTokenTrivia<'a>)
    ensures
        r.token_spec() == *token,
{
    FormatSkippedTokenTrivia { token }
}

impl<'a> FormatSkippedTokenTrivia<'a> {
    pub closed spec fn token_spec(self) -> SyntaxToken {
        *self.token
    }

    fn fmt_skipped(&self, f: &mut Formatter)
        requires
            self.token_spec().trivia_count() <= u32::MAX,
        ensures
            final(f).elements_spec() == old(f).elements_spec() + skipped_trivia_layout(self.token_spec()),
            final(f).formatted_spec() == old(f).formatted_spec() + final_scan(self.token_spec()).dangling,
            final(f).comments_spec() == old(f).comments_spec(),
            final(f).printed_spec() == old(f).printed_spec(),
    {
        write_skipped_token_trivia(self.token, f)
    }

    /// Writes the token's skipped token trivia, or nothing where it has none.
    pub fn fmt(&self, f: &mut Formatter)
        requires
            skipped_trivia_fits(self.token_spec()),
        ensures
            final(f).elements_spec() == old(f).elements_spec() + token_skipped_layout(self.token_spec()),
            final(f).formatted_spec() == old(f).formatted_spec() + skipped_trivia_comments(
                self.token_spec(),
            ),
            final(f).comments_spec() == old(f).comments_spec(),
            final(f).printed_spec() == old(f).printed_spec(),
    {
        if self.token.has_skipped() {
            self.fmt_skipped(f)
        } else {
            assert(old(f).elements_spec() + Seq::<FormatElement>::empty() == old(f).elements_spec());
            assert(old(f).formatted_spec() + Seq::<SourceComment>::empty() == old(f).formatted_spec());
        }
    }
}

} // verus!
