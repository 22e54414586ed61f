//! The document elements that the layout rules write.
use vstd::prelude::*;
use crate::comments::SourceComment;
use crate::text::TextRange;

verus! {

/// How conditional content is printed: when its group fits on a line, or when it breaks.
#[derive(Clone, Copy, Debug, PartialEq, Eq)]
pub enum PrintMode {
    Flat,
    Expanded,
}

/// The identity of a group, so that content elsewhere can depend on whether it breaks.
#[derive(Clone, Copy, Debug, PartialEq, Eq)]
pub struct GroupId {
    pub id: u32,
}

/// One element of the formatted document.
#[derive(Clone, Copy, Debug, PartialEq, Eq)]
pub enum FormatElement {
    /// A single space.
    Space,
    /// A line break that is always printed.
    HardLineBreak,
    /// An empty line: two line breaks.
    EmptyLine,
    /// A line break if the enclosing group breaks, a space otherwise.
    SoftLineBreakOrSpace,
    /// Forces the enclosing group to break.
    ExpandParent,
    /// The formatted text of a comment.
    Comment(SourceComment),
    /// The source text in the given range, printed as it is.
    TokenText(TextRange),
    /// Content up to the matching end is printed at the end of the current line.
    StartLineSuffix,
    EndLineSuffix,
    /// Content up to the matching end is source text of the given length, printed verbatim.
    StartVerbatim(u32),
    EndVerbatim,
    /// Content up to the matching end is indented on lines of its own.
    StartBlockIndent,
    EndBlockIndent,
    /// Content up to the matching end is indented on lines of its own if the group breaks.
    StartSoftBlockIndent,
    EndSoftBlockIndent,
    /// Content up to the matching end forms a group that breaks as one.
    StartGroup,
    EndGroup,
    /// Content up to the matching end is printed only in the given mode of the given group
    /// (of the enclosing group where none is given).
    StartConditionalContent(PrintMode, Option<GroupId>),
    EndConditionalContent,
}

} // verus!
