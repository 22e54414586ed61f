//! Where comments stand in a layout and what separates them, stated by position.
use vstd::prelude::*;
use crate::comments::SourceComment;
use crate::format_element::FormatElement;
use crate::laws::{
    lemma_dangling_prefix_comments, lemma_leading_prefix_comments, lemma_trailing_prefix_comments,
    lemma_written_comments_concat, lemma_written_comments_pair, lemma_written_comments_single,
    written_comments,
};
use crate::format_element::PrintMode;
use crate::token::{SyntaxToken, TriviaPiece};
use crate::trivia::{
    scan_prefix, scan_step, SkippedScan, verbatim_range, after_verbatim, source_separator,
    initial_scan, trailing_counts, final_scan, separator_before_skipped, skipped_trivia_layout,
    after_line_break, FormatOnlyIfBreaks, dangling_item, dangling_layout, dangling_prefix, leading_item, leading_layout,
    leading_prefix, nestled, trailing_item, trailing_layout, trailing_prefix, DanglingIndentMode,
};

verus! {

/// The layout of the first `n` leading comments starts the layout of the first `m`.
proof fn lemma_leading_prefix_grows(comments: Seq<SourceComment>, n: int, m: int)
    requires
        0 <= n <= m,
    ensures
        leading_prefix(comments, n).len() <= leading_prefix(comments, m).len(),
        leading_prefix(comments, m).take(leading_prefix(comments, n).len() as int) == leading_prefix(comments, n),
    decreases m - n,
{
    if n < m {
        lemma_leading_prefix_grows(comments, n, m - 1);
        let a = leading_prefix(comments, m - 1);
        assert(leading_prefix(comments, m) == a + leading_item(comments, m - 1));
        assert((a + leading_item(comments, m - 1)).take(a.len() as int) == a);
        assert(leading_prefix(comments, m).take(leading_prefix(comments, n).len() as int)
            == a.take(leading_prefix(comments, n).len() as int));
    }
}

/// A leading comment that is not a line comment, ends its source line with no line break after
/// it, and is not nestled with the comment after it is followed by exactly one space: then the
/// next comment, or the end of the layout.
pub proof fn law_leading_same_line_comment_then_space(comments: Seq<SourceComment>, i: int)
    requires
        0 <= i < comments.len(),
        !(comments[i].kind is Line),
        comments[i].lines_after == 0,
        i + 1 < comments.len() ==> !nestled(comments[i], comments[i + 1]),
    ensures
        exists|k: int|
            0 <= k && k + 1 < leading_layout(comments).len()
                && written_comments(#[trigger] leading_layout(comments).take(k)).len() == i
                && leading_layout(comments)[k] == FormatElement::Comment(comments[i])
                && leading_layout(comments)[k + 1] == FormatElement::Space
                && (i + 1 < comments.len() ==> k + 2 < leading_layout(comments).len()
                    && leading_layout(comments)[k + 2] == FormatElement::Comment(comments[i + 1]))
                && (i + 1 == comments.len() ==> leading_layout(comments).len() == k + 2),
{
    let layout = leading_layout(comments);
    let len = comments.len() as int;
    let p = leading_prefix(comments, i);
    let k = p.len() as int;
    let item = leading_item(comments, i);
    assert(item == seq![FormatElement::Comment(comments[i]), FormatElement::Space]);
    let q = leading_prefix(comments, i + 1);
    assert(q == p + item);
    lemma_leading_prefix_grows(comments, i, len);
    lemma_leading_prefix_grows(comments, i + 1, len);
    lemma_leading_prefix_comments(comments, i);
    assert(layout.take(k) == p);
    assert(comments.take(i).len() == i);
    assert(layout[k] == q[k]);
    assert(layout[k + 1] == q[k + 1]);
    if i + 1 < len {
        lemma_leading_prefix_grows(comments, i + 2, len);
        let r = leading_prefix(comments, i + 2);
        assert(r == q + leading_item(comments, i + 1));
        assert(layout[k + 2] == r[k + 2]);
    } else {
        assert(layout == q);
    }
    assert(written_comments(layout.take(k)).len() == i);
}

/// What separates leading comment `i` from what follows it, by its kind and the line breaks the
/// source had around it: line comments are followed by a line break, or an empty line where
/// the source had one; block comments by a space where they end their source line with no line
/// break after them (nothing where nestled with the next comment), a soft line break (a line
/// break after a comment that starts its line), or an empty line. After that one element comes
/// the next comment, or the end of the layout.
pub proof fn law_leading_comment_separator(comments: Seq<SourceComment>, i: int)
    requires
        0 <= i < comments.len(),
    ensures
        exists|k: int|
            0 <= k < leading_layout(comments).len()
                && written_comments(#[trigger] leading_layout(comments).take(k)).len() == i
                && leading_layout(comments)[k] == FormatElement::Comment(comments[i])
                && {
                    let c = comments[i];
                    let layout = leading_layout(comments);
                    if !(c.kind is Line) && c.lines_after == 0 && i + 1 < comments.len() && nestled(
                        c,
                        comments[i + 1],
                    ) {
                        k + 1 < layout.len() && layout[k + 1] == FormatElement::Comment(comments[i + 1])
                    } else {
                        &&& k + 1 < layout.len()
                        &&& layout[k + 1] == if c.kind is Line {
                            if c.lines_after <= 1 {
                                FormatElement::HardLineBreak
                            } else {
                                FormatElement::EmptyLine
                            }
                        } else if c.lines_after == 0 {
                            FormatElement::Space
                        } else if c.lines_after == 1 {
                            if c.lines_before == 0 {
                                FormatElement::SoftLineBreakOrSpace
                            } else {
                                FormatElement::HardLineBreak
                            }
                        } else {
                            FormatElement::EmptyLine
                        }
                        &&& i + 1 < comments.len() ==> k + 2 < layout.len() && layout[k + 2]
                            == FormatElement::Comment(comments[i + 1])
                        &&& i + 1 == comments.len() ==> layout.len() == k + 2
                    }
                },
{
    let layout = leading_layout(comments);
    let len = comments.len() as int;
    let p = leading_prefix(comments, i);
    let k = p.len() as int;
    let item = leading_item(comments, i);
    let q = leading_prefix(comments, i + 1);
    assert(q == p + item);
    lemma_leading_prefix_grows(comments, i, len);
    lemma_leading_prefix_grows(comments, i + 1, len);
    lemma_leading_prefix_comments(comments, i);
    assert(layout.take(k) == p);
    assert(comments.take(i).len() == i);
    assert(layout[k] == q[k]);
    assert(item.len() >= 1 && item.len() <= 2);
    if item.len() == 2 {
        assert(layout[k + 1] == q[k + 1]);
    }
    if i + 1 < len {
        lemma_leading_prefix_grows(comments, i + 2, len);
        let r = leading_prefix(comments, i + 2);
        assert(r == q + leading_item(comments, i + 1));
        assert(layout[k + item.len()] == r[k + item.len()]);
    } else {
        assert(layout == q);
    }
    assert(written_comments(layout.take(k)).len() == i);
}

/// The layout of the first `n` trailing comments starts the layout of the first `m`.
proof fn lemma_trailing_prefix_grows(comments: Seq<SourceComment>, n: int, m: int)
    requires
        0 <= n <= m,
    ensures
        trailing_prefix(comments, n).len() <= trailing_prefix(comments, m).len(),
        trailing_prefix(comments, m).take(trailing_prefix(comments, n).len() as int) == trailing_prefix(comments, n),
    decreases m - n,
{
    if n < m {
        lemma_trailing_prefix_grows(comments, n, m - 1);
        let a = trailing_prefix(comments, m - 1);
        assert(trailing_prefix(comments, m) == a + trailing_item(comments, m - 1));
        assert((a + trailing_item(comments, m - 1)).take(a.len() as int) == a);
        assert(trailing_prefix(comments, m).take(trailing_prefix(comments, n).len() as int)
            == a.take(trailing_prefix(comments, n).len() as int));
    }
}

/// A trailing comment on the same line as the code it trails (no line break before it or
/// before any earlier trailing comment), and not nestled with the comment before it, has a
/// space immediately before it, wherever it stands in the list.
pub proof fn law_trailing_same_line_comment_after_space(comments: Seq<SourceComment>, i: int)
    requires
        0 <= i < comments.len(),
        forall|j: int| 0 <= j <= i ==> (#[trigger] comments[j]).lines_before == 0,
        i > 0 ==> !nestled(comments[i - 1], comments[i]),
    ensures
        exists|k: int|
            1 <= k < trailing_layout(comments).len()
                && written_comments(#[trigger] trailing_layout(comments).take(k)).len() == i
                && trailing_layout(comments)[k] == FormatElement::Comment(comments[i])
                && trailing_layout(comments)[k - 1] == FormatElement::Space,
{
    let layout = trailing_layout(comments);
    let len = comments.len() as int;
    let c = comments[i];
    assert(!after_line_break(comments, i));
    let p = trailing_prefix(comments, i);
    let item = trailing_item(comments, i);
    let off: int = if c.kind.is_line_spec() { 2 } else { 1 };
    if c.kind.is_line_spec() {
        assert(item == seq![
            FormatElement::StartLineSuffix,
            FormatElement::Space,
            FormatElement::Comment(c),
            FormatElement::EndLineSuffix,
            FormatElement::ExpandParent,
        ]);
        assert(item.take(2) == seq![FormatElement::StartLineSuffix, FormatElement::Space]);
        lemma_written_comments_pair(FormatElement::StartLineSuffix, FormatElement::Space);
        lemma_written_comments_single(FormatElement::StartLineSuffix);
        lemma_written_comments_single(FormatElement::Space);
    } else {
        assert(item == seq![FormatElement::Space, FormatElement::Comment(c)]);
        assert(item.take(1) == seq![FormatElement::Space]);
        lemma_written_comments_single(FormatElement::Space);
    }
    assert(written_comments(item.take(off)).len() == 0);
    let k = p.len() + off;
    let q = trailing_prefix(comments, i + 1);
    assert(q == p + item);
    lemma_trailing_prefix_grows(comments, i + 1, len);
    lemma_trailing_prefix_comments(comments, i);
    assert(layout.take(k) == (p + item).take(k));
    assert((p + item).take(k) == p + item.take(off));
    lemma_written_comments_concat(p, item.take(off));
    assert(comments.take(i).len() == i);
    assert(layout[k] == q[k]);
    assert(layout[k - 1] == q[k - 1]);
    assert(written_comments(layout.take(k)).len() == i);
}

/// Some comment up to and including `comments[i]` has a line break before it.
pub open spec fn line_break_so_far(comments: Seq<SourceComment>, i: int) -> bool {
    exists|j: int| 0 <= j <= i && comments[j].lines_before > 0
}

/// The first element written for trailing comment `j`: the start of a line suffix for a line
/// comment or one on its own line, the comment itself where it is nestled with the one before,
/// and a space otherwise.
pub open spec fn trailing_start(comments: Seq<SourceComment>, j: int) -> FormatElement {
    if line_break_so_far(comments, j) || comments[j].kind is Line {
        FormatElement::StartLineSuffix
    } else if j > 0 && nestled(comments[j - 1], comments[j]) {
        FormatElement::Comment(comments[j])
    } else {
        FormatElement::Space
    }
}

/// The elements around position `k` of `layout`, where trailing comment `i` stands, are as the
/// trailing comment rules give them.
pub open spec fn trailing_surroundings(layout: Seq<FormatElement>, comments: Seq<SourceComment>, i: int, k: int) -> bool {
    let c = comments[i];
    let suffix = line_break_so_far(comments, i) || c.kind is Line;
    let nestle = i > 0 && nestled(comments[i - 1], c);
    let end = if suffix { k + 3 } else { k + 1 };
    &&& suffix ==> k + 2 < layout.len() && layout[k + 1] == FormatElement::EndLineSuffix
        && layout[k + 2] == FormatElement::ExpandParent
    &&& i + 1 < comments.len() ==> end < layout.len() && layout[end] == trailing_start(comments, i + 1)
    &&& i + 1 == comments.len() ==> layout.len() == end
    &&& if line_break_so_far(comments, i) {
        if nestle {
            k >= 1 && layout[k - 1] == FormatElement::StartLineSuffix
        } else {
            k >= 2 && layout[k - 2] == FormatElement::StartLineSuffix && layout[k - 1] == if c.lines_before == 0 {
                if i > 0 && comments[i - 1].kind is Line {
                    FormatElement::HardLineBreak
                } else {
                    FormatElement::Space
                }
            } else if c.lines_before == 1 {
                FormatElement::HardLineBreak
            } else {
                FormatElement::EmptyLine
            }
        }
    } else if c.kind is Line {
        if nestle {
            k >= 1 && layout[k - 1] == FormatElement::StartLineSuffix
        } else {
            k >= 2 && layout[k - 2] == FormatElement::StartLineSuffix && layout[k - 1] == FormatElement::Space
        }
    } else {
        if nestle {
            k >= 1 && layout[k - 1] == if comments[i - 1].kind is Line {
                FormatElement::ExpandParent
            } else {
                FormatElement::Comment(comments[i - 1])
            }
        } else {
            k >= 1 && layout[k - 1] == FormatElement::Space
        }
    }
}

/// Where the comment stands in the elements of trailing comment `i`, and that no comment comes
/// before it there.
proof fn lemma_trailing_item_shape(comments: Seq<SourceComment>, i: int) -> (off: int)
    requires
        0 <= i < comments.len(),
    ensures
        0 <= off <= 2,
        trailing_item(comments, i).len() == off + if after_line_break(comments, i) || comments[i].kind is Line {
            3int
        } else {
            1int
        },
        trailing_item(comments, i)[off] == FormatElement::Comment(comments[i]),
        written_comments(trailing_item(comments, i).take(off)).len() == 0,
        trailing_item(comments, i)[0] == trailing_start(comments, i),
        trailing_item(comments, i).last() == if after_line_break(comments, i) || comments[i].kind is Line {
            FormatElement::ExpandParent
        } else {
            FormatElement::Comment(comments[i])
        },
        off == 0 <==> (!after_line_break(comments, i) && !(comments[i].kind is Line) && i > 0 && nestled(
            comments[i - 1],
            comments[i],
        )),
{
    let c = comments[i];
    let item = trailing_item(comments, i);
    let nestle = i > 0 && nestled(comments[i - 1], c);
    let off: int = if after_line_break(comments, i) || c.kind is Line {
        if nestle { 1 } else { 2 }
    } else {
        if nestle { 0 } else { 1 }
    };
    let e = Seq::<SourceComment>::empty();
    lemma_written_comments_single(FormatElement::StartLineSuffix);
    lemma_written_comments_single(FormatElement::Space);
    lemma_written_comments_single(FormatElement::HardLineBreak);
    lemma_written_comments_single(FormatElement::EmptyLine);
    assert(written_comments(Seq::<FormatElement>::empty()) == e);
    if off == 2 {
        lemma_written_comments_pair(item[0], item[1]);
        assert(item.take(2) == seq![item[0], item[1]]);
    } else if off == 1 {
        assert(item.take(1) == seq![item[0]]);
    } else {
        assert(item.take(0) == Seq::<FormatElement>::empty());
    }
    off
}

/// What the elements of trailing comment `i` give around the comment, once they stand in
/// `layout` from position `base`.
proof fn lemma_trailing_item_in_layout(
    comments: Seq<SourceComment>,
    i: int,
    layout: Seq<FormatElement>,
    base: int,
    off: int,
)
    requires
        0 <= i < comments.len(),
        0 <= base && base + trailing_item(comments, i).len() <= layout.len(),
        forall|d: int| 0 <= d < trailing_item(comments, i).len() ==> layout[base + d] == #[trigger] trailing_item(comments, i)[d],
        0 <= off <= 2,
        trailing_item(comments, i).len() == off + if after_line_break(comments, i) || comments[i].kind is Line {
            3int
        } else {
            1int
        },
        trailing_item(comments, i)[off] == FormatElement::Comment(comments[i]),
        off == 0 <==> (!after_line_break(comments, i) && !(comments[i].kind is Line) && i > 0 && nestled(
            comments[i - 1],
            comments[i],
        )),
    ensures
        ({
        let k = base + off;
        let c = comments[i];
        let suffix = after_line_break(comments, i) || c.kind is Line;
        let nestle = i > 0 && nestled(comments[i - 1], c);
        &&& suffix ==> layout[k + 1] == FormatElement::EndLineSuffix && layout[k + 2]
            == FormatElement::ExpandParent
        &&& (after_line_break(comments, i) || c.kind is Line) && nestle ==> layout[k - 1]
            == FormatElement::StartLineSuffix
        &&& after_line_break(comments, i) && !nestle ==> layout[k - 2] == FormatElement::StartLineSuffix
            && layout[k - 1] == if c.lines_before == 0 {
            if i > 0 && comments[i - 1].kind is Line {
                FormatElement::HardLineBreak
            } else {
                FormatElement::Space
            }
        } else if c.lines_before == 1 {
            FormatElement::HardLineBreak
        } else {
            FormatElement::EmptyLine
        }
        &&& !after_line_break(comments, i) && c.kind is Line && !nestle ==> layout[k - 2]
            == FormatElement::StartLineSuffix && layout[k - 1] == FormatElement::Space
        &&& !suffix && !nestle ==> layout[k - 1] == FormatElement::Space
        }),
{
    let item = trailing_item(comments, i);
    let c = comments[i];
    let nestle = i > 0 && nestled(comments[i - 1], c);
    if off >= 1 {
        assert(layout[base + off - 1] == item[off - 1]);
    }
    if off >= 2 {
        assert(layout[base + off - 2] == item[off - 2]);
    }
    if after_line_break(comments, i) || c.kind is Line {
        assert(layout[base + off + 1] == item[off + 1]);
        assert(layout[base + off + 2] == item[off + 2]);
    }
    assert(layout[base + off] == item[off]);
}

/// What surrounds trailing comment `i` in the layout. A line comment, or any comment once some
/// comment up to it had a line break before it, stands in a line suffix closed right after it
/// and followed by an expansion of the parent group. Before it (inside the suffix where there is
/// one): nothing where nestled with the previous comment; otherwise, on its own line, a space,
/// line break or empty line as the source had (a line break after a line comment), and on the
/// same line a space. After it comes the start of the next comment, or the end.
pub proof fn law_trailing_comment_surroundings(comments: Seq<SourceComment>, i: int)
    requires
        0 <= i < comments.len(),
    ensures
        exists|k: int|
            0 <= k < trailing_layout(comments).len()
                && written_comments(#[trigger] trailing_layout(comments).take(k)).len() == i
                && trailing_layout(comments)[k] == FormatElement::Comment(comments[i])
                && trailing_surroundings(trailing_layout(comments), comments, i, k),
{
    let layout = trailing_layout(comments);
    let len = comments.len() as int;
    let c = comments[i];
    let p = trailing_prefix(comments, i);
    let item = trailing_item(comments, i);
    let q = trailing_prefix(comments, i + 1);
    assert(q == p + item);
    let off = lemma_trailing_item_shape(comments, i);
    let k = p.len() + off;
    lemma_trailing_prefix_grows(comments, i + 1, len);
    lemma_trailing_prefix_comments(comments, i);
    assert(layout.take(q.len() as int) == q);
    assert forall|d: int| 0 <= d < item.len() implies layout[p.len() + d] == #[trigger] trailing_item(
        comments,
        i,
    )[d] by {
        assert(layout[p.len() + d] == q[p.len() + d]);
    }
    assert(layout.take(k) == p + item.take(off)) by {
        assert(layout.take(k) == q.take(k));
    }
    lemma_written_comments_concat(p, item.take(off));
    assert(comments.take(i).len() == i);
    lemma_trailing_item_in_layout(comments, i, layout, p.len() as int, off);
    if off == 0 {
        let pp = trailing_prefix(comments, i - 1);
        let prev = lemma_trailing_item_shape(comments, i - 1);
        assert(p == pp + trailing_item(comments, i - 1));
        assert(!after_line_break(comments, i - 1));
        assert(layout[k - 1] == q[k - 1]);
        assert(q[k - 1] == p.last());
    }
    if i + 1 < len {
        lemma_trailing_prefix_grows(comments, i + 2, len);
        let r = trailing_prefix(comments, i + 2);
        let next = lemma_trailing_item_shape(comments, i + 1);
        assert(r == q + trailing_item(comments, i + 1));
        assert(layout.take(r.len() as int) == r);
        assert(layout[q.len() as int] == r[q.len() as int]);
    } else {
        assert(layout == q);
    }
    assert forall|j: int| 0 <= j < len implies #[trigger] line_break_so_far(comments, j) == after_line_break(
        comments,
        j,
    ) by {
        if line_break_so_far(comments, j) {
            let w = choose|w: int| 0 <= w <= j && comments[w].lines_before > 0;
            assert(comments[w].lines_before > 0);
        }
        if after_line_break(comments, j) {
            let w = choose|w: int| 0 <= w <= j && (#[trigger] comments[w]).lines_before > 0;
            assert(comments[w].lines_before > 0);
        }
    }
    assert(trailing_surroundings(layout, comments, i, k));
}

/// The layout of the first `n` dangling comments starts the layout of the first `m`.
proof fn lemma_dangling_prefix_grows(comments: Seq<SourceComment>, n: int, m: int)
    requires
        0 <= n <= m,
    ensures
        dangling_prefix(comments, n).len() <= dangling_prefix(comments, m).len(),
        dangling_prefix(comments, m).take(dangling_prefix(comments, n).len() as int) == dangling_prefix(comments, n),
    decreases m - n,
{
    if n < m {
        lemma_dangling_prefix_grows(comments, n, m - 1);
        let a = dangling_prefix(comments, m - 1);
        assert(dangling_prefix(comments, m) == a + dangling_item(comments, m - 1));
        assert((a + dangling_item(comments, m - 1)).take(a.len() as int) == a);
        assert(dangling_prefix(comments, m).take(dangling_prefix(comments, n).len() as int)
            == a.take(dangling_prefix(comments, n).len() as int));
    }
}

/// The number of elements before the dangling comments in each indentation mode.
pub open spec fn dangling_opening(mode: DanglingIndentMode) -> int {
    match mode {
        DanglingIndentMode::Block => 1,
        DanglingIndentMode::Soft => 2,
        DanglingIndentMode::NoIndent => 0,
    }
}

/// Where the dangling comments are laid out, the elements between comment `i - 1` and comment
/// `i` (found at the positions of the `i - 1`-th and `i`-th comments written) are: one hard
/// line break where the two are not nestled, whatever their kinds, and nothing where they are.
pub proof fn law_dangling_comments_separated(comments: Seq<SourceComment>, mode: DanglingIndentMode, i: int)
    requires
        0 < i < comments.len(),
    ensures
        exists|k: int|
            0 <= k && written_comments(#[trigger] dangling_layout(comments, mode).take(k)).len() == i - 1
                && dangling_layout(comments, mode)[k] == FormatElement::Comment(comments[i - 1])
                && if nestled(comments[i - 1], comments[i]) {
                    k + 1 < dangling_layout(comments, mode).len()
                        && dangling_layout(comments, mode)[k + 1] == FormatElement::Comment(comments[i])
                } else {
                    k + 2 < dangling_layout(comments, mode).len()
                        && dangling_layout(comments, mode)[k + 1] == FormatElement::HardLineBreak
                        && dangling_layout(comments, mode)[k + 2] == FormatElement::Comment(comments[i])
                },
{
    let layout = dangling_layout(comments, mode);
    let len = comments.len() as int;
    let body = crate::trivia::dangling_body(comments, mode);
    let all = dangling_prefix(comments, len);
    let o = dangling_opening(mode);
    let e = Seq::<FormatElement>::empty();
    lemma_written_comments_single(FormatElement::StartBlockIndent);
    lemma_written_comments_pair(FormatElement::StartGroup, FormatElement::StartSoftBlockIndent);
    lemma_written_comments_single(FormatElement::StartGroup);
    lemma_written_comments_single(FormatElement::StartSoftBlockIndent);
    assert(written_comments(e) == Seq::<SourceComment>::empty());
    let open = match mode {
        DanglingIndentMode::Block => seq![FormatElement::StartBlockIndent],
        DanglingIndentMode::Soft => seq![FormatElement::StartGroup, FormatElement::StartSoftBlockIndent],
        DanglingIndentMode::NoIndent => e,
    };
    assert(open.len() == o);
    assert(written_comments(open).len() == 0);
    assert(body.take(all.len() as int) == all);
    assert(layout.take(o + all.len()) == open + all) by {
        match mode {
            DanglingIndentMode::Block => {
                assert(layout == open + body + seq![FormatElement::EndBlockIndent]);
            },
            DanglingIndentMode::Soft => {
                assert(layout == open + body + seq![FormatElement::EndSoftBlockIndent, FormatElement::EndGroup]);
            },
            DanglingIndentMode::NoIndent => {
                assert(layout == open + body);
            },
        }
    }
    let p = dangling_prefix(comments, i);
    let q = dangling_prefix(comments, i + 1);
    assert(p == dangling_prefix(comments, i - 1) + dangling_item(comments, i - 1));
    assert(p.len() >= 1);
    assert(p.last() == FormatElement::Comment(comments[i - 1]));
    assert(q == p + dangling_item(comments, i));
    lemma_dangling_prefix_grows(comments, i + 1, len);
    lemma_dangling_prefix_comments(comments, i);
    let k = o + p.len() - 1;
    assert(layout.take(k) == open + p.drop_last()) by {
        assert(layout.take(o + all.len()).take(k) == layout.take(k));
        assert((open + all).take(k) == open + all.take(p.len() - 1));
        assert(all.take(p.len() as int) == p);
        assert(all.take(p.len() - 1) == p.drop_last());
    }
    assert(written_comments(p) == written_comments(p.drop_last()) + seq![comments[i - 1]]);
    assert(comments.take(i).len() == i);
    lemma_written_comments_concat(open, p.drop_last());
    assert(written_comments(layout.take(k)).len() == i - 1);
    assert(layout[k] == (open + all)[k]);
    assert(layout[k + 1] == (open + all)[k + 1]);
    assert(all.take(q.len() as int) == q);
    assert((open + all)[k] == q[p.len() as int - 1]);
    assert((open + all)[k + 1] == q[p.len() as int]);
    if !nestled(comments[i - 1], comments[i]) {
        assert(dangling_item(comments, i) == seq![FormatElement::HardLineBreak, FormatElement::Comment(comments[i])]);
        assert(layout[k + 2] == (open + all)[k + 2]);
        assert((open + all)[k + 2] == q[p.len() as int + 1]);
    } else {
        assert(dangling_item(comments, i) =~= seq![FormatElement::Comment(comments[i])]);
    }
}

/// How the indentation modes wrap non-empty dangling comments: a block indent around them; a
/// group holding a soft block indent around them, with a line break after a last line comment;
/// or nothing, the layout starting with the first comment and ending with the last.
pub proof fn law_dangling_indentation(comments: Seq<SourceComment>, mode: DanglingIndentMode)
    requires
        comments.len() > 0,
    ensures
        ({
            let layout = dangling_layout(comments, mode);
            let first = FormatElement::Comment(comments[0]);
            let last = FormatElement::Comment(comments.last());
            let n = layout.len() as int;
            match mode {
                DanglingIndentMode::Block => n >= 3 && layout[0] == FormatElement::StartBlockIndent
                    && layout[1] == first && layout[n - 2] == last && layout[n - 1]
                    == FormatElement::EndBlockIndent,
                DanglingIndentMode::Soft => n >= 5 && layout[0] == FormatElement::StartGroup && layout[1]
                    == FormatElement::StartSoftBlockIndent && layout[2] == first && layout[n - 3] == (
                    if comments.last().kind is Line {
                        FormatElement::HardLineBreak
                    } else {
                        last
                    }) && layout[n - 2] == FormatElement::EndSoftBlockIndent && layout[n - 1]
                    == FormatElement::EndGroup,
                DanglingIndentMode::NoIndent => n >= 1 && layout[0] == first && layout[n - 1] == last,
            }
        }),
{
    let len = comments.len() as int;
    let all = dangling_prefix(comments, len);
    lemma_dangling_prefix_grows(comments, 1, len);
    let one = dangling_prefix(comments, 1);
    assert(one == dangling_prefix(comments, 0) + dangling_item(comments, 0));
    assert(one == seq![FormatElement::Comment(comments[0])]);
    assert(all[0] == one[0]);
    assert(all == dangling_prefix(comments, len - 1) + dangling_item(comments, len - 1));
    assert(all.last() == FormatElement::Comment(comments.last()));
    let layout = dangling_layout(comments, mode);
    let body = crate::trivia::dangling_body(comments, mode);
    match mode {
        DanglingIndentMode::Block => {
            assert(layout == seq![FormatElement::StartBlockIndent] + body + seq![FormatElement::EndBlockIndent]);
            assert(body == all);
            assert(layout[1] == all[0]);
            assert(layout[layout.len() - 2] == all[all.len() - 1]);
        },
        DanglingIndentMode::Soft => {
            let open = seq![FormatElement::StartGroup, FormatElement::StartSoftBlockIndent];
            let close = seq![FormatElement::EndSoftBlockIndent, FormatElement::EndGroup];
            assert(layout == open + body + close);
            assert(layout[2] == body[0]);
            assert(body[0] == all[0]);
            assert(layout[layout.len() - 3] == body.last());
            if comments.last().kind is Line {
                assert(body == all + seq![FormatElement::HardLineBreak]);
            } else {
                assert(body == all + Seq::<FormatElement>::empty());
                assert(body == all);
            }
        },
        DanglingIndentMode::NoIndent => {
            assert(layout == body);
            assert(body == all + Seq::<FormatElement>::empty());
            assert(body == all);
        },
    }
}

/// The line breaks and whitespace at the end of `pieces`: its longest suffix of `Whitespace` and
/// `Newline` pieces.
pub open spec fn whitespace_run(pieces: Seq<TriviaPiece>) -> Seq<TriviaPiece>
    decreases pieces.len(),
{
    if pieces.len() == 0 {
        Seq::empty()
    } else if pieces.last() is Whitespace || pieces.last() is Newline {
        whitespace_run(pieces.drop_last()).push(pieces.last())
    } else {
        Seq::empty()
    }
}

/// The number of `Newline` pieces in `pieces`.
pub open spec fn newline_count(pieces: Seq<TriviaPiece>) -> int
    decreases pieces.len(),
{
    if pieces.len() == 0 {
        0
    } else {
        newline_count(pieces.drop_last()) + if pieces.last() is Newline { 1int } else { 0int }
    }
}

/// The number of `Whitespace` pieces in `pieces` that no `Newline` precedes.
pub open spec fn whitespace_before_newline(pieces: Seq<TriviaPiece>) -> int
    decreases pieces.len(),
{
    if pieces.len() == 0 {
        0
    } else {
        whitespace_before_newline(pieces.drop_last()) + if newline_count(pieces.drop_last()) == 0
            && pieces.last() is Whitespace {
            1int
        } else {
            0int
        }
    }
}

proof fn lemma_newline_count_nonnegative(pieces: Seq<TriviaPiece>)
    ensures
        newline_count(pieces) >= 0,
    decreases pieces.len(),
{
    if pieces.len() > 0 {
        lemma_newline_count_nonnegative(pieces.drop_last());
    }
}

proof fn lemma_counts_of_run(pieces: Seq<TriviaPiece>, lines: int, spaces: int)
    ensures
        trailing_counts(pieces, lines, spaces) == (
            lines + newline_count(whitespace_run(pieces)),
            if newline_count(whitespace_run(pieces)) == 0 {
                spaces + whitespace_before_newline(whitespace_run(pieces))
            } else {
                whitespace_before_newline(whitespace_run(pieces))
            },
        ),
    decreases pieces.len(),
{
    if pieces.len() > 0 {
        let q = pieces.drop_last();
        let last = pieces.last();
        if last is Whitespace || last is Newline {
            let r = whitespace_run(q);
            let rp = whitespace_run(pieces);
            assert(rp == r.push(last));
            assert(rp.drop_last() == r);
            assert(rp.last() == last);
            assert(newline_count(rp) == newline_count(r) + if last is Newline { 1int } else { 0int });
            assert(whitespace_before_newline(rp) == whitespace_before_newline(r) + if newline_count(r) == 0
                && last is Whitespace {
                1int
            } else {
                0int
            });
            if last is Whitespace {
                assert(trailing_counts(pieces, lines, spaces) == trailing_counts(q, lines, spaces + 1));
                lemma_counts_of_run(q, lines, spaces + 1);
            } else {
                assert(trailing_counts(pieces, lines, spaces) == trailing_counts(q, lines + 1, 0));
                lemma_counts_of_run(q, lines + 1, 0);
                lemma_newline_count_nonnegative(r);
            }
        } else {
            assert(whitespace_run(pieces) == Seq::<TriviaPiece>::empty());
            assert(trailing_counts(pieces, lines, spaces) == (lines, spaces));
            assert(newline_count(Seq::<TriviaPiece>::empty()) == 0);
            assert(whitespace_before_newline(Seq::<TriviaPiece>::empty()) == 0);
        }
    } else {
        assert(whitespace_run(pieces) == Seq::<TriviaPiece>::empty());
    }
}

/// Before a token's leading pieces, the skipped-trivia scan counts, at the end of the previous
/// token's trailing trivia (up to its last piece that is neither whitespace nor a line break),
/// every line break, and every whitespace piece that comes before the first of those line breaks
/// (all of them where there is none). Without a previous token it counts nothing.
pub proof fn law_initial_counts(token: SyntaxToken)
    ensures
        match token.prev_trailing_trivia {
            Some(t) => {
                &&& initial_scan(token).lines == newline_count(whitespace_run(t@))
                &&& initial_scan(token).spaces == whitespace_before_newline(whitespace_run(t@))
            },
            None => initial_scan(token).lines == 0 && initial_scan(token).spaces == 0,
        },
{
    match token.prev_trailing_trivia {
        Some(t) => {
            lemma_counts_of_run(t@, 0, 0);
        },
        None => {},
    }
}

/// A token whose first leading piece is skipped text, after a previous token whose trailing
/// trivia ends in whitespace with no line break, gets a space before the skipped text.
pub proof fn law_space_before_skipped_text(token: SyntaxToken)
    requires
        token.leading_trivia@.len() > 0,
        token.leading_trivia@[0] is Skipped,
        token.prev_trailing_trivia matches Some(t) && newline_count(whitespace_run(t@)) == 0
            && whitespace_before_newline(whitespace_run(t@)) > 0,
    ensures
        skipped_trivia_layout(token)[0] == FormatElement::Space,
{
    law_initial_counts(token);
    crate::laws::law_separator_before_verbatim(token, 0);
    let s = crate::trivia::scan_prefix(token.leading_trivia@, 0, initial_scan(token));
    assert(s == initial_scan(token));
    assert(final_scan(token).written == seq![FormatElement::Space]);
}

/// While the group breaks, a token formatted only if its group breaks is written as the whole
/// content, in order, between the start and end of the content conditional on the group
/// breaking.
pub proof fn law_breaking_layout_holds_content<'a, 'content, F: Fn(&SyntaxToken) -> Vec<FormatElement>>(
    format: FormatOnlyIfBreaks<'a, 'content, F>,
)
    ensures
        format.breaking_layout().len() == format.content_spec().len() + 2,
        format.breaking_layout()[0] == FormatElement::StartConditionalContent(
            PrintMode::Expanded,
            format.group_id_spec(),
        ),
        forall|j: int|
            0 <= j < format.content_spec().len() ==> #[trigger] format.breaking_layout()[j + 1]
                == format.content_spec()[j],
        format.breaking_layout().last() == FormatElement::EndConditionalContent,
{
}

/// While the group fits on a line, the skipped token trivia given is written whole, in order,
/// between the start and end of the content conditional on the group fitting.
pub proof fn law_flat_layout_holds_skipped<'a, 'content, F: Fn(&SyntaxToken) -> Vec<FormatElement>>(
    format: FormatOnlyIfBreaks<'a, 'content, F>,
    skipped: Seq<FormatElement>,
)
    ensures
        format.flat_layout(skipped).len() == skipped.len() + 2,
        format.flat_layout(skipped)[0] == FormatElement::StartConditionalContent(
            PrintMode::Flat,
            format.group_id_spec(),
        ),
        forall|j: int| 0 <= j < skipped.len() ==> #[trigger] format.flat_layout(skipped)[j + 1] == skipped[j],
        format.flat_layout(skipped).last() == FormatElement::EndConditionalContent,
{
}

/// The pieces after the last comment or skipped piece of `pieces` (all of them where there is
/// none).
pub open spec fn after_last_mark(pieces: Seq<TriviaPiece>) -> Seq<TriviaPiece>
    decreases pieces.len(),
{
    if pieces.len() == 0 {
        Seq::empty()
    } else if pieces.last() is Comment || pieces.last() is Skipped {
        Seq::empty()
    } else {
        after_last_mark(pieces.drop_last()).push(pieces.last())
    }
}

/// The number of `Whitespace` pieces after the last `Newline` of `pieces` (all of them where
/// there is none).
pub open spec fn whitespace_after_newline(pieces: Seq<TriviaPiece>) -> int
    decreases pieces.len(),
{
    if pieces.len() == 0 {
        0
    } else if pieces.last() is Whitespace {
        whitespace_after_newline(pieces.drop_last()) + 1
    } else {
        0
    }
}

/// Once the scan has passed a skipped piece, its counts are the line breaks after the last
/// comment or skipped piece, and the whitespace after the last of those line breaks.
proof fn lemma_scan_counts_after_mark(pieces: Seq<TriviaPiece>, k: int, n: int, init: SkippedScan)
    requires
        0 <= k < n <= pieces.len(),
        pieces[k] is Skipped,
    ensures
        scan_prefix(pieces, n, init).lines == newline_count(after_last_mark(pieces.take(n))),
        scan_prefix(pieces, n, init).spaces == whitespace_after_newline(after_last_mark(pieces.take(n))),
    decreases n - k,
{
    let t = pieces.take(n);
    assert(t.drop_last() == pieces.take(n - 1));
    assert(t.last() == pieces[n - 1]);
    let st = scan_prefix(pieces, n - 1, init);
    assert(scan_prefix(pieces, n, init) == scan_step(st, pieces[n - 1]));
    let e = Seq::<TriviaPiece>::empty();
    assert(newline_count(e) == 0);
    assert(whitespace_after_newline(e) == 0);
    if n - 1 > k {
        lemma_scan_counts_after_mark(pieces, k, n - 1, init);
    }
    let p = pieces[n - 1];
    if !(p is Comment || p is Skipped) {
        let a = after_last_mark(pieces.take(n - 1));
        assert(after_last_mark(t) == a.push(p));
        assert(a.push(p).drop_last() == a);
        assert(a.push(p).last() == p);
        if n - 1 == k {
            assert(false);
        }
    } else {
        assert(after_last_mark(t) == e);
    }
}

/// After the text printed verbatim comes, where no comment follows the last skipped piece,
/// nothing, a space, or a line break, as the source had between that piece and the token;
/// where comments follow it, the layout ends with the last of them and then a space, or a
/// line break where the source had one after it. The counts behind these are the line breaks
/// after the last comment or skipped piece, and the whitespace after the last of them.
pub proof fn law_after_verbatim(token: SyntaxToken)
    requires
        token.has_skipped_spec(),
    ensures
        ({
            let pieces = token.leading_trivia@;
            let rest = after_last_mark(pieces);
            let layout = skipped_trivia_layout(token);
            let n = layout.len() as int;
            let closing = if newline_count(rest) == 0 {
                FormatElement::Space
            } else {
                FormatElement::HardLineBreak
            };
            &&& final_scan(token).lines == newline_count(rest)
            &&& final_scan(token).spaces == whitespace_after_newline(rest)
            &&& crate::laws::comment_pieces(crate::laws::after_last_skipped(pieces)).len() == 0 ==> {
                if newline_count(rest) == 0 && whitespace_after_newline(rest) == 0 {
                    n >= 1 && layout[n - 1] == FormatElement::EndVerbatim
                } else {
                    n >= 2 && layout[n - 2] == FormatElement::EndVerbatim && layout[n - 1] == closing
                }
            }
            &&& crate::laws::comment_pieces(crate::laws::after_last_skipped(pieces)).len() > 0 ==> {
                &&& n >= 2
                &&& layout[n - 1] == closing
                &&& layout[n - 2] is Comment
                &&& layout[n - 2]->Comment_0.piece == crate::laws::comment_pieces(
                    crate::laws::after_last_skipped(pieces),
                ).last()
            }
        }),
{
    let pieces = token.leading_trivia@;
    let len = pieces.len() as int;
    let init = initial_scan(token);
    let k = choose|k: int| 0 <= k < pieces.len() && #[trigger] pieces[k] is Skipped;
    lemma_scan_counts_after_mark(pieces, k, len, init);
    assert(pieces.take(len) == pieces);
    crate::laws::law_skipped_trivia_writes_comments_after_last_skipped(token);
    let st = final_scan(token);
    let range = verbatim_range(token);
    let verbatim = seq![
        FormatElement::StartVerbatim(range.len_spec() as u32),
        FormatElement::TokenText(range),
        FormatElement::EndVerbatim,
    ];
    let after = after_verbatim(st.dangling, st.lines, st.spaces);
    let layout = skipped_trivia_layout(token);
    assert(layout == st.written + verbatim + after);
    let cp = crate::laws::comment_pieces(crate::laws::after_last_skipped(pieces));
    assert(crate::laws::pieces_of(st.dangling) == cp);
    assert(crate::laws::pieces_of(st.dangling).len() == st.dangling.len());
    if st.dangling.len() == 0 {
        assert(after == source_separator(st.lines, st.spaces));
        if st.lines == 0 && st.spaces == 0 {
            assert(after == Seq::<FormatElement>::empty());
            assert(layout == st.written + verbatim);
        }
        assert(layout[layout.len() - after.len() - 1] == FormatElement::EndVerbatim);
    } else {
        law_dangling_indentation(st.dangling, DanglingIndentMode::NoIndent);
        let dl = dangling_layout(st.dangling, DanglingIndentMode::NoIndent);
        let first = crate::trivia::lines_separator(st.dangling[0].lines_before as int);
        let last = if st.lines == 0 {
            seq![FormatElement::Space]
        } else {
            seq![FormatElement::HardLineBreak]
        };
        assert(after == first + dl + last);
        assert(layout == (st.written + verbatim + first) + dl + last);
        assert(layout[layout.len() - 2] == dl.last());
        assert(crate::laws::pieces_of(st.dangling).last() == st.dangling.last().piece);
    }
}

/// Before the first skipped piece, the scan's counts are those the source has since the last
/// comment (or, without a comment, those of the previous token's trailing trivia continued),
/// and it holds comments exactly where one has come.
proof fn lemma_scan_counts_before_skipped(pieces: Seq<TriviaPiece>, n: int, init: SkippedScan)
    requires
        0 <= n <= pieces.len(),
        forall|j: int| 0 <= j < n ==> !(#[trigger] pieces[j] is Skipped),
        init.dangling.len() == 0,
        init.skipped is None,
    ensures
        ({
            let t = pieces.take(n);
            let m = after_last_mark(t);
            let st = scan_prefix(pieces, n, init);
            &&& m.len() <= n
            &&& (st.dangling.len() == 0 <==> m.len() == n)
            &&& m.len() == n ==> st.lines == init.lines + newline_count(t) && st.spaces == if newline_count(t)
                == 0 {
                init.spaces + whitespace_after_newline(t)
            } else {
                whitespace_after_newline(t)
            }
            &&& m.len() < n ==> st.lines == newline_count(m) && st.spaces == whitespace_after_newline(m)
        }),
    decreases n,
{
    let e = Seq::<TriviaPiece>::empty();
    assert(newline_count(e) == 0);
    assert(whitespace_after_newline(e) == 0);
    if n == 0 {
        assert(pieces.take(0) == e);
    } else {
        lemma_scan_counts_before_skipped(pieces, n - 1, init);
        let t = pieces.take(n);
        let t0 = pieces.take(n - 1);
        assert(t.drop_last() == t0);
        assert(t.last() == pieces[n - 1]);
        let st = scan_prefix(pieces, n - 1, init);
        assert(scan_prefix(pieces, n, init) == scan_step(st, pieces[n - 1]));
        let p = pieces[n - 1];
        assert(!(p is Skipped));
        lemma_newline_count_nonnegative(t0);
        let m0 = after_last_mark(t0);
        lemma_newline_count_nonnegative(m0);
        if !(p is Comment) {
            assert(after_last_mark(t) == m0.push(p));
            assert(m0.push(p).drop_last() == m0);
            assert(m0.push(p).last() == p);
        } else {
            assert(after_last_mark(t) == e);
        }
    }
}

/// Before the text printed verbatim comes one element or none, by the source between the
/// previous token, or the last comment, and the first skipped piece: where no comment came
/// before that piece, nothing without line breaks or whitespace, a space with whitespace only,
/// a line break with line breaks; where comments came, a space, a line break, or an empty line
/// for zero, one, or more line breaks after the last of them.
pub proof fn law_before_verbatim(token: SyntaxToken, k: int)
    requires
        0 <= k < token.leading_trivia@.len(),
        token.leading_trivia@[k] is Skipped,
        forall|j: int| 0 <= j < k ==> !(#[trigger] token.leading_trivia@[j] is Skipped),
    ensures
        ({
            let pieces = token.leading_trivia@;
            let t = pieces.take(k);
            let m = after_last_mark(t);
            let init = initial_scan(token);
            let layout = skipped_trivia_layout(token);
            let lines = if m.len() == k { init.lines + newline_count(t) } else { newline_count(m) };
            let spaces = if m.len() == k {
                if newline_count(t) == 0 {
                    init.spaces + whitespace_after_newline(t)
                } else {
                    whitespace_after_newline(t)
                }
            } else {
                whitespace_after_newline(m)
            };
            if m.len() == k && lines == 0 && spaces == 0 {
                layout.len() > 0 && layout[0] is StartVerbatim
            } else {
                layout.len() > 1 && layout[1] is StartVerbatim && layout[0] == if m.len() == k {
                    if lines == 0 {
                        FormatElement::Space
                    } else {
                        FormatElement::HardLineBreak
                    }
                } else if lines == 0 {
                    FormatElement::Space
                } else if lines == 1 {
                    FormatElement::HardLineBreak
                } else {
                    FormatElement::EmptyLine
                }
            }
        }),
{
    let pieces = token.leading_trivia@;
    let init = initial_scan(token);
    lemma_scan_counts_before_skipped(pieces, k, init);
    crate::laws::law_separator_before_verbatim(token, k);
    let st = final_scan(token);
    let range = verbatim_range(token);
    let layout = skipped_trivia_layout(token);
    assert(layout == st.written + seq![
        FormatElement::StartVerbatim(range.len_spec() as u32),
        FormatElement::TokenText(range),
        FormatElement::EndVerbatim,
    ] + after_verbatim(st.dangling, st.lines, st.spaces));
    assert(layout[st.written.len() as int] is StartVerbatim);
}

/// Two comments are nestled exactly when both are multi-line documentation comments and the
/// second starts where the first ends.
pub proof fn law_nestled_comments(first: SourceComment, second: SourceComment)
    ensures
        nestled(first, second) <==> (first.piece.has_newline && second.piece.has_newline
            && first.piece.is_doc && second.piece.is_doc
            && second.piece.range.start_spec() == first.piece.range.end_spec()),
{
}

/// Leading and trailing comment layouts are empty exactly without comments, and start with
/// the first comment (leading) or with what the first trailing comment starts with.
pub proof fn law_comment_layouts_start(comments: Seq<SourceComment>)
    ensures
        comments.len() == 0 ==> leading_layout(comments).len() == 0 && trailing_layout(comments).len() == 0,
        comments.len() > 0 ==> leading_layout(comments).len() > 0 && leading_layout(comments)[0]
            == FormatElement::Comment(comments[0]),
        comments.len() > 0 ==> trailing_layout(comments).len() > 0 && trailing_layout(comments)[0]
            == trailing_start(comments, 0),
{
    let len = comments.len() as int;
    if len > 0 {
        lemma_leading_prefix_grows(comments, 1, len);
        assert(leading_prefix(comments, 1) == leading_prefix(comments, 0) + leading_item(comments, 0));
        assert(leading_prefix(comments, 1)[0] == FormatElement::Comment(comments[0]));
        assert(leading_layout(comments)[0] == leading_prefix(comments, 1)[0]);
        lemma_trailing_prefix_grows(comments, 1, len);
        let off = lemma_trailing_item_shape(comments, 0);
        assert(trailing_prefix(comments, 1) == trailing_prefix(comments, 0) + trailing_item(comments, 0));
        assert(trailing_layout(comments)[0] == trailing_prefix(comments, 1)[0]);
        assert forall|j: int| 0 <= j < len implies #[trigger] line_break_so_far(comments, j) == after_line_break(
            comments,
            j,
        ) by {
            if line_break_so_far(comments, j) {
                let w = choose|w: int| 0 <= w <= j && comments[w].lines_before > 0;
                assert(comments[w].lines_before > 0);
            }
            if after_line_break(comments, j) {
                let w = choose|w: int| 0 <= w <= j && (#[trigger] comments[w]).lines_before > 0;
                assert(comments[w].lines_before > 0);
            }
        }
    }
}

/// The skipped text is printed as one verbatim run: its start, holding the length of the
/// verbatim range, the source text of that range, and its end, with at most one element before.
pub proof fn law_verbatim_text(token: SyntaxToken)
    ensures
        exists|w: int|
            0 <= w <= 1 && w + 2 < skipped_trivia_layout(token).len() && #[trigger] skipped_trivia_layout(token)[w]
                == FormatElement::StartVerbatim(
                (verbatim_range(token).end_spec() - verbatim_range(token).start_spec()) as u32,
            ) && skipped_trivia_layout(token)[w + 1] == FormatElement::TokenText(verbatim_range(token))
                && skipped_trivia_layout(token)[w + 2] == FormatElement::EndVerbatim,
{
    let pieces = token.leading_trivia@;
    let init = initial_scan(token);
    let st = final_scan(token);
    let range = verbatim_range(token);
    let layout = skipped_trivia_layout(token);
    let verbatim = seq![
        FormatElement::StartVerbatim(range.len_spec() as u32),
        FormatElement::TokenText(range),
        FormatElement::EndVerbatim,
    ];
    assert(layout == st.written + verbatim + after_verbatim(st.dangling, st.lines, st.spaces));
    if token.has_skipped_spec() {
        let k = lemma_first_skipped(pieces, 0);
        crate::laws::law_separator_before_verbatim(token, k);
        let sep = separator_before_skipped(
            scan_prefix(pieces, k, init).dangling.len() == 0,
            scan_prefix(pieces, k, init).lines,
            scan_prefix(pieces, k, init).spaces,
        );
        assert(sep.len() <= 1);
        assert(layout[st.written.len() as int] == verbatim[0]);
        assert(layout[st.written.len() as int + 1] == verbatim[1]);
        assert(layout[st.written.len() as int + 2] == verbatim[2]);
    } else {
        lemma_no_skipped_writes_nothing(pieces, pieces.len() as int, init);
        assert(layout[0] == verbatim[0]);
        assert(layout[1] == verbatim[1]);
        assert(layout[2] == verbatim[2]);
    }
}

/// Without skipped pieces among the first `n`, the scan has written nothing.
proof fn lemma_no_skipped_writes_nothing(pieces: Seq<TriviaPiece>, n: int, init: SkippedScan)
    requires
        0 <= n <= pieces.len(),
        forall|j: int| 0 <= j < n ==> !(#[trigger] pieces[j] is Skipped),
        init.skipped is None,
    ensures
        scan_prefix(pieces, n, init).written == init.written,
    decreases n,
{
    if n > 0 {
        lemma_no_skipped_writes_nothing(pieces, n - 1, init);
        assert(!(pieces[n - 1] is Skipped));
    }
}

/// The first skipped piece at or after `n`, where none comes before `n`.
proof fn lemma_first_skipped(pieces: Seq<TriviaPiece>, n: int) -> (k: int)
    requires
        0 <= n <= pieces.len(),
        forall|j: int| 0 <= j < n ==> !(#[trigger] pieces[j] is Skipped),
        exists|j: int| n <= j < pieces.len() && #[trigger] pieces[j] is Skipped,
    ensures
        n <= k < pieces.len(),
        pieces[k] is Skipped,
        forall|j: int| 0 <= j < k ==> !(#[trigger] pieces[j] is Skipped),
    decreases pieces.len() - n,
{
    if pieces[n] is Skipped {
        n
    } else {
        let w = choose|j: int| n <= j < pieces.len() && #[trigger] pieces[j] is Skipped;
        assert(w != n);
        assert(pieces[w] is Skipped);
        lemma_first_skipped(pieces, n + 1)
    }
}

/// The line breaks before the first comment of `pieces` (0 where there is no comment).
pub open spec fn newlines_before_first_comment(pieces: Seq<TriviaPiece>) -> int
    decreases pieces.len(),
{
    if pieces.len() == 0 {
        0
    } else if crate::laws::comment_pieces(pieces.drop_last()).len() > 0 {
        newlines_before_first_comment(pieces.drop_last())
    } else {
        newline_count(pieces.drop_last())
    }
}

/// Without a comment after the last skipped piece, the pieces after the last comment or skipped
/// piece are those after the last skipped piece.
proof fn lemma_no_comment_after_skipped(pieces: Seq<TriviaPiece>)
    requires
        crate::laws::comment_pieces(crate::laws::after_last_skipped(pieces)).len() == 0,
    ensures
        after_last_mark(pieces) == crate::laws::after_last_skipped(pieces),
    decreases pieces.len(),
{
    if pieces.len() > 0 {
        let q = pieces.drop_last();
        let p = pieces.last();
        if !(p is Skipped) {
            let a = crate::laws::after_last_skipped(q);
            assert(crate::laws::after_last_skipped(pieces) == a.push(p));
            assert(a.push(p).drop_last() == a);
            assert(a.push(p).last() == p);
            assert(crate::laws::comment_pieces(a.push(p)).len() >= crate::laws::comment_pieces(a).len());
            if !(p is Comment) {
                lemma_no_comment_after_skipped(q);
            }
        }
    }
}

/// Past a skipped piece, the first comment the scan holds had, before it, the line breaks
/// between the last skipped piece and it.
proof fn lemma_first_comment_lines(pieces: Seq<TriviaPiece>, k: int, n: int, init: SkippedScan)
    requires
        0 <= k < n <= pieces.len(),
        pieces[k] is Skipped,
        init.dangling.len() == 0,
        init.written.len() == 0,
    ensures
        scan_prefix(pieces, n, init).dangling.len() > 0 ==> scan_prefix(pieces, n, init).dangling[0].lines_before
            == newlines_before_first_comment(crate::laws::after_last_skipped(pieces.take(n))) as u32,
    decreases n - k,
{
    let t = pieces.take(n);
    let t0 = pieces.take(n - 1);
    assert(t.drop_last() == t0);
    assert(t.last() == pieces[n - 1]);
    let st = scan_prefix(pieces, n - 1, init);
    assert(scan_prefix(pieces, n, init) == scan_step(st, pieces[n - 1]));
    let p = pieces[n - 1];
    if n - 1 > k && !(p is Skipped) {
        lemma_first_comment_lines(pieces, k, n - 1, init);
        crate::laws::lemma_scan_comments(pieces, n - 1, init);
        let a = crate::laws::after_last_skipped(t0);
        assert(crate::laws::after_last_skipped(t) == a.push(p));
        assert(a.push(p).drop_last() == a);
        assert(crate::laws::pieces_of(st.dangling).len() == st.dangling.len());
        if p is Comment && st.dangling.len() == 0 {
            lemma_scan_counts_after_mark(pieces, k, n - 1, init);
            lemma_no_comment_after_skipped(t0);
        }
    }
}

/// Where comments follow the last skipped piece, right after the verbatim text comes a space,
/// a line break, or an empty line for zero, one, or more line breaks between that piece and the
/// first of them, then that comment.
pub proof fn law_first_comment_after_verbatim(token: SyntaxToken)
    requires
        token.has_skipped_spec(),
        crate::laws::comment_pieces(crate::laws::after_last_skipped(token.leading_trivia@)).len() > 0,
    ensures
        ({
            let layout = skipped_trivia_layout(token);
            let tail = crate::laws::after_last_skipped(token.leading_trivia@);
            let g = newlines_before_first_comment(tail) as u32;
            exists|w: int|
                0 <= w <= 1 && w + 4 < layout.len() && #[trigger] layout[w] is StartVerbatim && layout[w + 2]
                    == FormatElement::EndVerbatim && layout[w + 3] == (if g == 0 {
                    FormatElement::Space
                } else if g == 1 {
                    FormatElement::HardLineBreak
                } else {
                    FormatElement::EmptyLine
                }) && layout[w + 4] is Comment && layout[w + 4]->Comment_0.piece == crate::laws::comment_pieces(
                    tail,
                )[0] && layout[w + 4]->Comment_0.lines_before == g
        }),
{
    let pieces = token.leading_trivia@;
    let len = pieces.len() as int;
    let init = initial_scan(token);
    let st = final_scan(token);
    let k = lemma_first_skipped(pieces, 0);
    lemma_first_comment_lines(pieces, k, len, init);
    crate::laws::lemma_scan_comments(pieces, len, init);
    assert(pieces.take(len) == pieces);
    let tail = crate::laws::after_last_skipped(pieces);
    assert(crate::laws::pieces_of(st.dangling) == crate::laws::comment_pieces(tail));
    assert(crate::laws::pieces_of(st.dangling).len() == st.dangling.len());
    assert(crate::laws::pieces_of(st.dangling)[0] == st.dangling[0].piece);
    crate::laws::law_separator_before_verbatim(token, k);
    let sep = separator_before_skipped(
        scan_prefix(pieces, k, init).dangling.len() == 0,
        scan_prefix(pieces, k, init).lines,
        scan_prefix(pieces, k, init).spaces,
    );
    assert(sep.len() <= 1);
    let range = verbatim_range(token);
    let verbatim = seq![
        FormatElement::StartVerbatim(range.len_spec() as u32),
        FormatElement::TokenText(range),
        FormatElement::EndVerbatim,
    ];
    law_dangling_indentation(st.dangling, DanglingIndentMode::NoIndent);
    let dl = dangling_layout(st.dangling, DanglingIndentMode::NoIndent);
    let first = crate::trivia::lines_separator(st.dangling[0].lines_before as int);
    let last = if st.lines == 0 {
        seq![FormatElement::Space]
    } else {
        seq![FormatElement::HardLineBreak]
    };
    let layout = skipped_trivia_layout(token);
    assert(layout == st.written + verbatim + (first + dl + last));
    let w = st.written.len() as int;
    assert(layout[w] == verbatim[0]);
    assert(layout[w + 2] == verbatim[2]);
    assert(layout[w + 3] == first[0]);
    assert(layout[w + 4] == dl[0]);
}

} // verus!
