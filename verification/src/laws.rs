//! Properties that hold of every layout the comment and trivia rules produce.
use vstd::prelude::*;
use crate::comments::SourceComment;
use crate::format_element::FormatElement;
use crate::text::TextRange;
use crate::token::{SyntaxToken, TriviaPiece};
use crate::trivia::{
    after_line_break, dangling_body, dangling_item, dangling_layout, dangling_prefix, leading_item,
    leading_layout, leading_prefix, leading_separator, maybe_space, nestled, next_of, previous_of,
    trailing_item, trailing_layout, trailing_line_separator, trailing_prefix, DanglingIndentMode,
    FormatDanglingComments, SkippedScan, final_scan, initial_scan, scan_prefix, scan_step,
    token_skipped_layout, verbatim_range, skipped_trivia_layout, separator_before_skipped,
    after_verbatim, lines_separator,
};
use crate::comments::Comments;

verus! {

/// The comments among `elements`, in order.
pub open spec fn written_comments(elements: Seq<FormatElement>) -> Seq<SourceComment>
    decreases elements.len(),
{
    if elements.len() == 0 {
        Seq::empty()
    } else {
        written_comments(elements.drop_last()) + match elements.last() {
            FormatElement::Comment(c) => seq![c],
            _ => Seq::empty(),
        }
    }
}

/// The comments of a concatenation are those of its parts.
pub proof fn lemma_written_comments_concat(a: Seq<FormatElement>, b: Seq<FormatElement>)
    ensures
        written_comments(a + b) == written_comments(a) + written_comments(b),
    decreases b.len(),
{
    if b.len() == 0 {
        assert(a + b == a);
    } else {
        lemma_written_comments_concat(a, b.drop_last());
        assert((a + b).drop_last() == a + b.drop_last());
        assert((a + b).last() == b.last());
    }
}

pub(crate) proof fn lemma_written_comments_single(e: FormatElement)
    ensures
        written_comments(seq![e]) == match e {
            FormatElement::Comment(c) => seq![c],
            _ => Seq::<SourceComment>::empty(),
        },
{
    assert(seq![e].drop_last() == Seq::<FormatElement>::empty());
    assert(seq![e].last() == e);
    assert(written_comments(Seq::<FormatElement>::empty()) == Seq::<SourceComment>::empty());
    match e {
        FormatElement::Comment(c) => {
            assert(Seq::<SourceComment>::empty() + seq![c] == seq![c]);
        },
        _ => {
            assert(Seq::<SourceComment>::empty() + Seq::<SourceComment>::empty() == Seq::<SourceComment>::empty());
        },
    }
}

pub(crate) proof fn lemma_written_comments_pair(e1: FormatElement, e2: FormatElement)
    ensures
        written_comments(seq![e1, e2]) == written_comments(seq![e1]) + written_comments(seq![e2]),
{
    assert(seq![e1, e2] == seq![e1] + seq![e2]);
    lemma_written_comments_concat(seq![e1], seq![e2]);
}

proof fn lemma_written_comments_triple(e1: FormatElement, e2: FormatElement, e3: FormatElement)
    ensures
        written_comments(seq![e1, e2, e3]) == written_comments(seq![e1]) + written_comments(seq![e2])
            + written_comments(seq![e3]),
{
    assert(seq![e1, e2, e3] == seq![e1] + seq![e2] + seq![e3]);
    lemma_written_comments_concat(seq![e1] + seq![e2], seq![e3]);
    lemma_written_comments_concat(seq![e1], seq![e2]);
}

/// Every leading comment is written exactly once, in source order.
pub proof fn law_leading_comments_written_once(comments: Seq<SourceComment>)
    ensures
        written_comments(leading_layout(comments)) == comments,
{
    lemma_leading_prefix_comments(comments, comments.len() as int);
    assert(comments.take(comments.len() as int) == comments);
}

pub(crate) proof fn lemma_leading_prefix_comments(comments: Seq<SourceComment>, n: int)
    requires
        0 <= n <= comments.len(),
    ensures
        written_comments(leading_prefix(comments, n)) == comments.take(n),
    decreases n,
{
    if n == 0 {
        assert(comments.take(0) == Seq::<SourceComment>::empty());
    } else {
        lemma_leading_prefix_comments(comments, n - 1);
        let c = comments[n - 1];
        let sep = leading_separator(c, next_of(comments, n - 1));
        lemma_written_comments_single(FormatElement::Comment(c));
        lemma_written_comments_single(FormatElement::Space);
        lemma_written_comments_single(FormatElement::HardLineBreak);
        lemma_written_comments_single(FormatElement::EmptyLine);
        lemma_written_comments_single(FormatElement::SoftLineBreakOrSpace);
        assert(written_comments(Seq::<FormatElement>::empty()) == Seq::<SourceComment>::empty());
        assert(written_comments(sep) == Seq::<SourceComment>::empty());
        lemma_written_comments_concat(seq![FormatElement::Comment(c)], sep);
        lemma_written_comments_concat(leading_prefix(comments, n - 1), leading_item(comments, n - 1));
        assert(comments.take(n) == comments.take(n - 1) + seq![c]);
    }
}

/// Every trailing comment is written exactly once, in source order.
pub proof fn law_trailing_comments_written_once(comments: Seq<SourceComment>)
    ensures
        written_comments(trailing_layout(comments)) == comments,
{
    lemma_trailing_prefix_comments(comments, comments.len() as int);
    assert(comments.take(comments.len() as int) == comments);
}

proof fn lemma_trailing_item_comments(comments: Seq<SourceComment>, i: int)
    requires
        0 <= i < comments.len(),
    ensures
        written_comments(trailing_item(comments, i)) == seq![comments[i]],
{
    let c = comments[i];
    let previous = previous_of(comments, i);
    let nestle = previous matches Some(p) && nestled(p, c);
    let e = Seq::<FormatElement>::empty();
    assert(written_comments(e) == Seq::<SourceComment>::empty());
    lemma_written_comments_single(FormatElement::Comment(c));
    lemma_written_comments_single(FormatElement::Space);
    lemma_written_comments_single(FormatElement::HardLineBreak);
    lemma_written_comments_single(FormatElement::EmptyLine);
    lemma_written_comments_single(FormatElement::StartLineSuffix);
    lemma_written_comments_single(FormatElement::EndLineSuffix);
    lemma_written_comments_single(FormatElement::ExpandParent);
    lemma_written_comments_triple(
        FormatElement::Comment(c),
        FormatElement::EndLineSuffix,
        FormatElement::ExpandParent,
    );
    lemma_written_comments_pair(FormatElement::EndLineSuffix, FormatElement::ExpandParent);
    let tail = seq![FormatElement::Comment(c), FormatElement::EndLineSuffix, FormatElement::ExpandParent];
    let close = seq![FormatElement::EndLineSuffix, FormatElement::ExpandParent];
    if after_line_break(comments, i) {
        let sep = trailing_line_separator(c, previous, nestle);
        assert(written_comments(sep) == Seq::<SourceComment>::empty());
        lemma_written_comments_concat(seq![FormatElement::StartLineSuffix], sep);
        lemma_written_comments_concat(seq![FormatElement::StartLineSuffix] + sep, tail);
    } else {
        let content = maybe_space(!nestle) + seq![FormatElement::Comment(c)];
        assert(written_comments(maybe_space(!nestle)) == Seq::<SourceComment>::empty());
        lemma_written_comments_concat(maybe_space(!nestle), seq![FormatElement::Comment(c)]);
        if c.kind.is_line_spec() {
            lemma_written_comments_concat(seq![FormatElement::StartLineSuffix], content);
            lemma_written_comments_concat(seq![FormatElement::StartLineSuffix] + content, close);
        }
    }
}

pub(crate) proof fn lemma_trailing_prefix_comments(comments: Seq<SourceComment>, n: int)
    requires
        0 <= n <= comments.len(),
    ensures
        written_comments(trailing_prefix(comments, n)) == comments.take(n),
    decreases n,
{
    if n == 0 {
        assert(comments.take(0) == Seq::<SourceComment>::empty());
    } else {
        lemma_trailing_prefix_comments(comments, n - 1);
        lemma_trailing_item_comments(comments, n - 1);
        lemma_written_comments_concat(trailing_prefix(comments, n - 1), trailing_item(comments, n - 1));
        assert(comments.take(n) == comments.take(n - 1) + seq![comments[n - 1]]);
    }
}

/// Every dangling comment is written exactly once, in source order, whatever the indentation.
pub proof fn law_dangling_comments_written_once(comments: Seq<SourceComment>, mode: DanglingIndentMode)
    ensures
        written_comments(dangling_layout(comments, mode)) == comments,
{
    let e = Seq::<FormatElement>::empty();
    assert(written_comments(e) == Seq::<SourceComment>::empty());
    if comments.len() == 0 {
        assert(comments == Seq::<SourceComment>::empty());
    } else {
        lemma_dangling_prefix_comments(comments, comments.len() as int);
        assert(comments.take(comments.len() as int) == comments);
        let prefix = dangling_prefix(comments, comments.len() as int);
        let closing = if mode is Soft && comments.last().kind.is_line_spec() {
            seq![FormatElement::HardLineBreak]
        } else {
            e
        };
        lemma_written_comments_single(FormatElement::HardLineBreak);
        assert(written_comments(closing) == Seq::<SourceComment>::empty());
        lemma_written_comments_concat(prefix, closing);
        let body = dangling_body(comments, mode);
        assert(written_comments(body) == comments);
        lemma_written_comments_single(FormatElement::StartBlockIndent);
        lemma_written_comments_single(FormatElement::EndBlockIndent);
        lemma_written_comments_pair(FormatElement::StartGroup, FormatElement::StartSoftBlockIndent);
        lemma_written_comments_pair(FormatElement::EndSoftBlockIndent, FormatElement::EndGroup);
        lemma_written_comments_single(FormatElement::StartGroup);
        lemma_written_comments_single(FormatElement::StartSoftBlockIndent);
        lemma_written_comments_single(FormatElement::EndSoftBlockIndent);
        lemma_written_comments_single(FormatElement::EndGroup);
        match mode {
            DanglingIndentMode::Block => {
                lemma_written_comments_concat(seq![FormatElement::StartBlockIndent], body);
                lemma_written_comments_concat(
                    seq![FormatElement::StartBlockIndent] + body,
                    seq![FormatElement::EndBlockIndent],
                );
            },
            DanglingIndentMode::Soft => {
                let open = seq![FormatElement::StartGroup, FormatElement::StartSoftBlockIndent];
                let close = seq![FormatElement::EndSoftBlockIndent, FormatElement::EndGroup];
                lemma_written_comments_concat(open, body);
                lemma_written_comments_concat(open + body, close);
            },
            DanglingIndentMode::NoIndent => {},
        }
    }
}

pub(crate) proof fn lemma_dangling_prefix_comments(comments: Seq<SourceComment>, n: int)
    requires
        0 <= n <= comments.len(),
    ensures
        written_comments(dangling_prefix(comments, n)) == comments.take(n),
    decreases n,
{
    if n == 0 {
        assert(comments.take(0) == Seq::<SourceComment>::empty());
    } else {
        lemma_dangling_prefix_comments(comments, n - 1);
        let c = comments[n - 1];
        let e = Seq::<FormatElement>::empty();
        assert(written_comments(e) == Seq::<SourceComment>::empty());
        lemma_written_comments_single(FormatElement::HardLineBreak);
        lemma_written_comments_single(FormatElement::Comment(c));
        let sep = if n - 1 > 0 && !nestled(comments[n - 2], c) {
            seq![FormatElement::HardLineBreak]
        } else {
            e
        };
        lemma_written_comments_concat(sep, seq![FormatElement::Comment(c)]);
        lemma_written_comments_concat(dangling_prefix(comments, n - 1), dangling_item(comments, n - 1));
        assert(comments.take(n) == comments.take(n - 1) + seq![c]);
    }
}

/// A leading line comment is always followed by a line break or an empty line, so no code
/// ends up after it on its line.
pub proof fn law_leading_line_comment_ends_line(comments: Seq<SourceComment>, i: int)
    requires
        0 <= i < comments.len(),
        comments[i].kind is Line,
    ensures
        leading_item(comments, i) == seq![FormatElement::Comment(comments[i]), FormatElement::HardLineBreak]
            || leading_item(comments, i) == seq![FormatElement::Comment(comments[i]), FormatElement::EmptyLine],
{
}

/// A trailing line comment is always printed as a line suffix that expands the enclosing group.
pub proof fn law_trailing_line_comment_is_line_suffix(comments: Seq<SourceComment>, i: int)
    requires
        0 <= i < comments.len(),
        comments[i].kind is Line,
    ensures
        trailing_item(comments, i)[0] == FormatElement::StartLineSuffix,
        trailing_item(comments, i).len() >= 4,
        trailing_item(comments, i).subrange(
            trailing_item(comments, i).len() - 3,
            trailing_item(comments, i).len() as int,
        ) == seq![FormatElement::Comment(comments[i]), FormatElement::EndLineSuffix, FormatElement::ExpandParent],
{
    let item = trailing_item(comments, i);
    assert(item.subrange(item.len() - 3, item.len() as int) =~= seq![
        FormatElement::Comment(comments[i]),
        FormatElement::EndLineSuffix,
        FormatElement::ExpandParent,
    ]);
}

/// Once a trailing comment stands on a line of its own, it and every later trailing comment
/// are printed as line suffixes that expand the enclosing group.
pub proof fn law_trailing_comments_stay_on_own_lines(comments: Seq<SourceComment>, i: int, j: int)
    requires
        0 <= i <= j < comments.len(),
        comments[i].lines_before > 0,
    ensures
        trailing_item(comments, j)[0] == FormatElement::StartLineSuffix,
        trailing_item(comments, j).last() == FormatElement::ExpandParent,
{
    assert(after_line_break(comments, j)) by {
        assert(comments[i].lines_before > 0);
    }
}

/// Nothing is written between two nestled dangling comments.
pub proof fn law_nestled_dangling_comments_adjacent(comments: Seq<SourceComment>, i: int)
    requires
        0 < i < comments.len(),
        nestled(comments[i - 1], comments[i]),
    ensures
        dangling_item(comments, i) == seq![FormatElement::Comment(comments[i])],
{
    assert(Seq::<FormatElement>::empty() + seq![FormatElement::Comment(comments[i])] == seq![
        FormatElement::Comment(comments[i]),
    ]);
}

/// Nothing is written after a leading block comment that is nestled with the next one.
pub proof fn law_nestled_leading_comments_adjacent(comments: Seq<SourceComment>, i: int)
    requires
        0 <= i < comments.len() - 1,
        !(comments[i].kind is Line),
        comments[i].lines_after == 0,
        nestled(comments[i], comments[i + 1]),
    ensures
        leading_item(comments, i) == seq![FormatElement::Comment(comments[i])],
{
    assert(seq![FormatElement::Comment(comments[i])] + Seq::<FormatElement>::empty() == seq![
        FormatElement::Comment(comments[i]),
    ]);
}

/// Nothing is written for a node without dangling comments.
pub proof fn law_no_dangling_comments_no_output(mode: DanglingIndentMode)
    ensures
        dangling_layout(Seq::empty(), mode) == Seq::<FormatElement>::empty(),
{
}

/// With a soft indent, a line break follows a last dangling comment that is a line comment,
/// inside the indentation.
pub proof fn law_soft_dangling_line_comment_breaks(comments: Seq<SourceComment>)
    requires
        comments.len() > 0,
        comments.last().kind is Line,
    ensures
        ({
            let layout = dangling_layout(comments, DanglingIndentMode::Soft);
            layout.len() >= 3 && layout.subrange(layout.len() - 3, layout.len() as int) == seq![
                FormatElement::HardLineBreak,
                FormatElement::EndSoftBlockIndent,
                FormatElement::EndGroup,
            ]
        }),
{
    let layout = dangling_layout(comments, DanglingIndentMode::Soft);
    assert(layout.subrange(layout.len() - 3, layout.len() as int) =~= seq![
        FormatElement::HardLineBreak,
        FormatElement::EndSoftBlockIndent,
        FormatElement::EndGroup,
    ]);
}

/// Changing the indentation keeps the comments that are formatted.
pub proof fn law_indent_keeps_comments(
    format: FormatDanglingComments,
    mode: DanglingIndentMode,
    table: Comments,
)
    ensures
        format.with_indent_spec(mode).comments_from(table) == format.comments_from(table),
        format.with_indent_spec(mode).indent_spec() == mode,
{
}

/// A token without skipped token trivia gets nothing written for it.
pub proof fn law_no_skipped_trivia_no_output(token: SyntaxToken)
    requires
        !token.has_skipped_spec(),
    ensures
        token_skipped_layout(token) == Seq::<FormatElement>::empty(),
{
}

/// After the first `n` pieces: no skipped range yet exactly when none of them was skipped, and
/// the skipped range covers every skipped piece among them.
proof fn lemma_scan_skipped_range(pieces: Seq<TriviaPiece>, n: int, init: SkippedScan)
    requires
        0 <= n <= pieces.len(),
        init.skipped is None,
    ensures
        (scan_prefix(pieces, n, init).skipped is None) <==> (forall|j: int|
            0 <= j < n ==> !(#[trigger] pieces[j] is Skipped)),
        scan_prefix(pieces, n, init).skipped matches Some(r) ==> forall|j: int|
            0 <= j < n && #[trigger] pieces[j] is Skipped ==> {
                let p = pieces[j]->Skipped_0;
                r.start_spec() <= p.start_spec() && p.end_spec() <= r.end_spec()
            },
        scan_prefix(pieces, n, init).skipped matches Some(r) ==> exists|j: int|
            0 <= j < n && #[trigger] pieces[j] is Skipped && pieces[j]->Skipped_0.start_spec() == r.start_spec(),
        scan_prefix(pieces, n, init).skipped matches Some(r) ==> exists|j: int|
            0 <= j < n && #[trigger] pieces[j] is Skipped && pieces[j]->Skipped_0.end_spec() == r.end_spec(),
    decreases n,
{
    if n > 0 {
        lemma_scan_skipped_range(pieces, n - 1, init);
        let st = scan_prefix(pieces, n - 1, init);
        assert(scan_prefix(pieces, n, init) == scan_step(st, pieces[n - 1]));
        match pieces[n - 1] {
            TriviaPiece::Skipped(range) => {
                match st.skipped {
                    Some(r) => {
                        r.lemma_cover(range);
                        assert(pieces[n - 1] is Skipped);
                    },
                    None => {
                        assert(pieces[n - 1] is Skipped);
                    },
                }
            },
            _ => {},
        }
    }
}

/// Where a token has skipped token trivia, the text printed verbatim covers every skipped piece.
pub proof fn law_verbatim_covers_skipped_pieces(token: SyntaxToken, i: int)
    requires
        0 <= i < token.leading_trivia@.len(),
        token.leading_trivia@[i] is Skipped,
    ensures
        final_scan(token).skipped is Some,
        ({
            let r = verbatim_range(token);
            let p = token.leading_trivia@[i]->Skipped_0;
            r.start_spec() <= p.start_spec() && p.end_spec() <= r.end_spec()
        }),
{
    let pieces = token.leading_trivia@;
    lemma_scan_skipped_range(pieces, pieces.len() as int, initial_scan(token));
    assert(pieces[i] is Skipped);
}

/// The text printed verbatim runs from the least start to the greatest end of the token's
/// skipped pieces: both bounds are those of some skipped piece.
pub proof fn law_verbatim_range_is_tight(token: SyntaxToken)
    requires
        token.has_skipped_spec(),
    ensures
        exists|j: int|
            0 <= j < token.leading_trivia@.len() && #[trigger] token.leading_trivia@[j] is Skipped
                && token.leading_trivia@[j]->Skipped_0.start_spec() == verbatim_range(token).start_spec(),
        exists|j: int|
            0 <= j < token.leading_trivia@.len() && #[trigger] token.leading_trivia@[j] is Skipped
                && token.leading_trivia@[j]->Skipped_0.end_spec() == verbatim_range(token).end_spec(),
{
    let pieces = token.leading_trivia@;
    lemma_scan_skipped_range(pieces, pieces.len() as int, initial_scan(token));
    let i = choose|i: int| 0 <= i < pieces.len() && #[trigger] pieces[i] is Skipped;
    assert(pieces[i] is Skipped);
}

/// The pieces after the last skipped piece of `pieces` (all of them where none is skipped).
pub open spec fn after_last_skipped(pieces: Seq<TriviaPiece>) -> Seq<TriviaPiece>
    decreases pieces.len(),
{
    if pieces.len() == 0 {
        Seq::empty()
    } else if pieces.last() is Skipped {
        Seq::empty()
    } else {
        after_last_skipped(pieces.drop_last()).push(pieces.last())
    }
}

/// The comment pieces among `pieces`, in order.
pub open spec fn comment_pieces(pieces: Seq<TriviaPiece>) -> Seq<crate::comments::CommentPiece>
    decreases pieces.len(),
{
    if pieces.len() == 0 {
        Seq::empty()
    } else {
        comment_pieces(pieces.drop_last()) + match pieces.last() {
            TriviaPiece::Comment(_, c) => seq![c],
            _ => Seq::empty(),
        }
    }
}

/// The comment pieces of a sequence of comments.
pub open spec fn pieces_of(comments: Seq<SourceComment>) -> Seq<crate::comments::CommentPiece> {
    comments.map_values(|c: SourceComment| c.piece)
}

/// The scan keeps exactly the comments after the last skipped piece, and writes no comment
/// itself.
pub(crate) proof fn lemma_scan_comments(pieces: Seq<TriviaPiece>, n: int, init: SkippedScan)
    requires
        0 <= n <= pieces.len(),
        init.dangling.len() == 0,
        init.written.len() == 0,
    ensures
        pieces_of(scan_prefix(pieces, n, init).dangling) == comment_pieces(after_last_skipped(pieces.take(n))),
        written_comments(scan_prefix(pieces, n, init).written) == Seq::<SourceComment>::empty(),
    decreases n,
{
    if n == 0 {
        assert(pieces.take(0) == Seq::<TriviaPiece>::empty());
        assert(pieces_of(init.dangling) == Seq::<crate::comments::CommentPiece>::empty());
        assert(init.written == Seq::<FormatElement>::empty());
    } else {
        lemma_scan_comments(pieces, n - 1, init);
        let st = scan_prefix(pieces, n - 1, init);
        let p = pieces[n - 1];
        assert(scan_prefix(pieces, n, init) == scan_step(st, p));
        let t = pieces.take(n);
        assert(t.drop_last() == pieces.take(n - 1));
        assert(t.last() == p);
        let e = Seq::<SourceComment>::empty();
        assert(written_comments(Seq::<FormatElement>::empty()) == e);
        match p {
            TriviaPiece::Skipped(_) => {
                assert(pieces_of(Seq::<SourceComment>::empty()) == Seq::<crate::comments::CommentPiece>::empty());
                assert(comment_pieces(Seq::<TriviaPiece>::empty()) == Seq::<crate::comments::CommentPiece>::empty());
                if st.skipped is None {
                    let sep = separator_before_skipped(st.dangling.len() == 0, st.lines, st.spaces);
                    lemma_written_comments_single(FormatElement::Space);
                    lemma_written_comments_single(FormatElement::HardLineBreak);
                    lemma_written_comments_single(FormatElement::EmptyLine);
                    assert(written_comments(sep) == e);
                    lemma_written_comments_concat(st.written, sep);
                }
            },
            TriviaPiece::Comment(kind, c) => {
                let a = after_last_skipped(pieces.take(n - 1));
                assert(after_last_skipped(t) == a.push(p));
                assert(a.push(p).drop_last() == a);
                assert(comment_pieces(a.push(p)) == comment_pieces(a) + seq![c]);
                let sc = SourceComment { kind, lines_before: st.lines as u32, lines_after: 0, piece: c };
                assert(pieces_of(st.dangling.push(sc)) =~= pieces_of(st.dangling) + seq![c]);
            },
            _ => {
                let a = after_last_skipped(pieces.take(n - 1));
                assert(after_last_skipped(t) == a.push(p));
                assert(a.push(p).drop_last() == a);
                assert(comment_pieces(a.push(p)) == comment_pieces(a) + Seq::<crate::comments::CommentPiece>::empty());
                assert(comment_pieces(a) + Seq::<crate::comments::CommentPiece>::empty() == comment_pieces(a));
            },
        }
    }
}

/// Of a token's trivia, its skipped token trivia layout writes exactly the comments after the
/// last skipped piece, in order: comments before or between skipped pieces are never written.
pub proof fn law_skipped_trivia_writes_comments_after_last_skipped(token: SyntaxToken)
    ensures
        written_comments(skipped_trivia_layout(token)) == final_scan(token).dangling,
        pieces_of(final_scan(token).dangling) == comment_pieces(after_last_skipped(token.leading_trivia@)),
{
    let pieces = token.leading_trivia@;
    let st = final_scan(token);
    lemma_scan_comments(pieces, pieces.len() as int, initial_scan(token));
    assert(pieces.take(pieces.len() as int) == pieces);
    let range = verbatim_range(token);
    let verbatim = seq![
        FormatElement::StartVerbatim(range.len_spec() as u32),
        FormatElement::TokenText(range),
        FormatElement::EndVerbatim,
    ];
    let e = Seq::<SourceComment>::empty();
    lemma_written_comments_triple(
        FormatElement::StartVerbatim(range.len_spec() as u32),
        FormatElement::TokenText(range),
        FormatElement::EndVerbatim,
    );
    lemma_written_comments_single(FormatElement::StartVerbatim(range.len_spec() as u32));
    lemma_written_comments_single(FormatElement::TokenText(range));
    lemma_written_comments_single(FormatElement::EndVerbatim);
    lemma_written_comments_single(FormatElement::Space);
    lemma_written_comments_single(FormatElement::HardLineBreak);
    lemma_written_comments_single(FormatElement::EmptyLine);
    assert(written_comments(Seq::<FormatElement>::empty()) == e);
    assert(written_comments(verbatim) == e);
    let after = after_verbatim(st.dangling, st.lines, st.spaces);
    if st.dangling.len() == 0 {
        assert(written_comments(after) == e);
    } else {
        let first = lines_separator(st.dangling[0].lines_before as int);
        let layout = dangling_layout(st.dangling, DanglingIndentMode::NoIndent);
        let last = if st.lines == 0 {
            seq![FormatElement::Space]
        } else {
            seq![FormatElement::HardLineBreak]
        };
        law_dangling_comments_written_once(st.dangling, DanglingIndentMode::NoIndent);
        assert(written_comments(first) == e);
        assert(written_comments(last) == e);
        lemma_written_comments_concat(first, layout);
        lemma_written_comments_concat(first + layout, last);
        assert(e + st.dangling + e == st.dangling);
    }
    lemma_written_comments_concat(st.written, verbatim);
    lemma_written_comments_concat(st.written + verbatim, after);
    assert(e + e + written_comments(after) == written_comments(after));
}

/// Before the first `k` pieces, none skipped, the scan has written nothing and found no
/// skipped range.
proof fn lemma_scan_before_skipped(pieces: Seq<TriviaPiece>, k: int, init: SkippedScan)
    requires
        0 <= k <= pieces.len(),
        init.skipped is None,
        forall|j: int| 0 <= j < k ==> !(#[trigger] pieces[j] is Skipped),
    ensures
        scan_prefix(pieces, k, init).written == init.written,
        scan_prefix(pieces, k, init).skipped is None,
    decreases k,
{
    if k > 0 {
        lemma_scan_before_skipped(pieces, k - 1, init);
        assert(!(pieces[k - 1] is Skipped));
    }
}

/// Once a skipped range is found, the scan writes nothing more.
proof fn lemma_scan_after_skipped(pieces: Seq<TriviaPiece>, k: int, n: int, init: SkippedScan)
    requires
        0 <= k <= n <= pieces.len(),
        scan_prefix(pieces, k, init).skipped is Some,
    ensures
        scan_prefix(pieces, n, init).written == scan_prefix(pieces, k, init).written,
        scan_prefix(pieces, n, init).skipped is Some,
    decreases n - k,
{
    if n > k {
        lemma_scan_after_skipped(pieces, k, n - 1, init);
    }
}

/// What is written before the verbatim text depends only on whether a comment came before the
/// first skipped piece and on the line breaks and whitespace the scan counted up to it.
pub proof fn law_separator_before_verbatim(token: SyntaxToken, k: int)
    requires
        0 <= k < token.leading_trivia@.len(),
        token.leading_trivia@[k] is Skipped,
        forall|j: int| 0 <= j < k ==> !(#[trigger] token.leading_trivia@[j] is Skipped),
    ensures
        ({
            let s = scan_prefix(token.leading_trivia@, k, initial_scan(token));
            final_scan(token).written == separator_before_skipped(s.dangling.len() == 0, s.lines, s.spaces)
        }),
{
    let pieces = token.leading_trivia@;
    let init = initial_scan(token);
    lemma_scan_before_skipped(pieces, k, init);
    assert(init.written + separator_before_skipped(
        scan_prefix(pieces, k, init).dangling.len() == 0,
        scan_prefix(pieces, k, init).lines,
        scan_prefix(pieces, k, init).spaces,
    ) == separator_before_skipped(
        scan_prefix(pieces, k, init).dangling.len() == 0,
        scan_prefix(pieces, k, init).lines,
        scan_prefix(pieces, k, init).spaces,
    ));
    lemma_scan_after_skipped(pieces, k + 1, pieces.len() as int, init);
}

/// Setting the indentation twice keeps only the last setting.
pub proof fn law_indent_last_setting_wins(
    format: FormatDanglingComments,
    first: DanglingIndentMode,
    second: DanglingIndentMode,
)
    ensures
        format.with_indent_spec(first).with_indent_spec(second) == format.with_indent_spec(second),
{
}

/// Setting the indentation keeps the variant and the node or comments it formats.
pub proof fn law_indent_keeps_target(format: FormatDanglingComments, mode: DanglingIndentMode)
    ensures
        format matches FormatDanglingComments::Node { node, .. } ==> format.with_indent_spec(mode)
            == (FormatDanglingComments::Node { node, indent: mode }),
        format matches FormatDanglingComments::Comments { comments, .. } ==> format.with_indent_spec(mode)
            == (FormatDanglingComments::Comments { comments, indent: mode }),
{
}

/// Covering is symmetric.
pub proof fn law_cover_commutes(a: TextRange, b: TextRange)
    ensures
        a.cover_spec(b).start_spec() == b.cover_spec(a).start_spec(),
        a.cover_spec(b).end_spec() == b.cover_spec(a).end_spec(),
{
    a.lemma_cover(b);
    b.lemma_cover(a);
}

/// A cover contains both ranges.
pub proof fn law_cover_contains_both(a: TextRange, b: TextRange)
    ensures
        a.cover_spec(b).start_spec() <= a.start_spec(),
        a.cover_spec(b).start_spec() <= b.start_spec(),
        a.end_spec() <= a.cover_spec(b).end_spec(),
        b.end_spec() <= a.cover_spec(b).end_spec(),
{
    a.lemma_cover(b);
}

} // verus!
