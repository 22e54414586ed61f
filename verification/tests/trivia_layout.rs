use biome_trivia::comments::{CommentKind, CommentPiece, Comments, SourceComment, SyntaxNode};
use biome_trivia::format_element::{FormatElement, GroupId, PrintMode};
use biome_trivia::formatter::Formatter;
use biome_trivia::text::TextRange;
use biome_trivia::token::{SyntaxToken, TriviaPiece};
use biome_trivia::trivia::{
    format_dangling_comments, format_leading_comments, format_only_if_breaks,
    format_skipped_token_trivia, format_trailing_comments, should_nestle_adjacent_doc_comments,
    DanglingIndentMode, FormatDanglingComments, FormatLeadingComments, FormatToken,
    FormatTrailingComments,
};


fn piece(start: u32, end: u32, has_newline: bool, is_doc: bool) -> CommentPiece {
    CommentPiece { range: TextRange::new(start, end), has_newline, is_doc }
}

fn comment(kind: CommentKind, lines_before: u32, lines_after: u32, start: u32, end: u32) -> SourceComment {
    SourceComment { kind, lines_before, lines_after, piece: piece(start, end, false, false) }
}

fn doc(lines_before: u32, lines_after: u32, start: u32, end: u32) -> SourceComment {
    SourceComment {
        kind: CommentKind::Block,
        lines_before,
        lines_after,
        piece: piece(start, end, true, true),
    }
}

fn formatter() -> Formatter {
    Formatter::new(Comments::new())
}

fn leading(comments: &[SourceComment]) -> Vec<FormatElement> {
    let mut f = formatter();
    FormatLeadingComments::Comments(comments).fmt(&mut f);
    f.elements().to_vec()
}

fn trailing(comments: &[SourceComment]) -> Vec<FormatElement> {
    let mut f = formatter();
    FormatTrailingComments::Comments(comments).fmt(&mut f);
    f.elements().to_vec()
}

fn dangling(comments: &[SourceComment], indent: DanglingIndentMode) -> Vec<FormatElement> {
    let mut f = formatter();
    FormatDanglingComments::Comments { comments, indent }.fmt(&mut f);
    f.elements().to_vec()
}

fn written_comments(elements: &[FormatElement]) -> Vec<SourceComment> {
    elements
        .iter()
        .filter_map(|e| match e {
            FormatElement::Comment(c) => Some(*c),
            _ => None,
        })
        .collect()
}

struct TokenRules;

impl FormatToken for TokenRules {}

fn token(leading_trivia: Vec<TriviaPiece>, prev: Option<Vec<TriviaPiece>>, start: u32) -> SyntaxToken {
    SyntaxToken {
        text_range: TextRange::new(start, start + 20),
        text_trimmed_range: TextRange::new(start + 18, start + 20),
        leading_trivia,
        prev_trailing_trivia: prev,
    }
}

#[test]
fn nestle_adjacent_doc_comments() {
    let a = doc(0, 0, 0, 10);
    let b = doc(0, 0, 10, 20);
    let c = doc(0, 0, 11, 20);
    assert!(should_nestle_adjacent_doc_comments(&a, &b));
    assert!(!should_nestle_adjacent_doc_comments(&a, &c));
    assert!(!should_nestle_adjacent_doc_comments(&b, &a));
    let plain = SourceComment { piece: piece(10, 20, true, false), ..b };
    assert!(!should_nestle_adjacent_doc_comments(&a, &plain));
    let one_line = SourceComment { piece: piece(10, 20, false, true), ..b };
    assert!(!should_nestle_adjacent_doc_comments(&a, &one_line));
}

#[test]
fn leading_block_comment_on_same_line_gets_space() {
    let c = comment(CommentKind::Block, 0, 0, 0, 5);
    assert_eq!(leading(&[c]), vec![FormatElement::Comment(c), FormatElement::Space]);
}

#[test]
fn leading_block_comment_before_line_break() {
    let a = comment(CommentKind::Block, 0, 1, 0, 5);
    assert_eq!(leading(&[a]), vec![FormatElement::Comment(a), FormatElement::SoftLineBreakOrSpace]);
    let b = comment(CommentKind::InlineBlock, 1, 1, 0, 5);
    assert_eq!(leading(&[b]), vec![FormatElement::Comment(b), FormatElement::HardLineBreak]);
    let c = comment(CommentKind::Block, 0, 3, 0, 5);
    assert_eq!(leading(&[c]), vec![FormatElement::Comment(c), FormatElement::EmptyLine]);
}

#[test]
fn leading_line_comments_end_their_line() {
    let a = comment(CommentKind::Line, 0, 0, 0, 5);
    let b = comment(CommentKind::Line, 0, 2, 6, 9);
    assert_eq!(leading(&[a, b]), vec![FormatElement::Comment(a), FormatElement::HardLineBreak, FormatElement::Comment(b), FormatElement::EmptyLine]);
}

#[test]
fn leading_nestled_doc_comments_stay_adjacent() {
    let a = doc(0, 0, 0, 10);
    let b = doc(0, 1, 10, 20);
    assert_eq!(
        leading(&[a, b]),
        vec![FormatElement::Comment(a), FormatElement::Comment(b), FormatElement::SoftLineBreakOrSpace]
    );
}

#[test]
fn leading_comments_of_node_come_from_the_table() {
    let node = SyntaxNode { key: 7 };
    let other = SyntaxNode { key: 8 };
    let c = comment(CommentKind::Line, 0, 1, 0, 5);
    let mut table = Comments::new();
    table.insert(&node, vec![c], vec![], vec![]);
    let mut f = Formatter::new(table);
    format_leading_comments(&node).fmt(&mut f);
    format_leading_comments(&other).fmt(&mut f);
    assert_eq!(f.elements().to_vec(), vec![FormatElement::Comment(c), FormatElement::HardLineBreak]);
}

#[test]
fn trailing_block_comment_on_same_line() {
    let c = comment(CommentKind::Block, 0, 0, 0, 5);
    assert_eq!(trailing(&[c]), vec![FormatElement::Space, FormatElement::Comment(c)]);
}

#[test]
fn trailing_line_comment_is_line_suffix() {
    let c = comment(CommentKind::Line, 0, 0, 0, 5);
    assert_eq!(
        trailing(&[c]),
        vec![FormatElement::StartLineSuffix, FormatElement::Space, FormatElement::Comment(c), FormatElement::EndLineSuffix, FormatElement::ExpandParent]
    );
}

#[test]
fn trailing_comment_on_own_line() {
    let a = comment(CommentKind::Block, 1, 0, 0, 5);
    let b = comment(CommentKind::Block, 0, 0, 6, 9);
    let c = comment(CommentKind::Line, 0, 0, 10, 12);
    let d = comment(CommentKind::Block, 0, 0, 13, 15);
    let e = comment(CommentKind::Block, 2, 0, 16, 18);
    assert_eq!(
        trailing(&[a, b, c, d, e]),
        vec![
            FormatElement::StartLineSuffix, FormatElement::HardLineBreak, FormatElement::Comment(a), FormatElement::EndLineSuffix, FormatElement::ExpandParent,
            FormatElement::StartLineSuffix, FormatElement::Space, FormatElement::Comment(b), FormatElement::EndLineSuffix, FormatElement::ExpandParent,
            FormatElement::StartLineSuffix, FormatElement::Space, FormatElement::Comment(c), FormatElement::EndLineSuffix, FormatElement::ExpandParent,
            FormatElement::StartLineSuffix, FormatElement::HardLineBreak, FormatElement::Comment(d), FormatElement::EndLineSuffix, FormatElement::ExpandParent,
            FormatElement::StartLineSuffix, FormatElement::EmptyLine, FormatElement::Comment(e), FormatElement::EndLineSuffix, FormatElement::ExpandParent,
        ]
    );
}

#[test]
fn trailing_nestled_doc_comments() {
    let a = doc(0, 0, 0, 10);
    let b = doc(0, 0, 10, 20);
    assert_eq!(trailing(&[a, b]), vec![FormatElement::Space, FormatElement::Comment(a), FormatElement::Comment(b)]);
    let c = doc(1, 0, 30, 40);
    let d = doc(0, 0, 40, 50);
    assert_eq!(
        trailing(&[c, d]),
        vec![
            FormatElement::StartLineSuffix, FormatElement::HardLineBreak, FormatElement::Comment(c), FormatElement::EndLineSuffix, FormatElement::ExpandParent,
            FormatElement::StartLineSuffix, FormatElement::Comment(d), FormatElement::EndLineSuffix, FormatElement::ExpandParent,
        ]
    );
}

#[test]
fn trailing_comments_of_node() {
    let node = SyntaxNode { key: 1 };
    let c = comment(CommentKind::Block, 0, 0, 0, 5);
    let mut table = Comments::new();
    table.insert(&node, vec![], vec![], vec![c]);
    let mut f = Formatter::new(table);
    format_trailing_comments(&node).fmt(&mut f);
    assert_eq!(f.elements().to_vec(), vec![FormatElement::Space, FormatElement::Comment(c)]);
}

#[test]
fn dangling_none_writes_nothing() {
    assert_eq!(dangling(&[], DanglingIndentMode::Block), vec![]);
    assert_eq!(dangling(&[], DanglingIndentMode::Soft), vec![]);
    assert_eq!(dangling(&[], DanglingIndentMode::NoIndent), vec![]);
}

#[test]
fn dangling_block_indent() {
    let a = comment(CommentKind::Block, 0, 0, 0, 5);
    let b = comment(CommentKind::Line, 1, 0, 6, 9);
    assert_eq!(
        dangling(&[a, b], DanglingIndentMode::Block),
        vec![FormatElement::StartBlockIndent, FormatElement::Comment(a), FormatElement::HardLineBreak, FormatElement::Comment(b), FormatElement::EndBlockIndent]
    );
}

#[test]
fn dangling_soft_indent_breaks_after_line_comment() {
    let a = comment(CommentKind::Line, 0, 0, 0, 5);
    assert_eq!(
        dangling(&[a], DanglingIndentMode::Soft),
        vec![FormatElement::StartGroup, FormatElement::StartSoftBlockIndent, FormatElement::Comment(a), FormatElement::HardLineBreak, FormatElement::EndSoftBlockIndent, FormatElement::EndGroup]
    );
    let b = comment(CommentKind::Block, 0, 0, 0, 5);
    assert_eq!(
        dangling(&[b], DanglingIndentMode::Soft),
        vec![FormatElement::StartGroup, FormatElement::StartSoftBlockIndent, FormatElement::Comment(b), FormatElement::EndSoftBlockIndent, FormatElement::EndGroup]
    );
}

#[test]
fn dangling_nestled_and_plain() {
    let a = doc(0, 0, 0, 10);
    let b = doc(0, 0, 10, 20);
    let c = comment(CommentKind::Line, 0, 0, 21, 25);
    assert_eq!(
        dangling(&[a, b, c], DanglingIndentMode::NoIndent),
        vec![FormatElement::Comment(a), FormatElement::Comment(b), FormatElement::HardLineBreak, FormatElement::Comment(c)]
    );
}

#[test]
fn dangling_comments_of_node_with_indent() {
    let node = SyntaxNode { key: 3 };
    let c = comment(CommentKind::Block, 0, 0, 0, 5);
    let mut table = Comments::new();
    table.insert(&node, vec![], vec![c], vec![]);
    let mut f = Formatter::new(table);
    format_dangling_comments(&node).with_block_indent().fmt(&mut f);
    format_dangling_comments(&node).with_soft_block_indent().fmt(&mut f);
    format_dangling_comments(&node).fmt(&mut f);
    assert_eq!(
        f.elements().to_vec(),
        vec![
            FormatElement::StartBlockIndent, FormatElement::Comment(c), FormatElement::EndBlockIndent,
            FormatElement::StartGroup, FormatElement::StartSoftBlockIndent, FormatElement::Comment(c), FormatElement::EndSoftBlockIndent, FormatElement::EndGroup,
            FormatElement::Comment(c),
        ]
    );
}

#[test]
fn every_comment_written_once() {
    let cs = [
        comment(CommentKind::Block, 0, 0, 0, 5),
        doc(1, 0, 6, 10),
        doc(0, 0, 10, 14),
        comment(CommentKind::Line, 0, 2, 15, 20),
        comment(CommentKind::InlineBlock, 2, 1, 22, 25),
    ];
    assert_eq!(written_comments(&leading(&cs)), cs.to_vec());
    assert_eq!(written_comments(&trailing(&cs)), cs.to_vec());
    assert_eq!(written_comments(&dangling(&cs, DanglingIndentMode::Soft)), cs.to_vec());
}

#[test]
fn comment_table_replaces_entry() {
    let node = SyntaxNode { key: 5 };
    let a = comment(CommentKind::Block, 0, 0, 0, 5);
    let b = comment(CommentKind::Line, 0, 0, 6, 9);
    let mut table = Comments::new();
    table.insert(&node, vec![a], vec![a], vec![a]);
    table.insert(&node, vec![b], vec![], vec![a, b]);
    assert_eq!(table.leading_comments(&node).to_vec(), vec![b]);
    assert!(table.dangling_comments(&node).is_empty());
    assert_eq!(table.trailing_comments(&node).to_vec(), vec![a, b]);
    assert!(table.leading_comments(&SyntaxNode { key: 6 }).is_empty());
}

#[test]
fn text_range_operations() {
    let a = TextRange::new(3, 7);
    let b = TextRange::new(5, 12);
    assert_eq!(a.len(), 4);
    assert_eq!(a.cover(b), TextRange::new(3, 12));
    assert_eq!(b.cover(a), TextRange::new(3, 12));
    assert_eq!(TextRange::empty(9).len(), 0);
    assert_eq!(TextRange::empty(9).start(), 9);
    assert_eq!(a.cover(a), a);
}

#[test]
fn skipped_trivia_between_tokens() {
    let c = piece(17, 20, false, false);
    let t = token(
        vec![
            TriviaPiece::Skipped(TextRange::new(10, 12)),
            TriviaPiece::Whitespace,
            TriviaPiece::Skipped(TextRange::new(13, 15)),
            TriviaPiece::Newline,
            TriviaPiece::Comment(CommentKind::Line, c),
            TriviaPiece::Newline,
            TriviaPiece::Newline,
        ],
        Some(vec![TriviaPiece::Newline, TriviaPiece::Newline, TriviaPiece::Whitespace]),
        9,
    );
    let mut f = formatter();
    format_skipped_token_trivia(&t).fmt(&mut f);
    let sc = SourceComment { kind: CommentKind::Line, lines_before: 1, lines_after: 0, piece: c };
    assert_eq!(
        f.elements().to_vec(),
        vec![
            FormatElement::HardLineBreak,
            FormatElement::StartVerbatim(5),
            FormatElement::TokenText(TextRange::new(10, 15)),
            FormatElement::EndVerbatim,
            FormatElement::HardLineBreak,
            FormatElement::Comment(sc),
            FormatElement::HardLineBreak,
        ]
    );
}

#[test]
fn skipped_trivia_without_spacing() {
    let t = token(vec![TriviaPiece::Skipped(TextRange::new(0, 3))], None, 0);
    let mut f = formatter();
    format_skipped_token_trivia(&t).fmt(&mut f);
    assert_eq!(
        f.elements().to_vec(),
        vec![FormatElement::StartVerbatim(3), FormatElement::TokenText(TextRange::new(0, 3)), FormatElement::EndVerbatim]
    );
}

#[test]
fn skipped_trivia_after_line_break() {
    let t = token(
        vec![TriviaPiece::Newline, TriviaPiece::Skipped(TextRange::new(4, 6)), TriviaPiece::Whitespace],
        Some(vec![TriviaPiece::Whitespace, TriviaPiece::Whitespace]),
        2,
    );
    let mut f = formatter();
    format_skipped_token_trivia(&t).fmt(&mut f);
    assert_eq!(
        f.elements().to_vec(),
        vec![FormatElement::HardLineBreak, FormatElement::StartVerbatim(2), FormatElement::TokenText(TextRange::new(4, 6)), FormatElement::EndVerbatim, FormatElement::Space]
    );
}

#[test]
fn comments_before_first_skipped_piece_give_spacing() {
    let c = piece(1, 4, false, false);
    let t = token(
        vec![
            TriviaPiece::Comment(CommentKind::Block, c),
            TriviaPiece::Newline,
            TriviaPiece::Newline,
            TriviaPiece::Skipped(TextRange::new(6, 8)),
        ],
        None,
        0,
    );
    let mut f = formatter();
    format_skipped_token_trivia(&t).fmt(&mut f);
    assert_eq!(
        f.elements().to_vec(),
        vec![FormatElement::EmptyLine, FormatElement::StartVerbatim(2), FormatElement::TokenText(TextRange::new(6, 8)), FormatElement::EndVerbatim]
    );
}

#[test]
fn no_skipped_trivia_writes_nothing() {
    let t = token(vec![TriviaPiece::Whitespace, TriviaPiece::Newline], None, 0);
    let mut f = formatter();
    format_skipped_token_trivia(&t).fmt(&mut f);
    assert!(f.elements().is_empty());
    assert!(!TokenRules.has_skipped(&t, &mut f));
}

#[test]
fn format_token_removed_and_replaced() {
    let t = token(vec![TriviaPiece::Skipped(TextRange::new(30, 31))], None, 30);
    let mut f = formatter();
    let rules = TokenRules;
    assert!(rules.has_skipped(&t, &mut f));
    rules.format_removed(&t, &mut f);
    assert_eq!(f.printed_tokens().to_vec(), vec![30]);
    assert_eq!(
        f.elements().to_vec(),
        vec![FormatElement::StartVerbatim(1), FormatElement::TokenText(TextRange::new(30, 31)), FormatElement::EndVerbatim]
    );
    let mut g = formatter();
    rules.format_replaced(&t, &[FormatElement::Space, FormatElement::HardLineBreak], &mut g);
    assert_eq!(g.printed_tokens().to_vec(), vec![30]);
    assert_eq!(
        g.elements().to_vec(),
        vec![FormatElement::StartVerbatim(1), FormatElement::TokenText(TextRange::new(30, 31)), FormatElement::EndVerbatim, FormatElement::Space, FormatElement::HardLineBreak]
    );
    let mut h = formatter();
    rules.format_trimmed_token_trivia(&t, &mut h);
    assert_eq!(h.elements().to_vec(), vec![FormatElement::TokenText(TextRange::new(48, 50))]);
    let mut k = formatter();
    rules.fmt_skipped(&t, &mut k);
    assert_eq!(k.elements().to_vec(), f.elements().to_vec());
}

fn skipped_elements(t: &SyntaxToken) -> Vec<FormatElement> {
    let mut g = formatter();
    format_skipped_token_trivia(t).fmt(&mut g);
    g.elements().to_vec()
}

#[test]
fn only_if_breaks_keeps_skipped_trivia_when_flat() {
    let with_skipped = token(vec![TriviaPiece::Skipped(TextRange::new(0, 1))], None, 0);
    let without = token(vec![], None, 0);
    let content = [FormatElement::TokenText(TextRange::new(18, 20))];
    let group = Some(GroupId { id: 4 });
    let mut f = formatter();
    format_only_if_breaks(&with_skipped, &content, skipped_elements).with_group_id(group).fmt(&mut f);
    assert_eq!(
        f.elements().to_vec(),
        vec![
            FormatElement::StartConditionalContent(PrintMode::Expanded, group),
            FormatElement::TokenText(TextRange::new(18, 20)),
            FormatElement::EndConditionalContent,
            FormatElement::StartConditionalContent(PrintMode::Flat, group),
            FormatElement::StartVerbatim(1),
            FormatElement::TokenText(TextRange::new(0, 1)),
            FormatElement::EndVerbatim,
            FormatElement::EndConditionalContent,
        ]
    );
    let calls = std::cell::Cell::new(0);
    let counting = |t: &SyntaxToken| {
        calls.set(calls.get() + 1);
        skipped_elements(t)
    };
    let mut g = formatter();
    format_only_if_breaks(&without, &content, counting).fmt(&mut g);
    assert_eq!(calls.get(), 0);
    assert_eq!(
        g.elements().to_vec(),
        vec![
            FormatElement::StartConditionalContent(PrintMode::Expanded, None),
            FormatElement::TokenText(TextRange::new(18, 20)),
            FormatElement::EndConditionalContent,
        ]
    );
    let mut h = formatter();
    format_only_if_breaks(&with_skipped, &content, counting).fmt(&mut h);
    assert_eq!(calls.get(), 1);
    assert_eq!(h.elements().to_vec(), f.elements().to_vec().into_iter().map(|e| match e {
        FormatElement::StartConditionalContent(m, _) => FormatElement::StartConditionalContent(m, None),
        other => other,
    }).collect::<Vec<_>>());
}

#[test]
fn formatted_comments_are_recorded() {
    let node = SyntaxNode { key: 2 };
    let a = comment(CommentKind::Block, 0, 0, 0, 5);
    let b = comment(CommentKind::Line, 0, 1, 6, 9);
    let c = comment(CommentKind::Block, 0, 0, 10, 12);
    let mut table = Comments::new();
    table.insert(&node, vec![a, b], vec![c], vec![b]);
    let mut f = Formatter::new(table);
    format_leading_comments(&node).fmt(&mut f);
    assert_eq!(f.formatted_comments().to_vec(), vec![a, b]);
    format_dangling_comments(&node).fmt(&mut f);
    format_trailing_comments(&node).fmt(&mut f);
    assert_eq!(f.formatted_comments().to_vec(), vec![a, b, c, b]);
    let empty = SyntaxNode { key: 99 };
    format_dangling_comments(&empty).with_soft_block_indent().fmt(&mut f);
    assert_eq!(f.formatted_comments().len(), 4);
}

#[test]
fn skipped_trivia_marks_only_comments_after_last_skipped() {
    let before = piece(1, 3, false, false);
    let between = piece(6, 8, false, false);
    let after = piece(12, 14, false, false);
    let t = token(
        vec![
            TriviaPiece::Comment(CommentKind::Block, before),
            TriviaPiece::Skipped(TextRange::new(4, 5)),
            TriviaPiece::Comment(CommentKind::Block, between),
            TriviaPiece::Skipped(TextRange::new(9, 11)),
            TriviaPiece::Whitespace,
            TriviaPiece::Comment(CommentKind::Block, after),
        ],
        None,
        0,
    );
    let mut f = formatter();
    format_skipped_token_trivia(&t).fmt(&mut f);
    let sc = SourceComment { kind: CommentKind::Block, lines_before: 0, lines_after: 0, piece: after };
    assert_eq!(f.formatted_comments().to_vec(), vec![sc]);
    assert_eq!(written_comments(f.elements()), vec![sc]);
    assert_eq!(
        f.elements().to_vec(),
        vec![
            FormatElement::Space,
            FormatElement::StartVerbatim(7),
            FormatElement::TokenText(TextRange::new(4, 11)),
            FormatElement::EndVerbatim,
            FormatElement::Space,
            FormatElement::Comment(sc),
            FormatElement::Space,
        ]
    );
}

#[test]
fn verbatim_range_is_tight_even_out_of_order() {
    let t = token(
        vec![
            TriviaPiece::Skipped(TextRange::new(20, 25)),
            TriviaPiece::Skipped(TextRange::new(3, 4)),
            TriviaPiece::Skipped(TextRange::new(10, 12)),
        ],
        None,
        0,
    );
    let mut f = formatter();
    format_skipped_token_trivia(&t).fmt(&mut f);
    assert_eq!(
        f.elements().to_vec(),
        vec![
            FormatElement::StartVerbatim(22),
            FormatElement::TokenText(TextRange::new(3, 25)),
            FormatElement::EndVerbatim,
        ]
    );
}

#[test]
fn separator_before_verbatim_counts_breaks() {
    let one = token(
        vec![TriviaPiece::Newline, TriviaPiece::Whitespace, TriviaPiece::Skipped(TextRange::new(5, 6))],
        None,
        0,
    );
    let two = token(
        vec![TriviaPiece::Whitespace, TriviaPiece::Newline, TriviaPiece::Newline, TriviaPiece::Skipped(TextRange::new(5, 6))],
        None,
        0,
    );
    assert_eq!(skipped_elements(&one)[0], FormatElement::HardLineBreak);
    assert_eq!(skipped_elements(&two)[0], FormatElement::HardLineBreak);
    let spaced = token(vec![TriviaPiece::Whitespace, TriviaPiece::Skipped(TextRange::new(5, 6))], None, 0);
    assert_eq!(skipped_elements(&spaced)[0], FormatElement::Space);
}

#[test]
fn indent_last_setting_wins() {
    let node = SyntaxNode { key: 3 };
    let c = comment(CommentKind::Line, 0, 0, 0, 5);
    let mut table = Comments::new();
    table.insert(&node, vec![], vec![c], vec![]);
    let mut f = Formatter::new(table);
    format_dangling_comments(&node).with_block_indent().with_soft_block_indent().fmt(&mut f);
    let mut g = Formatter::new(Comments::new());
    FormatDanglingComments::Comments { comments: &[c], indent: DanglingIndentMode::Soft }.fmt(&mut g);
    assert_eq!(f.elements().to_vec(), g.elements().to_vec());
}

#[test]
fn skipped_trivia_writers_agree() {
    let c = piece(7, 9, false, false);
    let t = token(
        vec![
            TriviaPiece::Skipped(TextRange::new(2, 5)),
            TriviaPiece::Newline,
            TriviaPiece::Comment(CommentKind::Line, c),
            TriviaPiece::Newline,
        ],
        Some(vec![TriviaPiece::Whitespace]),
        1,
    );
    let mut f = formatter();
    TokenRules.fmt_skipped(&t, &mut f);
    let mut g = formatter();
    format_skipped_token_trivia(&t).fmt(&mut g);
    assert_eq!(f.elements().to_vec(), g.elements().to_vec());
    assert_eq!(f.formatted_comments().to_vec(), g.formatted_comments().to_vec());
}
