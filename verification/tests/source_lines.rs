use ttt::source::{
    build_comment_map, build_source_line, merge_regions, LineType, Rgb, SyntaxColor, SyntaxStyle, TextStyle, Token,
    FONT_ITALIC,
};
use ttt::text::{is_whitespace, replace_tabs, split_lines};

fn style(r: u8) -> TextStyle {
    TextStyle { fg: Some(Rgb { r, g: 0, b: 0 }), bold: false, italic: false, underlined: false }
}

fn tok(text: &str, r: u8, is_comment: bool) -> Token {
    Token { text: text.to_string(), style: style(r), is_comment }
}

#[test]
fn build_code_line_sets_aside_indentation() {
    let line = build_source_line("  let x;", vec![tok("  ", 1, false), tok("let", 2, false), tok(" x;", 3, false)]);
    assert_eq!(line.line_type, LineType::Code);
    assert_eq!(line.leading_whitespace, "  ");
    assert_eq!(line.typeable_content, "let x;");
    assert_eq!(line.typeable_styles, vec![style(2), style(2), style(2), style(3), style(3), style(3)]);
    assert_eq!(line.comment_suffix, None);
    assert_eq!(line.raw, "  let x;");
}

#[test]
fn build_mixed_line_splits_comment() {
    let line = build_source_line(
        "x = 1  # note",
        vec![tok("x = 1  ", 1, false), tok("# note", 2, true)],
    );
    assert_eq!(line.line_type, LineType::Mixed);
    assert_eq!(line.typeable_content, "x = 1");
    assert_eq!(line.typeable_styles.len(), 5);
    assert_eq!(line.comment_suffix, Some("# note".to_string()));
}

#[test]
fn build_comment_and_empty_lines() {
    let line = build_source_line("   // c", vec![tok("   ", 1, true), tok("// c", 2, true)]);
    assert_eq!(line.line_type, LineType::Comment);
    assert_eq!(line.typeable_content, "");
    assert!(line.typeable_styles.is_empty());
    assert_eq!(line.leading_whitespace, "   ");
    let line = build_source_line(" \t ", vec![tok(" \t ", 1, false)]);
    assert_eq!(line.line_type, LineType::Empty);
    assert_eq!(line.leading_whitespace, " \t ");
    let line = build_source_line("abc", vec![]);
    assert_eq!(line.line_type, LineType::Empty);
}

#[test]
fn build_comment_in_indentation_is_dropped() {
    // a comment token that starts inside the indentation does not open the comment region
    let line = build_source_line("  a", vec![tok(" ", 1, true), tok(" a", 2, false)]);
    assert_eq!(line.line_type, LineType::Code);
    assert_eq!(line.typeable_content, "a");
    assert_eq!(line.comment_suffix, None);
}

#[test]
fn build_code_after_leading_comment_is_typed() {
    let line = build_source_line("/* c */ x;", vec![tok("/* c */", 1, true), tok(" x;", 2, false)]);
    assert_eq!(line.line_type, LineType::Mixed);
    assert_eq!(line.typeable_content, "x;");
    assert_eq!(line.typeable_styles, vec![style(2), style(2)]);
    assert_eq!(line.comment_suffix, None);
}

#[test]
fn build_only_trailing_comment_is_suffix() {
    let line = build_source_line(
        "x /* a */ y; // b ",
        vec![
            tok("x ", 1, false),
            tok("/* a */", 2, true),
            tok(" y; ", 3, false),
            tok("// b", 4, true),
            tok(" ", 5, false),
        ],
    );
    assert_eq!(line.line_type, LineType::Mixed);
    assert_eq!(line.typeable_content, "x  y;");
    assert_eq!(line.typeable_styles, vec![style(1), style(1), style(3), style(3), style(3)]);
    assert_eq!(line.comment_suffix, Some("// b ".to_string()));
}

#[test]
fn build_counts_bytes_of_wide_characters() {
    let line = build_source_line("é x", vec![tok("é x", 1, false)]);
    assert_eq!(line.typeable_content, "é x");
    let line = build_source_line("  ü", vec![tok("  ü", 1, false)]);
    assert_eq!(line.typeable_content, "ü");
}

#[test]
fn merge_marks_comments_and_trims_newline() {
    let plain = SyntaxColor { r: 1, g: 2, b: 3, a: 255 };
    let bg = SyntaxColor { r: 0, g: 0, b: 0, a: 255 };
    let s = SyntaxStyle { foreground: plain, background: bg, font_style: FONT_ITALIC };
    let regions = vec![
        (s, "ab".to_string()),
        (s, "".to_string()),
        (s, " // c\n".to_string()),
    ];
    let map = vec![false, false, true, true, true, true, true, true];
    let tokens = merge_regions(&regions, &map, 8);
    assert_eq!(tokens.len(), 2);
    assert_eq!(tokens[0].text, "ab");
    assert!(!tokens[0].is_comment);
    assert_eq!(tokens[1].text, " // c");
    assert!(tokens[1].is_comment);
    assert_eq!(tokens[1].style.fg, Some(Rgb { r: 1, g: 2, b: 3 }));
    assert!(tokens[1].style.italic && !tokens[1].style.bold);
}

#[test]
fn merge_region_of_only_newline_is_dropped() {
    let c = SyntaxColor { r: 0, g: 0, b: 0, a: 0 };
    let s = SyntaxStyle { foreground: c, background: c, font_style: 0 };
    let tokens = merge_regions(&vec![(s, "x".to_string()), (s, "\n".to_string())], &vec![false, false], 2);
    assert_eq!(tokens.len(), 1);
    assert_eq!(tokens[0].text, "x");
}

#[test]
fn split_lines_matches_std() {
    for s in ["", "\n", "a", "a\n", "a\nb", "a\r\nb\r\n", "a\rb", "a\r", "\n\n", "x\n\ny"] {
        let want: Vec<String> = s.lines().map(|l| l.to_string()).collect();
        assert_eq!(split_lines(s), want, "input {:?}", s);
    }
}

#[test]
fn tabs_become_four_spaces() {
    assert_eq!(replace_tabs("\tx\t"), "    x    ");
    assert_eq!(replace_tabs("none"), "none");
}

#[test]
fn comment_map_segments() {
    assert_eq!(
        build_comment_map(&vec![2, 5], &vec![false, true, false], 8),
        vec![false, false, true, true, true, false, false, false]
    );
    assert_eq!(build_comment_map(&vec![5, 2], &vec![true, false, true], 6), vec![true; 6]);
    assert_eq!(build_comment_map(&vec![10], &vec![true, false], 4), vec![true; 4]);
    assert_eq!(build_comment_map(&vec![], &vec![true], 3), vec![true; 3]);
    assert_eq!(build_comment_map(&vec![], &vec![false], 0), Vec::<bool>::new());
}

#[test]
fn whitespace_agrees_with_std() {
    for v in 0u32..=0x10FFFF {
        if let Some(c) = char::from_u32(v) {
            assert_eq!(is_whitespace(c), c.is_whitespace(), "U+{v:04X}");
        }
    }
}
