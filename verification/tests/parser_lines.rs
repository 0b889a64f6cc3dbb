use ttt::parser::{load_dark_theme, parse_source};
use ttt::source::{
    convert_style, LineType, Rgb, SourceLine, SyntaxColor, SyntaxStyle, FONT_BOLD, FONT_ITALIC,
    FONT_UNDERLINE,
};

fn parse_rust(code: &str) -> Vec<SourceLine> {
    let (lines, syntax) = parse_source(code, "rs").unwrap();
    assert_eq!(syntax, "Rust");
    lines
}

#[test]
fn github_dark_theme_highlights_code() {
    // Verify the theme actually produces styled output
    let lines = parse_rust("let x = 42;");
    let line = &lines[0];
    // Should have styles with non-default RGB colors from GitHub Dark theme
    assert!(!line.typeable_styles.is_empty());
    let has_colored_style = line
        .typeable_styles
        .iter()
        .any(|s| matches!(s.fg, Some(Rgb { .. })));
    assert!(has_colored_style, "Theme should produce RGB-colored styles");
}

#[test]
fn empty_source() {
    let (lines, _) = parse_source("", "rs").unwrap();
    assert!(lines.is_empty() || lines.iter().all(|l| l.line_type == LineType::Empty));
}

#[test]
fn pure_code_line() {
    let lines = parse_rust("let x = 42;");
    assert_eq!(lines.len(), 1);
    assert_eq!(lines[0].line_type, LineType::Code);
    assert_eq!(lines[0].typeable_content, "let x = 42;");
    assert!(lines[0].leading_whitespace.is_empty());
    assert!(lines[0].comment_suffix.is_none());
}

#[test]
fn code_with_leading_whitespace() {
    let lines = parse_rust("    let x = 42;");
    assert_eq!(lines[0].line_type, LineType::Code);
    assert_eq!(lines[0].leading_whitespace, "    ");
    assert_eq!(lines[0].typeable_content, "let x = 42;");
}

#[test]
fn comment_line_detected() {
    let lines = parse_rust("// this is a comment");
    assert_eq!(lines.len(), 1);
    assert_eq!(lines[0].line_type, LineType::Comment);
    assert!(lines[0].typeable_content.is_empty());
}

#[test]
fn indented_comment_line() {
    let lines = parse_rust("    // indented comment");
    assert_eq!(lines[0].line_type, LineType::Comment);
    assert!(lines[0].typeable_content.is_empty());
}

#[test]
fn empty_line_detected() {
    let lines = parse_rust("\n");
    // "\n".lines() yields one empty string
    assert!(!lines.is_empty());
    assert_eq!(lines[0].line_type, LineType::Empty);
}

#[test]
fn whitespace_only_line_is_empty() {
    let lines = parse_rust("    ");
    assert_eq!(lines[0].line_type, LineType::Empty);
    assert!(lines[0].typeable_content.is_empty());
}

#[test]
fn mixed_line_code_and_comment() {
    let lines = parse_rust("let x = 5; // set x");
    assert_eq!(lines.len(), 1);
    assert_eq!(lines[0].line_type, LineType::Mixed);
    assert_eq!(lines[0].typeable_content, "let x = 5;");
    assert!(lines[0].comment_suffix.is_some());
    let suffix = lines[0].comment_suffix.as_ref().unwrap();
    assert!(suffix.contains("// set x"));
}

#[test]
fn block_comment_single_line() {
    let lines = parse_rust("/* block comment */");
    assert_eq!(lines[0].line_type, LineType::Comment);
    assert!(lines[0].typeable_content.is_empty());
}

#[test]
fn block_comment_multiline() {
    let code = "/* start\nmiddle\nend */";
    let lines = parse_rust(code);
    assert_eq!(lines.len(), 3);
    for line in &lines {
        assert_eq!(line.line_type, LineType::Comment);
        assert!(line.typeable_content.is_empty());
    }
}

#[test]
fn multiline_source_mixed_types() {
    let code = "// comment\nfn main() {\n    // inner\n    let x = 1;\n}";
    let lines = parse_rust(code);
    assert_eq!(lines.len(), 5);
    assert_eq!(lines[0].line_type, LineType::Comment);
    assert_eq!(lines[1].line_type, LineType::Code);
    assert_eq!(lines[2].line_type, LineType::Comment);
    assert_eq!(lines[3].line_type, LineType::Code);
    assert_eq!(lines[4].line_type, LineType::Code);
}

#[test]
fn tab_expansion() {
    let lines = parse_rust("\tlet x = 1;");
    assert_eq!(lines[0].leading_whitespace, "    ");
}

#[test]
fn typeable_styles_length_matches_content() {
    let lines = parse_rust("let x = 42;");
    let line = &lines[0];
    assert_eq!(
        line.typeable_styles.len(),
        line.typeable_content.chars().count()
    );
}

#[test]
fn syntax_detection_via_extension() {
    let (_, syntax) = parse_source("fn main() {}", "rs").unwrap();
    assert_eq!(syntax, "Rust");
}

#[test]
fn unknown_extension_falls_back() {
    let result = parse_source("hello", "zzz_unknown");
    assert!(result.is_ok());
}

#[test]
fn comments_in_function_body() {
    let code = "fn main() {\n    // line comment\n    /* block comment */\n    let x = 1;\n}";
    let lines = parse_rust(code);
    assert_eq!(lines[0].line_type, LineType::Code, "fn main() {{");
    assert_eq!(lines[1].line_type, LineType::Comment, "    // line comment");
    assert_eq!(
        lines[2].line_type,
        LineType::Comment,
        "    /* block comment */"
    );
    assert_eq!(lines[3].line_type, LineType::Code, "    let x = 1;");
    assert_eq!(lines[4].line_type, LineType::Code, "}}");
    // Verify comment lines have no typeable content
    assert!(lines[1].typeable_content.is_empty());
    assert!(lines[2].typeable_content.is_empty());
}

#[test]
fn multiline_block_comment_in_function() {
    let code = "fn f() {\n    /*\n     * multi\n     */\n    let x = 1;\n}";
    let lines = parse_rust(code);
    assert_eq!(lines[0].line_type, LineType::Code, "fn f() {{");
    assert_eq!(lines[1].line_type, LineType::Comment, "    /*");
    assert_eq!(lines[2].line_type, LineType::Comment, "     * multi");
    assert_eq!(lines[3].line_type, LineType::Comment, "     */");
    assert_eq!(lines[4].line_type, LineType::Code, "    let x = 1;");
    assert_eq!(lines[5].line_type, LineType::Code, "}}");
}

#[test]
fn spaced_comments_various() {
    // Test with various indentation levels
    let code = "fn f() {\n  // 2-space indent\n      // 6-space indent\n  let x = 1;\n}";
    let lines = parse_rust(code);
    assert_eq!(lines[1].line_type, LineType::Comment, "  // 2-space");
    assert_eq!(lines[2].line_type, LineType::Comment, "      // 6-space");
    assert!(lines[1].typeable_content.is_empty());
    assert!(lines[2].typeable_content.is_empty());
}

#[test]
fn python_hash_comments() {
    let code = "# comment\n    # indented\nx = 1  # inline\ndef f():\n    pass";
    let (lines, _) = parse_source(code, "py").unwrap();
    assert_eq!(lines[0].line_type, LineType::Comment, "# comment");
    assert_eq!(lines[1].line_type, LineType::Comment, "    # indented");
    assert_eq!(lines[2].line_type, LineType::Mixed, "x = 1  # inline");
    assert_eq!(lines[2].typeable_content, "x = 1");
    assert_eq!(lines[3].line_type, LineType::Code, "def f():");
    assert_eq!(lines[4].line_type, LineType::Code, "    pass");
}

#[test]
fn c_style_comments() {
    let code = "// line comment\n    // indented\n/* block */\nint x = 1; /* inline */";
    let (lines, _) = parse_source(code, "c").unwrap();
    assert_eq!(lines[0].line_type, LineType::Comment, "// line");
    assert_eq!(lines[1].line_type, LineType::Comment, "    // indented");
    assert_eq!(lines[2].line_type, LineType::Comment, "/* block */");
    assert_eq!(
        lines[3].line_type,
        LineType::Mixed,
        "int x = 1; /* inline */"
    );
    assert_eq!(lines[3].typeable_content, "int x = 1;");
}

#[test]
fn comments_inside_impl_block() {
    // Reproduces the pattern: code, empty, indented //, code
    let code = "\
impl App {
pub fn new() -> Self {
    let x = 1;

    // this is a comment
    let y = 2;
}
}";
    let lines = parse_rust(code);
    assert_eq!(lines[0].line_type, LineType::Code, "impl App {{");
    assert_eq!(lines[1].line_type, LineType::Code, "pub fn new()");
    assert_eq!(lines[2].line_type, LineType::Code, "let x = 1;");
    assert_eq!(lines[3].line_type, LineType::Empty, "empty line");
    assert_eq!(
        lines[4].line_type,
        LineType::Comment,
        "        // this is a comment"
    );
    assert!(lines[4].typeable_content.is_empty());
    assert_eq!(lines[5].line_type, LineType::Code, "let y = 2;");
}

#[test]
fn deeply_indented_comments() {
    let code = "\
fn f() {
if true {
    for i in 0..10 {
        // deeply indented comment
        /* block inside nested */
        let x = i;
    }
}
}";
    let lines = parse_rust(code);
    assert_eq!(lines[3].line_type, LineType::Comment, "deeply indented //");
    assert_eq!(
        lines[4].line_type,
        LineType::Comment,
        "deeply indented /* */"
    );
    assert!(lines[3].typeable_content.is_empty());
    assert!(lines[4].typeable_content.is_empty());
}

#[test]
fn comment_between_code_lines() {
    let code = "\
let a = 1;
// middle comment
let b = 2;";
    let lines = parse_rust(code);
    assert_eq!(lines[0].line_type, LineType::Code);
    assert_eq!(lines[1].line_type, LineType::Comment);
    assert!(lines[1].typeable_content.is_empty());
    assert_eq!(lines[2].line_type, LineType::Code);
}

#[test]
fn empty_then_comment_then_code() {
    let code = "\
let x = 1;

// comment after blank
let y = 2;";
    let lines = parse_rust(code);
    assert_eq!(lines[0].line_type, LineType::Code);
    assert_eq!(lines[1].line_type, LineType::Empty);
    assert_eq!(lines[2].line_type, LineType::Comment);
    assert!(lines[2].typeable_content.is_empty());
    assert_eq!(lines[3].line_type, LineType::Code);
}

#[test]
fn multiline_block_in_impl() {
    let code = "\
impl Foo {
/*
 * Block comment
 * spanning lines
 */
fn bar() {}
}";
    let lines = parse_rust(code);
    assert_eq!(lines[0].line_type, LineType::Code, "impl Foo");
    assert_eq!(lines[1].line_type, LineType::Comment, "/*");
    assert_eq!(lines[2].line_type, LineType::Comment, "* Block comment");
    assert_eq!(lines[3].line_type, LineType::Comment, "* spanning lines");
    assert_eq!(lines[4].line_type, LineType::Comment, "*/");
    assert_eq!(lines[5].line_type, LineType::Code, "fn bar()");
    for i in 1..=4 {
        assert!(
            lines[i].typeable_content.is_empty(),
            "line {} should have no typeable content",
            i + 1
        );
    }
}

#[test]
fn debug_comment_detection() {
    let cases: Vec<(&str, LineType)> = vec![
        ("// comment", LineType::Comment),
        ("  // spaced", LineType::Comment),
        ("    // indented", LineType::Comment),
        ("/* block */", LineType::Comment),
        ("  /* spaced block */", LineType::Comment),
        ("    /* indented block */", LineType::Comment),
        ("/// doc comment", LineType::Comment),
        ("//! inner doc", LineType::Comment),
    ];

    for (code, expected_type) in &cases {
        let lines = parse_rust(code);
        assert_eq!(
            lines[0].line_type,
            *expected_type,
            "Failed for {:?}: got {:?}, tokens: {:?}",
            code,
            lines[0].line_type,
            lines[0]
                .tokens
                .iter()
                .map(|t| (&t.text, t.is_comment))
                .collect::<Vec<_>>()
        );
        assert!(
            lines[0].typeable_content.is_empty(),
            "Expected empty typeable for {:?}, got {:?}",
            code,
            lines[0].typeable_content
        );
    }
}

#[test]
fn convert_style_bold() {
    let s = SyntaxStyle {
        foreground: SyntaxColor {
            r: 255,
            g: 0,
            b: 0,
            a: 255,
        },
        background: SyntaxColor {
            r: 0,
            g: 0,
            b: 0,
            a: 255,
        },
        font_style: FONT_BOLD,
    };
    let result = convert_style(&s);
    assert_eq!(result.fg, Some(Rgb { r: 255, g: 0, b: 0 }));
    assert!(result.bold);
}

#[test]
fn convert_style_italic() {
    let s = SyntaxStyle {
        foreground: SyntaxColor {
            r: 0,
            g: 128,
            b: 0,
            a: 255,
        },
        background: SyntaxColor {
            r: 0,
            g: 0,
            b: 0,
            a: 255,
        },
        font_style: FONT_ITALIC,
    };
    let result = convert_style(&s);
    assert!(result.italic);
}

#[test]
fn convert_style_underline() {
    let s = SyntaxStyle {
        foreground: SyntaxColor {
            r: 0,
            g: 0,
            b: 255,
            a: 255,
        },
        background: SyntaxColor {
            r: 0,
            g: 0,
            b: 0,
            a: 255,
        },
        font_style: FONT_UNDERLINE,
    };
    let result = convert_style(&s);
    assert!(result.underlined);
}

#[test]
fn convert_style_all_modifiers() {
    let s = SyntaxStyle {
        foreground: SyntaxColor {
            r: 1,
            g: 2,
            b: 3,
            a: 255,
        },
        background: SyntaxColor {
            r: 0,
            g: 0,
            b: 0,
            a: 255,
        },
        font_style: FONT_BOLD | FONT_ITALIC | FONT_UNDERLINE,
    };
    let result = convert_style(&s);
    assert!(result.bold);
    assert!(result.italic);
    assert!(result.underlined);
}

#[test]
fn convert_style_no_modifiers() {
    let s = SyntaxStyle {
        foreground: SyntaxColor {
            r: 10,
            g: 20,
            b: 30,
            a: 255,
        },
        background: SyntaxColor {
            r: 0,
            g: 0,
            b: 0,
            a: 255,
        },
        font_style: 0,
    };
    let result = convert_style(&s);
    assert_eq!(result.fg, Some(Rgb { r: 10, g: 20, b: 30 }));
    assert!(!result.bold && !result.italic && !result.underlined);
}

#[test]
fn code_after_block_comment() {
    // Covers: comment_map falling back to false after block comment ends
    let code = "/* comment */\nlet x = 1;";
    let lines = parse_rust(code);
    assert_eq!(lines[0].line_type, LineType::Comment);
    assert_eq!(lines[1].line_type, LineType::Code);
    assert_eq!(lines[1].typeable_content, "let x = 1;");
}

#[test]
fn mixed_line_with_leading_whitespace() {
    let lines = parse_rust("    let x = 5; // init");
    assert_eq!(lines[0].line_type, LineType::Mixed);
    assert_eq!(lines[0].leading_whitespace, "    ");
    assert_eq!(lines[0].typeable_content, "let x = 5;");
    assert!(lines[0].comment_suffix.is_some());
}

/// The text of the sample source file.
const SAMPLE: &str = "// This is a comment line - should be skipped
fn main() {
    // Another comment - skip this
    let x = 42;
    let y = x + 1; // inline comment
    println!(\"{}\", y);

    /* Block comment
       spanning multiple lines
       should all be skipped */
    let result = x * y;
    println!(\"Result: {}\", result);
}
";

#[test]
fn parse_sample_source() {
    let (lines, syntax) = parse_source(SAMPLE, "rs").unwrap();
    assert_eq!(syntax, "Rust");
    assert_eq!(lines.len(), 13);
    assert_eq!(lines[0].line_type, LineType::Comment, "line 1");
    assert_eq!(lines[1].line_type, LineType::Code, "line 2");
    assert_eq!(lines[2].line_type, LineType::Comment, "line 3: indented //");
    assert_eq!(lines[3].line_type, LineType::Code, "line 4");
    assert_eq!(lines[4].line_type, LineType::Mixed, "line 5: inline comment");
    assert_eq!(lines[4].typeable_content, "let y = x + 1;");
    assert_eq!(lines[5].line_type, LineType::Code, "line 6");
    assert_eq!(lines[6].line_type, LineType::Empty, "line 7: empty");
    assert_eq!(lines[7].line_type, LineType::Comment, "line 8: /* start");
    assert_eq!(lines[8].line_type, LineType::Comment, "line 9: block middle");
    assert_eq!(lines[9].line_type, LineType::Comment, "line 10: block end */");
    assert_eq!(lines[10].line_type, LineType::Code, "line 11");
    assert_eq!(lines[11].line_type, LineType::Code, "line 12");
    assert_eq!(lines[12].line_type, LineType::Code, "line 13");
}

#[test]
fn tokens_spell_each_line() {
    let code = "fn main() {\r\n\tlet x = 1; // one\n    /* block */ let y = \"é\";\n\n";
    let (lines, _) = parse_source(code, "rs").unwrap();
    let expected: Vec<String> = code.replace('\t', "    ").lines().map(|l| l.to_string()).collect();
    assert_eq!(lines.len(), expected.len());
    for (line, text) in lines.iter().zip(expected.iter()) {
        let joined: String = line.tokens.iter().map(|t| t.text.as_str()).collect();
        assert_eq!(&joined, text);
        assert_eq!(&line.raw, text);
    }
}

#[test]
fn github_dark_theme_loads() {
    let named = load_dark_theme();
    let theme = named.theme();
    // Verify theme has basic settings (foreground/background)
    let bg = theme.settings.background.unwrap();
    let fg = theme.settings.foreground.unwrap();
    // The dark theme should have a dark background
    assert!(bg.r < 100, "Expected dark background, got r={}", bg.r);
    // And a light foreground
    assert!(fg.r > 100, "Expected light foreground, got r={}", fg.r);
}

fn plain_style() -> ttt::source::SyntaxStyle {
    let c = ttt::source::SyntaxColor { r: 200, g: 200, b: 200, a: 255 };
    ttt::source::SyntaxStyle { foreground: c, background: c, font_style: 0 }
}

fn push(name: &str) -> ttt::scopes::StackOp {
    ttt::scopes::StackOp::Push(syntect::parsing::Scope::new(name).unwrap(), name.to_string())
}

#[test]
fn highlight_line_marks_comment_by_scope() {
    let mut stack = ttt::scopes::ScopeStackModel::new();
    let ops = vec![(3usize, push("comment.line.double-slash")), (7usize, ttt::scopes::StackOp::Pop(1))];
    let regions = vec![(plain_style(), "x; ".to_string()), (plain_style(), "// c".to_string()), (plain_style(), "\n".to_string())];
    let line = ttt::parser::highlight_line(&mut stack, "x; // c", &ops, &regions, "comment").unwrap();
    assert_eq!(line.line_type, LineType::Mixed);
    assert_eq!(line.typeable_content, "x;");
    assert_eq!(line.comment_suffix, Some("// c".to_string()));
    assert!(stack.scopes.is_empty());
}

#[test]
fn highlight_line_carries_block_comment() {
    let mut stack = ttt::scopes::ScopeStackModel::new();
    let first = ttt::parser::highlight_line(
        &mut stack,
        "/* a",
        &vec![(0usize, push("comment.block"))],
        &vec![(plain_style(), "/* a\n".to_string())],
        "comment",
    )
    .unwrap();
    assert_eq!(first.line_type, LineType::Comment);
    assert_eq!(stack.scopes, vec!["comment.block".to_string()]);
    let second = ttt::parser::highlight_line(
        &mut stack,
        "b */",
        &vec![(4usize, ttt::scopes::StackOp::Pop(1))],
        &vec![(plain_style(), "b */".to_string()), (plain_style(), "\n".to_string())],
        "comment",
    )
    .unwrap();
    assert_eq!(second.line_type, LineType::Comment);
    assert!(stack.scopes.is_empty());
    // a scope whose name only begins with the same letters is no comment
    let third = ttt::parser::highlight_line(
        &mut stack,
        "y",
        &vec![(0usize, push("commentary"))],
        &vec![(plain_style(), "y\n".to_string())],
        "comment",
    )
    .unwrap();
    assert_eq!(third.line_type, LineType::Code);
}

#[test]
fn highlight_line_refuses_mismatched_regions_and_restore() {
    let mut stack = ttt::scopes::ScopeStackModel::new();
    let r = ttt::parser::highlight_line(&mut stack, "ab", &vec![], &vec![(plain_style(), "a\n".to_string())], "comment");
    assert!(r.is_none());
    let r = ttt::parser::highlight_line(
        &mut stack,
        "ab",
        &vec![(0usize, ttt::scopes::StackOp::Restore)],
        &vec![(plain_style(), "ab\n".to_string())],
        "comment",
    );
    assert!(r.is_none());
}

#[test]
fn tokens_follow_scope_change_positions() {
    let (lines, _) = parse_source("let x = 5; // set x", "rs").unwrap();
    let line = &lines[0];
    assert_eq!(line.line_type, LineType::Mixed);
    assert_eq!(line.typeable_content, "let x = 5;");
    // the comment is a token of its own, marked as comment; the code before it is not
    let comment: String = line.tokens.iter().filter(|t| t.is_comment).map(|t| t.text.as_str()).collect();
    assert!(comment.contains("// set x"));
    assert!(line.tokens.iter().any(|t| !t.is_comment && t.text.contains("let")));
    assert!(line.tokens.len() > 2);
}
