use ttt::app::App;
use ttt::source::{LineType, SourceLine, TextStyle};

fn make_code_line(content: &str) -> SourceLine {
    let len = content.chars().count();
    SourceLine {
        raw: content.to_string(),
        tokens: Vec::new(),
        typeable_content: content.to_string(),
        typeable_styles: vec![TextStyle::default(); len],
        leading_whitespace: String::new(),
        line_type: LineType::Code,
        comment_suffix: None,
    }
}

fn make_comment_line(raw: &str) -> SourceLine {
    SourceLine {
        raw: raw.to_string(),
        tokens: Vec::new(),
        typeable_content: String::new(),
        typeable_styles: Vec::new(),
        leading_whitespace: String::new(),
        line_type: LineType::Comment,
        comment_suffix: None,
    }
}

fn make_empty_line() -> SourceLine {
    SourceLine {
        raw: String::new(),
        tokens: Vec::new(),
        typeable_content: String::new(),
        typeable_styles: Vec::new(),
        leading_whitespace: String::new(),
        line_type: LineType::Empty,
        comment_suffix: None,
    }
}

fn make_mixed_line(code: &str, comment: &str) -> SourceLine {
    let len = code.chars().count();
    SourceLine {
        raw: format!("{code}{comment}"),
        tokens: Vec::new(),
        typeable_content: code.to_string(),
        typeable_styles: vec![TextStyle::default(); len],
        leading_whitespace: String::new(),
        line_type: LineType::Mixed,
        comment_suffix: Some(comment.to_string()),
    }
}

#[test]
fn new_app_starts_at_first_code_line() {
    let lines = vec![make_code_line("hello"), make_code_line("world")];
    let app = App::new(lines, "Test".into(), 1, false, false);
    assert_eq!(app.current_line, 0);
    assert_eq!(app.current_col, 0);
    assert!(!app.finished);
}

#[test]
fn new_app_skips_leading_comments() {
    let lines = vec![
        make_comment_line("// comment"),
        make_empty_line(),
        make_code_line("code"),
    ];
    let app = App::new(lines, "Test".into(), 1, false, false);
    assert_eq!(app.current_line, 2);
    assert!(!app.finished);
}

#[test]
fn new_app_all_comments_is_finished() {
    let lines = vec![
        make_comment_line("// a"),
        make_comment_line("// b"),
        make_empty_line(),
    ];
    let app = App::new(lines, "Test".into(), 1, false, false);
    assert!(app.finished);
}

#[test]
fn type_char_correct() {
    let lines = vec![make_code_line("ab")];
    let mut app = App::new(lines, "Test".into(), 1, false, false);
    app.type_char('a');
    assert_eq!(app.current_col, 1);
    assert_eq!(app.typed_chars[0][0], Some('a'));
    assert_eq!(app.stats.total_keystrokes, 1);
    assert_eq!(app.stats.correct_keystrokes, 1);
}

#[test]
fn type_char_incorrect() {
    let lines = vec![make_code_line("ab")];
    let mut app = App::new(lines, "Test".into(), 1, false, false);
    app.type_char('x'); // wrong char
    assert_eq!(app.typed_chars[0][0], Some('x'));
    assert_eq!(app.stats.total_keystrokes, 1);
    assert_eq!(app.stats.correct_keystrokes, 0);
}

#[test]
fn type_char_advances_line_on_enter() {
    let lines = vec![make_code_line("a"), make_code_line("b")];
    let mut app = App::new(lines, "Test".into(), 1, false, false);
    app.type_char('a');
    assert_eq!(app.current_line, 0); // not yet advanced
    app.confirm_line();
    assert_eq!(app.current_line, 1);
    assert_eq!(app.current_col, 0);
}

#[test]
fn type_char_finishes_on_last_line() {
    let lines = vec![make_code_line("a")];
    let mut app = App::new(lines, "Test".into(), 1, false, false);
    app.type_char('a');
    assert!(!app.finished); // not finished until Enter
    app.confirm_line();
    assert!(app.finished);
}

#[test]
fn type_char_skips_comment_lines() {
    let lines = vec![
        make_code_line("a"),
        make_comment_line("// skip"),
        make_empty_line(),
        make_code_line("b"),
    ];
    let mut app = App::new(lines, "Test".into(), 1, false, false);
    app.type_char('a');
    app.confirm_line();
    assert_eq!(app.current_line, 3); // skipped lines 1 and 2
    assert_eq!(app.current_col, 0);
}

#[test]
fn type_char_when_finished_is_noop() {
    let lines = vec![make_code_line("a")];
    let mut app = App::new(lines, "Test".into(), 1, false, false);
    app.type_char('a');
    app.confirm_line();
    assert!(app.finished);
    app.type_char('x'); // should be no-op
    assert_eq!(app.stats.total_keystrokes, 1);
}

#[test]
fn backspace_removes_last_char() {
    let lines = vec![make_code_line("ab")];
    let mut app = App::new(lines, "Test".into(), 1, false, false);
    app.type_char('a');
    assert_eq!(app.current_col, 1);
    app.backspace();
    assert_eq!(app.current_col, 0);
    assert_eq!(app.typed_chars[0][0], None);
}

#[test]
fn backspace_at_start_is_noop() {
    let lines = vec![make_code_line("ab")];
    let mut app = App::new(lines, "Test".into(), 1, false, false);
    app.backspace(); // at col 0, should be no-op
    assert_eq!(app.current_col, 0);
}

#[test]
fn backspace_when_finished_is_noop() {
    let lines = vec![make_code_line("a")];
    let mut app = App::new(lines, "Test".into(), 1, false, false);
    app.type_char('a');
    app.confirm_line();
    assert!(app.finished);
    app.backspace();
    assert!(app.finished); // stays finished
}

#[test]
fn total_typeable_lines_counts_code_and_mixed() {
    let lines = vec![
        make_code_line("a"),
        make_comment_line("// b"),
        make_empty_line(),
        make_mixed_line("c;", " // d"),
    ];
    let app = App::new(lines, "Test".into(), 1, false, false);
    assert_eq!(app.total_typeable_lines(), 2);
}

#[test]
fn mixed_line_is_typeable() {
    let lines = vec![make_mixed_line("x = 1;", " // init")];
    let mut app = App::new(lines, "Test".into(), 1, false, false);
    assert!(!app.finished);
    for c in "x = 1;".chars() {
        app.type_char(c);
    }
    app.confirm_line();
    assert!(app.finished);
}

#[test]
fn update_scroll_keeps_line_in_view() {
    let mut lines = Vec::new();
    for i in 0..50 {
        lines.push(make_code_line(&format!("line {i}")));
    }
    let mut app = App::new(lines, "Test".into(), 1, false, false);
    // Type through first 30 lines
    for _ in 0..30 {
        let line = &app.source_lines[app.current_line].typeable_content.clone();
        for c in line.chars() {
            app.type_char(c);
        }
        app.confirm_line();
    }
    app.update_scroll(20);
    // scroll_offset should be near current_line
    assert!(app.scroll_offset <= app.current_line);
    assert!(app.current_line - app.scroll_offset < 20);
}

#[test]
fn update_scroll_zero_height_noop() {
    let lines = vec![make_code_line("a")];
    let mut app = App::new(lines, "Test".into(), 1, false, false);
    app.update_scroll(0);
    assert_eq!(app.scroll_offset, 0);
}

#[test]
fn typed_chars_initialized_correctly() {
    let lines = vec![
        make_code_line("abc"),
        make_comment_line("// x"),
        make_code_line("de"),
    ];
    let app = App::new(lines, "Test".into(), 1, false, false);
    assert_eq!(app.typed_chars[0].len(), 3);
    assert_eq!(app.typed_chars[1].len(), 0); // comment has no typeable
    assert_eq!(app.typed_chars[2].len(), 2);
}

#[test]
fn typo_blocks_line_advance() {
    let lines = vec![make_code_line("ab"), make_code_line("cd")];
    let mut app = App::new(lines, "Test".into(), 1, false, false);
    app.type_char('a');
    app.type_char('x'); // wrong char for 'b'
    // Still on line 0 because there's a typo
    assert_eq!(app.current_line, 0);
    assert!(!app.finished);
}

#[test]
fn fix_typo_then_advance() {
    let lines = vec![make_code_line("ab"), make_code_line("cd")];
    let mut app = App::new(lines, "Test".into(), 1, false, false);
    app.type_char('a');
    app.type_char('x'); // wrong
    app.confirm_line(); // should NOT advance (typo)
    assert_eq!(app.current_line, 0);
    app.backspace();
    app.type_char('b');
    app.confirm_line(); // now correct → advance
    assert_eq!(app.current_line, 1);
}

#[test]
fn all_correct_advances_on_enter() {
    let lines = vec![make_code_line("ab"), make_code_line("cd")];
    let mut app = App::new(lines, "Test".into(), 1, false, false);
    app.type_char('a');
    app.type_char('b');
    assert_eq!(app.current_line, 0); // not advanced yet
    app.confirm_line();
    assert_eq!(app.current_line, 1); // advanced after Enter
}

#[test]
fn typo_at_start_blocks_advance() {
    let lines = vec![make_code_line("a"), make_code_line("b")];
    let mut app = App::new(lines, "Test".into(), 1, false, false);
    app.type_char('x'); // wrong
    app.confirm_line(); // should NOT advance
    assert_eq!(app.current_line, 0);
    assert!(!app.finished);
    app.backspace();
    app.type_char('a');
    app.confirm_line();
    assert_eq!(app.current_line, 1);
}

#[test]
fn multiple_typos_must_all_be_fixed() {
    let lines = vec![make_code_line("abc")];
    let mut app = App::new(lines, "Test".into(), 1, false, false);
    app.type_char('x');
    app.type_char('y');
    app.type_char('c');
    app.confirm_line(); // should NOT advance (2 typos)
    assert_eq!(app.current_line, 0);
    assert!(!app.finished);
    app.backspace();
    app.backspace();
    app.backspace();
    app.type_char('a');
    app.type_char('b');
    app.type_char('c');
    app.confirm_line();
    assert!(app.finished);
}

#[test]
fn confirm_line_mid_line_is_noop() {
    let lines = vec![make_code_line("abc"), make_code_line("def")];
    let mut app = App::new(lines, "Test".into(), 1, false, false);
    app.type_char('a');
    app.confirm_line(); // only 1 of 3 chars typed
    assert_eq!(app.current_line, 0); // stays
}

#[test]
fn confirm_line_with_typo_is_noop() {
    let lines = vec![make_code_line("ab"), make_code_line("cd")];
    let mut app = App::new(lines, "Test".into(), 1, false, false);
    app.type_char('a');
    app.type_char('x'); // wrong
    app.confirm_line();
    assert_eq!(app.current_line, 0); // stays because of typo
}

#[test]
fn new_app_empty_source_is_finished() {
    let app = App::new(Vec::new(), "Test".into(), 1, false, false);
    assert!(app.finished);
}

#[test]
fn type_char_at_line_end_with_errors_is_noop() {
    let lines = vec![make_code_line("ab"), make_code_line("cd")];
    let mut app = App::new(lines, "Test".into(), 1, false, false);
    app.type_char('a');
    app.type_char('x'); // wrong — stuck at end of line
    assert_eq!(app.current_col, 2);
    // Extra chars should be ignored
    app.type_char('z');
    assert_eq!(app.current_col, 2);
    assert_eq!(app.stats.total_keystrokes, 2); // 'z' was not counted
}

#[test]
fn start_line_skips_earlier_lines() {
    let lines = vec![
        make_code_line("aaa"),
        make_code_line("bbb"),
        make_code_line("ccc"),
    ];
    let app = App::new(lines, "Test".into(), 2, false, false); // start at line 2
    assert_eq!(app.current_line, 1); // 0-based index for line 2
}

#[test]
fn start_line_skips_to_next_typeable() {
    let lines = vec![
        make_code_line("aaa"),
        make_comment_line("// skip"),
        make_code_line("ccc"),
    ];
    let app = App::new(lines, "Test".into(), 2, false, false); // line 2 is a comment
    assert_eq!(app.current_line, 2); // jumped to line 3
}

#[test]
fn start_line_beyond_end_is_finished() {
    let lines = vec![make_code_line("aaa")];
    let app = App::new(lines, "Test".into(), 99, false, false);
    assert!(app.finished);
}

#[test]
fn start_line_one_is_default() {
    let lines = vec![make_code_line("aaa"), make_code_line("bbb")];
    let app = App::new(lines, "Test".into(), 1, false, false);
    assert_eq!(app.current_line, 0);
}

#[test]
fn start_line_zero_treated_as_one() {
    let lines = vec![make_code_line("aaa"), make_code_line("bbb")];
    let app = App::new(lines, "Test".into(), 0, false, false);
    assert_eq!(app.current_line, 0);
}

#[test]
fn start_line_finishes_only_remaining() {
    let lines = vec![
        make_code_line("aaa"),
        make_code_line("bbb"),
        make_code_line("ccc"),
    ];
    let mut app = App::new(lines, "Test".into(), 3, false, false); // start at last line
    assert_eq!(app.current_line, 2);
    for c in "ccc".chars() {
        app.type_char(c);
    }
    app.confirm_line();
    assert!(app.finished);
}

// --- backspace_word tests ---
// All tests use a second dummy line to prevent auto-finish when typing the full first line.

fn type_str(app: &mut App, s: &str) {
    for c in s.chars() {
        app.type_char(c);
    }
}

/// Make a two-line app where first line has the given content.
/// Prevents auto-finish when the first line is fully typed.
fn make_word_app(content: &str) -> App {
    let lines = vec![make_code_line(content), make_code_line("end")];
    App::new(lines, "Test".into(), 1, false, false)
}

#[test]
fn backspace_word_deletes_identifier() {
    let mut app = make_word_app("let foo_bar");
    type_str(&mut app, "let foo_ba"); // don't finish line
    app.backspace_word();
    assert_eq!(app.current_col, 4); // "let " remains
}

#[test]
fn backspace_word_deletes_word_before_space() {
    let mut app = make_word_app("foo bar baz");
    type_str(&mut app, "foo bar");
    app.backspace_word();
    assert_eq!(app.current_col, 4); // "foo " remains
}

#[test]
fn backspace_word_spaces_then_word() {
    let mut app = make_word_app("x  yz");
    type_str(&mut app, "x  y");
    app.backspace_word();
    assert_eq!(app.current_col, 3); // "x  " (deleted "y")
}

#[test]
fn backspace_word_special_char_single() {
    let mut app = make_word_app("foo; x");
    type_str(&mut app, "foo;");
    app.backspace_word();
    assert_eq!(app.current_col, 3); // "foo"
}

#[test]
fn backspace_word_multiple_special_chars_deletes_one() {
    let mut app = make_word_app("a+= x");
    type_str(&mut app, "a+=");
    app.backspace_word();
    assert_eq!(app.current_col, 2); // "a+"
    app.backspace_word();
    assert_eq!(app.current_col, 1); // "a"
}

#[test]
fn backspace_word_underscore_is_word_char() {
    let mut app = make_word_app("__init x");
    type_str(&mut app, "__init");
    app.backspace_word();
    assert_eq!(app.current_col, 0);
}

#[test]
fn backspace_word_at_start_is_noop() {
    let mut app = make_word_app("hello");
    app.backspace_word();
    assert_eq!(app.current_col, 0);
}

#[test]
fn backspace_word_when_finished_is_noop() {
    let lines = vec![make_code_line("a")];
    let mut app = App::new(lines, "Test".into(), 1, false, false);
    type_str(&mut app, "a");
    app.confirm_line();
    assert!(app.finished);
    app.backspace_word();
    assert!(app.finished);
}

#[test]
fn backspace_word_skip_spaces_then_word() {
    let mut app = make_word_app("a   bx");
    type_str(&mut app, "a   ");
    // cursor at 4, chars before: "a   "
    app.backspace_word();
    // skip "   " (3 spaces), delete "a" → col=0
    assert_eq!(app.current_col, 0);
}

#[test]
fn backspace_word_paren_after_ident() {
    let mut app = make_word_app("foo(bar) x");
    type_str(&mut app, "foo(bar)");
    app.backspace_word();
    assert_eq!(app.current_col, 7); // deleted ")"
    app.backspace_word();
    assert_eq!(app.current_col, 4); // deleted "bar"
    app.backspace_word();
    assert_eq!(app.current_col, 3); // deleted "("
    app.backspace_word();
    assert_eq!(app.current_col, 0); // deleted "foo"
}

#[test]
fn backspace_word_dot_chain() {
    let mut app = make_word_app("self.name x");
    type_str(&mut app, "self.name");
    app.backspace_word();
    assert_eq!(app.current_col, 5); // "self."
    app.backspace_word();
    assert_eq!(app.current_col, 4); // "self"
    app.backspace_word();
    assert_eq!(app.current_col, 0);
}

#[test]
fn backspace_word_mixed_operator_space() {
    let mut app = make_word_app("x = 42 end");
    type_str(&mut app, "x = 42");
    app.backspace_word();
    assert_eq!(app.current_col, 4); // "x = "
    app.backspace_word();
    assert_eq!(app.current_col, 2); // "x " (skip space, delete "=")
    app.backspace_word();
    assert_eq!(app.current_col, 0); // (skip space, delete "x")
}

#[test]
fn backspace_word_clears_typed_chars() {
    let mut app = make_word_app("ab cd ef");
    type_str(&mut app, "ab cd");
    app.backspace_word();
    assert_eq!(app.current_col, 3); // "ab "
    assert_eq!(app.typed_chars[0][3], None);
    assert_eq!(app.typed_chars[0][4], None);
    assert_eq!(app.typed_chars[0][0], Some('a'));
    assert_eq!(app.typed_chars[0][1], Some('b'));
    assert_eq!(app.typed_chars[0][2], Some(' '));
}

#[test]
fn backspace_word_numbers_are_word_chars() {
    let mut app = make_word_app("var123 x");
    type_str(&mut app, "var123");
    app.backspace_word();
    assert_eq!(app.current_col, 0);
}

#[test]
fn backspace_word_consecutive_specials() {
    // "a!@#" → each special is one word
    let mut app = make_word_app("a!@# x");
    type_str(&mut app, "a!@#");
    app.backspace_word();
    assert_eq!(app.current_col, 3); // deleted "#"
    app.backspace_word();
    assert_eq!(app.current_col, 2); // deleted "@"
    app.backspace_word();
    assert_eq!(app.current_col, 1); // deleted "!"
    app.backspace_word();
    assert_eq!(app.current_col, 0); // deleted "a"
}

#[test]
fn backspace_word_arrow_operator() {
    // "a->b" → Ctrl+W → delete "b" → "a->" → delete ">" → "a-" → delete "-" → "a"
    let mut app = make_word_app("a->b x");
    type_str(&mut app, "a->b");
    app.backspace_word();
    assert_eq!(app.current_col, 3); // "a->"
    app.backspace_word();
    assert_eq!(app.current_col, 2); // "a-"
    app.backspace_word();
    assert_eq!(app.current_col, 1); // "a"
}

#[test]
fn backspace_word_space_only_typed() {
    let mut app = make_word_app("    x");
    type_str(&mut app, "    "); // 4 spaces
    app.backspace_word();
    // skip all 4 spaces → col=0
    assert_eq!(app.current_col, 0);
}

#[test]
fn backspace_word_fn_signature() {
    // "fn a(v: &i32)" → Ctrl+W repeatedly
    let mut app = make_word_app("fn a(v: &i32) x");
    type_str(&mut app, "fn a(v: &i32)");
    // col=13
    app.backspace_word(); // delete ")"
    assert_eq!(app.current_col, 12);
    app.backspace_word(); // delete "i32"
    assert_eq!(app.current_col, 9);
    app.backspace_word(); // delete "&"
    assert_eq!(app.current_col, 8);
    app.backspace_word(); // skip " ", delete ":"
    assert_eq!(app.current_col, 6);
    app.backspace_word(); // delete "v"
    assert_eq!(app.current_col, 5);
    app.backspace_word(); // delete "("
    assert_eq!(app.current_col, 4);
    app.backspace_word(); // delete "a"
    assert_eq!(app.current_col, 3);
    app.backspace_word(); // skip " ", delete "fn"
    assert_eq!(app.current_col, 0);
}

// --- coverage gap tests ---

#[test]
fn start_at_comment_only_remaining_is_finished() {
    // Lines: code, comment, comment. Start at line 2 (comment).
    // advance finds no typeable lines → finished = true (covers line 67)
    let lines = vec![
        make_code_line("a"),
        make_comment_line("// b"),
        make_comment_line("// c"),
    ];
    let app = App::new(lines, "Test".into(), 2, false, false);
    assert!(app.finished);
}

#[test]
fn confirm_line_when_finished_is_noop() {
    // covers line 142
    let lines = vec![make_code_line("a")];
    let mut app = App::new(lines, "Test".into(), 1, false, false);
    app.type_char('a');
    app.confirm_line();
    assert!(app.finished);
    app.confirm_line(); // second call → early return
    assert!(app.finished);
}

#[test]
fn confirm_line_records_line_stats() {
    let lines = vec![make_code_line("ab"), make_code_line("cd")];
    let mut app = App::new(lines, "Test".into(), 1, false, false);
    app.type_char('a');
    app.type_char('b');
    app.confirm_line();
    assert!(app.line_stats[0].is_some());
    let ls = app.line_stats[0].as_ref().unwrap();
    assert_eq!(ls.keystrokes, 2);
    assert_eq!(ls.correct_keystrokes, 2);
    assert!(ls.elapsed_nanos > 0);
    // a positive speed: keystrokes over a positive time
    assert!(ls.keystrokes > 0 && ls.elapsed_nanos > 0);
    assert!(app.line_stats[1].is_none());
}

#[test]
fn enter_skips_untyped_line() {
    let lines = vec![make_code_line("ab"), make_code_line("cd")];
    let mut app = App::new(lines, "Test".into(), 1, false, false);
    assert_eq!(app.current_line, 0);
    // Enter without typing → skip to next line
    app.confirm_line();
    assert_eq!(app.current_line, 1);
    assert!(app.line_stats[0].is_none()); // no stats recorded
}

#[test]
fn enter_does_not_skip_partially_typed_line() {
    let lines = vec![make_code_line("ab"), make_code_line("cd")];
    let mut app = App::new(lines, "Test".into(), 1, false, false);
    app.type_char('a');
    app.confirm_line(); // incomplete → should not skip
    assert_eq!(app.current_line, 0);
}

#[test]
fn restart_line_resets_typed_chars() {
    let lines = vec![make_code_line("ab"), make_code_line("cd")];
    let mut app = App::new(lines, "Test".into(), 1, false, false);
    app.type_char('a');
    app.type_char('x');
    app.restart_line();
    assert_eq!(app.current_col, 0);
    assert!(app.typed_chars[0].iter().all(|c| c.is_none()));
}

#[test]
fn restart_line_restores_stats() {
    let lines = vec![make_code_line("ab"), make_code_line("cd")];
    let mut app = App::new(lines, "Test".into(), 1, false, false);
    assert_eq!(app.stats.total_keystrokes, 0);
    app.type_char('a');
    app.type_char('x');
    assert_eq!(app.stats.total_keystrokes, 2);
    app.restart_line();
    assert_eq!(app.stats.total_keystrokes, 0);
    assert!(app.stats.resume_time.is_none()); // paused
}

#[test]
fn restart_line_when_finished_is_noop() {
    let lines = vec![make_code_line("a")];
    let mut app = App::new(lines, "Test".into(), 1, false, false);
    app.type_char('a');
    app.confirm_line();
    assert!(app.finished);
    app.restart_line(); // should not panic
    assert!(app.finished);
}

#[test]
fn enter_skip_on_last_line_finishes() {
    let lines = vec![make_code_line("a")];
    let mut app = App::new(lines, "Test".into(), 1, false, false);
    app.confirm_line(); // skip only line
    assert!(app.finished);
}

#[test]
fn restart_on_untouched_line_keeps_counts() {
    let mut app = App::new(vec![make_code_line("ab"), make_code_line("cd")], "Test".into(), 1, false, false);
    app.type_char('a');
    app.type_char('b');
    app.confirm_line();
    assert_eq!(app.current_line, 1);
    let accumulated = app.stats.accumulated_nanos;
    app.restart_line();
    assert_eq!(app.current_line, 1);
    assert_eq!(app.stats.total_keystrokes, 2);
    assert_eq!(app.stats.correct_keystrokes, 2);
    assert_eq!(app.stats.accumulated_nanos, accumulated);
    // a restart after typing on the line goes back to where the line was entered
    app.type_char('x');
    app.restart_line();
    assert_eq!(app.stats.total_keystrokes, 2);
    assert_eq!(app.stats.correct_keystrokes, 2);
    assert_eq!(app.stats.accumulated_nanos, accumulated);
}
