use ttt::cli::{
    parse_args, parse_usize, plan_input, prepare_content, ArgError, InputPlan, Invocation, Options,
};

fn args(list: &[&str]) -> Vec<String> {
    let mut v = vec!["ttt".to_string()];
    for a in list {
        v.push(a.to_string());
    }
    v
}

fn run_options(list: &[&str]) -> Options {
    match parse_args(&args(list)) {
        Ok(Invocation::Run(o)) => o,
        other => panic!("expected options, got {:?}", other),
    }
}

#[test]
fn defaults_without_arguments() {
    let o = run_options(&[]);
    assert_eq!(o.file_path, None);
    assert_eq!(o.start_line, 1);
    assert_eq!(o.ext_override, None);
    assert!(!o.diff_mode && !o.source_only && !o.quiet && !o.wpm_mode && !o.cursor_mode);
}

#[test]
fn flags_and_values() {
    let o = run_options(&["-d", "--src", "-q", "--wpm", "-c", "-l", "50", "--ext", "py", "main.py"]);
    assert!(o.diff_mode && o.source_only && o.quiet && o.wpm_mode && o.cursor_mode);
    assert_eq!(o.start_line, 50);
    assert_eq!(o.ext_override, Some("py".to_string()));
    assert_eq!(o.file_path, Some("main.py".to_string()));
}

#[test]
fn last_file_wins_and_dash_is_a_file() {
    let o = run_options(&["a.rs", "-"]);
    assert_eq!(o.file_path, Some("-".to_string()));
}

#[test]
fn help_ends_reading() {
    assert!(matches!(parse_args(&args(&["-h", "--line"])), Ok(Invocation::Help)));
    assert!(matches!(parse_args(&args(&["x.rs", "--help"])), Ok(Invocation::Help)));
}

#[test]
fn errors() {
    assert_eq!(parse_args(&args(&["--line"])).unwrap_err(), ArgError::MissingLineNumber);
    assert_eq!(
        parse_args(&args(&["-l", "abc"])).unwrap_err(),
        ArgError::InvalidLineNumber("abc".to_string())
    );
    assert_eq!(parse_args(&args(&["-e"])).unwrap_err(), ArgError::MissingExtension);
    // an error before --help ends the reading
    assert_eq!(
        parse_args(&args(&["-l", "x", "--help"])).unwrap_err(),
        ArgError::InvalidLineNumber("x".to_string())
    );
}

#[test]
fn usize_parsing_matches_std() {
    for s in ["0", "42", "+7", "007", "", "+", "-1", "1a", " 1", "18446744073709551615",
        "18446744073709551616", "99999999999999999999999"] {
        assert_eq!(parse_usize(s), s.parse::<usize>().ok(), "input {:?}", s);
    }
}

#[test]
fn input_plans() {
    let mut o = run_options(&[]);
    assert_eq!(plan_input(&o, true), InputPlan::Usage);
    assert_eq!(plan_input(&o, false), InputPlan::Stdin);
    o.file_path = Some("-".to_string());
    assert_eq!(plan_input(&o, true), InputPlan::Stdin);
    o.file_path = Some("x.rs".to_string());
    assert_eq!(plan_input(&o, false), InputPlan::ParseFile);
    o.diff_mode = true;
    assert_eq!(plan_input(&o, true), InputPlan::ReadFile);
    o.diff_mode = false;
    o.ext_override = Some("py".to_string());
    assert_eq!(plan_input(&o, true), InputPlan::ReadFile);
}

#[test]
fn prepare_plain_and_diff_content() {
    let mut o = run_options(&[]);
    let (text, ext) = prepare_content(Some("let x;".to_string()), &o);
    assert_eq!(text, Some("let x;".to_string()));
    assert_eq!(ext, "txt");
    let (text, ext) = prepare_content(None, &o);
    assert_eq!(text, None);
    assert_eq!(ext, "txt");
    o.diff_mode = true;
    let (text, ext) = prepare_content(Some("+++ b/a.rs\n+fn x() {}\n".to_string()), &o);
    assert_eq!(text, Some("fn x() {}".to_string()));
    assert_eq!(ext, "rs");
    o.ext_override = Some("c".to_string());
    let (_, ext) = prepare_content(Some("+++ b/a.rs\n+x\n".to_string()), &o);
    assert_eq!(ext, "c");
    let (text, _) = prepare_content(None, &o);
    assert_eq!(text, Some(String::new()));
}
