//! The command line: options, and what to read the source from.

use vstd::prelude::*;
use crate::diff::{diff_scan, extract_diff_additions, join_lines};
use crate::text::{chars_of, lines_of, same_chars, strings_view};

verus! {

/// The options of a run.
#[derive(Debug, Clone)]
pub struct Options {
    pub file_path: Option<String>,
    /// The 1-based line to start at.
    pub start_line: usize,
    pub ext_override: Option<String>,
    pub diff_mode: bool,
    pub source_only: bool,
    pub quiet: bool,
    pub wpm_mode: bool,
    /// Pick the start line interactively before typing.
    pub cursor_mode: bool,
}

/// The options of a run as mathematical values.
pub struct OptionsView {
    pub file_path: Option<Seq<char>>,
    pub start_line: nat,
    pub ext_override: Option<Seq<char>>,
    pub diff_mode: bool,
    pub source_only: bool,
    pub quiet: bool,
    pub wpm_mode: bool,
    pub cursor_mode: bool,
}

/// An optional string as an optional character sequence.
pub open spec fn opt_view(o: Option<String>) -> Option<Seq<char>> {
    match o {
        Some(s) => Some(s@),
        None => None,
    }
}

impl View for Options {
    type V = OptionsView;

    open spec fn view(&self) -> OptionsView {
        OptionsView {
            file_path: opt_view(self.file_path),
            start_line: self.start_line as nat,
            ext_override: opt_view(self.ext_override),
            diff_mode: self.diff_mode,
            source_only: self.source_only,
            quiet: self.quiet,
            wpm_mode: self.wpm_mode,
            cursor_mode: self.cursor_mode,
        }
    }
}

/// What the command line asks for.
#[derive(Debug, Clone)]
pub enum Invocation {
    /// Print the help text.
    Help,
    /// Practise with these options.
    Run(Options),
}

/// A command line that cannot be run.
#[derive(Debug, Clone, PartialEq, Eq)]
pub enum ArgError {
    /// `--line` came last, without its number.
    MissingLineNumber,
    /// The number after `--line` is not a line number.
    InvalidLineNumber(String),
    /// `--ext` came last, without its extension.
    MissingExtension,
}

/// The outcome of reading a command line, as mathematical values.
pub enum ArgsOutcome {
    Help,
    Run(OptionsView),
    MissingLineNumber,
    InvalidLineNumber(Seq<char>),
    MissingExtension,
}

/// The outcome that `r` stands for.
pub open spec fn outcome_of(r: Result<Invocation, ArgError>) -> ArgsOutcome {
    match r {
        Ok(Invocation::Help) => ArgsOutcome::Help,
        Ok(Invocation::Run(o)) => ArgsOutcome::Run(o@),
        Err(ArgError::MissingLineNumber) => ArgsOutcome::MissingLineNumber,
        Err(ArgError::InvalidLineNumber(s)) => ArgsOutcome::InvalidLineNumber(s@),
        Err(ArgError::MissingExtension) => ArgsOutcome::MissingExtension,
    }
}

/// The value of the decimal digits `s`.
pub open spec fn digits_value(s: Seq<char>) -> nat
    decreases s.len(),
{
    if s.len() == 0 {
        0
    } else {
        digits_value(s.drop_last()) * 10 + ((s.last() as nat) - 48) as nat
    }
}

/// Every character of `s` is a decimal digit.
pub open spec fn all_digits(s: Seq<char>) -> bool {
    forall|i: int| 0 <= i < s.len() ==> '0' <= #[trigger] s[i] <= '9'
}

/// The `usize` that `s` denotes, as `str::parse::<usize>` reads it: decimal
/// digits after an optional `+`, at least one, with a value that fits.
pub open spec fn usize_text(s: Seq<char>) -> Option<nat> {
    let d = if s.len() > 0 && s[0] == '+' {
        s.skip(1)
    } else {
        s
    };
    if d.len() > 0 && all_digits(d) && digits_value(d) <= usize::MAX {
        Some(digits_value(d))
    } else {
        None
    }
}

proof fn lemma_digits_value_prefix(s: Seq<char>, i: int)
    requires
        0 <= i <= s.len(),
        all_digits(s),
    ensures
        digits_value(s.take(i)) <= digits_value(s),
    decreases s.len() - i,
{
    if i < s.len() {
        lemma_digits_value_prefix(s, i + 1);
        assert(s.take(i + 1).drop_last() =~= s.take(i));
        assert('0' <= s[i] <= '9');
    } else {
        assert(s.take(i) =~= s);
    }
}

/// Reads `s` as `str::parse::<usize>` does.
pub fn parse_usize(s: &str) -> (n: Option<usize>)
    ensures
        match n {
            Some(v) => usize_text(s@) == Some(v as nat),
            None => usize_text(s@) is None,
        },
{
    let cs = chars_of(s);
    let start: usize = if cs.len() > 0 && cs[0] == '+' {
        1
    } else {
        0
    };
    let ghost d = if s@.len() > 0 && s@[0] == '+' {
        s@.skip(1)
    } else {
        s@
    };
    assert(d =~= cs@.subrange(start as int, cs@.len() as int));
    if start >= cs.len() {
        return None;
    }
    let mut value: usize = 0;
    let mut i: usize = start;
    while i < cs.len()
        invariant
            start <= i <= cs.len(),
            cs@ == s@,
            d == (if s@.len() > 0 && s@[0] == '+' {
                s@.skip(1)
            } else {
                s@
            }),
            d == cs@.subrange(start as int, cs@.len() as int),
            all_digits(d.take(i - start)),
            value == digits_value(d.take(i - start)),
        decreases cs.len() - i,
    {
        let c = cs[i];
        assert(d.take(i - start + 1).drop_last() =~= d.take(i - start));
        assert(d[i - start] == c);
        if !('0' <= c && c <= '9') {
            assert(!all_digits(d));
            return None;
        }
        let digit = (c as u32 - 48) as usize;
        let next = match value.checked_mul(10) {
            Some(v) => v.checked_add(digit),
            None => None,
        };
        match next {
            Some(v) => value = v,
            None => {
                proof {
                    if all_digits(d) {
                        lemma_digits_value_prefix(d, i - start + 1);
                    }
                }
                return None;
            },
        }
        i = i + 1;
    }
    assert(d.take(i - start) =~= d);
    Some(value)
}

/// The options before any argument is read: start at line 1, everything off.
pub open spec fn default_options() -> OptionsView {
    OptionsView {
        file_path: None,
        start_line: 1,
        ext_override: None,
        diff_mode: false,
        source_only: false,
        quiet: false,
        wpm_mode: false,
        cursor_mode: false,
    }
}

/// The outcome of reading the arguments `args` from the `i`-th on, with the
/// options `o` set so far. The first `--help`/`-h` or error ends the reading.
pub open spec fn scan_args(args: Seq<Seq<char>>, i: int, o: OptionsView) -> ArgsOutcome
    decreases args.len() - i,
{
    if i >= args.len() || i < 0 {
        ArgsOutcome::Run(o)
    } else {
        let a = args[i];
        if a == "--help"@ || a == "-h"@ {
            ArgsOutcome::Help
        } else if a == "--diff"@ || a == "-d"@ {
            scan_args(args, i + 1, OptionsView { diff_mode: true, ..o })
        } else if a == "--src"@ || a == "-s"@ {
            scan_args(args, i + 1, OptionsView { source_only: true, ..o })
        } else if a == "--quiet"@ || a == "-q"@ {
            scan_args(args, i + 1, OptionsView { quiet: true, ..o })
        } else if a == "--wpm"@ {
            scan_args(args, i + 1, OptionsView { wpm_mode: true, ..o })
        } else if a == "--cursor"@ || a == "-c"@ {
            scan_args(args, i + 1, OptionsView { cursor_mode: true, ..o })
        } else if a == "--line"@ || a == "-l"@ {
            if i + 1 >= args.len() {
                ArgsOutcome::MissingLineNumber
            } else {
                match usize_text(args[i + 1]) {
                    Some(n) => scan_args(args, i + 2, OptionsView { start_line: n, ..o }),
                    None => ArgsOutcome::InvalidLineNumber(args[i + 1]),
                }
            }
        } else if a == "--ext"@ || a == "-e"@ {
            if i + 1 >= args.len() {
                ArgsOutcome::MissingExtension
            } else {
                scan_args(args, i + 2, OptionsView { ext_override: Some(args[i + 1]), ..o })
            }
        } else {
            scan_args(args, i + 1, OptionsView { file_path: Some(a), ..o })
        }
    }
}

/// The reading from position `i` on depends only on the arguments from `i` on.
proof fn lemma_scan_args_suffix(a1: Seq<Seq<char>>, a2: Seq<Seq<char>>, i: int, o: OptionsView)
    requires
        a1.len() == a2.len(),
        forall|k: int| i <= k < a1.len() ==> a1[k] == a2[k],
    ensures
        scan_args(a1, i, o) == scan_args(a2, i, o),
    decreases a1.len() - i,
{
    if 0 <= i < a1.len() {
        let a = a1[i];
        lemma_scan_args_suffix(a1, a2, i + 1, OptionsView { diff_mode: true, ..o });
        lemma_scan_args_suffix(a1, a2, i + 1, OptionsView { source_only: true, ..o });
        lemma_scan_args_suffix(a1, a2, i + 1, OptionsView { quiet: true, ..o });
        lemma_scan_args_suffix(a1, a2, i + 1, OptionsView { wpm_mode: true, ..o });
        lemma_scan_args_suffix(a1, a2, i + 1, OptionsView { cursor_mode: true, ..o });
        lemma_scan_args_suffix(a1, a2, i + 1, OptionsView { file_path: Some(a), ..o });
        if i + 1 < a1.len() {
            if let Some(n) = usize_text(a1[i + 1]) {
                lemma_scan_args_suffix(a1, a2, i + 2, OptionsView { start_line: n, ..o });
            }
            lemma_scan_args_suffix(a1, a2, i + 2, OptionsView { ext_override: Some(a1[i + 1]), ..o });
        }
    }
}

/// At a position where a flag is read, the long spelling and the short one
/// of the same flag give the same outcome: `--diff` and `-d`, `--src` and
/// `-s`, `--quiet` and `-q`, `--cursor` and `-c`, `--line` and `-l`,
/// `--ext` and `-e`, `--help` and `-h`.
pub proof fn lemma_long_and_short_flags_agree(args: Seq<Seq<char>>, i: int, o: OptionsView)
    requires
        0 <= i < args.len(),
    ensures
        scan_args(args.update(i, "--diff"@), i, o) == scan_args(args.update(i, "-d"@), i, o),
        scan_args(args.update(i, "--src"@), i, o) == scan_args(args.update(i, "-s"@), i, o),
        scan_args(args.update(i, "--quiet"@), i, o) == scan_args(args.update(i, "-q"@), i, o),
        scan_args(args.update(i, "--cursor"@), i, o) == scan_args(args.update(i, "-c"@), i, o),
        scan_args(args.update(i, "--line"@), i, o) == scan_args(args.update(i, "-l"@), i, o),
        scan_args(args.update(i, "--ext"@), i, o) == scan_args(args.update(i, "-e"@), i, o),
        scan_args(args.update(i, "--help"@), i, o) == scan_args(args.update(i, "-h"@), i, o),
{
    reveal_strlit("--help");
    reveal_strlit("-h");
    reveal_strlit("--diff");
    reveal_strlit("-d");
    reveal_strlit("--src");
    reveal_strlit("-s");
    reveal_strlit("--quiet");
    reveal_strlit("-q");
    reveal_strlit("--wpm");
    reveal_strlit("--cursor");
    reveal_strlit("-c");
    reveal_strlit("--line");
    reveal_strlit("-l");
    reveal_strlit("--ext");
    reveal_strlit("-e");
    assert("--help"@.len() != "-h"@.len());
    assert("--help"@[2] != "--diff"@[2]);
    assert("--help"@.len() != "-d"@.len());
    assert("--help"@.len() != "--src"@.len());
    assert("--help"@.len() != "-s"@.len());
    assert("--help"@.len() != "--quiet"@.len());
    assert("--help"@.len() != "-q"@.len());
    assert("--help"@.len() != "--wpm"@.len());
    assert("--help"@.len() != "--cursor"@.len());
    assert("--help"@.len() != "-c"@.len());
    assert("--help"@[2] != "--line"@[2]);
    assert("--help"@.len() != "-l"@.len());
    assert("--help"@.len() != "--ext"@.len());
    assert("--help"@.len() != "-e"@.len());
    assert("-h"@.len() != "--diff"@.len());
    assert("-h"@[1] != "-d"@[1]);
    assert("-h"@.len() != "--src"@.len());
    assert("-h"@[1] != "-s"@[1]);
    assert("-h"@.len() != "--quiet"@.len());
    assert("-h"@[1] != "-q"@[1]);
    assert("-h"@.len() != "--wpm"@.len());
    assert("-h"@.len() != "--cursor"@.len());
    assert("-h"@[1] != "-c"@[1]);
    assert("-h"@.len() != "--line"@.len());
    assert("-h"@[1] != "-l"@[1]);
    assert("-h"@.len() != "--ext"@.len());
    assert("-h"@[1] != "-e"@[1]);
    assert("--diff"@.len() != "-d"@.len());
    assert("--diff"@.len() != "--src"@.len());
    assert("--diff"@.len() != "-s"@.len());
    assert("--diff"@.len() != "--quiet"@.len());
    assert("--diff"@.len() != "-q"@.len());
    assert("--diff"@.len() != "--wpm"@.len());
    assert("--diff"@.len() != "--cursor"@.len());
    assert("--diff"@.len() != "-c"@.len());
    assert("--diff"@[2] != "--line"@[2]);
    assert("--diff"@.len() != "-l"@.len());
    assert("--diff"@.len() != "--ext"@.len());
    assert("--diff"@.len() != "-e"@.len());
    assert("-d"@.len() != "--src"@.len());
    assert("-d"@[1] != "-s"@[1]);
    assert("-d"@.len() != "--quiet"@.len());
    assert("-d"@[1] != "-q"@[1]);
    assert("-d"@.len() != "--wpm"@.len());
    assert("-d"@.len() != "--cursor"@.len());
    assert("-d"@[1] != "-c"@[1]);
    assert("-d"@.len() != "--line"@.len());
    assert("-d"@[1] != "-l"@[1]);
    assert("-d"@.len() != "--ext"@.len());
    assert("-d"@[1] != "-e"@[1]);
    assert("--src"@.len() != "-s"@.len());
    assert("--src"@.len() != "--quiet"@.len());
    assert("--src"@.len() != "-q"@.len());
    assert("--src"@[2] != "--wpm"@[2]);
    assert("--src"@.len() != "--cursor"@.len());
    assert("--src"@.len() != "-c"@.len());
    assert("--src"@.len() != "--line"@.len());
    assert("--src"@.len() != "-l"@.len());
    assert("--src"@[2] != "--ext"@[2]);
    assert("--src"@.len() != "-e"@.len());
    assert("-s"@.len() != "--quiet"@.len());
    assert("-s"@[1] != "-q"@[1]);
    assert("-s"@.len() != "--wpm"@.len());
    assert("-s"@.len() != "--cursor"@.len());
    assert("-s"@[1] != "-c"@[1]);
    assert("-s"@.len() != "--line"@.len());
    assert("-s"@[1] != "-l"@[1]);
    assert("-s"@.len() != "--ext"@.len());
    assert("-s"@[1] != "-e"@[1]);
    assert("--quiet"@.len() != "-q"@.len());
    assert("--quiet"@.len() != "--wpm"@.len());
    assert("--quiet"@.len() != "--cursor"@.len());
    assert("--quiet"@.len() != "-c"@.len());
    assert("--quiet"@.len() != "--line"@.len());
    assert("--quiet"@.len() != "-l"@.len());
    assert("--quiet"@.len() != "--ext"@.len());
    assert("--quiet"@.len() != "-e"@.len());
    assert("-q"@.len() != "--wpm"@.len());
    assert("-q"@.len() != "--cursor"@.len());
    assert("-q"@[1] != "-c"@[1]);
    assert("-q"@.len() != "--line"@.len());
    assert("-q"@[1] != "-l"@[1]);
    assert("-q"@.len() != "--ext"@.len());
    assert("-q"@[1] != "-e"@[1]);
    assert("--wpm"@.len() != "--cursor"@.len());
    assert("--wpm"@.len() != "-c"@.len());
    assert("--wpm"@.len() != "--line"@.len());
    assert("--wpm"@.len() != "-l"@.len());
    assert("--wpm"@[2] != "--ext"@[2]);
    assert("--wpm"@.len() != "-e"@.len());
    assert("--cursor"@.len() != "-c"@.len());
    assert("--cursor"@.len() != "--line"@.len());
    assert("--cursor"@.len() != "-l"@.len());
    assert("--cursor"@.len() != "--ext"@.len());
    assert("--cursor"@.len() != "-e"@.len());
    assert("-c"@.len() != "--line"@.len());
    assert("-c"@[1] != "-l"@[1]);
    assert("-c"@.len() != "--ext"@.len());
    assert("-c"@[1] != "-e"@[1]);
    assert("--line"@.len() != "-l"@.len());
    assert("--line"@.len() != "--ext"@.len());
    assert("--line"@.len() != "-e"@.len());
    assert("-l"@.len() != "--ext"@.len());
    assert("-l"@[1] != "-e"@[1]);
    assert("--ext"@.len() != "-e"@.len());
    assert(scan_args(args.update(i, "--diff"@), i, o) == scan_args(args.update(i, "-d"@), i, o)) by {
        let a1 = args.update(i, "--diff"@);
        let a2 = args.update(i, "-d"@);
        assert(a1[i] == "--diff"@);
        assert(a2[i] == "-d"@);
        lemma_scan_args_suffix(a1, a2, i + 1, OptionsView { diff_mode: true, ..o });
    }
    assert(scan_args(args.update(i, "--src"@), i, o) == scan_args(args.update(i, "-s"@), i, o)) by {
        let a1 = args.update(i, "--src"@);
        let a2 = args.update(i, "-s"@);
        assert(a1[i] == "--src"@);
        assert(a2[i] == "-s"@);
        lemma_scan_args_suffix(a1, a2, i + 1, OptionsView { source_only: true, ..o });
    }
    assert(scan_args(args.update(i, "--quiet"@), i, o) == scan_args(args.update(i, "-q"@), i, o)) by {
        let a1 = args.update(i, "--quiet"@);
        let a2 = args.update(i, "-q"@);
        assert(a1[i] == "--quiet"@);
        assert(a2[i] == "-q"@);
        lemma_scan_args_suffix(a1, a2, i + 1, OptionsView { quiet: true, ..o });
    }
    assert(scan_args(args.update(i, "--cursor"@), i, o) == scan_args(args.update(i, "-c"@), i, o)) by {
        let a1 = args.update(i, "--cursor"@);
        let a2 = args.update(i, "-c"@);
        assert(a1[i] == "--cursor"@);
        assert(a2[i] == "-c"@);
        lemma_scan_args_suffix(a1, a2, i + 1, OptionsView { cursor_mode: true, ..o });
    }
    assert(scan_args(args.update(i, "--line"@), i, o) == scan_args(args.update(i, "-l"@), i, o)) by {
        let a1 = args.update(i, "--line"@);
        let a2 = args.update(i, "-l"@);
        assert(a1[i] == "--line"@);
        assert(a2[i] == "-l"@);
        if i + 1 < a1.len() {
            assert(a1[i + 1] == a2[i + 1]);
            if let Some(n) = usize_text(a1[i + 1]) {
                lemma_scan_args_suffix(a1, a2, i + 2, OptionsView { start_line: n, ..o });
            }
            lemma_scan_args_suffix(a1, a2, i + 2, OptionsView { ext_override: Some(a1[i + 1]), ..o });
        }
    }
    assert(scan_args(args.update(i, "--ext"@), i, o) == scan_args(args.update(i, "-e"@), i, o)) by {
        let a1 = args.update(i, "--ext"@);
        let a2 = args.update(i, "-e"@);
        assert(a1[i] == "--ext"@);
        assert(a2[i] == "-e"@);
        if i + 1 < a1.len() {
            assert(a1[i + 1] == a2[i + 1]);
            if let Some(n) = usize_text(a1[i + 1]) {
                lemma_scan_args_suffix(a1, a2, i + 2, OptionsView { start_line: n, ..o });
            }
            lemma_scan_args_suffix(a1, a2, i + 2, OptionsView { ext_override: Some(a1[i + 1]), ..o });
        }
    }
    assert(scan_args(args.update(i, "--help"@), i, o) == scan_args(args.update(i, "-h"@), i, o)) by {
        let a1 = args.update(i, "--help"@);
        let a2 = args.update(i, "-h"@);
        assert(a1[i] == "--help"@);
        assert(a2[i] == "-h"@);
    }
}

/// Whether `a` is one of the two spellings `long` and `short`.
fn is_flag(a: &Vec<char>, long: &str, short: &str) -> (b: bool)
    ensures
        b == (a@ == long@ || a@ == short@),
{
    let l = chars_of(long);
    let s = chars_of(short);
    same_chars(a, &l) || same_chars(a, &s)
}

/// Reads the command line `args` (the program name first): flags, `--line N`,
/// `--ext E`, and the file to practise on (the last one given wins).
pub fn parse_args(args: &Vec<String>) -> (r: Result<Invocation, ArgError>)
    ensures
        outcome_of(r) == scan_args(strings_view(args@), 1, default_options()),
{
    let ghost av = strings_view(args@);
    let mut opts = Options {
        file_path: None,
        start_line: 1,
        ext_override: None,
        diff_mode: false,
        source_only: false,
        quiet: false,
        wpm_mode: false,
        cursor_mode: false,
    };
    let mut i: usize = 1;
    while i < args.len()
        invariant
            av == strings_view(args@),
            1 <= i,
            scan_args(av, i as int, opts@) == scan_args(av, 1, default_options()),
        decreases args.len() - i,
    {
        let a = chars_of(args[i].as_str());
        assert(a@ == av[i as int]);
        if is_flag(&a, "--help", "-h") {
            return Ok(Invocation::Help);
        } else if is_flag(&a, "--diff", "-d") {
            opts.diff_mode = true;
        } else if is_flag(&a, "--src", "-s") {
            opts.source_only = true;
        } else if is_flag(&a, "--quiet", "-q") {
            opts.quiet = true;
        } else if is_flag(&a, "--wpm", "--wpm") {
            opts.wpm_mode = true;
        } else if is_flag(&a, "--cursor", "-c") {
            opts.cursor_mode = true;
        } else if is_flag(&a, "--line", "-l") {
            if i + 1 >= args.len() {
                return Err(ArgError::MissingLineNumber);
            }
            assert(args[i as int + 1]@ == av[i + 1]);
            match parse_usize(args[i + 1].as_str()) {
                Some(n) => opts.start_line = n,
                None => return Err(ArgError::InvalidLineNumber(args[i + 1].clone())),
            }
            i = i + 1;
        } else if is_flag(&a, "--ext", "-e") {
            if i + 1 >= args.len() {
                return Err(ArgError::MissingExtension);
            }
            assert(args[i as int + 1]@ == av[i + 1]);
            opts.ext_override = Some(args[i + 1].clone());
            i = i + 1;
        } else {
            opts.file_path = Some(args[i].clone());
        }
        i = i + 1;
    }
    Ok(Invocation::Run(opts))
}

/// Where the source text comes from.
#[derive(Debug, Clone, Copy, PartialEq, Eq, Structural)]
pub enum InputPlan {
    /// Read standard input.
    Stdin,
    /// Read the file into memory (to extract a diff or to use another extension).
    ReadFile,
    /// Parse the file directly, highlighted by its own extension.
    ParseFile,
    /// Nothing to read: print the usage and fail.
    Usage,
}

/// Whether `p` is the path `-`, which stands for standard input.
pub open spec fn is_dash(p: Option<Seq<char>>) -> bool {
    p == Some(seq!['-'])
}

/// Decides where the source comes from: standard input for the path `-`, or
/// with no path when standard input is not a terminal; else the file, read
/// into memory for diff mode or an extension override; else nothing.
pub fn plan_input(opts: &Options, stdin_is_terminal: bool) -> (plan: InputPlan)
    ensures
        plan == if is_dash(opts@.file_path) || (opts@.file_path is None && !stdin_is_terminal) {
            InputPlan::Stdin
        } else if opts@.file_path is Some {
            if opts.diff_mode || opts@.ext_override is Some {
                InputPlan::ReadFile
            } else {
                InputPlan::ParseFile
            }
        } else {
            InputPlan::Usage
        },
{
    let dash = match &opts.file_path {
        Some(p) => {
            let cs = chars_of(p.as_str());
            let mut d: Vec<char> = Vec::new();
            d.push('-');
            assert(d@ =~= seq!['-']);
            same_chars(&cs, &d)
        },
        None => false,
    };
    if dash || (opts.file_path.is_none() && !stdin_is_terminal) {
        InputPlan::Stdin
    } else if opts.file_path.is_some() {
        if opts.diff_mode || opts.ext_override.is_some() {
            InputPlan::ReadFile
        } else {
            InputPlan::ParseFile
        }
    } else {
        InputPlan::Usage
    }
}

/// The text to highlight and its extension, from what was read. In diff mode
/// the text is the added lines of the diff read (empty when nothing was
/// read), and the extension, unless overridden, is that of the first file of
/// the diff; the extension defaults to `txt`.
pub fn prepare_content(content: Option<String>, opts: &Options) -> (r: (Option<String>, String))
    ensures
        ({
            let raw = match content {
                Some(c) => c@,
                None => Seq::<char>::empty(),
            };
            let (first, _kept, out) = diff_scan(lines_of(raw), opts.source_only);
            let ext = if opts.diff_mode && opts@.ext_override is None {
                first
            } else {
                opts@.ext_override
            };
            &&& opt_view(r.0) == if opts.diff_mode {
                Some(join_lines(out))
            } else {
                opt_view(content)
            }
            &&& r.1@ == match ext {
                Some(e) => e,
                None => "txt"@,
            }
        }),
{
    let mut ext_override = opts.ext_override.clone();
    let mut content = content;
    if opts.diff_mode {
        let empty = String::new();
        let raw: &str = match &content {
            Some(c) => c.as_str(),
            None => empty.as_str(),
        };
        let (extracted, detected) = extract_diff_additions(raw, opts.source_only);
        if ext_override.is_none() {
            ext_override = detected;
        }
        content = Some(extracted);
    }
    let ext = match ext_override {
        Some(e) => e,
        None => String::from_str("txt"),
    };
    (content, ext)
}

} // verus!
