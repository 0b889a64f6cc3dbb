//! Extraction of the added lines of a unified diff.

use std::path::Path;
use vstd::prelude::*;
use crate::text::{
    chars_of, lines_of, push_char, same_chars, split_lines, starts_with_chars, string_from_range,
    strings_view,
};

verus! {

/// What `str::to_lowercase` gives for `s` (Unicode lower case).
pub uninterp spec fn lowercase_of(s: Seq<char>) -> Seq<char>;

/// What `Path::extension` gives for the path `path`, as text: the part of the
/// file name after its last `.`, if there is one.
pub uninterp spec fn extension_of(path: Seq<char>) -> Option<Seq<char>>;

/// Calls `str::to_lowercase`. The contract claims only that the result is
/// the one `lowercase_of` names; the Unicode case mapping is not stated.
#[verifier::external_body]
fn to_lowercase(s: &str) -> (r: String)
    ensures
        r@ == lowercase_of(s@),
{
    s.to_lowercase()
}

/// Calls `Path::extension` on `path` and gives the extension as a string.
/// The contract claims only that the result is the one `extension_of`
/// names; the rules for file names are not stated.
#[verifier::external_body]
fn path_extension(path: &str) -> (r: Option<String>)
    ensures
        match r {
            Some(e) => extension_of(path@) == Some(e@),
            None => extension_of(path@) is None,
        },
{
    Path::new(path).extension().and_then(|e| e.to_str()).map(|e| e.to_string())
}

/// The extension that picks the highlighting of the file at `path`: its
/// own extension, or `txt` when it has none.
pub fn highlight_extension(path: &str) -> (e: String)
    ensures
        match extension_of(path@) {
            Some(x) => e@ == x,
            None => e@ == "txt"@,
        },
{
    match path_extension(path) {
        Some(x) => x,
        None => String::from_str("txt"),
    }
}

/// The file extensions of source code, in lower case.
pub open spec fn source_extensions() -> Seq<Seq<char>> {
    seq![
        "c"@, "h"@, "cpp"@, "cc"@, "cxx"@, "hpp"@, "hxx"@, "cs"@, "rs"@, "go"@, "java"@, "kt"@,
        "kts"@, "scala"@, "py"@, "rb"@, "pl"@, "pm"@, "lua"@, "r"@, "js"@, "ts"@, "jsx"@,
        "tsx"@, "mjs"@, "cjs"@, "vue"@, "svelte"@, "swift"@, "m"@, "mm"@, "zig"@, "nim"@, "v"@,
        "d"@, "hs"@, "ml"@, "mli"@, "ex"@, "exs"@, "erl"@, "sh"@, "bash"@, "zsh"@, "fish"@,
        "ps1"@, "php"@, "dart"@, "jl"@, "sql"@, "proto"@, "thrift"@, "asm"@, "s"@, "wasm"@,
        "wat"@, "clj"@, "cljs"@, "lisp"@, "el"@, "scm"@, "rkt"@,
    ]
}

fn source_extension_list() -> (v: Vec<&'static str>)
    ensures
        Seq::new(v@.len(), |i: int| v@[i]@) == source_extensions(),
{
    let v: Vec<&'static str> = vec![
        "c", "h", "cpp", "cc", "cxx", "hpp", "hxx", "cs", "rs", "go", "java", "kt", "kts",
        "scala", "py", "rb", "pl", "pm", "lua", "r", "js", "ts", "jsx", "tsx", "mjs", "cjs",
        "vue", "svelte", "swift", "m", "mm", "zig", "nim", "v", "d", "hs", "ml", "mli", "ex",
        "exs", "erl", "sh", "bash", "zsh", "fish", "ps1", "php", "dart", "jl", "sql", "proto",
        "thrift", "asm", "s", "wasm", "wat", "clj", "cljs", "lisp", "el", "scm", "rkt",
    ];
    assert(Seq::new(v@.len(), |i: int| v@[i]@) =~= source_extensions());
    v
}

/// Whether `ext_lower`, an extension already in lower case, is one of the
/// source code extensions.
pub fn is_listed_source_ext(ext_lower: &str) -> (b: bool)
    ensures
        b == source_extensions().contains(ext_lower@),
{
    let list = source_extension_list();
    let target = chars_of(ext_lower);
    let mut i: usize = 0;
    while i < list.len()
        invariant
            i <= list.len(),
            target@ == ext_lower@,
            Seq::new(list@.len(), |k: int| list@[k]@) == source_extensions(),
            forall|k: int| 0 <= k < i ==> list@[k]@ != ext_lower@,
        decreases list.len() - i,
    {
        let candidate = chars_of(list[i]);
        if same_chars(&candidate, &target) {
            assert(source_extensions()[i as int] == ext_lower@);
            return true;
        }
        i = i + 1;
    }
    assert forall|k: int| 0 <= k < source_extensions().len() implies source_extensions()[k]
        != ext_lower@ by {
        assert(source_extensions()[k] == list@[k]@);
    }
    false
}

/// Whether `ext` is the extension of a source code file, compared in lower case.
pub fn is_source_ext(ext: &str) -> (b: bool)
    ensures
        b == source_extensions().contains(lowercase_of(ext@)),
{
    let lower = to_lowercase(ext);
    is_listed_source_ext(lower.as_str())
}

/// The header line naming the new file of a diff: `+++ b/` or `+++ a/` before a path.
pub open spec fn is_file_header(line: Seq<char>) -> bool {
    line.len() >= 6 && (line.take(6) == seq!['+', '+', '+', ' ', 'b', '/'] || line.take(6)
        == seq!['+', '+', '+', ' ', 'a', '/'])
}

/// An added line of a diff: it begins with `+` but not with `+++`.
pub open spec fn is_added_line(line: Seq<char>) -> bool {
    line.len() >= 1 && line[0] == '+' && !(line.len() >= 3 && line.take(3) == seq!['+', '+', '+'])
}

/// Whether a file whose extension is `ext` is kept: every file, or with
/// `source_only` only source code files.
pub open spec fn file_is_kept(ext: Option<Seq<char>>, source_only: bool) -> bool {
    match ext {
        Some(e) => !source_only || source_extensions().contains(lowercase_of(e)),
        None => !source_only,
    }
}

/// The state of a scan over a diff: the extension of the first kept file,
/// whether the current file is kept, and the added lines kept so far.
pub open spec fn diff_scan(lines: Seq<Seq<char>>, source_only: bool) -> (
    Option<Seq<char>>,
    bool,
    Seq<Seq<char>>,
)
    decreases lines.len(),
{
    if lines.len() == 0 {
        (None, !source_only, seq![])
    } else {
        let (first, kept, out) = diff_scan(lines.drop_last(), source_only);
        let line = lines.last();
        if is_file_header(line) {
            let ext = extension_of(line.skip(6));
            let now_kept = file_is_kept(ext, source_only);
            let first2 = if first is None && now_kept {
                ext
            } else {
                first
            };
            (first2, now_kept, out)
        } else if kept && is_added_line(line) {
            (first, kept, out.push(line.skip(1)))
        } else {
            (first, kept, out)
        }
    }
}

/// The lines of `ls` joined with `\n` between them.
pub open spec fn join_lines(ls: Seq<Seq<char>>) -> Seq<char>
    decreases ls.len(),
{
    if ls.len() == 0 {
        seq![]
    } else if ls.len() == 1 {
        ls[0]
    } else {
        join_lines(ls.drop_last()) + seq!['\n'] + ls.last()
    }
}

/// The lines of `ls` joined with `\n` between them.
pub fn join_with_newlines(ls: &Vec<String>) -> (s: String)
    ensures
        s@ == join_lines(strings_view(ls@)),
{
    let mut s = String::new();
    let mut i: usize = 0;
    while i < ls.len()
        invariant
            i <= ls.len(),
            s@ == join_lines(strings_view(ls@).take(i as int)),
        decreases ls.len() - i,
    {
        let ghost prefix = strings_view(ls@).take(i + 1);
        assert(prefix.drop_last() =~= strings_view(ls@).take(i as int));
        if i > 0 {
            push_char(&mut s, '\n');
        }
        s.append(ls[i].as_str());
        i = i + 1;
        assert(s@ =~= join_lines(strings_view(ls@).take(i as int)));
    }
    assert(strings_view(ls@).take(ls.len() as int) =~= strings_view(ls@));
    s
}

/// The added lines of the unified diff `input` (their leading `+` removed),
/// joined with `\n`, and the extension of the first file they come from.
/// With `source_only`, only files whose extension marks source code count.
pub fn extract_diff_additions(input: &str, source_only: bool) -> (r: (String, Option<String>))
    ensures
        ({
            let (first, _kept, out) = diff_scan(lines_of(input@), source_only);
            &&& r.0@ == join_lines(out)
            &&& match r.1 {
                Some(e) => first == Some(e@),
                None => first is None,
            }
        }),
{
    let all = split_lines(input);
    let plus_b: Vec<char> = vec!['+', '+', '+', ' ', 'b', '/'];
    let plus_a: Vec<char> = vec!['+', '+', '+', ' ', 'a', '/'];
    let triple: Vec<char> = vec!['+', '+', '+'];
    let mut first_ext: Option<String> = None;
    let mut current_file_is_source = !source_only;
    let mut lines: Vec<String> = Vec::new();
    let mut i: usize = 0;
    while i < all.len()
        invariant
            i <= all.len(),
            strings_view(all@) == lines_of(input@),
            plus_b@ == seq!['+', '+', '+', ' ', 'b', '/'],
            plus_a@ == seq!['+', '+', '+', ' ', 'a', '/'],
            triple@ == seq!['+', '+', '+'],
            ({
                let (first, kept, out) = diff_scan(strings_view(all@).take(i as int), source_only);
                &&& current_file_is_source == kept
                &&& strings_view(lines@) == out
                &&& match first_ext {
                    Some(e) => first == Some(e@),
                    None => first is None,
                }
            }),
        decreases all.len() - i,
    {
        let ghost prefix = strings_view(all@).take(i + 1);
        assert(prefix.drop_last() =~= strings_view(all@).take(i as int));
        assert(prefix.last() == all@[i as int]@);
        let line = chars_of(all[i].as_str());
        if starts_with_chars(&line, &plus_b) || starts_with_chars(&line, &plus_a) {
            let path = string_from_range(&line, 6, line.len());
            assert(path@ == line@.skip(6));
            let ext = path_extension(path.as_str());
            current_file_is_source = match &ext {
                Some(e) => !source_only || is_source_ext(e.as_str()),
                None => !source_only,
            };
            if first_ext.is_none() && current_file_is_source {
                first_ext = ext;
            }
        } else if current_file_is_source && line.len() >= 1 && line[0] == '+'
            && !starts_with_chars(&line, &triple) {
            let added = string_from_range(&line, 1, line.len());
            let ghost before = strings_view(lines@);
            lines.push(added);
            assert(strings_view(lines@) =~= before.push(line@.skip(1)));
        }
        i = i + 1;
    }
    assert(strings_view(all@).take(all.len() as int) =~= strings_view(all@));
    (join_with_newlines(&lines), first_ext)
}

/// `a` is a subsequence of `b`: its items occur in `b` in the same order.
pub open spec fn is_subsequence<T>(a: Seq<T>, b: Seq<T>) -> bool
    decreases b.len(),
{
    if b.len() == 0 {
        a.len() == 0
    } else if a.len() > 0 && a.last() == b.last() {
        is_subsequence(a.drop_last(), b.drop_last())
    } else {
        is_subsequence(a, b.drop_last())
    }
}

proof fn lemma_subsequence_push<T>(a: Seq<T>, b: Seq<T>, x: T)
    requires
        is_subsequence(a, b),
    ensures
        is_subsequence(a, b.push(x)),
    decreases 2 * b.len() + 1,
{
    assert(b.push(x).drop_last() =~= b);
    if a.len() > 0 && a.last() == x {
        lemma_subsequence_drop(a, b);
    }
}

proof fn lemma_subsequence_drop<T>(a: Seq<T>, b: Seq<T>)
    requires
        is_subsequence(a, b),
        a.len() > 0,
    ensures
        is_subsequence(a.drop_last(), b),
    decreases 2 * b.len(),
{
    if a.last() == b.last() {
        lemma_subsequence_push(a.drop_last(), b.drop_last(), b.last());
        assert(b.drop_last().push(b.last()) =~= b);
    } else {
        lemma_subsequence_drop(a, b.drop_last());
        lemma_subsequence_push(a.drop_last(), b.drop_last(), b.last());
        assert(b.drop_last().push(b.last()) =~= b);
    }
}

proof fn lemma_scan_filtered(lines: Seq<Seq<char>>)
    ensures
        diff_scan(lines, false).1,
        is_subsequence(diff_scan(lines, true).2, diff_scan(lines, false).2),
        diff_scan(lines, true).0 matches Some(e) ==> source_extensions().contains(lowercase_of(e)),
    decreases lines.len(),
{
    if lines.len() > 0 {
        lemma_scan_filtered(lines.drop_last());
        let (_, kt, ot) = diff_scan(lines.drop_last(), true);
        let (_, _, of) = diff_scan(lines.drop_last(), false);
        let line = lines.last();
        if !is_file_header(line) && is_added_line(line) {
            if kt {
                assert(ot.push(line.skip(1)).drop_last() =~= ot);
                assert(of.push(line.skip(1)).drop_last() =~= of);
            } else {
                lemma_subsequence_push(ot, of, line.skip(1));
            }
        }
    }
}

/// With the source-only filter, the added lines kept are among those kept
/// without it, in the same order, and the extension given (if any) is one of
/// source code.
pub proof fn lemma_source_only_keeps_a_subsequence(input: Seq<char>)
    ensures
        is_subsequence(diff_scan(lines_of(input), true).2, diff_scan(lines_of(input), false).2),
        diff_scan(lines_of(input), true).0 matches Some(e) ==> source_extensions().contains(
            lowercase_of(e),
        ),
{
    lemma_scan_filtered(lines_of(input));
}

/// The index of the last file header among the first `n` lines, if any.
pub open spec fn last_header(lines: Seq<Seq<char>>, n: int) -> Option<int>
    decreases n,
{
    if n <= 0 {
        None
    } else if is_file_header(lines[n - 1]) {
        Some(n - 1)
    } else {
        last_header(lines, n - 1)
    }
}

/// The lines from `n` on lie in a source file: the last file header before
/// them names a path whose extension, in lower case, is a source extension.
pub open spec fn in_source_file(lines: Seq<Seq<char>>, n: int) -> bool {
    match last_header(lines, n) {
        Some(h) => match extension_of(lines[h].skip(6)) {
            Some(e) => source_extensions().contains(lowercase_of(e)),
            None => false,
        },
        None => false,
    }
}

/// `x` is an added line (its `+` removed) among the first `n` lines, in a
/// source file.
pub open spec fn added_in_source_file(lines: Seq<Seq<char>>, n: int, x: Seq<char>) -> bool {
    exists|j: int|
        0 <= j < n && is_added_line(lines[j]) && #[trigger] in_source_file(lines, j) && x
            == lines[j].skip(1)
}

proof fn lemma_source_scan(lines: Seq<Seq<char>>, n: int)
    requires
        0 <= n <= lines.len(),
    ensures
        diff_scan(lines.take(n), true).1 == in_source_file(lines, n),
        forall|k: int|
            0 <= k < diff_scan(lines.take(n), true).2.len() ==> added_in_source_file(
                lines,
                n,
                #[trigger] diff_scan(lines.take(n), true).2[k],
            ),
    decreases n,
{
    if n > 0 {
        lemma_source_scan(lines, n - 1);
        let prev = lines.take(n - 1);
        assert(lines.take(n).drop_last() =~= prev);
        assert(lines.take(n).last() == lines[n - 1]);
        let (_, kept, out) = diff_scan(prev, true);
        let out2 = diff_scan(lines.take(n), true).2;
        let line = lines[n - 1];
        if is_file_header(line) {
            assert(out2 == out);
        } else if kept && is_added_line(line) {
            assert(out2 == out.push(line.skip(1)));
        } else {
            assert(out2 == out);
        }
        assert forall|k: int| 0 <= k < out2.len() implies added_in_source_file(lines, n, #[trigger] out2[k]) by {
            if k < out.len() {
                assert(out2[k] == out[k]);
                assert(added_in_source_file(lines, n - 1, out[k]));
                let j = choose|j: int|
                    0 <= j < n - 1 && is_added_line(lines[j]) && #[trigger] in_source_file(lines, j)
                        && out[k] == lines[j].skip(1);
                assert(in_source_file(lines, j));
            } else {
                assert(in_source_file(lines, n - 1));
            }
        }
    } else {
        assert(lines.take(0) =~= Seq::<Seq<char>>::empty());
    }
}

/// With the source-only filter, every added line kept comes from a file whose
/// header names a path with a source extension (in lower case): a file with
/// another extension, or with none, keeps no line, and neither does text
/// before the first header.
pub proof fn lemma_source_only_lines_come_from_source_files(input: Seq<char>)
    ensures
        ({
            let lines = lines_of(input);
            let out = diff_scan(lines, true).2;
            forall|k: int|
                0 <= k < out.len() ==> added_in_source_file(lines, lines.len() as int, #[trigger] out[k])
        }),
{
    let lines = lines_of(input);
    lemma_source_scan(lines, lines.len() as int);
    assert(lines.take(lines.len() as int) =~= lines);
}

} // verus!
