//! Highlighting a source text with syntect and splitting it into source lines.

use syntect::highlighting::{HighlightIterator, HighlightState, Highlighter, Theme, ThemeSet};
use syntect::parsing::{
    ClearAmount, ParseState, ParsingError, Scope, ScopeStack, ScopeStackOp, SyntaxReference,
    SyntaxSet,
};
use vstd::prelude::*;
use crate::source::{
    build_comment_map, build_source_line, comment_map_of, lemma_highlighted_tokens_spell_line,
    lemma_region_bytes_text, merge_regions, merged_tokens, region_text, token_text,
    token_triples, tokens_from_highlighting, SourceLine, SyntaxColor, SyntaxStyle, Token,
};
use crate::scopes::{
    empty_stack, lemma_flags_before_len, op_views, scan_line_scopes, scan_stack,
    segment_flags, OpView, ScopeStackModel, StackOp, StackView,
};
use crate::text::{
    byte_len, char_width, chars_of, expand_tabs, lemma_byte_len_prefix, lemma_lines_have_no_newline,
    lines_of, push_char, replace_tabs, same_chars, split_lines, strings_view,
};

verus! {

/// `syntect::parsing::SyntaxSet`, the loaded syntax definitions.
#[verifier::external_type_specification]
#[verifier::external_body]
pub struct ExSyntaxSet(SyntaxSet);

/// `syntect::parsing::SyntaxReference`, one syntax definition.
#[verifier::external_type_specification]
#[verifier::external_body]
pub struct ExSyntaxReference(SyntaxReference);

/// `syntect::highlighting::Theme`, a colour theme.
#[verifier::external_type_specification]
#[verifier::external_body]
pub struct ExTheme(Theme);

/// `syntect::highlighting::Highlighter`, a theme prepared for highlighting.
#[verifier::external_type_specification]
#[verifier::external_body]
pub struct ExHighlighter<'a>(Highlighter<'a>);

/// `syntect::parsing::ParseState`, the parser's state between lines.
#[verifier::external_type_specification]
#[verifier::external_body]
pub struct ExParseState(ParseState);

/// `syntect::highlighting::HighlightState`, the highlighter's state between lines.
#[verifier::external_type_specification]
#[verifier::external_body]
pub struct ExHighlightState(HighlightState);

/// `syntect::parsing::Scope`, a scope such as `comment.line`.
#[verifier::external_type_specification]
#[verifier::external_body]
pub struct ExScope(Scope);

/// `syntect::parsing::ScopeStackOp`, a change to a scope stack.
#[verifier::external_type_specification]
#[verifier::external_body]
pub struct ExScopeStackOp(ScopeStackOp);

/// `syntect::parsing::ParsingError`.
#[verifier::external_type_specification]
#[verifier::external_body]
pub struct ExParsingError(ParsingError);

/// Calls `SyntaxSet::load_defaults_newlines`, syntect's built-in syntaxes
/// for lines that end in `\n`. Nothing is claimed of the set.
#[verifier::external_body]
fn load_syntax_set() -> SyntaxSet {
    SyntaxSet::load_defaults_newlines()
}

/// The name of the dark theme among syntect's built-in themes.
pub const DARK_THEME: &'static str = "base16-ocean.dark";

/// The name of the scope under which everything is a comment.
pub const COMMENT_SCOPE: &'static str = "comment";

/// Whether syntect's built-in theme set (`ThemeSet::load_defaults`) has a
/// theme named `name`.
pub uninterp spec fn builtin_theme(name: Seq<char>) -> bool;

/// A theme, with which one it is for proofs: a built-in theme by its name,
/// or `None` for syntect's default theme.
pub struct NamedTheme {
    theme: Theme,
    key: Ghost<Option<Seq<char>>>,
}

impl NamedTheme {
    /// Which theme this is: a built-in one by name, or `None` for the default.
    pub closed spec fn key(&self) -> Option<Seq<char>> {
        self.key@
    }

    /// The theme itself.
    pub fn theme(&self) -> &Theme {
        &self.theme
    }
}

/// Calls `ThemeSet::load_defaults` and takes out its theme named `name`, if
/// there is one.
#[verifier::external_body]
fn load_theme(name: &str) -> (r: Option<NamedTheme>)
    ensures
        match r {
            Some(t) => builtin_theme(name@) && t.key() == Some(name@),
            None => !builtin_theme(name@),
        },
{
    ThemeSet::load_defaults().themes.remove(name).map(|t| NamedTheme { theme: t, key: Ghost(None) })
}

/// Calls `Theme::default`, syntect's default theme.
#[verifier::external_body]
fn default_theme() -> (t: NamedTheme)
    ensures
        t.key() is None,
{
    NamedTheme { theme: Theme::default(), key: Ghost(None) }
}

/// Which theme sources are highlighted with: the built-in dark theme, or
/// syntect's default theme if there is no built-in theme of that name.
pub open spec fn dark_theme_key() -> Option<Seq<char>> {
    if builtin_theme(DARK_THEME@) {
        Some(DARK_THEME@)
    } else {
        None
    }
}

/// The dark theme that sources are highlighted with, or syntect's default
/// theme should it be missing.
pub fn load_dark_theme() -> (t: NamedTheme)
    ensures
        t.key() == dark_theme_key(),
{
    match load_theme(DARK_THEME) {
        Some(theme) => theme,
        None => default_theme(),
    }
}

/// The name of the built-in syntax that `SyntaxSet::find_syntax_by_extension`
/// finds for the file extension `ext`, if any.
pub uninterp spec fn extension_syntax(ext: Seq<char>) -> Option<Seq<char>>;

/// What syntect's parser, for the built-in syntax named `syntax`, started
/// afresh and then fed the lines `fed`, gives for `line`: the scope changes
/// of the line with the byte offsets where they happen (a pushed scope given
/// by its name), or `None` when it fails on the line.
pub uninterp spec fn parsed_line(syntax: Seq<char>, fed: Seq<Seq<char>>, line: Seq<char>) -> Option<
    Seq<(usize, OpView)>,
>;

/// A syntax of the built-in set, with its name for proofs.
pub struct Syntax<'a> {
    syntax: &'a SyntaxReference,
    name: Ghost<Seq<char>>,
}

impl<'a> Syntax<'a> {
    /// The syntax's name.
    pub closed spec fn name(&self) -> Seq<char> {
        self.name@
    }
}

/// Calls `SyntaxSet::find_syntax_by_extension` on the built-in set `ss`:
/// the syntax for the file extension `extension`, if any. The ghost name is
/// the one `extension_syntax` gives.
#[verifier::external_body]
fn find_syntax_by_extension<'a>(ss: &'a SyntaxSet, extension: &str) -> (r: Option<Syntax<'a>>)
    ensures
        match r {
            Some(s) => extension_syntax(extension@) == Some(s.name()),
            None => extension_syntax(extension@) is None,
        },
{
    ss.find_syntax_by_extension(extension).map(|s| Syntax { syntax: s, name: Ghost(Seq::empty()) })
}

/// Calls `SyntaxSet::find_syntax_plain_text`, which looks the syntax up by
/// its name, `Plain Text`, and panics on a set without one; the set of
/// `load_syntax_set` has one.
#[verifier::external_body]
fn find_syntax_plain_text<'a>(ss: &'a SyntaxSet) -> (s: Syntax<'a>)
    ensures
        s.name() == "Plain Text"@,
{
    Syntax { syntax: ss.find_syntax_plain_text(), name: Ghost(Seq::empty()) }
}

/// Reads the `name` field of a syntax.
#[verifier::external_body]
fn syntax_name(syntax: &Syntax) -> (name: String)
    ensures
        name@ == syntax.name(),
{
    syntax.syntax.name.clone()
}

/// A highlighter, with the theme it highlights with for proofs.
pub struct ThemedHighlighter<'a> {
    highlighter: Highlighter<'a>,
    theme: Ghost<Option<Seq<char>>>,
}

impl<'a> ThemedHighlighter<'a> {
    /// The theme highlighted with.
    pub closed spec fn theme(&self) -> Option<Seq<char>> {
        self.theme@
    }
}

/// Calls `Highlighter::new` for the theme `theme`.
#[verifier::external_body]
fn new_highlighter<'a>(theme: &'a NamedTheme) -> (h: ThemedHighlighter<'a>)
    ensures
        h.theme() == theme.key(),
{
    ThemedHighlighter { highlighter: Highlighter::new(&theme.theme), theme: Ghost(None) }
}

/// The parser of a syntax, fed the lines of a text one after the other, with
/// the syntax's name and the lines fed so far for proofs.
pub struct LineParser {
    state: ParseState,
    syntax: Ghost<Seq<char>>,
    fed: Ghost<Seq<Seq<char>>>,
}

impl LineParser {
    /// The name of the syntax parsed.
    pub closed spec fn syntax(&self) -> Seq<char> {
        self.syntax@
    }

    /// The lines fed to the parser so far.
    pub closed spec fn fed(&self) -> Seq<Seq<char>> {
        self.fed@
    }
}

/// Calls `ParseState::new`, which starts the parser of the syntax at its
/// main context; the syntaxes of `load_syntax_set` have one. Nothing has
/// been fed to it.
#[verifier::external_body]
fn start_parser(syntax: &Syntax) -> (p: LineParser)
    ensures
        p.syntax() == syntax.name(),
        p.fed() == Seq::<Seq<char>>::empty(),
{
    LineParser { state: ParseState::new(syntax.syntax), syntax: Ghost(Seq::empty()), fed: Ghost(Seq::empty()) }
}

/// Converts a `syntect::parsing::ScopeStackOp` into a `StackOp`, variant by
/// variant, a pushed scope with its name (`Scope::build_string`).
#[verifier::external_body]
fn stack_op_of(op: ScopeStackOp) -> StackOp {
    match op {
        ScopeStackOp::Push(s) => StackOp::Push(s, s.build_string()),
        ScopeStackOp::Pop(n) => StackOp::Pop(n),
        ScopeStackOp::Clear(ClearAmount::TopN(n)) => StackOp::ClearTop(n),
        ScopeStackOp::Clear(ClearAmount::All) => StackOp::ClearAll,
        ScopeStackOp::Restore => StackOp::Restore,
        ScopeStackOp::Noop => StackOp::Noop,
    }
}

/// The `syntect::parsing::ScopeStackOp` that `op` stands for, variant by
/// variant.
#[verifier::external_body]
fn syntect_op_of(op: &StackOp) -> ScopeStackOp {
    match op {
        StackOp::Push(s, _) => ScopeStackOp::Push(*s),
        StackOp::Pop(n) => ScopeStackOp::Pop(*n),
        StackOp::ClearTop(n) => ScopeStackOp::Clear(ClearAmount::TopN(*n)),
        StackOp::ClearAll => ScopeStackOp::Clear(ClearAmount::All),
        StackOp::Restore => ScopeStackOp::Restore,
        StackOp::Noop => ScopeStackOp::Noop,
    }
}

impl LineParser {
    /// Calls `ParseState::parse_line` on `line` with the built-in set
    /// `syntax_set`, each scope change converted into a `StackOp`. The parser
    /// is deterministic: what it gives is what `parsed_line` names for the
    /// syntax and the lines fed before; `line` joins them.
    #[verifier::external_body]
    fn parse_line(&mut self, line: &str, syntax_set: &SyntaxSet) -> (r: Result<Vec<(usize, StackOp)>, ParsingError>)
        ensures
            final(self).syntax() == old(self).syntax(),
            final(self).fed() == old(self).fed().push(line@),
            match r {
                Ok(ops) => parsed_line(old(self).syntax(), old(self).fed(), line@) == Some(op_views(ops@)),
                Err(_) => parsed_line(old(self).syntax(), old(self).fed(), line@) is None,
            },
    {
        self.state.parse_line(line, syntax_set).map(|ops| ops.into_iter().map(|(p, op)| (p, stack_op_of(op))).collect())
    }
}

/// The stack `st` after the scope changes of the lines `opss`, line after
/// line; `None` when one is refused.
pub open spec fn scan_lines(st: StackView, opss: Seq<Seq<(usize, OpView)>>) -> Option<StackView>
    decreases opss.len(),
{
    if opss.len() == 0 {
        Some(st)
    } else {
        match scan_lines(st, opss.drop_last()) {
            Some(s) => scan_stack(s, opss.last()),
            None => None,
        }
    }
}

/// The highlighter's state over the lines of a text, with, for proofs, the
/// theme it highlights with and the scope changes of each line fed so far.
pub struct LineHighlighter {
    state: HighlightState,
    theme: Ghost<Option<Seq<char>>>,
    fed: Ghost<Seq<Seq<(usize, OpView)>>>,
}

impl LineHighlighter {
    /// The theme highlighted with.
    pub closed spec fn theme(&self) -> Option<Seq<char>> {
        self.theme@
    }

    /// The scope changes fed so far, line by line.
    pub closed spec fn fed(&self) -> Seq<Seq<(usize, OpView)>> {
        self.fed@
    }
}

/// Calls `HighlightState::new` with `ScopeStack::new()`: a highlighter's
/// state whose scope stack is empty. Nothing has been fed to it.
#[verifier::external_body]
fn start_highlighting(highlighter: &ThemedHighlighter<'_>) -> (h: LineHighlighter)
    ensures
        h.theme() == highlighter.theme(),
        h.fed() == Seq::<Seq<(usize, OpView)>>::empty(),
{
    LineHighlighter {
        state: HighlightState::new(&highlighter.highlighter, ScopeStack::new()),
        theme: Ghost(None),
        fed: Ghost(Seq::empty()),
    }
}

/// The styles that syntect's highlighter, with the theme `theme` (a built-in
/// one by name, or the default theme for `None`), gives the regions of
/// `line` whose scope changes are `ops`, when the changes `fed` of the
/// earlier lines have been applied before, from an empty scope stack.
pub uninterp spec fn region_styles(
    theme: Option<Seq<char>>,
    fed: Seq<Seq<(usize, OpView)>>,
    ops: Seq<(usize, OpView)>,
    line: Seq<char>,
) -> Seq<SyntaxStyle>;

/// The characters of `s` that begin at a byte from `lo` up to, but not
/// including, `hi`.
pub open spec fn chars_between(s: Seq<char>, lo: int, hi: int) -> Seq<char>
    decreases s.len(),
{
    if s.len() == 0 {
        seq![]
    } else {
        let rest = chars_between(s.drop_last(), lo, hi);
        let at = byte_len(s.drop_last()) as int;
        if lo <= at && at < hi {
            rest.push(s.last())
        } else {
            rest
        }
    }
}

/// The byte offsets where `s` is cut: its start, each of the positions `ps`,
/// and its end.
pub open spec fn cut_points(s: Seq<char>, ps: Seq<usize>) -> Seq<int> {
    Seq::new(
        ps.len() + 2,
        |j: int|
            if j == 0 {
                0
            } else if j <= ps.len() {
                ps[j - 1] as int
            } else {
                byte_len(s) as int
            },
    )
}

/// The pieces of `s` between successive cut points, in order, the empty ones
/// left out.
pub open spec fn line_pieces(s: Seq<char>, ps: Seq<usize>) -> Seq<Seq<char>> {
    let cuts = cut_points(s, ps);
    Seq::new(ps.len() + 1, |j: int| chars_between(s, cuts[j], cuts[j + 1])).filter(
        |p: Seq<char>| p.len() > 0,
    )
}

/// The texts of the regions `rs`.
pub open spec fn region_texts(rs: Seq<(SyntaxStyle, String)>) -> Seq<Seq<char>> {
    Seq::new(rs.len(), |i: int| rs[i].1@)
}

/// The styles of the regions `rs`.
pub open spec fn region_style_seq(rs: Seq<(SyntaxStyle, String)>) -> Seq<SyntaxStyle> {
    Seq::new(rs.len(), |i: int| rs[i].0)
}

/// `p` is a byte offset of `s` where a character begins, or its end.
pub open spec fn is_char_boundary(s: Seq<char>, p: int) -> bool {
    exists|k: int| 0 <= k <= s.len() && #[trigger] byte_len(s.take(k)) == p
}

/// The positions `ps` lie on character boundaries of `s`, in order.
pub open spec fn ops_fit(ps: Seq<usize>, s: Seq<char>) -> bool {
    &&& forall|i: int| 0 <= i < ps.len() ==> is_char_boundary(s, #[trigger] ps[i] as int)
    &&& forall|i: int, j: int| 0 <= i <= j < ps.len() ==> #[trigger] ps[i] <= #[trigger] ps[j]
}

/// The positions of the scope changes `ops`.
pub open spec fn op_positions(ops: Seq<(usize, OpView)>) -> Seq<usize> {
    Seq::new(ops.len(), |i: int| ops[i].0)
}

impl LineHighlighter {
    /// Collects what `HighlightIterator` yields for `line` with the scope
    /// changes `ops`: the styled regions of the line, each style converted
    /// field by field and each text copied. The regions are the non-empty
    /// slices of `line` between its start, the positions of the changes and
    /// its end, in order, so the texts, one after the other, spell the start
    /// of `line`. The iterator applies every change to the state's scope
    /// stack, which started empty and has had the changes of the earlier
    /// lines; it stops only where a change is refused, so it yields every
    /// slice when every change fed so far applies, each with the style that
    /// `region_styles` names. It slices `line` at the positions of the
    /// changes, and so panics unless they lie on character boundaries, in
    /// order.
    #[verifier::external_body]
    fn highlight_regions(
        &mut self,
        ops: &Vec<(usize, StackOp)>,
        line: &str,
        highlighter: &ThemedHighlighter<'_>,
    ) -> (regions: Vec<(SyntaxStyle, String)>)
        requires
            ops_fit(op_positions(op_views(ops@)), line@),
            highlighter.theme() == old(self).theme(),
        ensures
            final(self).theme() == old(self).theme(),
            final(self).fed() == old(self).fed().push(op_views(ops@)),
            region_text(regions@).is_prefix_of(line@),
            scan_lines(empty_stack(), final(self).fed()) is Some ==> {
                &&& region_text(regions@) == line@
                &&& region_texts(regions@) == line_pieces(line@, op_positions(op_views(ops@)))
                &&& region_style_seq(regions@) == region_styles(
                    old(self).theme(),
                    old(self).fed(),
                    op_views(ops@),
                    line@,
                )
            },
    {
        let changes: Vec<(usize, ScopeStackOp)> = ops.iter().map(|(p, op)| (*p, syntect_op_of(op))).collect();
        HighlightIterator::new(&mut self.state, &changes[..], line, &highlighter.highlighter).map(|(s, t)| {
            let fg = SyntaxColor { r: s.foreground.r, g: s.foreground.g, b: s.foreground.b, a: s.foreground.a };
            let bg = SyntaxColor { r: s.background.r, g: s.background.g, b: s.background.b, a: s.background.a };
            (SyntaxStyle { foreground: fg, background: bg, font_style: s.font_style.bits() }, t.to_string())
        }).collect()
    }
}

/// Why a source text could not be split into lines.
#[derive(Debug, Clone, Copy, PartialEq, Eq, Structural)]
pub enum ParseError {
    /// The parser failed on a line, or gave scope changes that do not fit
    /// it (not on character boundaries, or out of order).
    Parsing,
    /// A scope change could not be applied (a restore with nothing cleared).
    ScopeStack,
    /// A line, with its newline, is longer than `usize::MAX` bytes.
    TooLong,
}

/// The UTF-8 byte length of `cs`, or `None` above `usize::MAX`.
fn checked_byte_len(cs: &Vec<char>) -> (n: Option<usize>)
    ensures
        match n {
            Some(k) => k == byte_len(cs@),
            None => byte_len(cs@) > usize::MAX,
        },
{
    let mut n: usize = 0;
    let mut i: usize = 0;
    while i < cs.len()
        invariant
            i <= cs.len(),
            n == byte_len(cs@.take(i as int)),
        decreases cs.len() - i,
    {
        assert(cs@.take(i + 1).drop_last() =~= cs@.take(i as int));
        let w = char_width(cs[i]);
        match n.checked_add(w) {
            Some(m) => n = m,
            None => {
                proof {
                    lemma_byte_len_prefix(cs@, i + 1);
                }
                return None;
            },
        }
        i = i + 1;
    }
    assert(cs@.take(cs.len() as int) =~= cs@);
    Some(n)
}

/// Whether `v` holds `x`.
fn holds_usize(v: &Vec<usize>, x: usize) -> (b: bool)
    ensures
        b == exists|k: int| 0 <= k < v@.len() && v@[k] == x,
{
    let mut k: usize = 0;
    while k < v.len()
        invariant
            k <= v@.len(),
            forall|t: int| 0 <= t < k ==> v@[t] != x,
        decreases v.len() - k,
    {
        if v[k] == x {
            return true;
        }
        k = k + 1;
    }
    false
}

/// Whether the positions `ops` lie on character boundaries of `cs`, in order.
fn positions_fit_line(ops: &Vec<usize>, cs: &Vec<char>) -> (b: bool)
    requires
        byte_len(cs@) <= usize::MAX,
    ensures
        b == ops_fit(ops@, cs@),
{
    let mut bounds: Vec<usize> = Vec::new();
    let mut total: usize = 0;
    let mut k: usize = 0;
    while k < cs.len()
        invariant
            k <= cs@.len(),
            byte_len(cs@) <= usize::MAX,
            bounds@.len() == k,
            total == byte_len(cs@.take(k as int)),
            forall|t: int| 0 <= t < k ==> bounds@[t] == byte_len(cs@.take(t)),
        decreases cs.len() - k,
    {
        assert(cs@.take(k + 1).drop_last() =~= cs@.take(k as int));
        proof {
            lemma_byte_len_prefix(cs@, k + 1);
        }
        bounds.push(total);
        total = total + char_width(cs[k]);
        k = k + 1;
    }
    bounds.push(total);
    assert(forall|t: int| 0 <= t <= cs@.len() ==> bounds@[t] == byte_len(#[trigger] cs@.take(t)));
    let mut i: usize = 0;
    while i < ops.len()
        invariant
            i <= ops@.len(),
            bounds@.len() == cs@.len() + 1,
            forall|t: int| 0 <= t <= cs@.len() ==> bounds@[t] == byte_len(#[trigger] cs@.take(t)),
            forall|a: int| 0 <= a < i ==> is_char_boundary(cs@, #[trigger] ops@[a] as int),
            forall|a: int, c: int| 0 <= a <= c < i ==> #[trigger] ops@[a] <= #[trigger] ops@[c],
        decreases ops.len() - i,
    {
        let p = ops[i];
        if i > 0 && ops[i - 1] > p {
            assert(!(ops@[i - 1] <= ops@[i as int]));
            return false;
        }
        if !holds_usize(&bounds, p) {
            assert(!is_char_boundary(cs@, p as int)) by {
                if is_char_boundary(cs@, p as int) {
                    let t = choose|t: int| 0 <= t <= cs@.len() && #[trigger] byte_len(cs@.take(t)) == p;
                    assert(bounds@[t] == p);
                }
            }
            return false;
        }
        assert(is_char_boundary(cs@, p as int)) by {
            let t = choose|t: int| 0 <= t < bounds@.len() && bounds@[t] == p;
            assert(byte_len(cs@.take(t)) == p);
        }
        assert forall|a: int, c: int| 0 <= a <= c < i + 1 implies #[trigger] ops@[a] <= #[trigger] ops@[c] by {
            if c == i && a < i {
                assert(ops@[a] <= ops@[i - 1]);
            }
        }
        i = i + 1;
    }
    true
}

/// The text of the regions `regions`, one after the other.
fn joined_regions(regions: &Vec<(SyntaxStyle, String)>) -> (s: String)
    ensures
        s@ == region_text(regions@),
{
    let mut s = String::new();
    let mut i: usize = 0;
    while i < regions.len()
        invariant
            i <= regions@.len(),
            s@ == region_text(regions@.take(i as int)),
        decreases regions.len() - i,
    {
        assert(regions@.take(i + 1).drop_last() =~= regions@.take(i as int));
        s.append(regions[i].1.as_str());
        i = i + 1;
    }
    assert(regions@.take(regions.len() as int) =~= regions@);
    s
}

/// The source line `line` is the line `text` as highlighted with the scope
/// changes `ops`, read from the scope stack `st`, which they leave as `st2`,
/// and the styled regions `rs`, which spell the line and its newline: its
/// tokens are the regions, each marked as comment exactly when a scope under
/// `comment` is on the stack where the region begins.
pub open spec fn line_highlighted_with(
    line: SourceLine,
    text: Seq<char>,
    ops: Seq<(usize, OpView)>,
    st: StackView,
    st2: StackView,
    rs: Seq<(SyntaxStyle, String)>,
    comment: Seq<char>,
) -> bool {
    let len = byte_len(text) + 1;
    &&& scan_stack(st, ops) == Some(st2)
    &&& region_text(rs) == text.push('\n')
    &&& token_triples(line.tokens@) == merged_tokens(
        rs,
        comment_map_of(op_positions(ops), segment_flags(st, ops, comment), len),
        len,
    )
}

/// Builds the source line of `line` from its highlighting: the scope changes
/// `ops` the parser gave for it (with its newline), the styled regions
/// `regions` of it with its newline, and the scope stack `stack` that the
/// earlier lines left, which the changes move on. A region is a comment when
/// a scope under `comment` is on the stack where it begins. Gives `None` when
/// a change is refused (the stack then stops where it was refused), or when
/// the regions do not spell the line and its newline (the stack then stays).
pub fn highlight_line(
    stack: &mut ScopeStackModel,
    line: &str,
    ops: &Vec<(usize, StackOp)>,
    regions: &Vec<(SyntaxStyle, String)>,
    comment: &str,
) -> (r: Option<SourceLine>)
    requires
        byte_len(line@) + 1 <= usize::MAX,
        forall|i: int| 0 <= i < line@.len() ==> line@[i] != '\n',
    ensures
        region_text(regions@) != line@.push('\n') ==> r is None && final(stack)@ == old(stack)@,
        region_text(regions@) == line@.push('\n') ==> match scan_stack(old(stack)@, op_views(ops@)) {
            None => r is None,
            Some(st) => r matches Some(sl) && final(stack)@ == st && sl.built_from(line@, sl.tokens@)
                && token_text(sl.tokens@) == line@ && line_highlighted_with(
                sl,
                line@,
                op_views(ops@),
                old(stack)@,
                st,
                regions@,
                comment@,
            ),
        },
{
    let mut line_nl = String::from_str(line);
    push_char(&mut line_nl, '\n');
    let nl_chars = chars_of(line_nl.as_str());
    proof {
        assert(nl_chars@ =~= line@.push('\n'));
        assert(line@.push('\n').drop_last() =~= line@);
    }
    let joined = joined_regions(regions);
    if !same_chars(&chars_of(joined.as_str()), &nl_chars) {
        return None;
    }
    let ghost views = op_views(ops@);
    let ghost st0 = stack@;
    let flags = match scan_line_scopes(stack, ops, comment) {
        Some(f) => f,
        None => return None,
    };
    let mut positions: Vec<usize> = Vec::new();
    let mut j: usize = 0;
    while j < ops.len()
        invariant
            j <= ops@.len(),
            views == op_views(ops@),
            positions@ == op_positions(views.take(j as int)),
        decreases ops.len() - j,
    {
        positions.push(ops[j].0);
        j = j + 1;
        assert(positions@ =~= op_positions(views.take(j as int)));
    }
    assert(views.take(ops.len() as int) =~= views);
    proof {
        lemma_flags_before_len(st0, views, comment@);
        assert(nl_chars@.drop_last() =~= line@);
        lemma_region_bytes_text(regions@);
    }
    let nl_len = match checked_byte_len(&nl_chars) {
        Some(n) => n,
        None => return None,
    };
    let comment_map = build_comment_map(&positions, &flags, nl_len);
    let tokens: Vec<Token> = merge_regions(regions, &comment_map, nl_len);
    proof {
        assert(nl_len == byte_len(line@) + 1);
        assert(tokens_from_highlighting(tokens@, line@)) by {
            assert(token_triples(tokens@) == merged_tokens(
                regions@,
                comment_map_of(positions@, flags@, nl_len as nat),
                nl_len as nat,
            ));
        }
        lemma_highlighted_tokens_spell_line(tokens@, line@);
    }
    Some(build_source_line(line, tokens))
}

/// The lines `texts`, each with its newline.
pub open spec fn with_newlines(texts: Seq<Seq<char>>) -> Seq<Seq<char>> {
    Seq::new(texts.len(), |i: int| texts[i].push('\n'))
}

/// The name of the syntax a text with the file extension `ext` is
/// highlighted as: the one found for the extension, or plain text.
pub open spec fn chosen_syntax(ext: Seq<char>) -> Seq<char> {
    match extension_syntax(ext) {
        Some(name) => name,
        None => "Plain Text"@,
    }
}

/// How line `i` of `texts` goes, with the syntax `syntax`, from the scope
/// stack `st` that the lines before it left: the stack after it, or the
/// error it gives (too long, refused by the parser, scope changes that do
/// not fit it, or a scope change that cannot be applied).
pub open spec fn line_outcome(syntax: Seq<char>, texts: Seq<Seq<char>>, i: int, st: StackView) -> Result<
    StackView,
    ParseError,
> {
    let line = texts[i].push('\n');
    if byte_len(line) > usize::MAX {
        Err(ParseError::TooLong)
    } else {
        match parsed_line(syntax, with_newlines(texts.take(i)), line) {
            None => Err(ParseError::Parsing),
            Some(ops) => if !ops_fit(op_positions(ops), line) {
                Err(ParseError::Parsing)
            } else {
                match scan_stack(st, ops) {
                    None => Err(ParseError::ScopeStack),
                    Some(st2) => Ok(st2),
                }
            },
        }
    }
}

/// How the first `n` lines of `texts` go with the syntax `syntax`: the scope
/// stack they leave, or the error of the first line that fails.
pub open spec fn parse_outcome(syntax: Seq<char>, texts: Seq<Seq<char>>, n: nat) -> Result<
    StackView,
    ParseError,
>
    decreases n,
{
    if n == 0 {
        Ok(empty_stack())
    } else {
        match parse_outcome(syntax, texts, (n - 1) as nat) {
            Err(e) => Err(e),
            Ok(st) => line_outcome(syntax, texts, n - 1, st),
        }
    }
}

/// The scope stack that the first `n` lines of `texts` leave.
pub open spec fn stack_after(syntax: Seq<char>, texts: Seq<Seq<char>>, n: nat) -> StackView {
    match parse_outcome(syntax, texts, n) {
        Ok(st) => st,
        Err(_) => empty_stack(),
    }
}

/// The scope changes the parser gives for line `i` of `texts`.
pub open spec fn line_ops(syntax: Seq<char>, texts: Seq<Seq<char>>, i: int) -> Seq<(usize, OpView)> {
    parsed_line(syntax, with_newlines(texts.take(i)), texts[i].push('\n')).unwrap()
}

/// The scope changes of the first `n` lines of `texts`, line by line.
pub open spec fn ops_history(syntax: Seq<char>, texts: Seq<Seq<char>>, n: int) -> Seq<
    Seq<(usize, OpView)>,
> {
    Seq::new(n as nat, |k: int| line_ops(syntax, texts, k))
}

/// The source line `line` is line `i` of `texts` as split with the syntax
/// `syntax`: built from its text and tokens, which spell it, and highlighted
/// with the scope changes the parser gives for it and the scope stack the
/// lines before it leave, from the regions the highlighter gives it with the
/// dark theme: the non-empty slices between the changes, each with the style
/// `region_styles` names.
pub open spec fn line_as_parsed(line: SourceLine, syntax: Seq<char>, texts: Seq<Seq<char>>, i: int) -> bool {
    let text = texts[i];
    let nl = text.push('\n');
    let ops = line_ops(syntax, texts, i);
    &&& line.built_from(text, line.tokens@)
    &&& token_text(line.tokens@) == text
    &&& exists|rs: Seq<(SyntaxStyle, String)>|
        region_texts(rs) == line_pieces(nl, op_positions(ops)) && region_style_seq(rs)
            == region_styles(dark_theme_key(), ops_history(syntax, texts, i), ops, nl)
            && #[trigger] line_highlighted_with(
            line,
            text,
            ops,
            stack_after(syntax, texts, i as nat),
            stack_after(syntax, texts, (i + 1) as nat),
            rs,
            COMMENT_SCOPE@,
        )
}

/// Once a line fails, the split of all the lines fails with its error.
proof fn lemma_outcome_err(syntax: Seq<char>, texts: Seq<Seq<char>>, m: nat, n: nat)
    requires
        m <= n,
        parse_outcome(syntax, texts, m) is Err,
    ensures
        parse_outcome(syntax, texts, n) == parse_outcome(syntax, texts, m),
    decreases n - m,
{
    if m < n {
        lemma_outcome_err(syntax, texts, m, (n - 1) as nat);
    }
}

/// Highlights `content` as the language of the file extension `extension`
/// (plain text when no syntax claims it), tabs expanded to four spaces, and
/// splits it into source lines, each built from its text and the highlighted
/// tokens of the line, which spell the line. A token is a comment when a
/// scope under `comment` is on the scope stack where it begins; the stack is
/// carried from line to line and moved by the scope changes the parser gives
/// for each line, so block comments span lines. Also gives the name of the
/// syntax used. It fails exactly as `parse_outcome` says.
pub fn parse_source(content: &str, extension: &str) -> (r: Result<(Vec<SourceLine>, String), ParseError>)
    ensures
        ({
            let syntax = chosen_syntax(extension@);
            let texts = lines_of(expand_tabs(content@));
            let outcome = parse_outcome(syntax, texts, texts.len());
            &&& (r is Ok) == (outcome is Ok)
            &&& r matches Err(e) ==> outcome == Err::<StackView, ParseError>(e)
            &&& r matches Ok((lines, name)) ==> {
                &&& name@ == syntax
                &&& lines@.len() == texts.len()
                &&& forall|i: int|
                    0 <= i < texts.len() ==> line_as_parsed(#[trigger] lines@[i], syntax, texts, i)
            }
        }),
{
    let expanded = replace_tabs(content);
    let lines = split_lines(expanded.as_str());
    let ghost syntax = chosen_syntax(extension@);
    let ghost texts = lines_of(expand_tabs(content@));

    let ss = load_syntax_set();
    let theme = load_dark_theme();
    proof {
        assert(ops_history(syntax, texts, 0) =~= Seq::<Seq<(usize, OpView)>>::empty());
    }

    let syn = match find_syntax_by_extension(&ss, extension) {
        Some(s) => s,
        None => find_syntax_plain_text(&ss),
    };
    let name = syntax_name(&syn);

    let highlighter = new_highlighter(&theme);
    let mut parser = start_parser(&syn);
    let mut highlighting = start_highlighting(&highlighter);

    let mut source_lines: Vec<SourceLine> = Vec::new();
    let mut scope_stack = ScopeStackModel::new();

    let mut i: usize = 0;
    while i < lines.len()
        invariant
            i <= lines.len(),
            strings_view(lines@) == texts,
            texts == lines_of(expand_tabs(content@)),
            syntax == chosen_syntax(extension@),
            name@ == syntax,
            parser.syntax() == syntax,
            parser.fed() == with_newlines(texts.take(i as int)),
            parse_outcome(syntax, texts, i as nat) == Ok::<StackView, ParseError>(scope_stack@),
            scan_lines(empty_stack(), highlighting.fed()) == Some(scope_stack@),
            source_lines@.len() == i,
            highlighting.theme() == dark_theme_key(),
            highlighter.theme() == dark_theme_key(),
            highlighting.fed() == ops_history(syntax, texts, i as int),
            forall|k: int|
                0 <= k < i ==> line_as_parsed(#[trigger] source_lines@[k], syntax, texts, k),
        decreases lines.len() - i,
    {
        let line = &lines[i];
        let mut line_nl = line.clone();
        push_char(&mut line_nl, '\n');
        let nl_chars = chars_of(line_nl.as_str());
        let ghost st = scope_stack@;
        proof {
            assert(nl_chars@ =~= line@.push('\n'));
            assert(line@.push('\n').drop_last() =~= line@);
            assert(strings_view(lines@)[i as int] == line@);
            assert(parse_outcome(syntax, texts, (i + 1) as nat) == line_outcome(syntax, texts, i as int, st));
            assert(with_newlines(texts.take(i + 1)) =~= with_newlines(texts.take(i as int)).push(line_nl@));
        }
        let nl_len = match checked_byte_len(&nl_chars) {
            Some(n) => n,
            None => {
                proof {
                    lemma_outcome_err(syntax, texts, (i + 1) as nat, texts.len());
                }
                return Err(ParseError::TooLong);
            },
        };

        let ops = match parser.parse_line(line_nl.as_str(), &ss) {
            Ok(ops) => ops,
            Err(_) => {
                proof {
                    lemma_outcome_err(syntax, texts, (i + 1) as nat, texts.len());
                }
                return Err(ParseError::Parsing);
            },
        };
        let ghost views = op_views(ops@);
        let mut positions: Vec<usize> = Vec::new();
        let mut j: usize = 0;
        while j < ops.len()
            invariant
                j <= ops@.len(),
                views == op_views(ops@),
                positions@ == op_positions(views.take(j as int)),
            decreases ops.len() - j,
        {
            positions.push(ops[j].0);
            j = j + 1;
            assert(positions@ =~= op_positions(views.take(j as int)));
        }
        assert(views.take(ops.len() as int) =~= views);
        if !positions_fit_line(&positions, &nl_chars) {
            proof {
                lemma_outcome_err(syntax, texts, (i + 1) as nat, texts.len());
            }
            return Err(ParseError::Parsing);
        }
        let ghost hfed = highlighting.fed();
        let regions = highlighting.highlight_regions(&ops, line_nl.as_str(), &highlighter);
        proof {
            lemma_lines_have_no_newline(expand_tabs(content@));
            assert forall|j: int| 0 <= j < line@.len() implies line@[j] != '\n' by {
                assert(texts[i as int][j] != '\n');
            }
            assert(highlighting.fed().drop_last() =~= hfed);
            assert(scan_lines(empty_stack(), highlighting.fed()) == scan_stack(st, views));
        }
        let source_line = match highlight_line(&mut scope_stack, line.as_str(), &ops, &regions, COMMENT_SCOPE) {
            Some(sl) => sl,
            None => {
                proof {
                    lemma_outcome_err(syntax, texts, (i + 1) as nat, texts.len());
                }
                return Err(ParseError::ScopeStack);
            },
        };
        let ghost prev_lines = source_lines@;
        source_lines.push(source_line);
        proof {
            assert(texts.take(i + 1) =~= texts.take(i as int).push(texts[i as int]));
            assert(line_ops(syntax, texts, i as int) == views);
            assert(stack_after(syntax, texts, i as nat) == st);
            assert(stack_after(syntax, texts, (i + 1) as nat) == scope_stack@);
            assert(highlighting.fed() =~= ops_history(syntax, texts, i + 1));
            assert(hfed == ops_history(syntax, texts, i as int));
            assert(line_highlighted_with(
                source_lines@[i as int],
                texts[i as int],
                views,
                st,
                scope_stack@,
                regions@,
                COMMENT_SCOPE@,
            ));
            assert(line_as_parsed(source_lines@[i as int], syntax, texts, i as int));
            assert forall|k: int| 0 <= k < i + 1 implies line_as_parsed(
                #[trigger] source_lines@[k],
                syntax,
                texts,
                k,
            ) by {
                if k < i {
                    assert(source_lines@[k] == prev_lines[k]);
                }
            }
        }
        i = i + 1;
    }
    proof {
        assert(texts.take(lines@.len() as int) =~= texts);
    }
    Ok((source_lines, name))
}

} // verus!
