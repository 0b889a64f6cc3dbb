//! Source lines: what of a highlighted line is typed, what is skipped.

use vstd::prelude::*;
use crate::text::{
    all_white, all_whitespace, byte_len, char_width, chars_of, is_whitespace, lead_white,
    leading_white_count, lemma_byte_len_concat, lemma_byte_len_prefix, lemma_lead_white_facts,
    prefix_bytes,
    string_from_chars, string_from_range, white_space,
};

verus! {

/// What a source line holds, as far as typing goes.
#[derive(Debug, Clone, Copy, PartialEq, Eq, Structural)]
pub enum LineType {
    /// Code only: typed in full.
    Code,
    /// A comment only: skipped.
    Comment,
    /// Nothing but white space: skipped.
    Empty,
    /// Code followed by a comment: only the code is typed.
    Mixed,
}

/// A colour given by its red, green and blue components.
#[derive(Debug, Clone, Copy, PartialEq, Eq, Structural)]
pub struct Rgb {
    pub r: u8,
    pub g: u8,
    pub b: u8,
}

/// How a piece of highlighted text is drawn: its foreground colour and its
/// font modifiers.
#[derive(Debug, Clone, Copy, PartialEq, Eq, Structural, Default)]
pub struct TextStyle {
    pub fg: Option<Rgb>,
    pub bold: bool,
    pub italic: bool,
    pub underlined: bool,
}

/// A run of text that the highlighter drew in one style.
#[derive(Debug, Clone)]
pub struct Token {
    pub text: String,
    pub style: TextStyle,
    pub is_comment: bool,
}

/// One line of the source, split into the part the user types and the rest.
#[derive(Debug, Clone)]
pub struct SourceLine {
    pub raw: String,
    pub tokens: Vec<Token>,
    pub typeable_content: String,
    pub typeable_styles: Vec<TextStyle>,
    pub leading_whitespace: String,
    pub line_type: LineType,
    pub comment_suffix: Option<String>,
}

/// Total UTF-8 byte length of the texts of `ts`.
pub open spec fn token_bytes(ts: Seq<Token>) -> nat
    decreases ts.len(),
{
    if ts.len() == 0 {
        0
    } else {
        token_bytes(ts.drop_last()) + byte_len(ts.last().text@)
    }
}

/// The token is a comment, or holds nothing but white space.
pub open spec fn comment_or_blank(t: Token) -> bool {
    t.is_comment || all_white(t.text@)
}

/// Where the run of comment and blank tokens that ends the line begins: the
/// index of its first token (the number of tokens when the line ends in code).
pub open spec fn tail_start(ts: Seq<Token>) -> int
    decreases ts.len(),
{
    if ts.len() > 0 && comment_or_blank(ts.last()) {
        tail_start(ts.drop_last())
    } else {
        ts.len() as int
    }
}

/// Whether, after the tokens `ts`, the rest of the line is comment: some
/// comment token of `ts` starts at or after byte `lws` (the end of the
/// leading white space) and at or after index `tail`, so that only comments
/// and white space follow it on the line.
pub open spec fn in_comment_region(ts: Seq<Token>, lws: nat, tail: int) -> bool
    decreases ts.len(),
{
    ts.len() > 0 && (in_comment_region(ts.drop_last(), lws, tail) || (ts.last().is_comment
        && token_bytes(ts.drop_last()) >= lws && ts.len() - 1 >= tail))
}

/// The characters of `text` that lie at or after byte `lws` of the line, when
/// `text` starts at byte `start`.
pub open spec fn kept_chars(text: Seq<char>, start: nat, lws: nat) -> Seq<char>
    decreases text.len(),
{
    if text.len() == 0 {
        seq![]
    } else {
        let rest = kept_chars(text.drop_last(), start, lws);
        if start + byte_len(text.drop_last()) >= lws {
            rest.push(text.last())
        } else {
            rest
        }
    }
}

/// The code characters of the tokens `ts`: those of code tokens before the
/// comment region, leading white space left out.
pub open spec fn code_chars(ts: Seq<Token>, lws: nat, tail: int) -> Seq<char>
    decreases ts.len(),
{
    if ts.len() == 0 {
        seq![]
    } else {
        let p = ts.drop_last();
        let t = ts.last();
        if in_comment_region(ts, lws, tail) || t.is_comment {
            code_chars(p, lws, tail)
        } else {
            code_chars(p, lws, tail) + kept_chars(t.text@, token_bytes(p), lws)
        }
    }
}

/// The style of each character of `code_chars(ts, lws, tail)`.
pub open spec fn code_styles(ts: Seq<Token>, lws: nat, tail: int) -> Seq<TextStyle>
    decreases ts.len(),
{
    if ts.len() == 0 {
        seq![]
    } else {
        let p = ts.drop_last();
        let t = ts.last();
        if in_comment_region(ts, lws, tail) || t.is_comment {
            code_styles(p, lws, tail)
        } else {
            code_styles(p, lws, tail) + Seq::new(
                kept_chars(t.text@, token_bytes(p), lws).len(),
                |_j: int| t.style,
            )
        }
    }
}

/// The text of the comment region of `ts`.
pub open spec fn comment_chars(ts: Seq<Token>, lws: nat, tail: int) -> Seq<char>
    decreases ts.len(),
{
    if ts.len() == 0 {
        seq![]
    } else if in_comment_region(ts, lws, tail) {
        comment_chars(ts.drop_last(), lws, tail) + ts.last().text@
    } else {
        comment_chars(ts.drop_last(), lws, tail)
    }
}

/// Length of `s` without its trailing white space.
pub open spec fn trimmed_len(s: Seq<char>) -> nat
    decreases s.len(),
{
    if s.len() > 0 && white_space(s.last()) {
        trimmed_len(s.drop_last())
    } else {
        s.len()
    }
}

/// Some code token holds more than white space.
pub open spec fn has_code(ts: Seq<Token>) -> bool {
    exists|i: int| 0 <= i < ts.len() && !ts[i].is_comment && !all_white(#[trigger] ts[i].text@)
}

/// Some comment token holds more than white space.
pub open spec fn has_comment(ts: Seq<Token>) -> bool {
    exists|i: int| 0 <= i < ts.len() && ts[i].is_comment && !all_white(#[trigger] ts[i].text@)
}

/// The kind of a line with text `raw` and tokens `ts`.
pub open spec fn line_kind(raw: Seq<char>, ts: Seq<Token>) -> LineType {
    if all_white(raw) {
        LineType::Empty
    } else if has_code(ts) && has_comment(ts) {
        LineType::Mixed
    } else if has_code(ts) {
        LineType::Code
    } else if has_comment(ts) {
        LineType::Comment
    } else {
        LineType::Empty
    }
}

/// Whether lines of this kind are typed (code and mixed lines).
pub open spec fn is_typeable_kind(kind: LineType) -> bool {
    kind == LineType::Code || kind == LineType::Mixed
}

/// Byte length of the leading white space of `raw`.
pub open spec fn lead_white_bytes(raw: Seq<char>) -> nat {
    byte_len(raw.take(lead_white(raw) as int))
}

impl SourceLine {
    /// This line is the one built from the text `raw` and the tokens `ts`: the
    /// leading white space is set apart, the kind follows from which tokens
    /// hold more than white space, and a typed line keeps its code characters
    /// (without white space at either end) and their styles, with the comment
    /// region after them as suffix.
    pub open spec fn built_from(self, raw: Seq<char>, ts: Seq<Token>) -> bool {
        let lws = lead_white_bytes(raw);
        let tail = tail_start(ts);
        let kind = line_kind(raw, ts);
        let code = code_chars(ts, lws, tail);
        let n = trimmed_len(code);
        let comment = comment_chars(ts, lws, tail);
        &&& self.raw@ == raw
        &&& self.tokens@ == ts
        &&& self.leading_whitespace@ == raw.take(lead_white(raw) as int)
        &&& self.line_type == kind
        &&& if is_typeable_kind(kind) {
            &&& self.typeable_content@ == code.take(n as int).skip(lead_white(code.take(n as int)) as int)
            &&& self.typeable_styles@ == code_styles(ts, lws, tail).take(n as int).skip(
                lead_white(code.take(n as int)) as int,
            )
            &&& if comment.len() > 0 {
                self.comment_suffix matches Some(s) && s@ == comment
            } else {
                self.comment_suffix is None
            }
        } else {
            &&& self.typeable_content@ == Seq::<char>::empty()
            &&& self.typeable_styles@ == Seq::<TextStyle>::empty()
            &&& self.comment_suffix is None
        }
    }
}

proof fn lemma_token_bytes_prefix(ts: Seq<Token>, i: int)
    requires
        0 <= i <= ts.len(),
    ensures
        token_bytes(ts.take(i)) <= token_bytes(ts),
    decreases ts.len() - i,
{
    if i < ts.len() {
        lemma_token_bytes_prefix(ts, i + 1);
        assert(ts.take(i + 1).drop_last() =~= ts.take(i));
    } else {
        assert(ts.take(i) =~= ts);
    }
}

proof fn lemma_code_styles_len(ts: Seq<Token>, lws: nat, tail: int)
    ensures
        code_styles(ts, lws, tail).len() == code_chars(ts, lws, tail).len(),
    decreases ts.len(),
{
    if ts.len() > 0 {
        lemma_code_styles_len(ts.drop_last(), lws, tail);
    }
}

proof fn lemma_trimmed_len(s: Seq<char>)
    ensures
        trimmed_len(s) <= s.len(),
    decreases s.len(),
{
    if s.len() > 0 && white_space(s.last()) {
        lemma_trimmed_len(s.drop_last());
    }
}

/// Whether some token of `tokens` with the given comment flag holds more than
/// white space.
fn any_nonblank(tokens: &Vec<Token>, comment: bool) -> (b: bool)
    ensures
        b == exists|i: int|
            0 <= i < tokens@.len() && tokens@[i].is_comment == comment && !all_white(
                #[trigger] tokens@[i].text@,
            ),
{
    let mut i: usize = 0;
    while i < tokens.len()
        invariant
            i <= tokens.len(),
            forall|j: int|
                0 <= j < i && tokens@[j].is_comment == comment ==> all_white(
                    #[trigger] tokens@[j].text@,
                ),
        decreases tokens.len() - i,
    {
        let t = &tokens[i];
        if t.is_comment == comment {
            let cs = chars_of(t.text.as_str());
            if !all_whitespace(&cs) {
                return true;
            }
        }
        i = i + 1;
    }
    false
}

/// Where the run of comment and blank tokens that ends the line begins.
fn code_tail_start(tokens: &Vec<Token>) -> (t: usize)
    ensures
        t as int == tail_start(tokens@),
        t <= tokens@.len(),
{
    let mut t = tokens.len();
    assert(tokens@.take(t as int) =~= tokens@);
    loop
        invariant
            t <= tokens@.len(),
            tail_start(tokens@.take(t as int)) == tail_start(tokens@),
        ensures
            t <= tokens@.len(),
            tail_start(tokens@.take(t as int)) == tail_start(tokens@),
            tail_start(tokens@.take(t as int)) == t,
        decreases t,
    {
        if t == 0 {
            break;
        }
        let token = &tokens[t - 1];
        let blank = token.is_comment || all_whitespace(&chars_of(token.text.as_str()));
        assert(tokens@.take(t as int).last() == tokens@[t - 1]);
        assert(blank == comment_or_blank(tokens@[t - 1]));
        if !blank {
            break;
        }
        assert(tokens@.take(t as int).drop_last() =~= tokens@.take(t - 1));
        t = t - 1;
    }
    t
}

/// Splits the line `raw`, highlighted as `tokens`, into leading white space,
/// typed code and comment suffix, and classifies it.
pub fn build_source_line(raw: &str, tokens: Vec<Token>) -> (line: SourceLine)
    requires
        byte_len(raw@) <= usize::MAX,
        token_bytes(tokens@) <= usize::MAX,
    ensures
        line.built_from(raw@, tokens@),
        line.typeable_styles@.len() == line.typeable_content@.len(),
{
    let raw_chars = chars_of(raw);
    let k = leading_white_count(&raw_chars);
    proof {
        lemma_lead_white_facts(raw@);
    }
    let leading_ws_len = prefix_bytes(&raw_chars, k);
    let leading_whitespace = String::from_str(raw.substring_char(0, k));
    let ghost ts = tokens@;
    let ghost lws = lead_white_bytes(raw@);

    if k == raw_chars.len() {
        assert(all_white(raw@));
        return SourceLine {
            raw: String::from_str(raw),
            tokens,
            typeable_content: String::new(),
            typeable_styles: Vec::new(),
            leading_whitespace,
            line_type: LineType::Empty,
            comment_suffix: None,
        };
    }
    assert(!all_white(raw@));

    let has_code = any_nonblank(&tokens, false);
    let has_comment = any_nonblank(&tokens, true);
    assert(has_code == crate::source::has_code(ts));
    assert(has_comment == crate::source::has_comment(ts));

    let line_type = if has_code && has_comment {
        LineType::Mixed
    } else if has_code {
        LineType::Code
    } else if has_comment {
        LineType::Comment
    } else {
        LineType::Empty
    };

    match line_type {
        LineType::Comment | LineType::Empty => SourceLine {
            raw: String::from_str(raw),
            tokens,
            typeable_content: String::new(),
            typeable_styles: Vec::new(),
            leading_whitespace,
            line_type,
            comment_suffix: None,
        },
        LineType::Code | LineType::Mixed => {
            let mut code: Vec<char> = Vec::new();
            let mut styles: Vec<TextStyle> = Vec::new();
            let mut comment_part = String::new();
            let tail = code_tail_start(&tokens);
            let mut in_comment_region = false;
            let mut byte_pos: usize = 0;
            let mut i: usize = 0;
            while i < tokens.len()
                invariant
                    i <= tokens.len(),
                    ts == tokens@,
                    lws == leading_ws_len,
                    token_bytes(ts) <= usize::MAX,
                    byte_pos == token_bytes(ts.take(i as int)),
                    tail as int == tail_start(ts),
                    in_comment_region == crate::source::in_comment_region(
                        ts.take(i as int),
                        lws,
                        tail as int,
                    ),
                    code@ == code_chars(ts.take(i as int), lws, tail as int),
                    styles@ == code_styles(ts.take(i as int), lws, tail as int),
                    comment_part@ == comment_chars(ts.take(i as int), lws, tail as int),
                decreases tokens.len() - i,
            {
                let token = &tokens[i];
                let ghost prev = ts.take(i as int);
                let ghost next = ts.take(i + 1);
                assert(next.drop_last() =~= prev);
                assert(next.last() == ts[i as int]);
                proof {
                    lemma_token_bytes_prefix(ts, i + 1);
                }
                let text_chars = chars_of(token.text.as_str());
                let token_len = prefix_bytes(&text_chars, text_chars.len());
                assert(text_chars@.take(text_chars.len() as int) =~= text_chars@);

                if token.is_comment && byte_pos >= leading_ws_len && i >= tail {
                    in_comment_region = true;
                }
                if in_comment_region {
                    comment_part.append(token.text.as_str());
                } else if !token.is_comment {
                    let ghost base_code = code@;
                    let ghost base_styles = styles@;
                    let mut local: usize = byte_pos;
                    let mut j: usize = 0;
                    while j < text_chars.len()
                        invariant
                            j <= text_chars.len(),
                            text_chars@ == token.text@,
                            byte_pos + byte_len(text_chars@) <= usize::MAX,
                            local == byte_pos + byte_len(text_chars@.take(j as int)),
                            code@ == base_code + kept_chars(
                                text_chars@.take(j as int),
                                byte_pos as nat,
                                leading_ws_len as nat,
                            ),
                            styles@ == base_styles + Seq::new(
                                kept_chars(
                                    text_chars@.take(j as int),
                                    byte_pos as nat,
                                    leading_ws_len as nat,
                                ).len(),
                                |_x: int| token.style,
                            ),
                        decreases text_chars.len() - j,
                    {
                        let ch = text_chars[j];
                        let ghost t0 = text_chars@.take(j as int);
                        let ghost t1 = text_chars@.take(j + 1);
                        assert(t1.drop_last() =~= t0);
                        proof {
                            lemma_byte_len_prefix(text_chars@, j + 1);
                        }
                        if local >= leading_ws_len {
                            code.push(ch);
                            styles.push(token.style);
                        }
                        local = local + char_width(ch);
                        j = j + 1;
                        assert(code@ =~= base_code + kept_chars(
                            text_chars@.take(j as int),
                            byte_pos as nat,
                            leading_ws_len as nat,
                        ));
                        assert(styles@ =~= base_styles + Seq::new(
                            kept_chars(
                                text_chars@.take(j as int),
                                byte_pos as nat,
                                leading_ws_len as nat,
                            ).len(),
                            |_x: int| token.style,
                        ));
                    }
                }
                byte_pos = byte_pos + token_len;
                i = i + 1;
            }
            assert(ts.take(tokens.len() as int) =~= ts);

            proof {
                lemma_code_styles_len(ts, lws, tail as int);
            }
            let ghost full_code = code@;
            let ghost full_styles = styles@;
            while code.len() > 0 && is_whitespace(code[code.len() - 1])
                invariant
                    code@.len() == styles@.len(),
                    code@.len() <= full_code.len(),
                    code@ == full_code.take(code@.len() as int),
                    styles@ == full_styles.take(code@.len() as int),
                    full_styles.len() == full_code.len(),
                    trimmed_len(full_code) == trimmed_len(code@),
                decreases code.len(),
            {
                let ghost before = code@;
                code.pop();
                styles.pop();
                assert(before.drop_last() =~= code@);
                assert(code@ =~= full_code.take(code@.len() as int));
                assert(styles@ =~= full_styles.take(code@.len() as int));
            }
            assert(trimmed_len(code@) == code@.len());
            let start = leading_white_count(&code);
            proof {
                lemma_lead_white_facts(code@);
            }
            let typeable_content = string_from_range(&code, start, code.len());
            let styles = styles.split_off(start);
            assert(typeable_content@ =~= code@.skip(start as int));
            let comment_suffix = if comment_part.as_str().is_empty() {
                None
            } else {
                Some(comment_part)
            };
            SourceLine {
                raw: String::from_str(raw),
                tokens,
                typeable_content,
                typeable_styles: styles,
                leading_whitespace,
                line_type,
                comment_suffix,
            }
        },
    }
}


/// A colour of the highlighter's theme: red, green, blue and alpha.
#[derive(Debug, Clone, Copy, PartialEq, Eq, Structural)]
pub struct SyntaxColor {
    pub r: u8,
    pub g: u8,
    pub b: u8,
    pub a: u8,
}

/// A style the highlighter gives a piece of text: foreground and background
/// colours, and the font style as the highlighter's flag bits (`FONT_BOLD`,
/// `FONT_UNDERLINE`, `FONT_ITALIC`).
#[derive(Debug, Clone, Copy, PartialEq, Eq, Structural)]
pub struct SyntaxStyle {
    pub foreground: SyntaxColor,
    pub background: SyntaxColor,
    pub font_style: u8,
}

/// The font-style bit for bold text.
pub const FONT_BOLD: u8 = 1;

/// The font-style bit for underlined text.
pub const FONT_UNDERLINE: u8 = 2;

/// The font-style bit for italic text.
pub const FONT_ITALIC: u8 = 4;

/// The display style for the highlighter's style `s`: its foreground colour,
/// and each font-style flag as a modifier.
pub open spec fn style_of(s: SyntaxStyle) -> TextStyle {
    TextStyle {
        fg: Some(Rgb { r: s.foreground.r, g: s.foreground.g, b: s.foreground.b }),
        bold: s.font_style & FONT_BOLD == FONT_BOLD,
        italic: s.font_style & FONT_ITALIC == FONT_ITALIC,
        underlined: s.font_style & FONT_UNDERLINE == FONT_UNDERLINE,
    }
}

/// The display style for the highlighter's style `s`.
pub fn convert_style(s: &SyntaxStyle) -> (t: TextStyle)
    ensures
        t == style_of(*s),
{
    TextStyle {
        fg: Some(Rgb { r: s.foreground.r, g: s.foreground.g, b: s.foreground.b }),
        bold: s.font_style & FONT_BOLD == FONT_BOLD,
        italic: s.font_style & FONT_ITALIC == FONT_ITALIC,
        underlined: s.font_style & FONT_UNDERLINE == FONT_UNDERLINE,
    }
}

/// Total UTF-8 byte length of the texts of the regions `rs`.
pub open spec fn region_bytes(rs: Seq<(SyntaxStyle, String)>) -> nat
    decreases rs.len(),
{
    if rs.len() == 0 {
        0
    } else {
        region_bytes(rs.drop_last()) + byte_len(rs.last().1@)
    }
}

/// `s` without its trailing newlines.
pub open spec fn trim_newlines(s: Seq<char>) -> Seq<char>
    decreases s.len(),
{
    if s.len() > 0 && s.last() == '\n' {
        trim_newlines(s.drop_last())
    } else {
        s
    }
}

/// The tokens `ts` as (text, style, comment flag) triples.
pub open spec fn token_triples(ts: Seq<Token>) -> Seq<(Seq<char>, TextStyle, bool)> {
    Seq::new(ts.len(), |i: int| (ts[i].text@, ts[i].style, ts[i].is_comment))
}

/// The tokens made of the highlighted regions `rs` of a line of `line_len`
/// bytes: a region is a comment when the comment map marks its first byte;
/// a region that reaches the end of the line loses its trailing newlines;
/// regions left empty are dropped.
pub open spec fn merged_tokens(
    rs: Seq<(SyntaxStyle, String)>,
    map: Seq<bool>,
    line_len: nat,
) -> Seq<(Seq<char>, TextStyle, bool)>
    decreases rs.len(),
{
    if rs.len() == 0 {
        seq![]
    } else {
        let p = rs.drop_last();
        let (style, text) = rs.last();
        let pos = region_bytes(p);
        let is_comment = if pos < map.len() { map[pos as int] } else { false };
        let clean = if pos + byte_len(text@) >= line_len { trim_newlines(text@) } else { text@ };
        if clean.len() == 0 {
            merged_tokens(p, map, line_len)
        } else {
            merged_tokens(p, map, line_len).push((clean, style_of(style), is_comment))
        }
    }
}

proof fn lemma_trim_newlines_prefix(s: Seq<char>)
    ensures
        trim_newlines(s).len() <= s.len(),
        trim_newlines(s) == s.take(trim_newlines(s).len() as int),
    decreases s.len(),
{
    if s.len() > 0 && s.last() == '\n' {
        lemma_trim_newlines_prefix(s.drop_last());
        assert(s.drop_last().take(trim_newlines(s).len() as int) =~= s.take(
            trim_newlines(s).len() as int,
        ));
    } else {
        assert(s.take(s.len() as int) =~= s);
    }
}

proof fn lemma_region_bytes_prefix(rs: Seq<(SyntaxStyle, String)>, i: int)
    requires
        0 <= i <= rs.len(),
    ensures
        region_bytes(rs.take(i)) <= region_bytes(rs),
    decreases rs.len() - i,
{
    if i < rs.len() {
        lemma_region_bytes_prefix(rs, i + 1);
        assert(rs.take(i + 1).drop_last() =~= rs.take(i));
    } else {
        assert(rs.take(i) =~= rs);
    }
}

/// Total byte length of the texts of token triples.
pub open spec fn triple_bytes(ts: Seq<(Seq<char>, TextStyle, bool)>) -> nat
    decreases ts.len(),
{
    if ts.len() == 0 {
        0
    } else {
        triple_bytes(ts.drop_last()) + byte_len(ts.last().0)
    }
}

proof fn lemma_merged_bytes(rs: Seq<(SyntaxStyle, String)>, map: Seq<bool>, line_len: nat)
    ensures
        triple_bytes(merged_tokens(rs, map, line_len)) <= region_bytes(rs),
    decreases rs.len(),
{
    if rs.len() > 0 {
        let text = rs.last().1@;
        let p = rs.drop_last();
        lemma_merged_bytes(p, map, line_len);
        lemma_trim_newlines_prefix(text);
        lemma_byte_len_prefix(text, trim_newlines(text).len() as int);
        assert(text.take(text.len() as int) =~= text);
        let m = merged_tokens(p, map, line_len);
        let r = merged_tokens(rs, map, line_len);
        if r.len() != m.len() {
            assert(r.drop_last() =~= m);
        }
    }
}

proof fn lemma_token_bytes_of_triples(ts: Seq<Token>)
    ensures
        token_bytes(ts) == triple_bytes(token_triples(ts)),
    decreases ts.len(),
{
    if ts.len() > 0 {
        lemma_token_bytes_of_triples(ts.drop_last());
        assert(token_triples(ts.drop_last()) =~= token_triples(ts).drop_last());
    }
}

/// The texts of the regions `rs`, one after the other.
pub open spec fn region_text(rs: Seq<(SyntaxStyle, String)>) -> Seq<char>
    decreases rs.len(),
{
    if rs.len() == 0 {
        seq![]
    } else {
        region_text(rs.drop_last()) + rs.last().1@
    }
}

/// The texts of the tokens `ts`, one after the other.
pub open spec fn token_text(ts: Seq<Token>) -> Seq<char>
    decreases ts.len(),
{
    if ts.len() == 0 {
        seq![]
    } else {
        token_text(ts.drop_last()) + ts.last().text@
    }
}

/// The texts of token triples, one after the other.
spec fn triple_text(ts: Seq<(Seq<char>, TextStyle, bool)>) -> Seq<char>
    decreases ts.len(),
{
    if ts.len() == 0 {
        seq![]
    } else {
        triple_text(ts.drop_last()) + ts.last().0
    }
}

/// The byte length of regions is that of their texts put together.
pub proof fn lemma_region_bytes_text(rs: Seq<(SyntaxStyle, String)>)
    ensures
        region_bytes(rs) == byte_len(region_text(rs)),
    decreases rs.len(),
{
    if rs.len() > 0 {
        lemma_region_bytes_text(rs.drop_last());
        lemma_byte_len_concat(region_text(rs.drop_last()), rs.last().1@);
    }
}

/// Regions that end before byte `line_len` keep their texts whole.
proof fn lemma_merged_text_before_end(
    rs: Seq<(SyntaxStyle, String)>,
    map: Seq<bool>,
    line_len: nat,
)
    requires
        region_bytes(rs) < line_len,
    ensures
        triple_text(merged_tokens(rs, map, line_len)) == region_text(rs),
    decreases rs.len(),
{
    if rs.len() > 0 {
        let p = rs.drop_last();
        let text = rs.last().1@;
        lemma_merged_text_before_end(p, map, line_len);
        let m = merged_tokens(p, map, line_len);
        let r = merged_tokens(rs, map, line_len);
        if text.len() == 0 {
            assert(region_text(p) + text =~= region_text(p));
        } else {
            assert(r.drop_last() =~= m);
        }
    }
}

/// Regions that spell a line without `\n` followed by one `\n` give tokens
/// that spell the line.
proof fn lemma_merged_text(rs: Seq<(SyntaxStyle, String)>, map: Seq<bool>, raw: Seq<char>)
    requires
        region_text(rs) == raw.push('\n'),
        forall|i: int| 0 <= i < raw.len() ==> raw[i] != '\n',
    ensures
        triple_text(merged_tokens(rs, map, byte_len(raw) + 1)) == raw,
    decreases rs.len(),
{
    let len = byte_len(raw) + 1;
    if rs.len() == 0 {
        assert(region_text(rs).len() == 0);
    } else {
        let p = rs.drop_last();
        let t = rs.last().1@;
        lemma_region_bytes_text(rs);
        lemma_region_bytes_text(p);
        assert(raw.push('\n').drop_last() =~= raw);
        assert(byte_len(raw.push('\n')) == len);
        lemma_byte_len_concat(region_text(p), t);
        if t.len() == 0 {
            assert(region_text(p) =~= region_text(rs));
            lemma_merged_text(p, map, raw);
        } else {
            let k = region_text(p).len() as int;
            assert(k <= raw.len());
            assert(region_text(p) =~= raw.take(k)) by {
                assert forall|j: int| 0 <= j < k implies region_text(p)[j] == raw[j] by {
                    assert(region_text(rs)[j] == region_text(p)[j]);
                    assert(raw.push('\n')[j] == raw[j]);
                }
            }
            assert(t.drop_last() =~= raw.skip(k)) by {
                assert forall|j: int| 0 <= j < raw.len() - k implies t[j] == raw[k + j] by {
                    assert(region_text(rs)[k + j] == t[j]);
                    assert(raw.push('\n')[k + j] == raw[k + j]);
                }
            }
            assert(t.last() == '\n') by {
                assert(region_text(rs)[region_text(rs).len() - 1] == t[t.len() - 1]);
            }
            if raw.skip(k).len() > 0 {
                assert(raw.skip(k).last() == raw[raw.len() - 1]);
            }
            assert(trim_newlines(raw.skip(k)) == raw.skip(k));
            assert(trim_newlines(t) == raw.skip(k));
            lemma_merged_text_before_end(p, map, len);
            let m = merged_tokens(p, map, len);
            if raw.skip(k).len() == 0 {
                assert(raw.take(k) =~= raw);
            } else {
                assert(merged_tokens(rs, map, len).drop_last() =~= m);
                assert(raw.take(k) + raw.skip(k) =~= raw);
            }
        }
    }
}

proof fn lemma_token_text_of_triples(ts: Seq<Token>)
    ensures
        token_text(ts) == triple_text(token_triples(ts)),
    decreases ts.len(),
{
    if ts.len() > 0 {
        lemma_token_text_of_triples(ts.drop_last());
        assert(token_triples(ts.drop_last()) =~= token_triples(ts).drop_last());
    }
}

/// `cs` without its trailing newlines.
fn without_trailing_newlines(cs: &Vec<char>) -> (s: String)
    ensures
        s@ == trim_newlines(cs@),
{
    let mut n = cs.len();
    assert(cs@.take(n as int) =~= cs@);
    while n > 0 && cs[n - 1] == '\n'
        invariant
            n <= cs.len(),
            trim_newlines(cs@.take(n as int)) == trim_newlines(cs@),
        decreases n,
    {
        assert(cs@.take(n as int).drop_last() =~= cs@.take(n - 1));
        n = n - 1;
    }
    assert(cs@.take(0) =~= Seq::<char>::empty());
    let s = string_from_range(cs, 0, n);
    assert(s@ =~= cs@.take(n as int));
    s
}

/// Turns the highlighted regions `regions` of a line of `line_len` bytes
/// into tokens, a region being a comment when `comment_map` marks its first
/// byte.
pub fn merge_regions(
    regions: &Vec<(SyntaxStyle, String)>,
    comment_map: &Vec<bool>,
    line_len: usize,
) -> (tokens: Vec<Token>)
    requires
        region_bytes(regions@) <= usize::MAX,
    ensures
        token_triples(tokens@) == merged_tokens(regions@, comment_map@, line_len as nat),
        token_bytes(tokens@) <= region_bytes(regions@),
{
    let mut tokens: Vec<Token> = Vec::new();
    let mut pos: usize = 0;
    let mut i: usize = 0;
    while i < regions.len()
        invariant
            i <= regions.len(),
            region_bytes(regions@) <= usize::MAX,
            pos == region_bytes(regions@.take(i as int)),
            token_triples(tokens@) == merged_tokens(
                regions@.take(i as int),
                comment_map@,
                line_len as nat,
            ),
        decreases regions.len() - i,
    {
        let ghost prev = regions@.take(i as int);
        assert(regions@.take(i + 1).drop_last() =~= prev);
        assert(regions@.take(i + 1).last() == regions@[i as int]);
        proof {
            lemma_region_bytes_prefix(regions@, i + 1);
        }
        let (style, text) = &regions[i];
        let text_chars = chars_of(text.as_str());
        let text_len = prefix_bytes(&text_chars, text_chars.len());
        assert(text_chars@.take(text_chars.len() as int) =~= text_chars@);
        let token_is_comment = if pos < comment_map.len() {
            comment_map[pos]
        } else {
            false
        };
        let text_clean = if pos + text_len >= line_len {
            without_trailing_newlines(&text_chars)
        } else {
            string_from_range(&text_chars, 0, text_chars.len())
        };
        assert(text_chars@.subrange(0, text_chars@.len() as int) =~= text_chars@);
        if !text_clean.as_str().is_empty() {
            let ghost before = token_triples(tokens@);
            tokens.push(Token { text: text_clean, style: convert_style(style), is_comment: token_is_comment });
            assert(token_triples(tokens@) =~= before.push(
                (tokens@.last().text@, tokens@.last().style, tokens@.last().is_comment),
            ));
        }
        pos = pos + text_len;
        i = i + 1;
    }
    assert(regions@.take(regions.len() as int) =~= regions@);
    proof {
        lemma_merged_bytes(regions@, comment_map@, line_len as nat);
        lemma_token_bytes_of_triples(tokens@);
    }
    tokens
}


/// `m` with the slots from `lo` up to `hi` set to `v`.
pub open spec fn fill_seq(m: Seq<bool>, lo: int, hi: int, v: bool) -> Seq<bool> {
    Seq::new(m.len(), |k: int| if lo <= k < hi { v } else { m[k] })
}

/// Where the `k`-th segment of a line starts: at 0, then at each change
/// position in turn.
pub open spec fn segment_start(positions: Seq<usize>, k: int) -> int {
    if k == 0 {
        0
    } else {
        positions[k - 1] as int
    }
}

/// The comment map of a line of `len` bytes after the first `k` scope
/// changes: the bytes of each segment before the `i`-th change, from the
/// previous change up to it, take `flags[i]`, later segments overriding.
pub open spec fn comment_map_after(
    positions: Seq<usize>,
    flags: Seq<bool>,
    len: nat,
    k: int,
) -> Seq<bool>
    decreases k,
{
    if k <= 0 {
        Seq::new(len, |_i: int| false)
    } else {
        fill_seq(
            comment_map_after(positions, flags, len, k - 1),
            segment_start(positions, k - 1),
            positions[k - 1] as int,
            flags[k - 1],
        )
    }
}

/// The comment map of a line of `len` bytes with scope changes at
/// `positions`: `flags[i]` tells whether the scope in force before the
/// `i`-th change is a comment, and the last flag whether the scope after the
/// last change is; the bytes from the last change to the end take it.
pub open spec fn comment_map_of(positions: Seq<usize>, flags: Seq<bool>, len: nat) -> Seq<bool> {
    let n = positions.len() as int;
    fill_seq(
        comment_map_after(positions, flags, len, n),
        segment_start(positions, n),
        len as int,
        flags[n],
    )
}

/// Sets the slots of `map` from `lo` up to `hi` (bounded by its length) to `v`.
fn fill(map: &mut Vec<bool>, lo: usize, hi: usize, v: bool)
    ensures
        final(map)@ == fill_seq(old(map)@, lo as int, hi as int, v),
{
    let ghost orig = map@;
    let end = if hi < map.len() {
        hi
    } else {
        map.len()
    };
    let mut k = lo;
    while k < end
        invariant
            end <= map@.len(),
            map@.len() == orig.len(),
            lo <= k,
            k == lo || k <= end,
            forall|j: int|
                0 <= j < map@.len() ==> #[trigger] map@[j] == if lo <= j < k {
                    v
                } else {
                    orig[j]
                },
        decreases end - k,
    {
        map.set(k, v);
        k = k + 1;
    }
    assert forall|j: int| 0 <= j < map@.len() implies map@[j] == (if lo <= j < hi {
        v
    } else {
        orig[j]
    }) by {
        if lo <= j < hi {
            assert(j < end);
        }
    }
    assert(map@ =~= fill_seq(orig, lo as int, hi as int, v));
}

/// The comment map of a line of `len` bytes: which bytes lie in a comment,
/// given the positions of the scope changes and, for each segment between
/// them, whether its scope is a comment.
pub fn build_comment_map(positions: &Vec<usize>, flags: &Vec<bool>, len: usize) -> (map: Vec<bool>)
    requires
        flags@.len() == positions@.len() + 1,
    ensures
        map@ == comment_map_of(positions@, flags@, len as nat),
{
    let mut map: Vec<bool> = Vec::new();
    let mut m: usize = 0;
    while m < len
        invariant
            m <= len,
            map@ == Seq::new(m as nat, |_i: int| false),
        decreases len - m,
    {
        map.push(false);
        m = m + 1;
        assert(map@ =~= Seq::new(m as nat, |_i: int| false));
    }
    let mut last_pos: usize = 0;
    let mut k: usize = 0;
    while k < positions.len()
        invariant
            k <= positions.len(),
            flags@.len() == positions@.len() + 1,
            last_pos as int == segment_start(positions@, k as int),
            map@ == comment_map_after(positions@, flags@, len as nat, k as int),
        decreases positions.len() - k,
    {
        let pos = positions[k];
        fill(&mut map, last_pos, pos, flags[k]);
        last_pos = pos;
        k = k + 1;
    }
    fill(&mut map, last_pos, len, flags[positions.len()]);
    map
}


/// The tokens `ts` of the line `raw` are made, as `merge_regions` makes them,
/// of some styled regions that spell the line and its newline, with comment
/// flags read from a comment map built from some segment positions and flags.
/// Which regions and flags those are is left open here.
pub open spec fn tokens_from_highlighting(ts: Seq<Token>, raw: Seq<char>) -> bool {
    let len = byte_len(raw) + 1;
    exists|rs: Seq<(SyntaxStyle, String)>, ps: Seq<usize>, fs: Seq<bool>|
        #![trigger merged_tokens(rs, comment_map_of(ps, fs, len), len)]
        fs.len() == ps.len() + 1 && region_text(rs) == raw.push('\n') && token_triples(ts)
            == merged_tokens(rs, comment_map_of(ps, fs, len), len)
}

/// The tokens that highlighting a line without `\n` gives spell the line:
/// no character is lost or added, only the newline is dropped.
pub proof fn lemma_highlighted_tokens_spell_line(ts: Seq<Token>, raw: Seq<char>)
    requires
        tokens_from_highlighting(ts, raw),
        forall|i: int| 0 <= i < raw.len() ==> raw[i] != '\n',
    ensures
        token_text(ts) == raw,
{
    let len = byte_len(raw) + 1;
    let (rs, ps, fs) = choose|rs: Seq<(SyntaxStyle, String)>, ps: Seq<usize>, fs: Seq<bool>|
        #![trigger merged_tokens(rs, comment_map_of(ps, fs, len), len)]
        fs.len() == ps.len() + 1 && region_text(rs) == raw.push('\n') && token_triples(ts)
            == merged_tokens(rs, comment_map_of(ps, fs, len), len);
    lemma_merged_text(rs, comment_map_of(ps, fs, len), raw);
    lemma_token_text_of_triples(ts);
}

} // verus!
