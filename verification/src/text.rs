//! Character and string helpers that the rest of the library builds on.

use vstd::prelude::*;

verus! {

/// Number of bytes in the UTF-8 encoding of `c`.
pub open spec fn utf8_width(c: char) -> nat {
    let v = c as u32;
    if v < 0x80 {
        1
    } else if v < 0x800 {
        2
    } else if v < 0x10000 {
        3
    } else {
        4
    }
}

/// Number of bytes in the UTF-8 encoding of `s`.
pub open spec fn byte_len(s: Seq<char>) -> nat
    decreases s.len(),
{
    if s.len() == 0 {
        0
    } else {
        byte_len(s.drop_last()) + utf8_width(s.last())
    }
}

/// `utf8_width` is the length of the UTF-8 encoding of the character.
pub proof fn lemma_utf8_width(c: char)
    ensures
        utf8_width(c) == vstd::utf8::encode_scalar(c as u32).len(),
{
    vstd::utf8::char_is_scalar(c);
}

/// `byte_len` is the length of the UTF-8 encoding of the characters, which
/// is what `str::len` gives.
pub proof fn lemma_byte_len_is_utf8_len(s: Seq<char>)
    ensures
        byte_len(s) == vstd::utf8::encode_utf8(s).len(),
    decreases s.len(),
{
    if s.len() > 0 {
        let rest = s.drop_first();
        lemma_byte_len_is_utf8_len(rest);
        lemma_utf8_width(s[0]);
        let one = seq![s[0]];
        assert(s =~= one + rest);
        lemma_byte_len_concat(one, rest);
        assert(one.drop_last() =~= Seq::<char>::empty());
        assert(byte_len(Seq::<char>::empty()) == 0);
        assert(one.last() == s[0]);
        assert(byte_len(one) == byte_len(one.drop_last()) + utf8_width(one.last()));
        vstd::utf8::char_is_scalar(s[0]);
        assert(vstd::utf8::encode_utf8(s) == vstd::utf8::encode_scalar(s[0] as u32)
            + vstd::utf8::encode_utf8(rest));
    }
}

/// The UTF-8 length of `c`, the same value `char::len_utf8` gives.
pub fn char_width(c: char) -> (w: usize)
    ensures
        w == utf8_width(c),
{
    let v = c as u32;
    if v < 0x80 {
        1
    } else if v < 0x800 {
        2
    } else if v < 0x10000 {
        3
    } else {
        4
    }
}

/// The characters of `s`, in order.
pub fn chars_of(s: &str) -> (v: Vec<char>)
    ensures
        v@ == s@,
{
    let mut v: Vec<char> = Vec::new();
    for c in it: s.chars()
        invariant
            v@ == it.seq().take(it.index() as int),
    {
        v.push(c);
    }
    v
}


/// `c` has the Unicode White_Space property, which `char::is_whitespace`
/// tests: tab, line feed, vertical tab, form feed, carriage return, space,
/// next line, no-break space, ogham space mark, the spaces from en quad to
/// hair space, line and paragraph separator, narrow no-break space, medium
/// mathematical space and ideographic space.
pub open spec fn white_space(c: char) -> bool {
    let v = c as u32;
    ||| 0x09 <= v <= 0x0D
    ||| v == 0x20
    ||| v == 0x85
    ||| v == 0xA0
    ||| v == 0x1680
    ||| 0x2000 <= v <= 0x200A
    ||| v == 0x2028
    ||| v == 0x2029
    ||| v == 0x202F
    ||| v == 0x205F
    ||| v == 0x3000
}

/// What `char::is_alphanumeric` answers for `c`: whether it is Unicode
/// alphabetic or numeric.
pub uninterp spec fn alphanumeric(c: char) -> bool;

/// Whether `c` has the Unicode White_Space property.
pub fn is_whitespace(c: char) -> (b: bool)
    ensures
        b == white_space(c),
{
    let v = c as u32;
    (0x09 <= v && v <= 0x0D) || v == 0x20 || v == 0x85 || v == 0xA0 || v == 0x1680 || (0x2000
        <= v && v <= 0x200A) || v == 0x2028 || v == 0x2029 || v == 0x202F || v == 0x205F || v
        == 0x3000
}

/// Calls `char::is_alphanumeric`. The contract claims only that the answer is
/// the one `alphanumeric` names; which characters those are is not stated.
#[verifier::external_body]
pub(crate) fn is_alphanumeric(c: char) -> (b: bool)
    ensures
        b == alphanumeric(c),
{
    c.is_alphanumeric()
}

/// Calls `String::push`, which appends `c` to the end of `s`.
#[verifier::external_body]
pub(crate) fn push_char(s: &mut String, c: char)
    ensures
        final(s)@ == old(s)@.push(c),
{
    s.push(c);
}

/// The string made of the characters of `cs`.
pub fn string_from_chars(cs: &Vec<char>) -> (s: String)
    ensures
        s@ == cs@,
{
    let mut s = String::new();
    let mut i: usize = 0;
    while i < cs.len()
        invariant
            i <= cs.len(),
            s@ == cs@.take(i as int),
        decreases cs.len() - i,
    {
        push_char(&mut s, cs[i]);
        i = i + 1;
        assert(s@ =~= cs@.take(i as int));
    }
    assert(cs@.take(cs.len() as int) =~= cs@);
    s
}

/// Every character of `s` is white space (so `s.trim()` is empty).
pub open spec fn all_white(s: Seq<char>) -> bool {
    forall|i: int| 0 <= i < s.len() ==> white_space(#[trigger] s[i])
}

/// Number of white-space characters at the start of `s`.
pub open spec fn lead_white(s: Seq<char>) -> nat
    decreases s.len(),
{
    if s.len() > 0 && white_space(s[0]) {
        1 + lead_white(s.drop_first())
    } else {
        0
    }
}

/// `lead_white` is the length of the longest all-white prefix.
pub proof fn lemma_lead_white(s: Seq<char>, k: int)
    requires
        0 <= k <= s.len(),
        forall|j: int| 0 <= j < k ==> white_space(#[trigger] s[j]),
        k == s.len() || !white_space(s[k]),
    ensures
        lead_white(s) == k,
    decreases k,
{
    if k > 0 {
        let t = s.drop_first();
        assert forall|j: int| 0 <= j < k - 1 implies white_space(#[trigger] t[j]) by {
            assert(t[j] == s[j + 1]);
        }
        if k - 1 < t.len() {
            assert(t[k - 1] == s[k]);
        }
        lemma_lead_white(t, k - 1);
    }
}

/// Facts about `lead_white`: its prefix is all white, and it stops at a
/// character that is not.
pub proof fn lemma_lead_white_facts(s: Seq<char>)
    ensures
        lead_white(s) <= s.len(),
        forall|j: int| 0 <= j < lead_white(s) ==> white_space(#[trigger] s[j]),
        lead_white(s) < s.len() ==> !white_space(s[lead_white(s) as int]),
    decreases s.len(),
{
    if s.len() > 0 && white_space(s[0]) {
        let t = s.drop_first();
        lemma_lead_white_facts(t);
        assert forall|j: int| 0 <= j < lead_white(s) implies white_space(#[trigger] s[j]) by {
            if j > 0 {
                assert(s[j] == t[j - 1]);
            }
        }
        if lead_white(s) < s.len() {
            assert(s[lead_white(s) as int] == t[lead_white(t) as int]);
        }
    }
}

/// The number of white-space characters at the start of `cs`.
pub fn leading_white_count(cs: &Vec<char>) -> (k: usize)
    ensures
        k == lead_white(cs@),
{
    let mut k: usize = 0;
    while k < cs.len() && is_whitespace(cs[k])
        invariant
            k <= cs.len(),
            forall|j: int| 0 <= j < k ==> white_space(#[trigger] cs@[j]),
        decreases cs.len() - k,
    {
        k = k + 1;
    }
    proof {
        lemma_lead_white(cs@, k as int);
    }
    k
}

/// Whether every character of `cs` is white space.
pub fn all_whitespace(cs: &Vec<char>) -> (b: bool)
    ensures
        b == all_white(cs@),
{
    let k = leading_white_count(cs);
    proof {
        lemma_lead_white_facts(cs@);
    }
    k == cs.len()
}

/// Byte length of a prefix never exceeds that of the whole.
pub proof fn lemma_byte_len_prefix(s: Seq<char>, i: int)
    requires
        0 <= i <= s.len(),
    ensures
        byte_len(s.take(i)) <= byte_len(s),
    decreases s.len() - i,
{
    if i < s.len() {
        lemma_byte_len_prefix(s, i + 1);
        assert(s.take(i + 1).drop_last() =~= s.take(i));
    } else {
        assert(s.take(i) =~= s);
    }
}

/// Byte length of a concatenation is the sum of the byte lengths.
pub proof fn lemma_byte_len_concat(a: Seq<char>, b: Seq<char>)
    ensures
        byte_len(a + b) == byte_len(a) + byte_len(b),
    decreases b.len(),
{
    if b.len() == 0 {
        assert(a + b =~= a);
    } else {
        assert((a + b).drop_last() =~= a + b.drop_last());
        lemma_byte_len_concat(a, b.drop_last());
    }
}

/// The number of bytes in the UTF-8 encoding of the first `k` characters of `cs`.
pub fn prefix_bytes(cs: &Vec<char>, k: usize) -> (n: usize)
    requires
        k <= cs.len(),
        byte_len(cs@) <= usize::MAX,
    ensures
        n == byte_len(cs@.take(k as int)),
{
    let mut n: usize = 0;
    let mut i: usize = 0;
    while i < k
        invariant
            i <= k <= cs.len(),
            byte_len(cs@) <= usize::MAX,
            n == byte_len(cs@.take(i as int)),
        decreases k - i,
    {
        proof {
            assert(cs@.take(i + 1).drop_last() =~= cs@.take(i as int));
            lemma_byte_len_prefix(cs@, i + 1);
        }
        n = n + char_width(cs[i]);
        i = i + 1;
    }
    n
}


/// `l` without one trailing carriage return.
pub open spec fn strip_cr(l: Seq<char>) -> Seq<char> {
    if l.len() > 0 && l.last() == '\r' {
        l.drop_last()
    } else {
        l
    }
}

/// The lines of `s` from the line that begins at `start`, scanning at `i`:
/// lines end at `\n` (a `\r` before it is dropped too); a last line without
/// a line ending counts only when it is not empty.
pub open spec fn lines_from(s: Seq<char>, start: int, i: int) -> Seq<Seq<char>>
    decreases s.len() - i,
{
    if i >= s.len() {
        if start < s.len() {
            seq![s.subrange(start, s.len() as int)]
        } else {
            seq![]
        }
    } else if s[i] == '\n' {
        seq![strip_cr(s.subrange(start, i))] + lines_from(s, i + 1, i + 1)
    } else {
        lines_from(s, start, i + 1)
    }
}

/// The lines of `s`, as `str::lines` yields them.
pub open spec fn lines_of(s: Seq<char>) -> Seq<Seq<char>> {
    lines_from(s, 0, 0)
}

proof fn lemma_lines_from_no_newline(s: Seq<char>, start: int, i: int)
    requires
        0 <= start <= i <= s.len(),
        forall|k: int| start <= k < i ==> s[k] != '\n',
    ensures
        forall|j: int, k: int|
            0 <= j < lines_from(s, start, i).len() && 0 <= k < lines_from(s, start, i)[j].len()
                ==> #[trigger] lines_from(s, start, i)[j][k] != '\n',
    decreases s.len() - i,
{
    if i >= s.len() {
        assert forall|j: int, k: int|
            0 <= j < lines_from(s, start, i).len() && 0 <= k < lines_from(s, start, i)[j].len()
                implies #[trigger] lines_from(s, start, i)[j][k] != '\n' by {
            assert(lines_from(s, start, i)[j][k] == s[start + k]);
        }
    } else if s[i] == '\n' {
        lemma_lines_from_no_newline(s, i + 1, i + 1);
        let first = strip_cr(s.subrange(start, i));
        let rest = lines_from(s, i + 1, i + 1);
        assert(lines_from(s, start, i) == seq![first] + rest);
        assert forall|j: int, k: int|
            0 <= j < lines_from(s, start, i).len() && 0 <= k < lines_from(s, start, i)[j].len()
                implies #[trigger] lines_from(s, start, i)[j][k] != '\n' by {
            if j == 0 {
                assert(first[k] == s[start + k]);
            } else {
                assert(lines_from(s, start, i)[j] == rest[j - 1]);
            }
        }
    } else {
        lemma_lines_from_no_newline(s, start, i + 1);
        assert(lines_from(s, start, i) == lines_from(s, start, i + 1));
    }
}

/// No line that `lines_of` gives holds a `\n`.
pub proof fn lemma_lines_have_no_newline(s: Seq<char>)
    ensures
        forall|j: int, k: int|
            0 <= j < lines_of(s).len() && 0 <= k < lines_of(s)[j].len() ==> #[trigger] lines_of(
                s,
            )[j][k] != '\n',
{
    lemma_lines_from_no_newline(s, 0, 0);
}

/// The strings of `v` as character sequences.
pub open spec fn strings_view(v: Seq<String>) -> Seq<Seq<char>> {
    Seq::new(v.len(), |i: int| v[i]@)
}

/// The string made of the characters of `cs` from `lo` up to `hi`.
pub fn string_from_range(cs: &Vec<char>, lo: usize, hi: usize) -> (s: String)
    requires
        lo <= hi <= cs.len(),
    ensures
        s@ == cs@.subrange(lo as int, hi as int),
{
    let mut s = String::new();
    let mut i: usize = lo;
    while i < hi
        invariant
            lo <= i <= hi <= cs.len(),
            s@ == cs@.subrange(lo as int, i as int),
        decreases hi - i,
    {
        push_char(&mut s, cs[i]);
        i = i + 1;
        assert(s@ =~= cs@.subrange(lo as int, i as int));
    }
    s
}

/// The lines of `s`, split as `str::lines` splits them.
pub fn split_lines(s: &str) -> (lines: Vec<String>)
    ensures
        strings_view(lines@) == lines_of(s@),
{
    let cs = chars_of(s);
    let mut lines: Vec<String> = Vec::new();
    let mut start: usize = 0;
    let mut i: usize = 0;
    while i < cs.len()
        invariant
            cs@ == s@,
            start <= i <= cs.len(),
            strings_view(lines@) + lines_from(cs@, start as int, i as int) == lines_of(s@),
        decreases cs.len() - i,
    {
        if cs[i] == '\n' {
            let end = if i > start && cs[i - 1] == '\r' {
                i - 1
            } else {
                i
            };
            let line = string_from_range(&cs, start, end);
            assert(line@ == strip_cr(cs@.subrange(start as int, i as int)));
            let ghost before = strings_view(lines@);
            lines.push(line);
            assert(strings_view(lines@) =~= before.push(line@));
            assert(strings_view(lines@) + lines_from(cs@, i + 1, i + 1) =~= before
                + lines_from(cs@, start as int, i as int));
            start = i + 1;
        }
        i = i + 1;
    }
    if start < cs.len() {
        let line = string_from_range(&cs, start, cs.len());
        let ghost before = strings_view(lines@);
        lines.push(line);
        assert(strings_view(lines@) =~= before.push(line@));
        assert(strings_view(lines@) =~= before + lines_from(cs@, start as int, i as int));
    } else {
        assert(strings_view(lines@) =~= strings_view(lines@) + lines_from(
            cs@,
            start as int,
            i as int,
        ));
    }
    lines
}

/// `s` with every tab replaced by four spaces.
pub open spec fn expand_tabs(s: Seq<char>) -> Seq<char>
    decreases s.len(),
{
    if s.len() == 0 {
        seq![]
    } else if s.last() == '\t' {
        expand_tabs(s.drop_last()) + seq![' ', ' ', ' ', ' ']
    } else {
        expand_tabs(s.drop_last()).push(s.last())
    }
}

/// `s` with every tab replaced by four spaces.
pub fn replace_tabs(s: &str) -> (r: String)
    ensures
        r@ == expand_tabs(s@),
{
    let cs = chars_of(s);
    let mut r = String::new();
    let mut i: usize = 0;
    while i < cs.len()
        invariant
            cs@ == s@,
            i <= cs.len(),
            r@ == expand_tabs(cs@.take(i as int)),
        decreases cs.len() - i,
    {
        let c = cs[i];
        assert(cs@.take(i + 1).drop_last() =~= cs@.take(i as int));
        if c == '\t' {
            push_char(&mut r, ' ');
            push_char(&mut r, ' ');
            push_char(&mut r, ' ');
            push_char(&mut r, ' ');
        } else {
            push_char(&mut r, c);
        }
        i = i + 1;
        assert(r@ =~= expand_tabs(cs@.take(i as int)));
    }
    assert(cs@.take(cs.len() as int) =~= cs@);
    r
}

/// Whether `a` and `b` hold the same characters.
pub fn same_chars(a: &Vec<char>, b: &Vec<char>) -> (r: bool)
    ensures
        r == (a@ == b@),
{
    if a.len() != b.len() {
        return false;
    }
    let mut i: usize = 0;
    while i < a.len()
        invariant
            a@.len() == b@.len(),
            i <= a.len(),
            forall|k: int| 0 <= k < i ==> a@[k] == b@[k],
        decreases a.len() - i,
    {
        if a[i] != b[i] {
            return false;
        }
        i = i + 1;
    }
    assert(a@ =~= b@);
    true
}

/// Whether `s` begins with `prefix`.
pub fn starts_with_chars(s: &Vec<char>, prefix: &Vec<char>) -> (r: bool)
    ensures
        r == (prefix@.len() <= s@.len() && s@.take(prefix@.len() as int) == prefix@),
{
    if prefix.len() > s.len() {
        return false;
    }
    let mut i: usize = 0;
    while i < prefix.len()
        invariant
            prefix@.len() <= s@.len(),
            i <= prefix.len(),
            forall|k: int| 0 <= k < i ==> s@[k] == prefix@[k],
        decreases prefix.len() - i,
    {
        if s[i] != prefix[i] {
            assert(s@.take(prefix@.len() as int)[i as int] != prefix@[i as int]);
            return false;
        }
        i = i + 1;
    }
    assert(s@.take(prefix@.len() as int) =~= prefix@);
    true
}

} // verus!
