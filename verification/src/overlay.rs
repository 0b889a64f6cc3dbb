//! How the characters of a line to type are shown over the source.

use vstd::prelude::*;
use crate::source::TextStyle;

verus! {

/// How one character of a line to type is shown.
#[derive(Debug, Clone, Copy, PartialEq, Eq, Structural)]
pub enum CharMark {
    /// Typed right: the character in its highlight colour.
    Correct,
    /// Typed wrong: the character that was typed, marked as a mistake.
    Wrong,
    /// Under the cursor: the expected character, reversed.
    Cursor,
    /// Not typed yet: the expected character, dimmed.
    Pending,
}

/// One character of the overlay: the character shown, the highlight style of
/// its column, and how it is marked.
#[derive(Debug, Clone, Copy, PartialEq, Eq, Structural)]
pub struct OverlayChar {
    pub ch: char,
    pub style: TextStyle,
    pub mark: CharMark,
}

/// The style of text that has no highlight style.
pub open spec fn plain_style() -> TextStyle {
    TextStyle { fg: None, bold: false, italic: false, underlined: false }
}

/// The overlay of column `i` of a line whose content to type is `content`,
/// with highlight styles `styles` and typed slots `row`; `cursor` is the
/// column of the cursor when it is on this line. A typed slot shows what was
/// typed, right or wrong; an empty one shows the expected character, under
/// the cursor or dimmed.
pub open spec fn overlay_char(
    content: Seq<char>,
    styles: Seq<TextStyle>,
    row: Seq<Option<char>>,
    cursor: Option<int>,
    i: int,
) -> OverlayChar {
    let style = if i < styles.len() {
        styles[i]
    } else {
        plain_style()
    };
    if i < row.len() && row[i] is Some {
        let t = row[i]->0;
        if t == content[i] {
            OverlayChar { ch: t, style, mark: CharMark::Correct }
        } else {
            OverlayChar { ch: t, style, mark: CharMark::Wrong }
        }
    } else if cursor == Some(i) {
        OverlayChar { ch: content[i], style, mark: CharMark::Cursor }
    } else {
        OverlayChar { ch: content[i], style, mark: CharMark::Pending }
    }
}

} // verus!
