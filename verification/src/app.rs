//! The typing session: which line and column the user is at, what was typed,
//! and the statistics that go with it.

use std::time::Instant;
use vstd::prelude::*;
use crate::source::{is_typeable_kind, LineType, SourceLine};
use crate::stats::{clock_now, nanos_since, LineStats, Stats};
use crate::overlay::{overlay_char, CharMark, OverlayChar};
use crate::source::TextStyle;
use crate::text::{alphanumeric, chars_of, is_alphanumeric};

verus! {

/// `c` is an ASCII letter or digit.
pub open spec fn ascii_alphanumeric(c: char) -> bool {
    ('a' <= c <= 'z') || ('A' <= c <= 'Z') || ('0' <= c <= '9')
}

/// Whether `c` belongs to a word for word deletion: alphanumeric or `_`. An
/// ASCII character is alphanumeric when it is a letter or a digit; another
/// one when `char::is_alphanumeric` says so.
pub open spec fn word_char(c: char) -> bool {
    if (c as u32) < 0x80 {
        ascii_alphanumeric(c) || c == '_'
    } else {
        alphanumeric(c)
    }
}

/// Returns true if the character is part of a word (alphanumeric or `_`).
pub fn is_word_char(c: char) -> (b: bool)
    ensures
        b == word_char(c),
{
    if (c as u32) < 0x80 {
        ('a' <= c && c <= 'z') || ('A' <= c && c <= 'Z') || ('0' <= c && c <= '9') || c == '_'
    } else {
        is_alphanumeric(c)
    }
}

/// The word characters among ASCII are exactly the letters, the digits and
/// `_`: punctuation such as `,` `.` `;` `(` `"` and white space never belong
/// to a word.
pub proof fn lemma_ascii_word_chars(c: char)
    requires
        (c as u32) < 0x80,
    ensures
        word_char(c) <==> (('a' <= c <= 'z') || ('A' <= c <= 'Z') || ('0' <= c <= '9') || c == '_'),
{
}

/// Ctrl+W right after a character that is neither a space nor a word
/// character (such as `,` or `(`) deletes exactly that character.
pub proof fn lemma_ctrl_w_after_special(e: Seq<char>, col: int)
    requires
        0 < col <= e.len(),
        e[col - 1] != ' ',
        !word_char(e[col - 1]),
    ensures
        word_start(e, col) == col - 1,
{
}

/// Ctrl+W right after an ASCII character other than a space, a letter, a
/// digit or `_` deletes exactly that character.
pub proof fn lemma_ctrl_w_after_ascii_punctuation(e: Seq<char>, col: int)
    requires
        0 < col <= e.len(),
        (e[col - 1] as u32) < 0x80,
        e[col - 1] != ' ',
        !(('a' <= e[col - 1] <= 'z') || ('A' <= e[col - 1] <= 'Z') || ('0' <= e[col - 1] <= '9')
            || e[col - 1] == '_'),
    ensures
        word_start(e, col) == col - 1,
{
    lemma_ascii_word_chars(e[col - 1]);
}

/// Line `i` of `lines` is one the user types (code or mixed).
pub open spec fn typeable(lines: Seq<SourceLine>, i: int) -> bool {
    0 <= i < lines.len() && is_typeable_kind(lines[i].line_type)
}

/// The characters to type on line `i`.
pub open spec fn expected(lines: Seq<SourceLine>, i: int) -> Seq<char> {
    lines[i].typeable_content@
}

/// `j` is the first typeable line after line `from`.
pub open spec fn next_typeable(lines: Seq<SourceLine>, from: int, j: int) -> bool {
    &&& from < j
    &&& typeable(lines, j)
    &&& forall|k: int| from < k < j ==> !typeable(lines, k)
}

/// Number of typeable lines among the first `n` of `lines`.
pub open spec fn count_typeable(lines: Seq<SourceLine>, n: int) -> nat
    decreases n,
{
    if n <= 0 {
        0
    } else if typeable(lines, n - 1) {
        count_typeable(lines, n - 1) + 1
    } else {
        count_typeable(lines, n - 1)
    }
}

/// The typed characters as sequences.
pub open spec fn rows_view(rows: Seq<Vec<Option<char>>>) -> Seq<Seq<Option<char>>> {
    Seq::new(rows.len(), |i: int| rows[i]@)
}

/// `row` with the slots from `lo` up to `hi` cleared.
pub open spec fn clear_range(row: Seq<Option<char>>, lo: int, hi: int) -> Seq<Option<char>> {
    Seq::new(row.len(), |i: int| if lo <= i < hi { None } else { row[i] })
}

/// The column left of the spaces that end at `col` in `e`.
pub open spec fn skip_spaces(e: Seq<char>, col: int) -> int
    decreases col,
{
    if col > 0 && e[col - 1] == ' ' {
        skip_spaces(e, col - 1)
    } else {
        col
    }
}

/// The column left of the word characters that end at `col` in `e`.
pub open spec fn skip_word(e: Seq<char>, col: int) -> int
    decreases col,
{
    if col > 0 && word_char(e[col - 1]) {
        skip_word(e, col - 1)
    } else {
        col
    }
}

/// Where deleting one word back from column `col` of the line `e` ends: the
/// spaces before `col` go, then either a run of word characters or one other
/// character.
pub open spec fn word_start(e: Seq<char>, col: int) -> int {
    let k = skip_spaces(e, col);
    if k <= 0 {
        0
    } else if word_char(e[k - 1]) {
        skip_word(e, k)
    } else {
        k - 1
    }
}

/// The first line to type when starting at 0-based line `start`: `start`
/// itself or the first typeable line after it, or none.
pub open spec fn first_typeable_from(lines: Seq<SourceLine>, start: int, j: int) -> bool {
    &&& start <= j
    &&& typeable(lines, j)
    &&& forall|k: int| start <= k < j ==> !typeable(lines, k)
}

/// A key of a key press, as far as the session tells keys apart.
#[derive(Debug, Clone, Copy, PartialEq, Eq, Structural)]
pub enum Key {
    Char(char),
    Enter,
    Backspace,
    Up,
    Down,
    Left,
    Right,
    Home,
    End,
    Esc,
    Other,
}

/// A key press: the key, and whether Control was the only modifier held.
#[derive(Debug, Clone, Copy, PartialEq, Eq, Structural)]
pub struct KeyPress {
    pub key: Key,
    pub ctrl: bool,
}

/// The key press ends the session: Ctrl+C or Ctrl+Q at any time, and Esc
/// once the session is finished (on the results screen).
pub open spec fn is_quit(k: KeyPress, finished: bool) -> bool {
    ||| k.ctrl && (k.key == Key::Char('c') || k.key == Key::Char('q'))
    ||| finished && k.key == Key::Esc
}

/// In line selection, the key moves the selection down: `j`, `l`, Down, Right.
pub open spec fn is_select_down(k: Key) -> bool {
    k == Key::Char('j') || k == Key::Char('l') || k == Key::Down || k == Key::Right
}

/// In line selection, the key moves the selection up: `k`, `h`, Up, Left.
pub open spec fn is_select_up(k: Key) -> bool {
    k == Key::Char('k') || k == Key::Char('h') || k == Key::Up || k == Key::Left
}

/// In line selection, the key jumps to the first line: `g`, Home.
pub open spec fn is_select_first(k: Key) -> bool {
    k == Key::Char('g') || k == Key::Home
}

/// In line selection, the key jumps to the last line: `G`, End.
pub open spec fn is_select_last(k: Key) -> bool {
    k == Key::Char('G') || k == Key::End
}

/// The 0-based index of the 1-based line number `start_line`, 0 counting as 1.
pub open spec fn start_index(start_line: usize) -> int {
    if start_line == 0 {
        0
    } else {
        start_line - 1
    }
}

/// Whether the user types, or first picks the line to start at.
#[derive(Debug, Clone, Copy, PartialEq, Eq, Structural)]
pub enum Mode {
    Typing,
    Selecting,
}

/// A typing session over a source file.
pub struct App {
    pub source_lines: Vec<SourceLine>,
    pub current_line: usize,
    pub current_col: usize,
    pub typed_chars: Vec<Vec<Option<char>>>,
    pub stats: Stats,
    pub scroll_offset: usize,
    pub finished: bool,
    pub syntax_name: String,
    pub line_stats: Vec<Option<LineStats>>,
    /// When the current line was started; `None` until its first keystroke.
    pub line_start: Option<Instant>,
    /// Keystrokes on the current line since it was started.
    pub line_keystrokes: usize,
    /// Correct keystrokes on the current line since it was started.
    pub line_correct: usize,
    /// Keystrokes, correct keystrokes and typing time when the current line
    /// was entered.
    pub stats_at_line_start: (usize, usize, u128),
    pub quiet: bool,
    pub wpm_mode: bool,
    pub mode: Mode,
    pub select_cursor: usize,
}

/// The state of a session as mathematical values.
pub struct AppView {
    pub lines: Seq<SourceLine>,
    pub current_line: int,
    pub current_col: int,
    pub typed: Seq<Seq<Option<char>>>,
    pub stats: Stats,
    pub scroll_offset: int,
    pub finished: bool,
    pub syntax_name: Seq<char>,
    pub line_stats: Seq<Option<LineStats>>,
    /// When the current line was started; `None` until its first keystroke.
    pub line_start: Option<Instant>,
    /// Keystrokes on the current line since it was started.
    pub line_keystrokes: int,
    /// Correct keystrokes on the current line since it was started.
    pub line_correct: int,
    /// Keystrokes, correct keystrokes and typing time when the current line
    /// was entered.
    pub stats_at_line_start: (int, int, int),
    pub quiet: bool,
    pub wpm_mode: bool,
    pub mode: Mode,
    pub select_cursor: int,
}

impl View for App {
    type V = AppView;

    open spec fn view(&self) -> AppView {
        AppView {
            lines: self.source_lines@,
            current_line: self.current_line as int,
            current_col: self.current_col as int,
            typed: rows_view(self.typed_chars@),
            stats: self.stats,
            scroll_offset: self.scroll_offset as int,
            finished: self.finished,
            syntax_name: self.syntax_name@,
            line_stats: self.line_stats@,
            line_start: self.line_start,
            line_keystrokes: self.line_keystrokes as int,
            line_correct: self.line_correct as int,
            stats_at_line_start: (
                self.stats_at_line_start.0 as int,
                self.stats_at_line_start.1 as int,
                self.stats_at_line_start.2 as int,
            ),
            quiet: self.quiet,
            wpm_mode: self.wpm_mode,
            mode: self.mode,
            select_cursor: self.select_cursor as int,
        }
    }
}

impl AppView {
    /// The column of the cursor when it is shown on line `i`: on the current
    /// line of a session that runs.
    pub open spec fn cursor_on(self, i: int) -> Option<int> {
        if i == self.current_line && !self.finished {
            Some(self.current_col)
        } else {
            None
        }
    }

    /// The overlay of column `col` of line `i`.
    pub open spec fn overlay_at(self, i: int, col: int) -> OverlayChar {
        overlay_char(
            expected(self.lines, i),
            self.lines[i].typeable_styles@,
            self.typed[i],
            self.cursor_on(i),
            col,
        )
    }

    /// The characters to type on the current line.
    pub open spec fn current_expected(self) -> Seq<char> {
        expected(self.lines, self.current_line)
    }

    /// Every typed slot of the current line holds the expected character.
    pub open spec fn current_line_matches(self) -> bool {
        let row = self.typed[self.current_line];
        forall|i: int| 0 <= i < row.len() ==> row[i] == Some(#[trigger] self.current_expected()[i])
    }

    /// A keystroke would be taken: the session runs and the line is not full.
    pub open spec fn takes_keystroke(self) -> bool {
        !self.finished && self.current_col < self.current_expected().len()
    }

    /// The session is consistent: one row of slots per line, as long as the
    /// line's typed content; while not finished the cursor is on a typeable
    /// line and exactly the slots left of it are filled; no line after the
    /// cursor has been typed on; correct keystrokes never exceed keystrokes;
    /// while the start line is being selected nothing has been typed; while
    /// the current line is not started, the clock is paused and the counts
    /// are those of the snapshot taken when the line was entered.
    pub open spec fn wf(self) -> bool {
        let lines = self.lines;
        let rows = self.typed;
        &&& rows.len() == lines.len()
        &&& forall|i: int| 0 <= i < lines.len() ==> (#[trigger] rows[i]).len() == expected(lines, i).len()
        &&& self.line_stats.len() == lines.len()
        &&& 0 <= self.current_line
        &&& 0 <= self.current_col
        &&& !self.finished ==> {
            &&& typeable(lines, self.current_line)
            &&& self.current_col <= self.current_expected().len()
            &&& forall|j: int|
                0 <= j < rows[self.current_line].len() ==> ((
                #[trigger] rows[self.current_line][j]) is Some <==> j < self.current_col)
            &&& self.line_start is None ==> self.current_col == 0
        }
        &&& forall|i: int, j: int|
            self.current_line < i < lines.len() && 0 <= j < rows[i].len() ==> (
            #[trigger] rows[i][j]) is None
        &&& self.stats.correct_keystrokes <= self.stats.total_keystrokes
        &&& 0 <= self.line_correct <= self.line_keystrokes <= self.stats.total_keystrokes
        &&& 0 <= self.stats_at_line_start.1 <= self.stats_at_line_start.0 <= usize::MAX
        &&& 0 <= self.stats_at_line_start.2 <= u128::MAX
        &&& 0 <= self.select_cursor
        &&& self.mode == Mode::Selecting ==> self.untouched()
        &&& self.line_start is None ==> self.at_line_snapshot()
    }

    /// The clock is paused and the counts and typing time are those of the
    /// snapshot taken when the current line was entered.
    pub open spec fn at_line_snapshot(self) -> bool {
        &&& self.stats.resume_time is None
        &&& self.stats_at_line_start == (
            self.stats.total_keystrokes as int,
            self.stats.correct_keystrokes as int,
            self.stats.accumulated_nanos as int,
        )
    }

    /// Nothing has been typed yet: every slot is empty, the cursor is at the
    /// start of its line, and the line is not started.
    pub open spec fn untouched(self) -> bool {
        &&& self.current_col == 0
        &&& self.line_start is None
        &&& forall|i: int, j: int|
            0 <= i < self.typed.len() && 0 <= j < self.typed[i].len() ==> (
            #[trigger] self.typed[i][j]) is None
    }

    /// `self` is `before` with the cursor moved back to a column not past
    /// `col0` and the slots from there up to `col0` cleared.
    pub open spec fn cleared_back_to(self, before: AppView, col0: int) -> bool {
        &&& 0 <= self.current_col <= col0
        &&& self == AppView {
            current_col: self.current_col,
            typed: before.typed.update(
                before.current_line,
                clear_range(before.typed[before.current_line], self.current_col, col0),
            ),
            ..before
        }
    }

    /// The cursor was put for a start at 0-based line `start`: on the first
    /// typeable line from there on, or, with none, the session is finished
    /// with the cursor left at `start`.
    pub open spec fn placed_at(self, start: int) -> bool {
        if exists|j: int| first_typeable_from(self.lines, start, j) {
            &&& !self.finished
            &&& first_typeable_from(self.lines, start, self.current_line)
        } else {
            &&& self.finished
            &&& self.current_line == start
        }
    }

    /// The fields that no typing operation changes are those of `old`.
    pub open spec fn same_frame(self, old: AppView) -> bool {
        &&& self.lines == old.lines
        &&& self.syntax_name == old.syntax_name
        &&& self.scroll_offset == old.scroll_offset
        &&& self.quiet == old.quiet
        &&& self.wpm_mode == old.wpm_mode
        &&& self.mode == old.mode
        &&& self.select_cursor == old.select_cursor
    }

    /// The bookkeeping of the current line is that of `old`.
    pub open spec fn same_line_record(self, old: AppView) -> bool {
        &&& self.line_start == old.line_start
        &&& self.line_keystrokes == old.line_keystrokes
        &&& self.line_correct == old.line_correct
        &&& self.stats_at_line_start == old.stats_at_line_start
    }

    /// `self` is `old` after moving to the next typeable line, or, when there
    /// is none, after finishing with the cursor left where it was.
    pub open spec fn advanced_from(self, old: AppView) -> bool {
        if exists|j: int| next_typeable(old.lines, old.current_line, j) {
            &&& next_typeable(old.lines, old.current_line, self.current_line)
            &&& self.current_col == 0
            &&& self.finished == old.finished
        } else {
            &&& self.finished
            &&& self.current_line == old.current_line
            &&& self.current_col == old.current_col
        }
    }

    /// What typing `c` does: on a running session with room on the line, the
    /// character fills the slot at the cursor, the cursor moves right and the
    /// keystroke is counted (as correct when it is the expected character);
    /// the first keystroke of a line starts it, taking a snapshot of the
    /// counts and time; otherwise nothing changes.
    pub open spec fn type_char_post(old: AppView, new: AppView, c: char) -> bool {
        if !old.takes_keystroke() {
            new == old
        } else {
            let line = old.current_line;
            let col = old.current_col;
            let hit: int = if c == old.current_expected()[col] { 1 } else { 0 };
            &&& new.same_frame(old)
            &&& new.current_line == line
            &&& new.current_col == col + 1
            &&& new.finished == old.finished
            &&& new.typed == old.typed.update(line, old.typed[line].update(col, Some(c)))
            &&& new.line_stats == old.line_stats
            &&& new.stats.total_keystrokes == old.stats.total_keystrokes + 1
            &&& new.stats.correct_keystrokes == old.stats.correct_keystrokes + hit
            &&& new.stats.accumulated_nanos == old.stats.accumulated_nanos
            &&& new.stats.resume_time is Some
            &&& old.stats.resume_time is Some ==> new.stats.resume_time == old.stats.resume_time
            &&& new.line_start is Some
            &&& old.line_start is Some ==> new.line_start == old.line_start
                && new.stats_at_line_start == old.stats_at_line_start
            &&& old.line_start is None ==> new.stats_at_line_start == (
                old.stats.total_keystrokes as int,
                old.stats.correct_keystrokes as int,
                old.stats.accumulated_nanos as int,
            )
            &&& new.line_keystrokes == old.line_keystrokes + 1
            &&& new.line_correct == old.line_correct + hit
        }
    }

    /// What Backspace does: on a running session with the cursor past the
    /// start, the slot left of the cursor is cleared and the cursor moves
    /// onto it; otherwise nothing changes.
    pub open spec fn backspace_post(old: AppView, new: AppView) -> bool {
        if old.finished || old.current_col == 0 {
            new == old
        } else {
            let line = old.current_line;
            &&& new.current_col == old.current_col - 1
            &&& new.typed == old.typed.update(
                line,
                old.typed[line].update(old.current_col - 1, None),
            )
            &&& new == AppView { current_col: new.current_col, typed: new.typed, ..old }
        }
    }

    /// What Ctrl+W does: on a running session with the cursor past the start,
    /// the cursor moves back to `word_start` of the expected line and the
    /// slots passed over are cleared; otherwise nothing changes.
    pub open spec fn backspace_word_post(old: AppView, new: AppView) -> bool {
        if old.finished || old.current_col == 0 {
            new == old
        } else {
            let line = old.current_line;
            let to = word_start(old.current_expected(), old.current_col);
            &&& new.current_col == to
            &&& new.typed == old.typed.update(
                line,
                clear_range(old.typed[line], to, old.current_col),
            )
            &&& new == AppView { current_col: new.current_col, typed: new.typed, ..old }
        }
    }

    /// What Ctrl+R does: on a running session, the current line's slots are
    /// cleared, the cursor goes to its start, the line is no longer started,
    /// and the counts and typing time go back to the snapshot taken when it
    /// was entered, with the clock paused; otherwise nothing changes.
    pub open spec fn restart_line_post(old: AppView, new: AppView) -> bool {
        if old.finished {
            new == old
        } else {
            let line = old.current_line;
            &&& new.same_frame(old)
            &&& new.current_line == line
            &&& new.current_col == 0
            &&& new.finished == old.finished
            &&& new.typed == old.typed.update(line, clear_range(old.typed[line], 0, old.typed[line].len() as int))
            &&& new.line_stats == old.line_stats
            &&& new.stats.total_keystrokes == old.stats_at_line_start.0
            &&& new.stats.correct_keystrokes == old.stats_at_line_start.1
            &&& new.stats.accumulated_nanos == old.stats_at_line_start.2
            &&& new.stats.resume_time is None
            &&& new.line_start is None
            &&& new.line_keystrokes == 0
            &&& new.line_correct == 0
            &&& new.stats_at_line_start == old.stats_at_line_start
        }
    }

    /// The times Enter takes on a line typed in full and right: the typing
    /// time grows by `open_nanos` (stopping at `u128::MAX`) if the clock runs,
    /// and the line's record, when it was started, holds `line_nanos`.
    pub open spec fn confirm_line_times(old: AppView, new: AppView, open_nanos: u128, line_nanos: u128) -> bool {
        (!old.finished && !(old.current_col == 0 && old.line_start is None) && old.current_col
            >= old.current_expected().len() && old.current_line_matches()) ==> {
            &&& new.stats.accumulated_nanos == if old.stats.resume_time is Some {
                if old.stats.accumulated_nanos + open_nanos > u128::MAX {
                    u128::MAX as int
                } else {
                    old.stats.accumulated_nanos + open_nanos
                }
            } else {
                old.stats.accumulated_nanos as int
            }
            &&& old.line_start is Some ==> (new.line_stats[old.current_line] matches Some(ls)
                && ls.elapsed_nanos == line_nanos)
        }
    }

    /// What Enter does. On a finished session, nothing. On a line not yet
    /// started, with the cursor at its start, the line is skipped. On a line
    /// typed in full with every character right, the clock is paused, the
    /// line's record is kept (when it was started), the cursor moves on, and
    /// the counts and typing time become the snapshot of the line entered.
    /// Otherwise (a typo, or characters still missing) nothing changes.
    pub open spec fn confirm_line_post(old: AppView, new: AppView) -> bool {
        if old.finished {
            new == old
        } else if old.current_col == 0 && old.line_start is None {
            &&& new.advanced_from(old)
            &&& new.same_frame(old)
            &&& new.same_line_record(old)
            &&& new.typed == old.typed
            &&& new.stats == old.stats
            &&& new.line_stats == old.line_stats
        } else if old.current_col >= old.current_expected().len() && old.current_line_matches() {
            let line = old.current_line;
            &&& new.advanced_from(old)
            &&& new.same_frame(old)
            &&& new.typed == old.typed
            &&& new.stats.total_keystrokes == old.stats.total_keystrokes
            &&& new.stats.correct_keystrokes == old.stats.correct_keystrokes
            &&& new.stats.resume_time is None
            &&& new.stats.accumulated_nanos >= old.stats.accumulated_nanos
            &&& old.stats.resume_time is None ==> new.stats.accumulated_nanos
                == old.stats.accumulated_nanos
            &&& new.line_stats.len() == old.line_stats.len()
            &&& forall|i: int|
                0 <= i < old.line_stats.len() && i != line ==> #[trigger] new.line_stats[i]
                    == old.line_stats[i]
            &&& if old.line_start is Some {
                new.line_stats[line] matches Some(ls) && ls.keystrokes == old.line_keystrokes
                    && ls.correct_keystrokes == old.line_correct
            } else {
                new.line_stats[line] == old.line_stats[line]
            }
            &&& new.line_start is None
            &&& new.line_keystrokes == 0
            &&& new.line_correct == 0
            &&& new.stats_at_line_start == (
                new.stats.total_keystrokes as int,
                new.stats.correct_keystrokes as int,
                new.stats.accumulated_nanos as int,
            )
        } else {
            new == old
        }
    }
}

/// Sets slot `j` of row `i` to `v`.
fn set_slot(rows: &mut Vec<Vec<Option<char>>>, i: usize, j: usize, v: Option<char>)
    requires
        i < old(rows)@.len(),
        j < old(rows)@[i as int]@.len(),
    ensures
        rows_view(final(rows)@) == rows_view(old(rows)@).update(
            i as int,
            rows_view(old(rows)@)[i as int].update(j as int, v),
        ),
{
    let mut row: Vec<Option<char>> = Vec::new();
    rows.set_and_swap(i, &mut row);
    row.set(j, v);
    rows.set_and_swap(i, &mut row);
    assert(rows_view(rows@) =~= rows_view(old(rows)@).update(
        i as int,
        rows_view(old(rows)@)[i as int].update(j as int, v),
    ));
}

impl App {
    fn is_typeable_line(&self, line_idx: usize) -> (b: bool)
        ensures
            b == typeable(self@.lines, line_idx as int),
    {
        if line_idx >= self.source_lines.len() {
            return false;
        }
        match self.source_lines[line_idx].line_type {
            LineType::Code | LineType::Mixed => true,
            _ => false,
        }
    }

    /// Opens a session over `source_lines` at the 1-based line `start_line`
    /// (0 counts as 1): the cursor goes to that line or the first typeable
    /// one after it; with none, the session is finished at once.
    pub fn new(
        source_lines: Vec<SourceLine>,
        syntax_name: String,
        start_line: usize,
        quiet: bool,
        wpm_mode: bool,
    ) -> (app: Self)
        ensures
            app@.wf(),
            app@.lines == source_lines@,
            app@.syntax_name == syntax_name@,
            app@.quiet == quiet,
            app@.wpm_mode == wpm_mode,
            app@.current_col == 0,
            app@.scroll_offset == 0,
            app@.mode == Mode::Typing,
            app@.select_cursor == 0,
            app@.stats.total_keystrokes == 0,
            app@.stats.correct_keystrokes == 0,
            app@.stats.accumulated_nanos == 0,
            app@.stats.resume_time is None,
            app@.line_start is None,
            app@.line_keystrokes == 0,
            app@.line_correct == 0,
            app@.stats_at_line_start == (0int, 0int, 0int),
            forall|i: int, j: int|
                0 <= i < app@.typed.len() && 0 <= j < app@.typed[i].len() ==> (
                #[trigger] app@.typed[i][j]) is None,
            forall|i: int| 0 <= i < app@.line_stats.len() ==> (#[trigger] app@.line_stats[i]) is None,
            app@.placed_at(start_index(start_line)),
    {
        let n = source_lines.len();
        let mut typed_chars: Vec<Vec<Option<char>>> = Vec::new();
        let mut line_stats: Vec<Option<LineStats>> = Vec::new();
        let mut i: usize = 0;
        while i < n
            invariant
                n == source_lines@.len(),
                i <= n,
                typed_chars@.len() == i,
                line_stats@.len() == i,
                forall|k: int|
                    0 <= k < i ==> (#[trigger] typed_chars@[k])@.len() == expected(
                        source_lines@,
                        k,
                    ).len(),
                forall|k: int, j: int|
                    0 <= k < i && 0 <= j < typed_chars@[k]@.len() ==> (
                    #[trigger] typed_chars@[k]@[j]) is None,
                forall|k: int| 0 <= k < i ==> (#[trigger] line_stats@[k]) is None,
            decreases n - i,
        {
            let len = chars_of(source_lines[i].typeable_content.as_str()).len();
            let mut row: Vec<Option<char>> = Vec::new();
            let mut j: usize = 0;
            while j < len
                invariant
                    j <= len,
                    row@.len() == j,
                    forall|t: int| 0 <= t < j ==> (#[trigger] row@[t]) is None,
                decreases len - j,
            {
                row.push(None);
                j = j + 1;
            }
            typed_chars.push(row);
            line_stats.push(None);
            i = i + 1;
        }

        let start_idx = start_line.saturating_sub(1);
        let mut app = App {
            source_lines,
            current_line: start_idx,
            current_col: 0,
            typed_chars,
            stats: Stats::new(),
            scroll_offset: 0,
            finished: true,
            syntax_name,
            line_stats,
            line_start: None,
            line_keystrokes: 0,
            line_correct: 0,
            stats_at_line_start: (0, 0, 0),
            quiet,
            wpm_mode,
            mode: Mode::Typing,
            select_cursor: 0,
        };
        app.place_from(start_idx);
        app
    }

    /// Moves to the next typeable line; finishes when there is none.
    fn advance_to_next_typeable_line(&mut self)
        requires
            old(self).current_line < old(self).source_lines.len(),
        ensures
            final(self)@.advanced_from(old(self)@),
            final(self)@.finished == (old(self)@.finished || !exists|j: int|
                next_typeable(old(self)@.lines, old(self)@.current_line, j)),
            final(self)@ == (AppView {
                current_line: final(self)@.current_line,
                current_col: final(self)@.current_col,
                finished: final(self)@.finished,
                ..old(self)@
            }),
    {
        let mut next = self.current_line + 1;
        while next < self.source_lines.len()
            invariant
                *self == *old(self),
                old(self).current_line < next <= self.source_lines@.len(),
                forall|k: int| old(self).current_line < k < next ==> !typeable(self@.lines, k),
            decreases self.source_lines@.len() - next,
        {
            if self.is_typeable_line(next) {
                self.current_line = next;
                self.current_col = 0;
                return;
            }
            next = next + 1;
        }
        self.finished = true;
    }

    /// The expected characters of the current line.
    fn expected_chars(&self) -> (cs: Vec<char>)
        requires
            self.current_line < self.source_lines@.len(),
        ensures
            cs@ == self@.current_expected(),
    {
        chars_of(self.source_lines[self.current_line].typeable_content.as_str())
    }

    /// Types the character `c` at the cursor.
    pub fn type_char(&mut self, c: char)
        requires
            old(self)@.wf(),
            old(self)@.mode == Mode::Typing,
            old(self)@.stats.total_keystrokes < usize::MAX,
        ensures
            final(self)@.wf(),
            AppView::type_char_post(old(self)@, final(self)@, c),
    {
        if self.finished {
            return;
        }
        let expected_chars = self.expected_chars();
        if self.current_col >= expected_chars.len() {
            return;
        }
        let expected = expected_chars[self.current_col];
        let correct = c == expected;

        if self.line_start.is_none() {
            self.stats_at_line_start = (
                self.stats.total_keystrokes,
                self.stats.correct_keystrokes,
                self.stats.accumulated_nanos,
            );
            self.line_start = Some(clock_now());
        }

        self.stats.record_keystroke(correct);
        self.line_keystrokes = self.line_keystrokes + 1;
        if correct {
            self.line_correct = self.line_correct + 1;
        }
        let ghost before = self@;
        set_slot(&mut self.typed_chars, self.current_line, self.current_col, Some(c));
        self.current_col = self.current_col + 1;
        assert(self@.typed[self@.current_line] =~= before.typed[before.current_line].update(
            before.current_col,
            Some(c),
        ));
        assert(forall|i: int| 0 <= i < self@.lines.len() && i != self@.current_line
            ==> self@.typed[i] == before.typed[i]);
    }

    /// Every typed slot of the current line holds the expected character.
    fn current_line_all_correct(&self) -> (b: bool)
        requires
            self@.wf(),
            self.current_line < self.source_lines@.len(),
        ensures
            b == self@.current_line_matches(),
    {
        let expected = self.expected_chars();
        let row = &self.typed_chars[self.current_line];
        let mut i: usize = 0;
        while i < row.len()
            invariant
                i <= row@.len(),
                row@ == self@.typed[self@.current_line],
                row@.len() == expected@.len(),
                expected@ == self@.current_expected(),
                forall|k: int| 0 <= k < i ==> row@[k] == Some(#[trigger] expected@[k]),
            decreases row.len() - i,
        {
            if row[i] != Some(expected[i]) {
                return false;
            }
            i = i + 1;
        }
        true
    }

    /// Enter: advances to the next typeable line when the line is typed in
    /// full and right, or skips a line not yet typed on. The typing time and
    /// the line's time are read from the clock.
    pub fn confirm_line(&mut self)
        requires
            old(self)@.wf(),
        ensures
            final(self)@.wf(),
            AppView::confirm_line_post(old(self)@, final(self)@),
    {
        let open_nanos = match &self.stats.resume_time {
            Some(t) => nanos_since(t),
            None => 0,
        };
        let line_nanos = match &self.line_start {
            Some(t) => nanos_since(t),
            None => 0,
        };
        self.confirm_line_after(open_nanos, line_nanos);
    }

    /// Enter, with `open_nanos` the time since the clock was last started and
    /// `line_nanos` the time since the line was started: as `confirm_line`,
    /// the typing time growing by `open_nanos` (stopping at `u128::MAX`) and
    /// the line's record holding `line_nanos`.
    pub fn confirm_line_after(&mut self, open_nanos: u128, line_nanos: u128)
        requires
            old(self)@.wf(),
        ensures
            final(self)@.wf(),
            AppView::confirm_line_post(old(self)@, final(self)@),
            AppView::confirm_line_times(old(self)@, final(self)@, open_nanos, line_nanos),
    {
        if self.finished {
            return;
        }
        if self.current_col == 0 && self.line_start.is_none() {
            self.advance_to_next_typeable_line();
            return;
        }
        let expected_len = self.expected_chars().len();
        if self.current_col >= expected_len && self.current_line_all_correct() {
            let ghost before = self@;
            self.stats.pause_after(open_nanos);
            if let Some(_start) = self.line_start.take() {
                let record = LineStats {
                    keystrokes: self.line_keystrokes,
                    correct_keystrokes: self.line_correct,
                    elapsed_nanos: line_nanos,
                };
                self.line_stats.set(self.current_line, Some(record));
            }
            self.line_keystrokes = 0;
            self.line_correct = 0;
            self.stats_at_line_start = (
                self.stats.total_keystrokes,
                self.stats.correct_keystrokes,
                self.stats.accumulated_nanos,
            );
            self.advance_to_next_typeable_line();
            proof {
                if exists|j: int| next_typeable(before.lines, before.current_line, j) {
                    assert(self@.current_line > before.current_line);
                }
            }
        }
    }

    /// Backspace: clears the slot left of the cursor and moves onto it.
    pub fn backspace(&mut self)
        requires
            old(self)@.wf(),
        ensures
            final(self)@.wf(),
            AppView::backspace_post(old(self)@, final(self)@),
    {
        if self.finished || self.current_col == 0 {
            return;
        }
        let ghost before = self@;
        self.current_col = self.current_col - 1;
        set_slot(&mut self.typed_chars, self.current_line, self.current_col, None);
        assert(self@.typed[self@.current_line] =~= before.typed[before.current_line].update(
            self@.current_col,
            None,
        ));
        assert(forall|i: int| 0 <= i < self@.lines.len() && i != self@.current_line
            ==> self@.typed[i] == before.typed[i]);
    }

    /// Ctrl+W: deletes one word back. White space before the cursor goes
    /// first; then a run of word characters (alphanumeric or `_`), or one
    /// other character.
    pub fn backspace_word(&mut self)
        requires
            old(self)@.wf(),
        ensures
            final(self)@.wf(),
            AppView::backspace_word_post(old(self)@, final(self)@),
    {
        if self.finished || self.current_col == 0 {
            return;
        }
        let expected = self.expected_chars();
        let ghost e = expected@;
        let ghost col0 = self.current_col as int;
        let ghost before = self@;
        assert(self@.typed[self@.current_line] =~= clear_range(before.typed[before.current_line], col0, col0));
        assert(self@.typed =~= before.typed.update(before.current_line, clear_range(before.typed[before.current_line], col0, col0)));

        while self.current_col > 0 && expected[self.current_col - 1] == ' '
            invariant
                before.wf(),
                !before.finished,
                col0 == before.current_col,
                self@.cleared_back_to(before, col0),
                e == expected@,
                e == before.current_expected(),
                skip_spaces(e, self.current_col as int) == skip_spaces(e, col0),
            decreases self.current_col,
        {
            self.clear_left(Ghost(before), Ghost(col0));
        }

        if self.current_col == 0 {
            assert(word_start(e, col0) == 0);
            return;
        }

        let ch = expected[self.current_col - 1];
        let ghost k = self.current_col as int;
        assert(skip_spaces(e, col0) == k);
        if is_word_char(ch) {
            while self.current_col > 0 && is_word_char(expected[self.current_col - 1])
                invariant
                    before.wf(),
                    !before.finished,
                    col0 == before.current_col,
                    self@.cleared_back_to(before, col0),
                    e == expected@,
                    e == before.current_expected(),
                    skip_word(e, self.current_col as int) == skip_word(e, k),
                decreases self.current_col,
            {
                self.clear_left(Ghost(before), Ghost(col0));
            }
        } else {
            self.clear_left(Ghost(before), Ghost(col0));
        }
    }

    /// Clears the slot left of the cursor and moves onto it, as one step of a
    /// deletion that started from `before` at column `col0`.
    fn clear_left(&mut self, Ghost(before): Ghost<AppView>, Ghost(col0): Ghost<int>)
        requires
            before.wf(),
            !before.finished,
            col0 == before.current_col,
            old(self)@.cleared_back_to(before, col0),
            old(self).current_col > 0,
        ensures
            final(self)@.cleared_back_to(before, col0),
            final(self).current_col == old(self).current_col - 1,
    {
        let ghost c = self.current_col as int;
        let ghost line = self@.current_line;
        assert(self@.typed[line].len() == before.typed[line].len());
        assert(typeable(before.lines, before.current_line));
        assert(self.typed_chars@.len() == self@.typed.len());
        assert(self.typed_chars@[line]@ == self@.typed[line]);
        self.current_col = self.current_col - 1;
        set_slot(&mut self.typed_chars, self.current_line, self.current_col, None);
        assert(self@.typed[line] =~= clear_range(before.typed[line], c - 1, col0));
        assert(self@.typed =~= before.typed.update(line, clear_range(before.typed[line], c - 1, col0)));
    }

    /// Ctrl+R: clears the current line and takes the counts and typing time
    /// back to where they were when the line was entered.
    pub fn restart_line(&mut self)
        requires
            old(self)@.wf(),
        ensures
            final(self)@.wf(),
            AppView::restart_line_post(old(self)@, final(self)@),
    {
        if self.finished {
            return;
        }
        let ghost before = self@;
        let line = self.current_line;
        let len = self.typed_chars[line].len();
        let mut j: usize = 0;
        assert(clear_range(before.typed[line as int], 0, 0) =~= before.typed[line as int]);
        assert(before.typed.update(line as int, before.typed[line as int]) =~= before.typed);
        while j < len
            invariant
                before.wf(),
                !before.finished,
                line == before.current_line,
                j <= len,
                len == before.typed[line as int].len(),
                self@ == (AppView {
                    typed: before.typed.update(
                        line as int,
                        clear_range(before.typed[line as int], 0, j as int),
                    ),
                    ..before
                }),
            decreases len - j,
        {
            assert(self.typed_chars@.len() == self@.typed.len());
            assert(self.typed_chars@[line as int]@ == self@.typed[line as int]);
            set_slot(&mut self.typed_chars, line, j, None);
            j = j + 1;
            assert(self@.typed[line as int] =~= clear_range(before.typed[line as int], 0, j as int));
            assert(self@.typed =~= before.typed.update(
                line as int,
                clear_range(before.typed[line as int], 0, j as int),
            ));
        }
        self.current_col = 0;
        self.line_keystrokes = 0;
        self.line_correct = 0;
        self.line_start = None;

        let (total, correct, accumulated) = self.stats_at_line_start;
        self.stats.total_keystrokes = total;
        self.stats.correct_keystrokes = correct;
        self.stats.accumulated_nanos = accumulated;
        self.stats.resume_time = None;
    }

    /// Handles one key press and answers whether it ends the session:
    /// Ctrl+C and Ctrl+Q end it, and so does Esc once the session is
    /// finished. While selecting the start line, `j`/`l`/Down/Right and
    /// `k`/`h`/Up/Left move the selection, `g`/Home and
    /// `G`/End jump to the first and last line, and Enter starts typing
    /// there. While typing, Ctrl+W deletes a word, Ctrl+R restarts the line,
    /// Enter confirms it, Backspace deletes a character, and any other
    /// character is typed. Other keys do nothing.
    pub fn handle_key(&mut self, press: KeyPress) -> (quit: bool)
        requires
            old(self)@.wf(),
            old(self)@.stats.total_keystrokes < usize::MAX,
        ensures
            final(self)@.wf(),
            quit == is_quit(press, old(self)@.finished),
            quit ==> final(self)@ == old(self)@,
            !quit && old(self)@.mode == Mode::Selecting ==> {
                let o = old(self)@;
                let f = final(self)@;
                if is_select_down(press.key) {
                    f == AppView {
                        select_cursor: if o.select_cursor + 1 < o.lines.len() {
                            o.select_cursor + 1
                        } else {
                            o.select_cursor
                        },
                        ..o
                    }
                } else if is_select_up(press.key) {
                    f == AppView {
                        select_cursor: if o.select_cursor > 0 {
                            o.select_cursor - 1
                        } else {
                            0
                        },
                        ..o
                    }
                } else if is_select_first(press.key) {
                    f == AppView { select_cursor: 0, ..o }
                } else if is_select_last(press.key) {
                    f == AppView {
                        select_cursor: if o.lines.len() > 0 {
                            o.lines.len() - 1
                        } else {
                            0
                        },
                        ..o
                    }
                } else if press.key == Key::Enter {
                    &&& f.mode == Mode::Typing
                    &&& f.placed_at(o.select_cursor)
                    &&& f == AppView {
                        current_line: f.current_line,
                        finished: f.finished,
                        mode: Mode::Typing,
                        ..o
                    }
                } else {
                    f == o
                }
            },
            !quit && old(self)@.mode == Mode::Typing ==> match press.key {
                Key::Char(c) => if press.ctrl && c == 'w' {
                    AppView::backspace_word_post(old(self)@, final(self)@)
                } else if press.ctrl && c == 'r' {
                    AppView::restart_line_post(old(self)@, final(self)@)
                } else {
                    AppView::type_char_post(old(self)@, final(self)@, c)
                },
                Key::Enter => AppView::confirm_line_post(old(self)@, final(self)@),
                Key::Backspace => AppView::backspace_post(old(self)@, final(self)@),
                _ => final(self)@ == old(self)@,
            },
    {
        if press.ctrl {
            if press.key == Key::Char('c') || press.key == Key::Char('q') {
                return true;
            }
        }
        if self.finished && press.key == Key::Esc {
            return true;
        }
        match self.mode {
            Mode::Selecting => {
                let k = press.key;
                if k == Key::Char('j') || k == Key::Char('l') || k == Key::Down || k == Key::Right {
                    self.select_down();
                } else if k == Key::Char('k') || k == Key::Char('h') || k == Key::Up || k
                    == Key::Left {
                    self.select_up();
                } else if k == Key::Char('g') || k == Key::Home {
                    self.select_first();
                } else if k == Key::Char('G') || k == Key::End {
                    self.select_last();
                } else if k == Key::Enter {
                    self.start_from_selection();
                }
            },
            Mode::Typing => {
                match press.key {
                    Key::Char(c) => {
                        if press.ctrl && c == 'w' {
                            self.backspace_word();
                        } else if press.ctrl && c == 'r' {
                            self.restart_line();
                        } else {
                            self.type_char(c);
                        }
                    },
                    Key::Enter => self.confirm_line(),
                    Key::Backspace => self.backspace(),
                    _ => {},
                }
            },
        }
        false
    }

    /// Puts the cursor for a start at 0-based line `start`, before anything
    /// was typed.
    fn place_from(&mut self, start: usize)
        requires
            old(self)@.wf(),
            old(self)@.untouched(),
        ensures
            final(self)@.wf(),
            final(self)@.untouched(),
            final(self)@.placed_at(start as int),
            final(self)@ == (AppView {
                current_line: final(self)@.current_line,
                finished: final(self)@.finished,
                ..old(self)@
            }),
    {
        self.current_line = start;
        self.finished = false;
        let ghost lines = self@.lines;
        let ghost st = start as int;
        if start >= self.source_lines.len() {
            self.finished = true;
            assert forall|j: int| !first_typeable_from(lines, st, j) by {
                if first_typeable_from(lines, st, j) {
                    assert(typeable(lines, j));
                }
            }
        } else if !self.is_typeable_line(start) {
            self.advance_to_next_typeable_line();
            proof {
                if exists|j: int| next_typeable(lines, st, j) {
                    assert(first_typeable_from(lines, st, self@.current_line));
                } else {
                    assert forall|j: int| !first_typeable_from(lines, st, j) by {
                        if first_typeable_from(lines, st, j) {
                            assert(next_typeable(lines, st, j));
                        }
                    }
                }
            }
        } else {
            assert(first_typeable_from(lines, st, st));
        }
    }

    /// Enters line selection, before anything was typed: the selection
    /// starts at the current line, or at the last line when that lies past
    /// the end.
    pub fn start_selecting(&mut self)
        requires
            old(self)@.wf(),
            old(self)@.untouched(),
        ensures
            final(self)@.wf(),
            final(self)@ == (AppView {
                mode: Mode::Selecting,
                select_cursor: if old(self)@.current_line < old(self)@.lines.len() {
                    old(self)@.current_line
                } else if old(self)@.lines.len() > 0 {
                    old(self)@.lines.len() - 1
                } else {
                    0
                },
                ..old(self)@
            }),
    {
        let n = self.source_lines.len();
        self.select_cursor = if self.current_line < n {
            self.current_line
        } else if n > 0 {
            n - 1
        } else {
            0
        };
        self.mode = Mode::Selecting;
    }

    /// Moves the selection one line down, unless it is on the last line.
    pub fn select_down(&mut self)
        requires
            old(self)@.wf(),
        ensures
            final(self)@.wf(),
            final(self)@ == (AppView {
                select_cursor: if old(self)@.select_cursor + 1 < old(self)@.lines.len() {
                    old(self)@.select_cursor + 1
                } else {
                    old(self)@.select_cursor
                },
                ..old(self)@
            }),
    {
        if self.source_lines.len() > 0 && self.select_cursor < self.source_lines.len() - 1 {
            self.select_cursor = self.select_cursor + 1;
        }
    }

    /// Moves the selection one line up, unless it is on the first line.
    pub fn select_up(&mut self)
        requires
            old(self)@.wf(),
        ensures
            final(self)@.wf(),
            final(self)@ == (AppView {
                select_cursor: if old(self)@.select_cursor > 0 {
                    old(self)@.select_cursor - 1
                } else {
                    0
                },
                ..old(self)@
            }),
    {
        if self.select_cursor > 0 {
            self.select_cursor = self.select_cursor - 1;
        }
    }

    /// Moves the selection to the first line.
    pub fn select_first(&mut self)
        requires
            old(self)@.wf(),
        ensures
            final(self)@.wf(),
            final(self)@ == (AppView { select_cursor: 0, ..old(self)@ }),
    {
        self.select_cursor = 0;
    }

    /// Moves the selection to the last line (the first, in an empty source).
    pub fn select_last(&mut self)
        requires
            old(self)@.wf(),
        ensures
            final(self)@.wf(),
            final(self)@ == (AppView {
                select_cursor: if old(self)@.lines.len() > 0 {
                    old(self)@.lines.len() - 1
                } else {
                    0
                },
                ..old(self)@
            }),
    {
        let n = self.source_lines.len();
        self.select_cursor = if n > 0 {
            n - 1
        } else {
            0
        };
    }

    /// Leaves line selection and starts typing from the selected line: the
    /// cursor goes to it or the first typeable line after it; with none, the
    /// session is finished.
    pub fn start_from_selection(&mut self)
        requires
            old(self)@.wf(),
            old(self)@.mode == Mode::Selecting,
        ensures
            final(self)@.wf(),
            final(self)@.mode == Mode::Typing,
            final(self)@.placed_at(old(self)@.select_cursor),
            final(self)@ == (AppView {
                current_line: final(self)@.current_line,
                finished: final(self)@.finished,
                mode: Mode::Typing,
                ..old(self)@
            }),
    {
        let start = self.select_cursor;
        self.place_from(start);
        self.mode = Mode::Typing;
    }

    /// Scrolls so that the selection sits a third of the way down a view of
    /// `visible_height` lines; a view of no lines is left as it is.
    pub fn update_scroll_for_select(&mut self, visible_height: usize)
        ensures
            final(self)@ == (AppView { scroll_offset: final(self)@.scroll_offset, ..old(self)@ }),
            visible_height == 0 ==> final(self)@.scroll_offset == old(self)@.scroll_offset,
            visible_height > 0 ==> final(self)@.scroll_offset == if old(self)@.select_cursor
                >= visible_height / 3 {
                old(self)@.select_cursor - visible_height / 3
            } else {
                0
            },
    {
        if visible_height == 0 {
            return;
        }
        self.scroll_offset = self.select_cursor.saturating_sub(visible_height / 3);
    }

    /// Scrolls so that the current line sits a third of the way down a view
    /// of `visible_height` lines; a view of no lines is left as it is.
    pub fn update_scroll(&mut self, visible_height: usize)
        ensures
            final(self)@ == (AppView { scroll_offset: final(self)@.scroll_offset, ..old(self)@ }),
            visible_height == 0 ==> final(self)@.scroll_offset == old(self)@.scroll_offset,
            visible_height > 0 ==> final(self)@.scroll_offset == if old(self)@.current_line
                >= visible_height / 3 {
                old(self)@.current_line - visible_height / 3
            } else {
                0
            },
    {
        if visible_height == 0 {
            return;
        }
        let target = self.current_line.saturating_sub(visible_height / 3);
        self.scroll_offset = target;
    }

    /// How line `line_idx` is shown while typing: each character of its
    /// content to type, as typed (right or wrong), under the cursor, or not
    /// typed yet; and whether a cursor block follows the content, which it
    /// does on the current line of a running session when the cursor is at
    /// or past the end of the content.
    pub fn overlay_line(&self, line_idx: usize) -> (r: (Vec<OverlayChar>, bool))
        requires
            line_idx < self@.lines.len(),
            line_idx < self@.typed.len(),
        ensures
            r.0@.len() == expected(self@.lines, line_idx as int).len(),
            forall|i: int|
                0 <= i < r.0@.len() ==> #[trigger] r.0@[i] == self@.overlay_at(line_idx as int, i),
            r.1 == (self@.cursor_on(line_idx as int) is Some && self@.current_col >= expected(
                self@.lines,
                line_idx as int,
            ).len()),
    {
        let line = &self.source_lines[line_idx];
        let content = chars_of(line.typeable_content.as_str());
        let row = &self.typed_chars[line_idx];
        let cursor_here = line_idx == self.current_line && !self.finished;
        let ghost v = self@;
        let mut cells: Vec<OverlayChar> = Vec::new();
        let mut i: usize = 0;
        while i < content.len()
            invariant
                v == self@,
                line_idx < v.lines.len(),
                line_idx < v.typed.len(),
                *line == v.lines[line_idx as int],
                content@ == expected(v.lines, line_idx as int),
                row@ == v.typed[line_idx as int],
                cursor_here == (v.cursor_on(line_idx as int) is Some),
                v.cursor_on(line_idx as int) is Some ==> v.cursor_on(line_idx as int) == Some(
                    self.current_col as int,
                ),
                i <= content.len(),
                cells@.len() == i,
                forall|k: int| 0 <= k < i ==> #[trigger] cells@[k] == v.overlay_at(line_idx as int, k),
            decreases content.len() - i,
        {
            let style = if i < line.typeable_styles.len() {
                line.typeable_styles[i]
            } else {
                TextStyle { fg: None, bold: false, italic: false, underlined: false }
            };
            let expected_ch = content[i];
            let typed = if i < row.len() {
                row[i]
            } else {
                None
            };
            let cell = match typed {
                Some(t) => {
                    if t == expected_ch {
                        OverlayChar { ch: t, style, mark: CharMark::Correct }
                    } else {
                        OverlayChar { ch: t, style, mark: CharMark::Wrong }
                    }
                },
                None => {
                    if cursor_here && i == self.current_col {
                        OverlayChar { ch: expected_ch, style, mark: CharMark::Cursor }
                    } else {
                        OverlayChar { ch: expected_ch, style, mark: CharMark::Pending }
                    }
                },
            };
            assert(cell == v.overlay_at(line_idx as int, i as int));
            cells.push(cell);
            i = i + 1;
        }
        let after = cursor_here && self.current_col >= content.len();
        (cells, after)
    }

    /// Number of lines the user types (code and mixed lines).
    pub fn total_typeable_lines(&self) -> (n: usize)
        ensures
            n == count_typeable(self@.lines, self@.lines.len() as int),
    {
        let mut n: usize = 0;
        let mut i: usize = 0;
        while i < self.source_lines.len()
            invariant
                i <= self.source_lines@.len(),
                n == count_typeable(self@.lines, i as int),
                n <= i,
            decreases self.source_lines@.len() - i,
        {
            if self.is_typeable_line(i) {
                n = n + 1;
            }
            i = i + 1;
        }
        n
    }
}


/// `skip_spaces` stays within `0..=col`.
proof fn lemma_skip_spaces_bounds(e: Seq<char>, col: int)
    requires
        0 <= col,
    ensures
        0 <= skip_spaces(e, col) <= col,
    decreases col,
{
    if col > 0 && e[col - 1] == ' ' {
        lemma_skip_spaces_bounds(e, col - 1);
    }
}

/// `skip_word` stays within `0..=col`.
proof fn lemma_skip_word_bounds(e: Seq<char>, col: int)
    requires
        0 <= col,
    ensures
        0 <= skip_word(e, col) <= col,
    decreases col,
{
    if col > 0 && word_char(e[col - 1]) {
        lemma_skip_word_bounds(e, col - 1);
    }
}

/// Ctrl+W from a column past the start of the line always deletes at least
/// one character and never goes before the start of the line.
pub proof fn lemma_word_start_bounds(e: Seq<char>, col: int)
    requires
        0 < col <= e.len(),
    ensures
        0 <= word_start(e, col) < col,
{
    lemma_skip_spaces_bounds(e, col);
    let k = skip_spaces(e, col);
    if k > 0 && word_char(e[k - 1]) {
        lemma_skip_word_bounds(e, k - 1);
    }
}

/// Backspace right after a keystroke that was taken gives back the cursor
/// and the typed characters as they were.
pub proof fn lemma_backspace_undoes_type_char(a: AppView, b: AppView, c: AppView, ch: char)
    requires
        a.wf(),
        a.takes_keystroke(),
        AppView::type_char_post(a, b, ch),
        AppView::backspace_post(b, c),
    ensures
        c.current_line == a.current_line,
        c.current_col == a.current_col,
        c.typed == a.typed,
{
    let line = a.current_line;
    let col = a.current_col;
    assert(a.typed[line][col] is None);
    assert(c.typed[line] =~= a.typed[line]);
    assert(c.typed =~= a.typed);
}

/// Restarting a line right after its first keystroke brings back the counts,
/// the typing time, the cursor and the typed characters as they were, and
/// leaves the line not started.
pub proof fn lemma_restart_undoes_first_keystroke(a: AppView, b: AppView, c: AppView, ch: char)
    requires
        a.wf(),
        a.takes_keystroke(),
        a.line_start is None,
        AppView::type_char_post(a, b, ch),
        AppView::restart_line_post(b, c),
    ensures
        c.stats.total_keystrokes == a.stats.total_keystrokes,
        c.stats.correct_keystrokes == a.stats.correct_keystrokes,
        c.stats.accumulated_nanos == a.stats.accumulated_nanos,
        c.current_line == a.current_line,
        c.current_col == a.current_col,
        c.typed == a.typed,
        c.line_start is None,
{
    let line = a.current_line;
    assert(c.typed[line] =~= a.typed[line]);
    assert(c.typed =~= a.typed);
}

/// Enter on a line that holds a typo leaves the session exactly as it was:
/// a mistake must be fixed before the line can be left.
pub proof fn lemma_typo_blocks_advance(a: AppView, b: AppView, i: int)
    requires
        a.wf(),
        !a.finished,
        0 <= i < a.typed[a.current_line].len(),
        a.typed[a.current_line][i] is Some,
        a.typed[a.current_line][i] != Some(a.current_expected()[i]),
        AppView::confirm_line_post(a, b),
    ensures
        b == a,
{
    assert(!a.current_line_matches());
}

/// Enter on a line typed in full and right moves on to a later line or
/// finishes the session; when the line was started, the clock is paused
/// (time between lines is not counted) and the line's record is kept.
pub proof fn lemma_completed_line_advances(a: AppView, b: AppView)
    requires
        a.wf(),
        !a.finished,
        a.current_col == a.current_expected().len(),
        a.current_line_matches(),
        AppView::confirm_line_post(a, b),
    ensures
        b.finished || b.current_line > a.current_line,
        b.typed == a.typed,
        a.line_start is Some ==> b.stats.resume_time is None && b.line_stats[a.current_line] is Some,
{
}

/// Right after a keystroke is taken, its column shows the character typed:
/// as right, in its highlight colour, when it is the expected one, and as a
/// mistake otherwise; the cursor shows on the next column, if the line has
/// one.
pub proof fn lemma_typed_char_shown(a: AppView, b: AppView, c: char)
    requires
        a.wf(),
        a.takes_keystroke(),
        AppView::type_char_post(a, b, c),
    ensures
        b.overlay_at(a.current_line, a.current_col).ch == c,
        b.overlay_at(a.current_line, a.current_col).mark == if c == a.current_expected()[a.current_col] {
            CharMark::Correct
        } else {
            CharMark::Wrong
        },
        b.current_col < b.current_expected().len() ==> b.overlay_at(b.current_line, b.current_col).mark
            == CharMark::Cursor,
{
    let line = a.current_line;
    let col = a.current_col;
    if col + 1 < a.current_expected().len() {
        assert(a.typed[line][col + 1] is None);
        assert(b.typed[line][col + 1] == a.typed[line][col + 1]);
    }
}

/// Ctrl+R on a line that has not been started (just entered, or already
/// restarted) changes no count and no typing time: the counts go back to
/// where the line began, which is where they are.
pub proof fn lemma_restart_untouched_keeps_stats(a: AppView, b: AppView)
    requires
        a.wf(),
        a.line_start is None,
        AppView::restart_line_post(a, b),
    ensures
        b.stats == a.stats,
{
}

} // verus!
