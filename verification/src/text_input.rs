//! A one-line text field, kept in a `tui_textarea` text area.
use crate::input::{KeyCode, KeyInput, CONTROL};
use tui_textarea::{CursorMove, TextArea};
use vstd::prelude::*;

verus! {

/// A `tui_textarea` text area, held whole: its contents are seen only
/// through the names below.
#[verifier::external_body]
pub struct TextBuffer<'a> {
    pub area: TextArea<'a>,
}

/// The lines a text area holds.
pub uninterp spec fn textarea_lines(t: TextBuffer<'_>) -> Seq<Seq<char>>;

/// The cursor of a text area: row, column (in characters) and whether a
/// selection is under way.
pub uninterp spec fn textarea_cursor(t: TextBuffer<'_>) -> (usize, usize, bool);

/// A text buffer always holds a line, and its cursor stands on a line,
/// at most at its end.
pub open spec fn textarea_wf(lines: Seq<Seq<char>>, cur: (usize, usize, bool)) -> bool {
    &&& lines.len() >= 1
    &&& cur.0 < lines.len()
    &&& cur.1 <= lines[cur.0 as int].len()
}

/// A text area holding `lines` (`TextArea::new`): one empty line when
/// there are none; the cursor at the start, nothing selected.
#[verifier::external_body]
pub(crate) fn textarea_new<'a>(lines: Vec<String>) -> (r: TextBuffer<'a>)
    ensures
        textarea_lines(r) == (if lines.len() == 0 {
            seq![Seq::<char>::empty()]
        } else {
            lines@.map_values(|s: String| s@)
        }),
        textarea_cursor(r) == (0usize, 0usize, false),
{
    TextBuffer { area: TextArea::new(lines) }
}

/// Moves the cursor to the end of its line (`move_cursor(CursorMove::End)`).
#[verifier::external_body]
pub(crate) fn textarea_move_end(t: &mut TextBuffer<'_>)
    requires
        textarea_wf(textarea_lines(*old(t)), textarea_cursor(*old(t))),
    ensures
        textarea_lines(*final(t)) == textarea_lines(*old(t)),
        textarea_cursor(*final(t)) == ({
            let c = textarea_cursor(*old(t));
            (c.0, textarea_lines(*old(t))[c.0 as int].len() as usize, c.2)
        }),
{
    t.area.move_cursor(CursorMove::End);
}

/// Moves the cursor one character forward, to the start of the next line
/// at the end of a line, or nowhere at the end of the text
/// (`move_cursor(CursorMove::Forward)`).
#[verifier::external_body]
pub(crate) fn textarea_move_forward(t: &mut TextBuffer<'_>)
    requires
        textarea_wf(textarea_lines(*old(t)), textarea_cursor(*old(t))),
    ensures
        textarea_lines(*final(t)) == textarea_lines(*old(t)),
        textarea_cursor(*final(t)) == ({
            let l = textarea_lines(*old(t));
            let c = textarea_cursor(*old(t));
            if c.1 >= l[c.0 as int].len() {
                if c.0 + 1 < l.len() {
                    ((c.0 + 1) as usize, 0usize, c.2)
                } else {
                    c
                }
            } else {
                (c.0, (c.1 + 1) as usize, c.2)
            }
        }),
{
    t.area.move_cursor(CursorMove::Forward);
}

/// Moves the cursor one character back, to the end of the previous line
/// at the start of a line, or nowhere at the start of the text
/// (`move_cursor(CursorMove::Back)`).
#[verifier::external_body]
pub(crate) fn textarea_move_back(t: &mut TextBuffer<'_>)
    requires
        textarea_wf(textarea_lines(*old(t)), textarea_cursor(*old(t))),
    ensures
        textarea_lines(*final(t)) == textarea_lines(*old(t)),
        textarea_cursor(*final(t)) == ({
            let l = textarea_lines(*old(t));
            let c = textarea_cursor(*old(t));
            if c.1 == 0 {
                if c.0 > 0 {
                    ((c.0 - 1) as usize, l[c.0 - 1].len() as usize, c.2)
                } else {
                    c
                }
            } else {
                (c.0, (c.1 - 1) as usize, c.2)
            }
        }),
{
    t.area.move_cursor(CursorMove::Back);
}

/// A character `tui_textarea` counts as blank between words: one with the
/// Unicode White_Space property (`char::is_whitespace`).
pub open spec fn is_blank(c: char) -> bool {
    let n = c as u32;
    ||| 0x09 <= n <= 0x0d
    ||| n == 0x20
    ||| n == 0x85
    ||| n == 0xa0
    ||| n == 0x1680
    ||| 0x2000 <= n <= 0x200a
    ||| n == 0x2028
    ||| n == 0x2029
    ||| n == 0x202f
    ||| n == 0x205f
    ||| n == 0x3000
}

/// An ASCII punctuation character (`char::is_ascii_punctuation`).
pub open spec fn is_ascii_punct(c: char) -> bool {
    let n = c as u32;
    ||| 0x21 <= n <= 0x2f
    ||| 0x3a <= n <= 0x40
    ||| 0x5b <= n <= 0x60
    ||| 0x7b <= n <= 0x7e
}

/// The class of a character for word moves: 0 blank, 1 ASCII
/// punctuation, 2 anything else. A word starts where the class changes to
/// one that is not blank.
pub open spec fn char_kind(c: char) -> int {
    if is_blank(c) {
        0
    } else if is_ascii_punct(c) {
        1
    } else {
        2
    }
}

/// The first place from `col` on where a word starts in `line`, the
/// character before being of class `prev`.
pub open spec fn word_start_from(line: Seq<char>, col: int, prev: int) -> Option<int>
    decreases line.len() - col,
{
    if col < 0 || col >= line.len() {
        None
    } else {
        let cur = char_kind(line[col]);
        if cur != 0 && prev != cur {
            Some(col)
        } else {
            word_start_from(line, col + 1, cur)
        }
    }
}

/// The start of the next word after column `start` of `line`, if the line
/// has one.
pub open spec fn word_start_forward(line: Seq<char>, start: int) -> Option<int> {
    if start < 0 || start >= line.len() {
        None
    } else {
        word_start_from(line, start + 1, char_kind(line[start]))
    }
}

/// Walking back through `p` (the text before column `start`), `i`
/// characters back from its end, the character after being of class
/// `cur`: where the word that the walk is in starts.
pub open spec fn word_start_back_from(p: Seq<char>, start: int, i: int, cur: int) -> Option<int>
    decreases p.len() - i,
{
    if i < 1 || i >= p.len() {
        if cur != 0 {
            Some(0)
        } else {
            None
        }
    } else {
        let next = char_kind(p[p.len() - 1 - i]);
        if cur != 0 && next != cur {
            Some(start - i)
        } else {
            word_start_back_from(p, start, i + 1, next)
        }
    }
}

/// The start of the word before column `start` of `line`, if there is a
/// word before it.
pub open spec fn word_start_backward(line: Seq<char>, start: int) -> Option<int> {
    let p = if 0 <= start <= line.len() {
        line.take(start)
    } else {
        line
    };
    if p.len() == 0 {
        None
    } else {
        word_start_back_from(p, start, 1, char_kind(p[p.len() - 1]))
    }
}

/// Where `CursorMove::WordBack` puts the cursor at `row`, `col` of
/// `lines`: the start of the previous word on the line, else the end of
/// the line before, else the start of the text.
pub open spec fn word_back_cursor(lines: Seq<Seq<char>>, row: usize, col: usize) -> (usize, usize) {
    match word_start_backward(lines[row as int], col as int) {
        Some(c) => (row, c as usize),
        None => if row > 0 {
            ((row - 1) as usize, lines[row - 1].len() as usize)
        } else {
            (row, 0usize)
        },
    }
}

/// Where `CursorMove::WordForward` puts the cursor at `row`, `col` of
/// `lines`: the start of the next word on the line, else the start of the
/// next line, else the end of the last line.
pub open spec fn word_forward_cursor(lines: Seq<Seq<char>>, row: usize, col: usize) -> (usize, usize) {
    match word_start_forward(lines[row as int], col as int) {
        Some(c) => (row, c as usize),
        None => if row + 1 < lines.len() {
            ((row + 1) as usize, 0usize)
        } else {
            (row, lines[row as int].len() as usize)
        },
    }
}

/// Moves the cursor as `word_back_cursor` says
/// (`move_cursor(CursorMove::WordBack)`); a selection under way goes on.
#[verifier::external_body]
pub(crate) fn textarea_move_word_back(t: &mut TextBuffer<'_>)
    requires
        textarea_wf(textarea_lines(*old(t)), textarea_cursor(*old(t))),
    ensures
        textarea_lines(*final(t)) == textarea_lines(*old(t)),
        textarea_wf(textarea_lines(*final(t)), textarea_cursor(*final(t))),
        ({
            let c = textarea_cursor(*old(t));
            let w = word_back_cursor(textarea_lines(*old(t)), c.0, c.1);
            textarea_cursor(*final(t)) == (w.0, w.1, c.2)
        }),
{
    t.area.move_cursor(CursorMove::WordBack);
}

/// Moves the cursor as `word_forward_cursor` says
/// (`move_cursor(CursorMove::WordForward)`); a selection under way goes on.
#[verifier::external_body]
pub(crate) fn textarea_move_word_forward(t: &mut TextBuffer<'_>)
    requires
        textarea_wf(textarea_lines(*old(t)), textarea_cursor(*old(t))),
    ensures
        textarea_lines(*final(t)) == textarea_lines(*old(t)),
        textarea_wf(textarea_lines(*final(t)), textarea_cursor(*final(t))),
        ({
            let c = textarea_cursor(*old(t));
            let w = word_forward_cursor(textarea_lines(*old(t)), c.0, c.1);
            textarea_cursor(*final(t)) == (w.0, w.1, c.2)
        }),
{
    t.area.move_cursor(CursorMove::WordForward);
}

/// Inserts a character at the cursor (`insert_char`), which ends any
/// selection. With no selection, a line break ('\n' or '\r') splits the
/// cursor's line there and the cursor goes to the start of the new line;
/// another character goes into the cursor's line and the cursor moves past
/// it. What it does with a selection is not stated.
#[verifier::external_body]
pub(crate) fn textarea_insert_char(t: &mut TextBuffer<'_>, c: char)
    requires
        textarea_wf(textarea_lines(*old(t)), textarea_cursor(*old(t))),
    ensures
        textarea_wf(textarea_lines(*final(t)), textarea_cursor(*final(t))),
        !textarea_cursor(*final(t)).2,
        ({
            let l = textarea_lines(*old(t));
            let cur = textarea_cursor(*old(t));
            !cur.2 ==> if c == '\n' || c == '\r' {
                textarea_lines(*final(t)) == l.update(cur.0 as int, l[cur.0 as int].take(cur.1 as int))
                    .insert(cur.0 + 1, l[cur.0 as int].skip(cur.1 as int))
                    && textarea_cursor(*final(t)) == ((cur.0 + 1) as usize, 0usize, false)
            } else {
                textarea_lines(*final(t)) == l.update(
                    cur.0 as int,
                    l[cur.0 as int].insert(cur.1 as int, c),
                ) && textarea_cursor(*final(t)) == (cur.0, (cur.1 + 1) as usize, false)
            }
        }),
{
    t.area.insert_char(c);
}

/// Deletes the character before the cursor, or joins the line to the one
/// before at the start of a line (`delete_char`); says whether anything
/// was deleted; any selection ends. What it does with a selection is not
/// stated.
#[verifier::external_body]
pub(crate) fn textarea_delete_char(t: &mut TextBuffer<'_>) -> (r: bool)
    requires
        textarea_wf(textarea_lines(*old(t)), textarea_cursor(*old(t))),
    ensures
        textarea_wf(textarea_lines(*final(t)), textarea_cursor(*final(t))),
        !textarea_cursor(*final(t)).2,
        ({
            let l = textarea_lines(*old(t));
            let cur = textarea_cursor(*old(t));
            !cur.2 ==> if cur.1 > 0 {
                r && textarea_lines(*final(t)) == l.update(
                    cur.0 as int,
                    l[cur.0 as int].remove(cur.1 - 1),
                ) && textarea_cursor(*final(t)) == (cur.0, (cur.1 - 1) as usize, false)
            } else if cur.0 > 0 {
                r && textarea_lines(*final(t)) == l.update(
                    cur.0 - 1,
                    l[cur.0 - 1] + l[cur.0 as int],
                ).remove(cur.0 as int) && textarea_cursor(*final(t)) == (
                    (cur.0 - 1) as usize,
                    l[cur.0 - 1].len() as usize,
                    false,
                )
            } else {
                !r && textarea_lines(*final(t)) == l && textarea_cursor(*final(t)) == cur
            }
        }),
{
    t.area.delete_char()
}

/// Deletes the character at the cursor, or joins the next line at the end
/// of a line (`delete_next_char`); says whether anything was deleted.
/// Any selection ends; what it does with one is not stated.
#[verifier::external_body]
pub(crate) fn textarea_delete_next_char(t: &mut TextBuffer<'_>) -> (r: bool)
    requires
        textarea_wf(textarea_lines(*old(t)), textarea_cursor(*old(t))),
    ensures
        textarea_wf(textarea_lines(*final(t)), textarea_cursor(*final(t))),
        !textarea_cursor(*final(t)).2,
        ({
            let l = textarea_lines(*old(t));
            let cur = textarea_cursor(*old(t));
            !cur.2 ==> if cur.1 < l[cur.0 as int].len() {
                r && textarea_lines(*final(t)) == l.update(
                    cur.0 as int,
                    l[cur.0 as int].remove(cur.1 as int),
                ) && textarea_cursor(*final(t)) == cur
            } else if cur.0 + 1 < l.len() {
                r && textarea_lines(*final(t)) == l.update(
                    cur.0 as int,
                    l[cur.0 as int] + l[cur.0 + 1],
                ).remove(cur.0 + 1) && textarea_cursor(*final(t)) == cur
            } else {
                !r && textarea_lines(*final(t)) == l && textarea_cursor(*final(t)) == cur
            }
        }),
{
    t.area.delete_next_char()
}

/// The first line of a text area (`lines()[0]`; there is always one).
#[verifier::external_body]
pub(crate) fn textarea_first_line<'b>(t: &'b TextBuffer<'_>) -> (r: &'b String)
    requires
        textarea_lines(*t).len() >= 1,
    ensures
        r@ == textarea_lines(*t)[0],
{
    &t.area.lines()[0]
}

/// What a key does to a one-line input, `handled` being what the edit
/// answered: see `SingleLineInput::handle_text_input`.
pub open spec fn text_input_step(
    old: SingleLineInput<'_>,
    new: SingleLineInput<'_>,
    input: KeyInput,
    handled: bool,
) -> bool {
    let l = old.lines();
    let c = old.cursor();
    let unchanged = new.lines() == l && new.cursor() == c;
    match input.code {
        KeyCode::Left => handled && new.lines() == l && new.cursor() == if input.control_only() {
            let w = word_back_cursor(l, c.0, c.1);
            (w.0, w.1, false)
        } else if c.1 == 0 {
            if c.0 > 0 {
                ((c.0 - 1) as usize, l[c.0 - 1].len() as usize, false)
            } else {
                c
            }
        } else {
            (c.0, (c.1 - 1) as usize, false)
        },
        KeyCode::Right => handled && new.lines() == l && new.cursor() == if input.control_only() {
            let w = word_forward_cursor(l, c.0, c.1);
            (w.0, w.1, false)
        } else if c.1 >= l[c.0 as int].len() {
            if c.0 + 1 < l.len() {
                ((c.0 + 1) as usize, 0usize, false)
            } else {
                c
            }
        } else {
            (c.0, (c.1 + 1) as usize, false)
        },
        KeyCode::Backspace => if c.1 > 0 {
            handled && new.lines() == l.update(c.0 as int, l[c.0 as int].remove(c.1 - 1))
                && new.cursor() == (c.0, (c.1 - 1) as usize, false)
        } else if c.0 > 0 {
            handled && new.lines() == l.update(c.0 - 1, l[c.0 - 1] + l[c.0 as int]).remove(
                c.0 as int,
            ) && new.cursor() == ((c.0 - 1) as usize, l[c.0 - 1].len() as usize, false)
        } else {
            !handled && unchanged
        },
        KeyCode::Delete => if c.1 < l[c.0 as int].len() {
            handled && new.lines() == l.update(c.0 as int, l[c.0 as int].remove(c.1 as int))
                && new.cursor() == c
        } else if c.0 + 1 < l.len() {
            handled && new.lines() == l.update(c.0 as int, l[c.0 as int] + l[c.0 + 1]).remove(
                c.0 + 1,
            ) && new.cursor() == c
        } else {
            !handled && unchanged
        },
        KeyCode::Char(ch) => handled && if ch == '\n' || ch == '\r' {
            new.lines() == l.update(c.0 as int, l[c.0 as int].take(c.1 as int)).insert(
                c.0 + 1,
                l[c.0 as int].skip(c.1 as int),
            ) && new.cursor() == ((c.0 + 1) as usize, 0usize, false)
        } else {
            new.lines() == l.update(c.0 as int, l[c.0 as int].insert(c.1 as int, ch))
                && new.cursor() == (c.0, (c.1 + 1) as usize, false)
        },
        _ => !handled && unchanged,
    }
}

/// A one-line input field: its text area, whether it has the focus, and
/// whether its text is masked.
pub struct SingleLineInput<'a> {
    pub textarea: TextBuffer<'a>,
    pub active: bool,
    pub hidden: bool,
}

impl<'a> SingleLineInput<'a> {
    /// The lines of the field.
    pub open spec fn lines(&self) -> Seq<Seq<char>> {
        textarea_lines(self.textarea)
    }

    /// The cursor of the field.
    pub open spec fn cursor(&self) -> (usize, usize, bool) {
        textarea_cursor(self.textarea)
    }

    /// The text of the field: its first line.
    pub open spec fn text_view(&self) -> Seq<char> {
        self.lines()[0]
    }

    /// The field's text area is in a usable state and has no selection.
    pub open spec fn wf(&self) -> bool {
        textarea_wf(self.lines(), self.cursor()) && !self.cursor().2
    }

    /// The field holds one line, with the cursor at its end.
    pub open spec fn fresh(&self) -> bool {
        &&& self.lines().len() == 1
        &&& self.cursor() == (0usize, self.lines()[0].len() as usize, false)
    }

    /// A field holding `default_text`, with the cursor at its end.
    pub fn new(default_text: String, hidden: bool, active: bool) -> (r: Self)
        ensures
            r.wf(),
            r.lines() == seq![default_text@],
            r.cursor() == (0usize, default_text@.len() as usize, false),
            r.active == active,
            r.hidden == hidden,
    {
        let mut lines: Vec<String> = Vec::new();
        lines.push(default_text);
        let mut textarea = textarea_new(lines);
        assert(lines@.map_values(|s: String| s@) =~= seq![default_text@]);
        textarea_move_end(&mut textarea);
        let mut input = Self { textarea, active: false, hidden: false };
        if active {
            input.activate_input();
        } else {
            input.deactivate_input();
        }
        if hidden {
            input.hidden = true;
        }
        input
    }

    /// Takes the focus away.
    pub fn deactivate_input(&mut self)
        ensures
            !final(self).active,
            final(self).textarea == old(self).textarea,
            final(self).hidden == old(self).hidden,
    {
        self.active = false;
    }

    /// Gives the focus.
    pub fn activate_input(&mut self)
        ensures
            final(self).active,
            final(self).textarea == old(self).textarea,
            final(self).hidden == old(self).hidden,
    {
        self.active = true;
    }

    /// The text of the field.
    pub fn text(&self) -> (r: &String)
        requires
            self.wf(),
        ensures
            r@ == self.text_view(),
    {
        textarea_first_line(&self.textarea)
    }

    /// Edits the field with a key: Control with Left or Right moves by
    /// words; Left and Right move by a character; Backspace and Delete
    /// delete before and at the cursor; a character is inserted. Says
    /// whether the key was one of these (for the deletions: whether
    /// anything was deleted).
    pub fn handle_text_input(&mut self, input: KeyInput) -> (handled: bool)
        requires
            old(self).wf(),
        ensures
            final(self).active == old(self).active,
            final(self).hidden == old(self).hidden,
            final(self).wf(),
            text_input_step(*old(self), *final(self), input, handled),
    {
        if input.modifiers == CONTROL && input.code == KeyCode::Left {
            textarea_move_word_back(&mut self.textarea);
            return true;
        }
        if input.modifiers == CONTROL && input.code == KeyCode::Right {
            textarea_move_word_forward(&mut self.textarea);
            return true;
        }
        match input.code {
            KeyCode::Backspace => textarea_delete_char(&mut self.textarea),
            KeyCode::Left => {
                textarea_move_back(&mut self.textarea);
                true
            },
            KeyCode::Right => {
                textarea_move_forward(&mut self.textarea);
                true
            },
            KeyCode::Delete => textarea_delete_next_char(&mut self.textarea),
            KeyCode::Char(c) => {
                textarea_insert_char(&mut self.textarea, c);
                true
            },
            _ => false,
        }
    }
}

impl<'a> Default for SingleLineInput<'a> {
    fn default() -> (r: Self)
        ensures
            r.wf(),
            r.lines() == seq![Seq::<char>::empty()],
            r.cursor() == (0usize, 0usize, false),
            !r.active,
            !r.hidden,
    {
        let mut textarea = textarea_new(Vec::new());
        textarea_move_end(&mut textarea);
        Self { textarea, active: false, hidden: false }
    }
}

/// A plain Left or Right moves the cursor one character along its line
/// when there is one to move over, and leaves the text alone; Left then
/// Right comes back to the same place.
pub proof fn lemma_plain_arrows_move_by_one(
    a: SingleLineInput<'_>,
    b: SingleLineInput<'_>,
    c: SingleLineInput<'_>,
    left: KeyInput,
    right: KeyInput,
    h1: bool,
    h2: bool,
)
    requires
        a.wf(),
        left.code == KeyCode::Left,
        !left.control_only(),
        right.code == KeyCode::Right,
        !right.control_only(),
    ensures
        a.cursor().1 > 0 && text_input_step(a, b, left, h1) ==> h1 && b.lines() == a.lines()
            && b.cursor() == (a.cursor().0, (a.cursor().1 - 1) as usize, false),
        a.cursor().1 < a.lines()[a.cursor().0 as int].len() && text_input_step(a, b, right, h1)
            ==> h1 && b.lines() == a.lines() && b.cursor() == (
            a.cursor().0,
            (a.cursor().1 + 1) as usize,
            false,
        ),
        a.cursor().1 > 0 && text_input_step(a, b, left, h1) && text_input_step(b, c, right, h2)
            ==> c.lines() == a.lines() && c.cursor() == a.cursor(),
{
}

} // verus!
