//! Edit operations that can be applied forward and backward.

use crate::glyph::{is_text, is_text_char};
use crate::row::{lines_are_text, lines_of, rows_wf, Row};
use vstd::prelude::*;

verus! {

/// The direction in which an edit is applied: `Redo` is forward, `Undo` is
/// backward.
#[derive(Debug, Clone, Copy, PartialEq, Eq, Structural)]
pub enum UndoRedo {
    Undo,
    Redo,
}

impl UndoRedo {
    /// The other direction.
    pub open spec fn flip(self) -> UndoRedo {
        match self {
            UndoRedo::Undo => UndoRedo::Redo,
            UndoRedo::Redo => UndoRedo::Undo,
        }
    }
}

/// One reversible edit of a sequence of lines. Each carries what it needs to
/// be undone: the character that `DeleteChar` took out, the text that
/// `Truncate` cut off, the content of the line that `DeleteLine` removed.
#[derive(Debug)]
pub enum EditDiff {
    /// A character put in at column `x` of line `y`.
    InsertChar(usize, usize, char),
    /// The character in front of column `x` of line `y` taken out.
    DeleteChar(usize, usize, char),
    /// A text put at the end of line `y`.
    Append(usize, String),
    /// A text cut off the end of line `y`.
    Truncate(usize, String),
    /// An empty line added after the last.
    Newline,
    /// A line with the given content put in as line `y`.
    InsertLine(usize, String),
    /// Line `y`, with the given content, taken out.
    DeleteLine(usize, String),
}

/// The mathematical model of an edit: positions are integers and texts are
/// sequences of characters.
pub enum EditOp {
    InsertChar(int, int, char),
    DeleteChar(int, int, char),
    Append(int, Seq<char>),
    Truncate(int, Seq<char>),
    Newline,
    InsertLine(int, Seq<char>),
    DeleteLine(int, Seq<char>),
}

impl View for EditDiff {
    type V = EditOp;

    open spec fn view(&self) -> EditOp {
        match *self {
            EditDiff::InsertChar(x, y, c) => EditOp::InsertChar(x as int, y as int, c),
            EditDiff::DeleteChar(x, y, c) => EditOp::DeleteChar(x as int, y as int, c),
            EditDiff::Append(y, s) => EditOp::Append(y as int, s@),
            EditDiff::Truncate(y, s) => EditOp::Truncate(y as int, s@),
            EditDiff::Newline => EditOp::Newline,
            EditDiff::InsertLine(y, s) => EditOp::InsertLine(y as int, s@),
            EditDiff::DeleteLine(y, s) => EditOp::DeleteLine(y as int, s@),
        }
    }
}

/// True when `line` ends with `tail`.
pub open spec fn ends_with(line: Seq<char>, tail: Seq<char>) -> bool {
    tail.len() <= line.len() && line.skip(line.len() - tail.len()) == tail
}

impl EditOp {
    /// True when the edit can be carried out on `lines` in the direction
    /// `which`: the positions it names lie in the lines, there is as much to
    /// take out as it carries, and what it puts in may stand in a line.
    pub open spec fn can_apply(self, lines: Seq<Seq<char>>, which: UndoRedo) -> bool {
        let n = lines.len();
        match (self, which) {
            (EditOp::InsertChar(x, y, c), UndoRedo::Redo) => 0 <= y < n && 0 <= x <= lines[y].len()
                && is_text_char(c),
            (EditOp::InsertChar(x, y, c), UndoRedo::Undo) => 0 <= y < n && 0 <= x < lines[y].len(),
            (EditOp::DeleteChar(x, y, c), UndoRedo::Redo) => 0 <= y < n && 1 <= x
                <= lines[y].len(),
            (EditOp::DeleteChar(x, y, c), UndoRedo::Undo) => 0 <= y < n && 1 <= x <= lines[y].len()
                + 1 && is_text_char(c),
            (EditOp::Append(y, s), UndoRedo::Redo) => 0 <= y < n && is_text(s),
            (EditOp::Append(y, s), UndoRedo::Undo) => 0 <= y < n && s.len() <= lines[y].len(),
            (EditOp::Truncate(y, s), UndoRedo::Redo) => 0 <= y < n && s.len() <= lines[y].len(),
            (EditOp::Truncate(y, s), UndoRedo::Undo) => 0 <= y < n && is_text(s),
            (EditOp::Newline, UndoRedo::Redo) => true,
            (EditOp::Newline, UndoRedo::Undo) => n >= 1 && lines[n - 1].len() == 0,
            (EditOp::InsertLine(y, s), UndoRedo::Redo) => 0 <= y <= n && is_text(s),
            (EditOp::InsertLine(y, s), UndoRedo::Undo) => 1 <= y < n,
            (EditOp::DeleteLine(y, s), UndoRedo::Redo) => 1 <= y < n,
            (EditOp::DeleteLine(y, s), UndoRedo::Undo) => 0 <= y <= n && is_text(s),
        }
    }

    /// The lines after the edit was applied to `lines` in the direction
    /// `which`.
    pub open spec fn apply_to(self, lines: Seq<Seq<char>>, which: UndoRedo) -> Seq<Seq<char>> {
        match (self, which) {
            (EditOp::InsertChar(x, y, c), UndoRedo::Redo) => lines.update(
                y,
                lines[y].insert(x, c),
            ),
            (EditOp::InsertChar(x, y, c), UndoRedo::Undo) => lines.update(y, lines[y].remove(x)),
            (EditOp::DeleteChar(x, y, c), UndoRedo::Redo) => lines.update(
                y,
                lines[y].remove(x - 1),
            ),
            (EditOp::DeleteChar(x, y, c), UndoRedo::Undo) => lines.update(
                y,
                lines[y].insert(x - 1, c),
            ),
            (EditOp::Append(y, s), UndoRedo::Redo) => lines.update(y, lines[y] + s),
            (EditOp::Append(y, s), UndoRedo::Undo) => lines.update(
                y,
                lines[y].take(lines[y].len() - s.len()),
            ),
            (EditOp::Truncate(y, s), UndoRedo::Redo) => lines.update(
                y,
                lines[y].take(lines[y].len() - s.len()),
            ),
            (EditOp::Truncate(y, s), UndoRedo::Undo) => lines.update(y, lines[y] + s),
            (EditOp::Newline, UndoRedo::Redo) => lines.push(Seq::empty()),
            (EditOp::Newline, UndoRedo::Undo) => lines.drop_last(),
            (EditOp::InsertLine(y, s), UndoRedo::Redo) => lines.insert(y, s),
            (EditOp::InsertLine(y, s), UndoRedo::Undo) => lines.remove(y),
            (EditOp::DeleteLine(y, s), UndoRedo::Redo) => lines.remove(y),
            (EditOp::DeleteLine(y, s), UndoRedo::Undo) => lines.insert(y, s),
        }
    }

    /// The cursor, as column and line, after the edit was applied to `lines`
    /// in the direction `which`.
    pub open spec fn cursor_after(self, lines: Seq<Seq<char>>, which: UndoRedo) -> (int, int) {
        let n = lines.len() as int;
        match (self, which) {
            (EditOp::InsertChar(x, y, c), UndoRedo::Redo) => (x + 1, y),
            (EditOp::InsertChar(x, y, c), UndoRedo::Undo) => (x, y),
            (EditOp::DeleteChar(x, y, c), UndoRedo::Redo) => (x - 1, y),
            (EditOp::DeleteChar(x, y, c), UndoRedo::Undo) => (x, y),
            (EditOp::Append(y, s), UndoRedo::Redo) => (lines[y].len() as int, y),
            (EditOp::Append(y, s), UndoRedo::Undo) => (lines[y].len() - s.len(), y),
            (EditOp::Truncate(y, s), UndoRedo::Redo) => (lines[y].len() - s.len(), y),
            (EditOp::Truncate(y, s), UndoRedo::Undo) => (lines[y].len() as int, y),
            (EditOp::Newline, UndoRedo::Redo) => (0, n),
            (EditOp::Newline, UndoRedo::Undo) => (0, n - 1),
            (EditOp::InsertLine(y, s), UndoRedo::Redo) => (0, y),
            (EditOp::InsertLine(y, s), UndoRedo::Undo) => (lines[y - 1].len() as int, y - 1),
            (EditOp::DeleteLine(y, s), UndoRedo::Redo) => (lines[y - 1].len() as int, y - 1),
            (EditOp::DeleteLine(y, s), UndoRedo::Undo) => (0, y),
        }
    }

    /// True when `lines` is a state that the edit is made for in the
    /// direction `which`: it can be applied, what it takes out is what it
    /// carries, a line that it puts in or takes out is not the first, and a
    /// line is left when it is done.
    pub open spec fn fits(self, lines: Seq<Seq<char>>, which: UndoRedo) -> bool {
        &&& self.can_apply(lines, which)
        &&& match (self, which) {
            (EditOp::InsertChar(x, y, c), UndoRedo::Redo) => true,
            (EditOp::InsertChar(x, y, c), UndoRedo::Undo) => lines[y][x] == c,
            (EditOp::DeleteChar(x, y, c), UndoRedo::Redo) => lines[y][x - 1] == c,
            (EditOp::DeleteChar(x, y, c), UndoRedo::Undo) => true,
            (EditOp::Append(y, s), UndoRedo::Redo) => true,
            (EditOp::Append(y, s), UndoRedo::Undo) => ends_with(lines[y], s),
            (EditOp::Truncate(y, s), UndoRedo::Redo) => ends_with(lines[y], s),
            (EditOp::Truncate(y, s), UndoRedo::Undo) => true,
            (EditOp::Newline, UndoRedo::Redo) => lines.len() >= 1,
            (EditOp::Newline, UndoRedo::Undo) => lines.len() >= 2,
            (EditOp::InsertLine(y, s), UndoRedo::Redo) => 1 <= y,
            (EditOp::InsertLine(y, s), UndoRedo::Undo) => lines[y] == s,
            (EditOp::DeleteLine(y, s), UndoRedo::Redo) => lines[y] == s,
            (EditOp::DeleteLine(y, s), UndoRedo::Undo) => 1 <= y,
        }
    }
}

impl EditDiff {
    /// Applies the edit to `rows` in the direction `which` and returns the
    /// cursor that goes with the result, as column and line.
    pub fn apply(&self, rows: &mut Vec<Row>, which: UndoRedo) -> (cursor: (usize, usize))
        requires
            rows_wf(old(rows)@),
            self@.can_apply(lines_of(old(rows)@), which),
        ensures
            rows_wf(final(rows)@),
            lines_of(final(rows)@) == self@.apply_to(lines_of(old(rows)@), which),
            cursor.0 == self@.cursor_after(lines_of(old(rows)@), which).0,
            cursor.1 == self@.cursor_after(lines_of(old(rows)@), which).1,
    {
        let ghost lines = lines_of(rows@);
        match self {
            EditDiff::InsertChar(x, y, c) => match which {
                UndoRedo::Redo => {
                    insert_char_at(rows, *y, *x, *c);
                    (*x + 1, *y)
                },
                UndoRedo::Undo => {
                    remove_char_at(rows, *y, *x);
                    (*x, *y)
                },
            },
            EditDiff::DeleteChar(x, y, c) => match which {
                UndoRedo::Redo => {
                    remove_char_at(rows, *y, *x - 1);
                    (*x - 1, *y)
                },
                UndoRedo::Undo => {
                    insert_char_at(rows, *y, *x - 1, *c);
                    (*x, *y)
                },
            },
            EditDiff::Append(y, s) => match which {
                UndoRedo::Redo => {
                    let len = rows[*y].len();
                    append_at(rows, *y, s.as_str());
                    (len, *y)
                },
                UndoRedo::Undo => {
                    let count = s.as_str().unicode_len();
                    let len = rows[*y].len();
                    cut_at(rows, *y, len - count);
                    (len - count, *y)
                },
            },
            EditDiff::Truncate(y, s) => match which {
                UndoRedo::Redo => {
                    let count = s.as_str().unicode_len();
                    let len = rows[*y].len();
                    cut_at(rows, *y, len - count);
                    (len - count, *y)
                },
                UndoRedo::Undo => {
                    let len = rows[*y].len();
                    append_at(rows, *y, s.as_str());
                    (len, *y)
                },
            },
            EditDiff::Newline => match which {
                UndoRedo::Redo => {
                    rows.push(Row::empty());
                    assert(lines_of(rows@) =~= lines.push(Seq::empty()));
                    (0, rows.len() - 1)
                },
                UndoRedo::Undo => {
                    rows.pop();
                    assert(lines_of(rows@) =~= lines.drop_last());
                    (0, rows.len())
                },
            },
            EditDiff::InsertLine(y, s) => match which {
                UndoRedo::Redo => {
                    insert_line_at(rows, *y, s);
                    (0, *y)
                },
                UndoRedo::Undo => {
                    remove_line_at(rows, *y);
                    proof {
                        assert(rows@.len() == lines_of(rows@).len());
                        assert(rows@[*y - 1].wf());
                        assert(lines_of(rows@)[*y - 1] == lines[*y - 1]);
                    }
                    (rows[*y - 1].len(), *y - 1)
                },
            },
            EditDiff::DeleteLine(y, s) => match which {
                UndoRedo::Redo => {
                    remove_line_at(rows, *y);
                    proof {
                        assert(rows@.len() == lines_of(rows@).len());
                        assert(rows@[*y - 1].wf());
                        assert(lines_of(rows@)[*y - 1] == lines[*y - 1]);
                    }
                    (rows[*y - 1].len(), *y - 1)
                },
                UndoRedo::Undo => {
                    insert_line_at(rows, *y, s);
                    (0, *y)
                },
            },
        }
    }
}

/// Puts `c` into line `y` in front of column `x`.
fn insert_char_at(rows: &mut Vec<Row>, y: usize, x: usize, c: char)
    requires
        rows_wf(old(rows)@),
        y < old(rows).len(),
        x <= lines_of(old(rows)@)[y as int].len(),
        is_text_char(c),
    ensures
        rows_wf(final(rows)@),
        x < usize::MAX,
        lines_of(final(rows)@) == lines_of(old(rows)@).update(
            y as int,
            lines_of(old(rows)@)[y as int].insert(x as int, c),
        ),
{
    let ghost before = rows@;
    let row = &mut rows[y];
    row.insert_char(x, c).unwrap();
    proof {
        rows@[y as int].lemma_len_fits();
        before[y as int]@.insert_ensures(x as int, c);
    }
    assert(lines_of(rows@) =~= lines_of(before).update(y as int, rows@[y as int]@));
}

/// Takes the character at column `x` out of line `y`.
fn remove_char_at(rows: &mut Vec<Row>, y: usize, x: usize)
    requires
        rows_wf(old(rows)@),
        y < old(rows).len(),
        x < lines_of(old(rows)@)[y as int].len(),
    ensures
        rows_wf(final(rows)@),
        lines_of(final(rows)@) == lines_of(old(rows)@).update(
            y as int,
            lines_of(old(rows)@)[y as int].remove(x as int),
        ),
{
    let ghost before = rows@;
    let row = &mut rows[y];
    row.remove_char(x);
    assert(lines_of(rows@) =~= lines_of(before).update(y as int, rows@[y as int]@));
}

/// Puts `text` at the end of line `y`.
fn append_at(rows: &mut Vec<Row>, y: usize, text: &str)
    requires
        rows_wf(old(rows)@),
        y < old(rows).len(),
        is_text(text@),
    ensures
        rows_wf(final(rows)@),
        lines_of(final(rows)@) == lines_of(old(rows)@).update(
            y as int,
            lines_of(old(rows)@)[y as int] + text@,
        ),
{
    let ghost before = rows@;
    let row = &mut rows[y];
    row.append(text).unwrap();
    assert(lines_of(rows@) =~= lines_of(before).update(y as int, rows@[y as int]@));
}

/// Keeps the first `at` characters of line `y`.
fn cut_at(rows: &mut Vec<Row>, y: usize, at: usize)
    requires
        rows_wf(old(rows)@),
        y < old(rows).len(),
        at <= lines_of(old(rows)@)[y as int].len(),
    ensures
        rows_wf(final(rows)@),
        lines_of(final(rows)@) == lines_of(old(rows)@).update(
            y as int,
            lines_of(old(rows)@)[y as int].take(at as int),
        ),
{
    let ghost before = rows@;
    let row = &mut rows[y];
    row.truncate(at);
    assert(before[y as int]@.take(before[y as int]@.len() as int) =~= before[y as int]@);
    assert(lines_of(rows@) =~= lines_of(before).update(y as int, rows@[y as int]@));
}

/// Puts a line with the content `text` in as line `y`.
fn insert_line_at(rows: &mut Vec<Row>, y: usize, text: &String)
    requires
        rows_wf(old(rows)@),
        y <= old(rows).len(),
        is_text(text@),
    ensures
        rows_wf(final(rows)@),
        lines_of(final(rows)@) == lines_of(old(rows)@).insert(y as int, text@),
{
    let ghost before = rows@;
    let row = Row::new(text.clone()).unwrap();
    if y == rows.len() {
        rows.push(row);
    } else {
        rows.insert(y, row);
    }
    assert(rows@ =~= before.insert(y as int, row));
    assert(lines_of(rows@) =~= lines_of(before).insert(y as int, text@));
}

/// Takes line `y` out.
fn remove_line_at(rows: &mut Vec<Row>, y: usize)
    requires
        rows_wf(old(rows)@),
        y < old(rows).len(),
    ensures
        rows_wf(final(rows)@),
        lines_of(final(rows)@) == lines_of(old(rows)@).remove(y as int),
{
    let ghost before = rows@;
    if y == rows.len() - 1 {
        rows.pop();
    } else {
        rows.remove(y);
    }
    assert(rows@ =~= before.remove(y as int));
    assert(lines_of(rows@) =~= lines_of(before).remove(y as int));
}

/// Applying an edit to a state that it is made for, and then applying it in
/// the other direction, gives the first state back: the same lines with the
/// same content. In between, the edit fits the state in the other direction.
pub proof fn lemma_apply_inverts(op: EditOp, lines: Seq<Seq<char>>, which: UndoRedo)
    requires
        lines_are_text(lines),
        op.fits(lines, which),
    ensures
        lines_are_text(op.apply_to(lines, which)),
        op.fits(op.apply_to(lines, which), which.flip()),
        op.apply_to(op.apply_to(lines, which), which.flip()) == lines,
{
    let after = op.apply_to(lines, which);
    let back = op.apply_to(after, which.flip());
    lemma_apply_keeps_text(op, lines, which);
    match (op, which) {
        (EditOp::InsertChar(x, y, c), UndoRedo::Redo) => {
            let line = lines[y];
            assert(line.insert(x, c).remove(x) =~= line);
            assert(back =~= lines);
        },
        (EditOp::InsertChar(x, y, c), UndoRedo::Undo) => {
            let line = lines[y];
            assert(is_text(line));
            assert(line.remove(x).insert(x, c) =~= line);
            assert(back =~= lines);
        },
        (EditOp::DeleteChar(x, y, c), UndoRedo::Redo) => {
            let line = lines[y];
            assert(is_text(line));
            assert(line.remove(x - 1).insert(x - 1, c) =~= line);
            assert(back =~= lines);
        },
        (EditOp::DeleteChar(x, y, c), UndoRedo::Undo) => {
            let line = lines[y];
            assert(line.insert(x - 1, c).remove(x - 1) =~= line);
            assert(back =~= lines);
        },
        (EditOp::Append(y, s), UndoRedo::Redo) | (EditOp::Truncate(y, s), UndoRedo::Undo) => {
            let line = lines[y];
            assert((line + s).take(line.len() as int) =~= line);
            assert((line + s).skip(line.len() as int) =~= s);
            assert(back =~= lines);
        },
        (EditOp::Append(y, s), UndoRedo::Undo) | (EditOp::Truncate(y, s), UndoRedo::Redo) => {
            let line = lines[y];
            assert(is_text(line));
            assert(is_text(s)) by {
                assert forall|i: int| 0 <= i < s.len() implies is_text_char(#[trigger] s[i]) by {
                    assert(s[i] == line[line.len() - s.len() + i]);
                }
            }
            assert(line.take(line.len() - s.len()) + s =~= line);
            assert(back =~= lines);
        },
        (EditOp::Newline, UndoRedo::Redo) => {
            assert(back =~= lines);
        },
        (EditOp::Newline, UndoRedo::Undo) => {
            assert(lines[lines.len() - 1] =~= Seq::<char>::empty());
            assert(back =~= lines);
        },
        (EditOp::InsertLine(y, s), UndoRedo::Redo) | (EditOp::DeleteLine(y, s), UndoRedo::Undo) => {
            assert(back =~= lines);
        },
        (EditOp::InsertLine(y, s), UndoRedo::Undo) | (EditOp::DeleteLine(y, s), UndoRedo::Redo) => {
            assert(is_text(lines[y]));
            assert(back =~= lines);
        },
    }
}

/// An edit that can be applied leaves lines in which every character may
/// stand in a line.
pub proof fn lemma_apply_keeps_text(op: EditOp, lines: Seq<Seq<char>>, which: UndoRedo)
    requires
        lines_are_text(lines),
        op.can_apply(lines, which),
    ensures
        lines_are_text(op.apply_to(lines, which)),
{
    let after = op.apply_to(lines, which);
    assert forall|i: int| 0 <= i < after.len() implies is_text(#[trigger] after[i]) by {
        match (op, which) {
            (EditOp::InsertChar(x, y, c), UndoRedo::Redo) | (
                EditOp::DeleteChar(x, y, c),
                UndoRedo::Undo,
            ) => {
                if i == y {
                    let line = lines[y];
                    assert(is_text(line));
                    let t = after[i];
                    assert forall|j: int| 0 <= j < t.len() implies is_text_char(#[trigger] t[j]) by {
                        if t[j] != c {
                            assert(t[j] == line[j] || t[j] == line[j - 1]);
                        }
                    }
                } else {
                    assert(after[i] == lines[i]);
                }
            },
            (EditOp::InsertChar(x, y, c), UndoRedo::Undo) | (
                EditOp::DeleteChar(x, y, c),
                UndoRedo::Redo,
            ) => {
                if i == y {
                    let line = lines[y];
                    assert(is_text(line));
                    let t = after[i];
                    assert forall|j: int| 0 <= j < t.len() implies is_text_char(#[trigger] t[j]) by {
                        assert(t[j] == line[j] || t[j] == line[j + 1]);
                    }
                } else {
                    assert(after[i] == lines[i]);
                }
            },
            (EditOp::Append(y, s), UndoRedo::Redo) | (EditOp::Truncate(y, s), UndoRedo::Undo) => {
                if i == y {
                    let line = lines[y];
                    assert(is_text(line));
                    let t = after[i];
                    assert forall|j: int| 0 <= j < t.len() implies is_text_char(#[trigger] t[j]) by {
                        if j < line.len() {
                            assert(t[j] == line[j]);
                        } else {
                            assert(t[j] == s[j - line.len()]);
                        }
                    }
                } else {
                    assert(after[i] == lines[i]);
                }
            },
            (EditOp::Append(y, s), UndoRedo::Undo) | (EditOp::Truncate(y, s), UndoRedo::Redo) => {
                if i == y {
                    let line = lines[y];
                    assert(is_text(line));
                    let t = after[i];
                    assert forall|j: int| 0 <= j < t.len() implies is_text_char(#[trigger] t[j]) by {
                        assert(t[j] == line[j]);
                    }
                } else {
                    assert(after[i] == lines[i]);
                }
            },
            (EditOp::Newline, UndoRedo::Redo) => {
                if i < lines.len() {
                    assert(after[i] == lines[i]);
                }
            },
            (EditOp::Newline, UndoRedo::Undo) => {
                assert(after[i] == lines[i]);
            },
            (EditOp::InsertLine(y, s), UndoRedo::Redo) | (EditOp::DeleteLine(y, s), UndoRedo::Undo) => {
                if i < y {
                    assert(after[i] == lines[i]);
                } else if i > y {
                    assert(after[i] == lines[i - 1]);
                }
            },
            (EditOp::InsertLine(y, s), UndoRedo::Undo) | (EditOp::DeleteLine(y, s), UndoRedo::Redo) => {
                if i < y {
                    assert(after[i] == lines[i]);
                } else {
                    assert(after[i] == lines[i + 1]);
                }
            },
        }
    }
}

/// True when `(x, y)` is a place for the cursor in `lines`: on a line and at
/// most at its end, or at column zero just past the last line.
pub open spec fn is_cursor(lines: Seq<Seq<char>>, x: int, y: int) -> bool {
    &&& 0 <= y <= lines.len()
    &&& 0 <= x
    &&& if y < lines.len() {
        x <= lines[y].len()
    } else {
        x == 0
    }
}

/// After an edit that fits, at least one line is left and the cursor that it
/// gives is a place in the lines that it leaves.
pub proof fn lemma_cursor_after_fits(op: EditOp, lines: Seq<Seq<char>>, which: UndoRedo)
    requires
        op.fits(lines, which),
        lines.len() >= 1,
    ensures
        op.apply_to(lines, which).len() >= 1,
        is_cursor(
            op.apply_to(lines, which),
            op.cursor_after(lines, which).0,
            op.cursor_after(lines, which).1,
        ),
{
    match (op, which) {
        (EditOp::InsertChar(x, y, c), UndoRedo::Redo) => {
            lines[y].insert_ensures(x, c);
        },
        (EditOp::DeleteChar(x, y, c), UndoRedo::Undo) => {
            lines[y].insert_ensures(x - 1, c);
        },
        _ => {},
    }
}

} // verus!
