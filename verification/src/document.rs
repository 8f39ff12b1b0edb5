//! The mathematical model of a document and of what each request does to it.

use crate::edit_diff::{is_cursor, lemma_apply_inverts, lemma_cursor_after_fits, EditOp, UndoRedo};
use crate::glyph::{is_text, is_text_char};
use crate::history::{
    lemma_close_replays, lemma_record_replays, lemma_redo_replays, lemma_undo_replays, Log,
};
use crate::replay::{
    lemma_redo_keeps_cursor, lemma_redo_then_undo, lemma_undo_keeps_cursor, lemma_undo_then_redo,
    redo_all, redo_cursor, redo_floor, undo_all, undo_cursor, undo_floor,
};
use crate::row::lines_are_text;
use vstd::prelude::*;

verus! {

/// A step of the cursor.
#[derive(Clone, Copy, PartialEq, Eq, Structural, Debug)]
pub enum CursorDir {
    Left,
    Right,
    Up,
    Down,
}

/// The counter of unsaved transactions, one up, held at the largest `i32`.
pub open spec fn sat_inc(count: int) -> int {
    if count < i32::MAX {
        count + 1
    } else {
        count
    }
}

/// The counter of unsaved transactions, one down, held at the smallest `i32`.
pub open spec fn sat_dec(count: int) -> int {
    if count > i32::MIN {
        count - 1
    } else {
        count
    }
}

/// The file that a document is bound to.
pub struct FileName {
    pub path: Seq<char>,
    pub display: Seq<char>,
}

/// A document: its lines, the cursor as column `cx` and line `cy`, the file
/// it is bound to, the count of sealed transactions since it was saved,
/// whether it was edited since the open transaction began, its history,
/// whether a transaction was closed during this keystroke, and the lowest
/// line to draw again.
pub struct Document {
    pub lines: Seq<Seq<char>>,
    pub cx: int,
    pub cy: int,
    pub file: Option<FileName>,
    pub undo_count: int,
    pub modified: bool,
    pub log: Log,
    pub latch: bool,
    pub dirty: Option<int>,
}

impl Document {
    /// The invariant of a document: there is a line; every character may
    /// stand in a line; the cursor is on a line and at most at its end, or at
    /// column zero just past the last line; the history goes with the lines.
    pub open spec fn wf(self) -> bool {
        &&& self.lines.len() >= 1
        &&& lines_are_text(self.lines)
        &&& is_cursor(self.lines, self.cx, self.cy)
        &&& self.log.wf()
        &&& self.log.replays_on(self.lines)
        &&& i32::MIN <= self.undo_count <= i32::MAX
        &&& (self.dirty matches Some(line) ==> 0 <= line)
    }

    /// The empty document: one empty line, bound to no file, to be drawn from
    /// the first line.
    pub open spec fn empty() -> Document {
        Document {
            lines: seq![Seq::<char>::empty()],
            cx: 0,
            cy: 0,
            file: None,
            undo_count: 0,
            modified: false,
            log: Log::empty(),
            latch: false,
            dirty: Some(0int),
        }
    }

    /// The document with `line` marked to be drawn again: the lowest line
    /// marked so far stays.
    pub open spec fn touch(self, line: int) -> Document {
        Document {
            dirty: match self.dirty {
                Some(low) => if low <= line {
                    Some(low)
                } else {
                    Some(line)
                },
                None => Some(line),
            },
            ..self
        }
    }

    /// The document after the edit `op` was made: applied forward, recorded
    /// in the open transaction, the cursor where the edit puts it, and the
    /// cursor's line marked.
    pub open spec fn edit(self, op: EditOp) -> Document {
        let cursor = op.cursor_after(self.lines, UndoRedo::Redo);
        Document {
            lines: op.apply_to(self.lines, UndoRedo::Redo),
            cx: cursor.0,
            cy: cursor.1,
            modified: true,
            log: self.log.record(op),
            ..self
        }.touch(cursor.1)
    }

    /// The document after the open transaction was closed: sealed, and
    /// counted as unsaved, where it held an edit.
    pub open spec fn commit(self) -> Document {
        Document {
            undo_count: if self.log.active.len() > 0 {
                sat_inc(self.undo_count)
            } else {
                self.undo_count
            },
            modified: false,
            log: self.log.close(),
            ..self
        }
    }

    /// The document after the open transaction was closed ahead of an edit
    /// that is to stand alone. Only the first such closing of a keystroke
    /// does anything.
    pub open spec fn seal(self) -> Document {
        if self.latch {
            self
        } else {
            Document { latch: true, ..self.commit() }
        }
    }

    /// The document after the end of a keystroke: the next closing counts
    /// again, and the mark of what to draw is taken.
    pub open spec fn finish_edit(self) -> Document {
        Document { latch: false, dirty: None, ..self }
    }

    /// The document after `c` was typed: a new last line first where the
    /// cursor is past the last line, then `c` at the cursor. A character
    /// that may not stand in a line changes nothing.
    pub open spec fn insert_char(self, c: char) -> Document {
        if !is_text_char(c) {
            self
        } else {
            let d = if self.cy == self.lines.len() {
                self.edit(EditOp::Newline)
            } else {
                self
            };
            d.edit(EditOp::InsertChar(d.cx, d.cy, c))
        }
    }

    /// True when deleting to the left does something: the cursor is on a
    /// line and not at the start of the document.
    pub open spec fn can_delete(self) -> bool {
        self.cy != self.lines.len() && !(self.cx == 0 && self.cy == 0)
    }

    /// The document after a deletion to the left, in a transaction of its
    /// own, closed before and after: the character in front of the cursor
    /// goes, or at column zero the line joins the one above.
    pub open spec fn delete_char(self) -> Document {
        if !self.can_delete() {
            self
        } else {
            let d = self.seal();
            if d.cx > 0 {
                d.edit(EditOp::DeleteChar(d.cx, d.cy, d.lines[d.cy][d.cx - 1])).commit()
            } else {
                let removed = d.lines[d.cy];
                d.edit(EditOp::DeleteLine(d.cy, removed)).edit(
                    EditOp::Append(d.cy - 1, removed),
                ).commit()
            }
        }
    }

    /// The document after the cursor moved one step. To the left of column
    /// zero lies the end of the line above, to the right of a line's end the
    /// start of the next; at the edges of the document nothing moves. After
    /// a step up or down the column is at most the length of the line.
    pub open spec fn move_cursor(self, dir: CursorDir) -> Document {
        let n = self.lines.len() as int;
        let (x, y) = match dir {
            CursorDir::Up => (
                self.cx,
                if self.cy > 0 {
                    self.cy - 1
                } else {
                    0
                },
            ),
            CursorDir::Left => if self.cx > 0 {
                (self.cx - 1, self.cy)
            } else if self.cy > 0 {
                (self.lines[self.cy - 1].len() as int, self.cy - 1)
            } else {
                (self.cx, self.cy)
            },
            CursorDir::Down => (
                self.cx,
                if self.cy < n {
                    self.cy + 1
                } else {
                    self.cy
                },
            ),
            CursorDir::Right => if self.cy < n {
                if self.cx < self.lines[self.cy].len() {
                    (self.cx + 1, self.cy)
                } else {
                    (0, self.cy + 1)
                }
            } else {
                (self.cx, self.cy)
            },
        };
        let len = if 0 <= y < n {
            self.lines[y].len() as int
        } else {
            0
        };
        Document {
            cx: if x > len {
                len
            } else {
                x
            },
            cy: y,
            ..self
        }
    }

    /// True when deleting to the right does something: the cursor is on a
    /// line and not at the end of the last line.
    pub open spec fn can_delete_right(self) -> bool {
        self.cy != self.lines.len() && !(self.cy == self.lines.len() - 1 && self.cx
            == self.lines[self.cy].len())
    }

    /// The document after a deletion to the right: a step to the right, then
    /// a deletion to the left.
    pub open spec fn delete_right_char(self) -> Document {
        if !self.can_delete_right() {
            self
        } else {
            self.move_cursor(CursorDir::Right).delete_char()
        }
    }

    /// The document after a line break, in a transaction of its own, closed
    /// before and after: a new last line where the cursor is past the last
    /// line, an empty line below where it is at the end of its line, else the
    /// rest of the line moves to a new line below.
    pub open spec fn insert_line(self) -> Document {
        let d = self.seal();
        if d.cy >= d.lines.len() {
            d.edit(EditOp::Newline).commit()
        } else if d.cx >= d.lines[d.cy].len() {
            d.edit(EditOp::InsertLine(d.cy + 1, Seq::empty())).commit()
        } else {
            let rest = d.lines[d.cy].skip(d.cx);
            d.edit(EditOp::Truncate(d.cy, rest)).edit(
                EditOp::InsertLine(d.cy + 1, rest),
            ).commit()
        }
    }

    /// The document after an undo: the last transaction is reverted, the
    /// cursor and the mark of what to draw follow it, and the count of
    /// unsaved transactions goes down unless the transaction was still open.
    /// With nothing to undo the document stays as it is.
    pub open spec fn undo(self) -> Document {
        if !self.log.can_undo() {
            self
        } else {
            let target = self.log.undo_target();
            let cursor = undo_cursor(target, self.lines);
            Document {
                lines: undo_all(target, self.lines),
                cx: cursor.0,
                cy: cursor.1,
                undo_count: if self.log.active.len() > 0 {
                    self.undo_count
                } else {
                    sat_dec(self.undo_count)
                },
                modified: false,
                log: self.log.undo(),
                ..self
            }.touch(undo_floor(target, self.lines))
        }
    }

    /// The document after a redo: the transaction that was undone last is
    /// applied again, the cursor and the mark of what to draw follow it, and
    /// the count of unsaved transactions goes up. With nothing to redo the
    /// document stays as it is.
    pub open spec fn redo(self) -> Document {
        if !self.log.can_redo() {
            self
        } else {
            let target = self.log.undone.first();
            let cursor = redo_cursor(target, self.lines);
            Document {
                lines: redo_all(target, self.lines),
                cx: cursor.0,
                cy: cursor.1,
                undo_count: sat_inc(self.undo_count),
                modified: false,
                log: self.log.redo(),
                ..self
            }.touch(redo_floor(target, self.lines))
        }
    }

    /// The document after it was written to its file: nothing is unsaved.
    pub open spec fn saved(self) -> Document {
        Document { undo_count: 0, modified: false, ..self }
    }

    /// True when the document is bound to no file and is one empty line.
    pub open spec fn is_scratch(self) -> bool {
        self.file is None && self.lines.len() == 1 && self.lines[0].len() == 0
    }

    /// True when there is something unsaved.
    pub open spec fn is_modified(self) -> bool {
        self.undo_count != 0 || self.modified
    }
}

/// An edit that fits the lines of a valid document leaves a valid document.
pub proof fn lemma_edit_wf(d: Document, op: EditOp)
    requires
        d.wf(),
        op.fits(d.lines, UndoRedo::Redo),
    ensures
        d.edit(op).wf(),
{
    lemma_apply_inverts(op, d.lines, UndoRedo::Redo);
    lemma_cursor_after_fits(op, d.lines, UndoRedo::Redo);
    lemma_record_replays(d.log, op, d.lines);
}

/// Closing the open transaction leaves a valid document with the same lines
/// and cursor, and no transaction open.
pub proof fn lemma_commit_wf(d: Document)
    requires
        d.wf(),
    ensures
        d.commit().wf(),
        d.commit().lines == d.lines,
        d.commit().cx == d.cx,
        d.commit().cy == d.cy,
        d.commit().log.active.len() == 0,
{
    lemma_close_replays(d.log, d.lines);
}

/// Closing the open transaction ahead of an edit leaves a valid document
/// with the same lines and cursor.
pub proof fn lemma_seal_wf(d: Document)
    requires
        d.wf(),
    ensures
        d.seal().wf(),
        d.seal().lines == d.lines,
        d.seal().cx == d.cx,
        d.seal().cy == d.cy,
{
    lemma_commit_wf(d);
}

/// A step of the cursor leaves a valid document.
pub proof fn lemma_move_wf(d: Document, dir: CursorDir)
    requires
        d.wf(),
    ensures
        d.move_cursor(dir).wf(),
{
}

/// Typing a character leaves a valid document.
pub proof fn lemma_insert_char_wf(d: Document, c: char)
    requires
        d.wf(),
    ensures
        d.insert_char(c).wf(),
{
    if is_text_char(c) {
        if d.cy == d.lines.len() {
            lemma_edit_wf(d, EditOp::Newline);
        }
        let e = if d.cy == d.lines.len() {
            d.edit(EditOp::Newline)
        } else {
            d
        };
        lemma_edit_wf(e, EditOp::InsertChar(e.cx, e.cy, c));
    }
}

/// A deletion to the left leaves a valid document.
pub proof fn lemma_delete_char_wf(d: Document)
    requires
        d.wf(),
    ensures
        d.delete_char().wf(),
{
    if d.can_delete() {
        lemma_seal_wf(d);
        let s = d.seal();
        if s.cx > 0 {
            let op = EditOp::DeleteChar(s.cx, s.cy, s.lines[s.cy][s.cx - 1]);
            lemma_edit_wf(s, op);
            lemma_commit_wf(s.edit(op));
        } else {
            let removed = s.lines[s.cy];
            assert(is_text(removed));
            let op = EditOp::DeleteLine(s.cy, removed);
            lemma_edit_wf(s, op);
            lemma_edit_wf(s.edit(op), EditOp::Append(s.cy - 1, removed));
            lemma_commit_wf(s.edit(op).edit(EditOp::Append(s.cy - 1, removed)));
        }
    }
}

/// A deletion to the right leaves a valid document.
pub proof fn lemma_delete_right_char_wf(d: Document)
    requires
        d.wf(),
    ensures
        d.delete_right_char().wf(),
{
    if d.can_delete_right() {
        lemma_move_wf(d, CursorDir::Right);
        lemma_delete_char_wf(d.move_cursor(CursorDir::Right));
    }
}

/// A line break leaves a valid document.
pub proof fn lemma_insert_line_wf(d: Document)
    requires
        d.wf(),
    ensures
        d.insert_line().wf(),
{
    lemma_seal_wf(d);
    let s = d.seal();
    if s.cy >= s.lines.len() {
        lemma_edit_wf(s, EditOp::Newline);
        lemma_commit_wf(s.edit(EditOp::Newline));
    } else if s.cx >= s.lines[s.cy].len() {
        lemma_edit_wf(s, EditOp::InsertLine(s.cy + 1, Seq::empty()));
        lemma_commit_wf(s.edit(EditOp::InsertLine(s.cy + 1, Seq::empty())));
    } else {
        let line = s.lines[s.cy];
        let rest = line.skip(s.cx);
        assert(is_text(line));
        assert(is_text(rest)) by {
            assert forall|i: int| 0 <= i < rest.len() implies is_text_char(#[trigger] rest[i]) by {
                assert(rest[i] == line[s.cx + i]);
            }
        }
        let cut = EditOp::Truncate(s.cy, rest);
        assert(line.skip(line.len() - rest.len()) =~= rest);
        lemma_edit_wf(s, cut);
        lemma_edit_wf(s.edit(cut), EditOp::InsertLine(s.cy + 1, rest));
        lemma_commit_wf(s.edit(cut).edit(EditOp::InsertLine(s.cy + 1, rest)));
    }
}

/// An undo leaves a valid document.
pub proof fn lemma_undo_wf(d: Document)
    requires
        d.wf(),
    ensures
        d.undo().wf(),
{
    if d.log.can_undo() {
        lemma_undo_replays(d.log, d.lines);
        let target = d.log.undo_target();
        lemma_undo_then_redo(target, d.lines);
        lemma_undo_keeps_cursor(target, d.lines);
    }
}

/// A redo leaves a valid document.
pub proof fn lemma_redo_wf(d: Document)
    requires
        d.wf(),
    ensures
        d.redo().wf(),
{
    if d.log.can_redo() {
        lemma_redo_replays(d.log, d.lines);
        let target = d.log.undone.first();
        lemma_redo_then_undo(target, d.lines);
        lemma_redo_keeps_cursor(target, d.lines);
    }
}

/// The document after the characters `chars` were typed one after another.
pub open spec fn type_all(d: Document, chars: Seq<char>) -> Document
    decreases chars.len(),
{
    if chars.len() == 0 {
        d
    } else {
        type_all(d, chars.drop_last()).insert_char(chars.last())
    }
}

/// An edit joins the open transaction and seals nothing, and undoing the
/// open transaction after the edit leads to where undoing it before the edit
/// led: the same lines and, where the transaction was open before, the same
/// cursor.
pub proof fn lemma_edit_joins_transaction(d: Document, op: EditOp)
    requires
        d.wf(),
        op.fits(d.lines, UndoRedo::Redo),
    ensures
        d.edit(op).wf(),
        d.edit(op).log.done == d.log.done,
        d.edit(op).log.active == d.log.active.push(op),
        d.edit(op).latch == d.latch,
        undo_all(d.edit(op).log.active, d.edit(op).lines) == undo_all(d.log.active, d.lines),
        d.log.active.len() > 0 ==> undo_cursor(d.edit(op).log.active, d.edit(op).lines)
            == undo_cursor(d.log.active, d.lines),
        d.log.active.len() == 0 ==> undo_cursor(d.edit(op).log.active, d.edit(op).lines)
            == op.cursor_after(d.edit(op).lines, UndoRedo::Undo),
{
    lemma_edit_wf(d, op);
    lemma_apply_inverts(op, d.lines, UndoRedo::Redo);
    let e = d.edit(op);
    assert(e.log.active.drop_last() =~= d.log.active);
    assert(e.log.active.last() == op);
}

/// Where the cursor stands after the first edit of a typed character is
/// undone: where it stood before the character was typed.
proof fn lemma_insert_char_origin(d: Document, c: char)
    requires
        d.wf(),
        is_text_char(c),
    ensures
        d.insert_char(c).wf(),
        d.insert_char(c).log.done == d.log.done,
        d.insert_char(c).log.active.len() > 0,
        d.insert_char(c).latch == d.latch,
        undo_all(d.insert_char(c).log.active, d.insert_char(c).lines) == undo_all(
            d.log.active,
            d.lines,
        ),
        d.log.active.len() > 0 ==> undo_cursor(d.insert_char(c).log.active, d.insert_char(c).lines)
            == undo_cursor(d.log.active, d.lines),
        d.log.active.len() == 0 ==> undo_cursor(
            d.insert_char(c).log.active,
            d.insert_char(c).lines,
        ) == (d.cx, d.cy),
{
    if d.cy == d.lines.len() {
        lemma_edit_joins_transaction(d, EditOp::Newline);
        let e = d.edit(EditOp::Newline);
        lemma_edit_joins_transaction(e, EditOp::InsertChar(e.cx, e.cy, c));
    } else {
        lemma_edit_joins_transaction(d, EditOp::InsertChar(d.cx, d.cy, c));
    }
}

/// Characters that are typed one after another, with nothing in between,
/// fall into one transaction: typing seals nothing, and one undo afterwards
/// takes back all of them together with what the open transaction held
/// before. Where no transaction was open before, that undo gives back the
/// lines and the cursor from before the typing.
pub proof fn lemma_typing_undoes_as_one(d: Document, chars: Seq<char>)
    requires
        d.wf(),
        is_text(chars),
        chars.len() > 0,
    ensures
        type_all(d, chars).wf(),
        type_all(d, chars).log.done == d.log.done,
        type_all(d, chars).log.can_undo(),
        type_all(d, chars).undo().lines == undo_all(d.log.active, d.lines),
        type_all(d, chars).undo().log.done == d.log.done,
        d.log.active.len() == 0 ==> {
            &&& type_all(d, chars).undo().lines == d.lines
            &&& type_all(d, chars).undo().cx == d.cx
            &&& type_all(d, chars).undo().cy == d.cy
        },
{
    lemma_typing_origin(d, chars);
    let t = type_all(d, chars);
    assert(t.log.close().done.last() == t.log.active);
    assert(t.log.close().done.drop_last() =~= t.log.done);
}

proof fn lemma_typing_origin(d: Document, chars: Seq<char>)
    requires
        d.wf(),
        is_text(chars),
    ensures
        type_all(d, chars).wf(),
        type_all(d, chars).log.done == d.log.done,
        type_all(d, chars).latch == d.latch,
        chars.len() > 0 ==> type_all(d, chars).log.active.len() > 0,
        undo_all(type_all(d, chars).log.active, type_all(d, chars).lines) == undo_all(
            d.log.active,
            d.lines,
        ),
        chars.len() > 0 && d.log.active.len() == 0 ==> undo_cursor(
            type_all(d, chars).log.active,
            type_all(d, chars).lines,
        ) == (d.cx, d.cy),
    decreases chars.len(),
{
    if chars.len() > 0 {
        let front = chars.drop_last();
        assert(is_text(front)) by {
            assert forall|i: int| 0 <= i < front.len() implies is_text_char(#[trigger] front[i]) by {
                assert(front[i] == chars[i]);
            }
        }
        lemma_typing_origin(d, front);
        lemma_insert_char_origin(type_all(d, front), chars.last());
    }
}

/// Undoing a transaction that was just closed takes back its edits: where
/// a transaction was open with the edits `ops`, which led from `origin` to
/// the lines of the document, closing it and undoing once gives `origin`
/// back and leaves what was sealed before.
proof fn lemma_commit_then_undo(d: Document)
    requires
        d.wf(),
        d.log.active.len() > 0,
    ensures
        d.commit().wf(),
        d.commit().log.active.len() == 0,
        d.commit().log.can_undo(),
        d.commit().undo().lines == undo_all(d.log.active, d.lines),
        d.commit().undo().cx == undo_cursor(d.log.active, d.lines).0,
        d.commit().undo().cy == undo_cursor(d.log.active, d.lines).1,
        d.commit().undo().log.done == d.log.done,
{
    lemma_commit_wf(d);
    let c = d.commit();
    assert(c.log.close() == c.log);
    assert(c.log.done.last() == d.log.active);
    assert(c.log.done.drop_last() =~= d.log.done);
}

/// A line break that follows typing closes the transaction of the typing
/// and stands in one of its own, which it closes too: one undo afterwards
/// takes back the line break alone, gives back the lines and the cursor from
/// before it, and leaves the typing sealed; and what is typed after the line
/// break begins a new transaction.
pub proof fn lemma_line_break_undoes_alone(d: Document)
    requires
        d.wf(),
        !d.latch,
    ensures
        d.insert_line().wf(),
        d.insert_line().log.active.len() == 0,
        d.insert_line().log.can_undo(),
        d.insert_line().undo().lines == d.lines,
        d.insert_line().undo().cx == d.cx,
        d.insert_line().undo().cy == d.cy,
        d.insert_line().undo().log.done == d.log.close().done,
{
    lemma_seal_wf(d);
    let s = d.seal();
    if s.cy >= s.lines.len() {
        lemma_edit_joins_transaction(s, EditOp::Newline);
        lemma_commit_then_undo(s.edit(EditOp::Newline));
    } else if s.cx >= s.lines[s.cy].len() {
        let op = EditOp::InsertLine(s.cy + 1, Seq::empty());
        lemma_edit_joins_transaction(s, op);
        lemma_commit_then_undo(s.edit(op));
    } else {
        let line = s.lines[s.cy];
        let rest = line.skip(s.cx);
        assert(is_text(line));
        assert(is_text(rest)) by {
            assert forall|i: int| 0 <= i < rest.len() implies is_text_char(#[trigger] rest[i]) by {
                assert(rest[i] == line[s.cx + i]);
            }
        }
        assert(line.skip(line.len() - rest.len()) =~= rest);
        let cut = EditOp::Truncate(s.cy, rest);
        lemma_edit_joins_transaction(s, cut);
        let op = EditOp::InsertLine(s.cy + 1, rest);
        lemma_edit_joins_transaction(s.edit(cut), op);
        lemma_commit_then_undo(s.edit(cut).edit(op));
    }
}

/// A deletion to the left that follows typing closes the transaction of the
/// typing and stands in one of its own, which it closes too, whether it
/// takes out a character or joins two lines: one undo afterwards takes back
/// the deletion alone, gives back the lines and the cursor from before it,
/// and leaves the typing sealed; and what is typed after the deletion begins
/// a new transaction.
pub proof fn lemma_delete_undoes_alone(d: Document)
    requires
        d.wf(),
        !d.latch,
        d.can_delete(),
    ensures
        d.delete_char().wf(),
        d.delete_char().log.active.len() == 0,
        d.delete_char().log.can_undo(),
        d.delete_char().undo().lines == d.lines,
        d.delete_char().undo().cx == d.cx,
        d.delete_char().undo().cy == d.cy,
        d.delete_char().undo().log.done == d.log.close().done,
{
    lemma_seal_wf(d);
    let s = d.seal();
    if s.cx > 0 {
        let op = EditOp::DeleteChar(s.cx, s.cy, s.lines[s.cy][s.cx - 1]);
        lemma_edit_joins_transaction(s, op);
        lemma_commit_then_undo(s.edit(op));
    } else {
        let removed = s.lines[s.cy];
        assert(is_text(removed));
        let op = EditOp::DeleteLine(s.cy, removed);
        lemma_edit_joins_transaction(s, op);
        let join = EditOp::Append(s.cy - 1, removed);
        lemma_edit_joins_transaction(s.edit(op), join);
        lemma_commit_then_undo(s.edit(op).edit(join));
    }
}

/// Saving after typing closes the transaction of the typing and changes
/// neither lines nor cursor: what is typed after it begins a new
/// transaction, and an undo after it takes back the typing.
pub proof fn lemma_save_closes_typing(d: Document)
    requires
        d.wf(),
        !d.latch,
    ensures
        d.seal().wf(),
        d.seal().log.active.len() == 0,
        d.seal().log.done == d.log.close().done,
        d.seal().lines == d.lines,
        d.seal().cx == d.cx,
        d.seal().cy == d.cy,
        d.seal().undo().lines == d.undo().lines,
{
    lemma_seal_wf(d);
}

/// With nothing to undo, an undo leaves the document as it is; with nothing
/// to redo, so does a redo.
pub proof fn lemma_undo_redo_idle(d: Document)
    ensures
        !d.log.can_undo() ==> d.undo() == d,
        !d.log.can_redo() ==> d.redo() == d,
{
}

/// A redo and then an undo give back the lines.
pub proof fn lemma_redo_then_undo_restores(d: Document)
    requires
        d.wf(),
        d.log.can_redo(),
    ensures
        d.redo().log.can_undo(),
        d.redo().undo().lines == d.lines,
{
    lemma_redo_replays(d.log, d.lines);
    let target = d.log.undone.first();
    lemma_redo_then_undo(target, d.lines);
    let r = d.redo();
    assert(r.log.active.len() == 0);
    assert(r.log.close() == r.log);
    assert(r.log.done.last() == target);
}

/// An undo and then a redo give back the lines.
pub proof fn lemma_undo_then_redo_restores(d: Document)
    requires
        d.wf(),
        d.log.can_undo(),
    ensures
        d.undo().log.can_redo(),
        d.undo().redo().lines == d.lines,
{
    lemma_undo_replays(d.log, d.lines);
    let target = d.log.undo_target();
    lemma_undo_then_redo(target, d.lines);
    assert(d.undo().log.undone.first() == target);
}

} // verus!
