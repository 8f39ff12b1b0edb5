//! Transactions: sequences of edits that are undone and redone as one.

use crate::edit_diff::{
    is_cursor, lemma_apply_inverts, lemma_cursor_after_fits, EditOp, UndoRedo,
};
use crate::row::lines_are_text;
use vstd::prelude::*;

verus! {

/// The lines after the edits `ops` were applied forward to `lines`, first to
/// last.
pub open spec fn redo_all(ops: Seq<EditOp>, lines: Seq<Seq<char>>) -> Seq<Seq<char>>
    decreases ops.len(),
{
    if ops.len() == 0 {
        lines
    } else {
        ops.last().apply_to(redo_all(ops.drop_last(), lines), UndoRedo::Redo)
    }
}

/// True when each of the edits `ops`, applied forward first to last from
/// `lines`, fits the state that it meets.
pub open spec fn can_redo_all(ops: Seq<EditOp>, lines: Seq<Seq<char>>) -> bool
    decreases ops.len(),
{
    ops.len() == 0 || (can_redo_all(ops.drop_last(), lines) && ops.last().fits(
        redo_all(ops.drop_last(), lines),
        UndoRedo::Redo,
    ))
}

/// The lines after the edits `ops` were applied backward to `lines`, last to
/// first.
pub open spec fn undo_all(ops: Seq<EditOp>, lines: Seq<Seq<char>>) -> Seq<Seq<char>>
    decreases ops.len(),
{
    if ops.len() == 0 {
        lines
    } else {
        undo_all(ops.drop_last(), ops.last().apply_to(lines, UndoRedo::Undo))
    }
}

/// True when each of the edits `ops`, applied backward last to first from
/// `lines`, fits the state that it meets.
pub open spec fn can_undo_all(ops: Seq<EditOp>, lines: Seq<Seq<char>>) -> bool
    decreases ops.len(),
{
    ops.len() == 0 || (ops.last().fits(lines, UndoRedo::Undo) && can_undo_all(
        ops.drop_last(),
        ops.last().apply_to(lines, UndoRedo::Undo),
    ))
}

/// The smaller of two integers.
pub open spec fn min_int(a: int, b: int) -> int {
    if a <= b {
        a
    } else {
        b
    }
}

/// The cursor after `ops` were applied forward to `lines`: the one that the
/// last edit gives; `(0, 0)` for no edits.
pub open spec fn redo_cursor(ops: Seq<EditOp>, lines: Seq<Seq<char>>) -> (int, int) {
    if ops.len() == 0 {
        (0, 0)
    } else {
        ops.last().cursor_after(redo_all(ops.drop_last(), lines), UndoRedo::Redo)
    }
}

/// The lowest line on which the cursor came to stand while `ops` were applied
/// forward to `lines`; the largest `usize` for no edits.
pub open spec fn redo_floor(ops: Seq<EditOp>, lines: Seq<Seq<char>>) -> int
    decreases ops.len(),
{
    if ops.len() == 0 {
        usize::MAX as int
    } else {
        min_int(
            redo_floor(ops.drop_last(), lines),
            ops.last().cursor_after(redo_all(ops.drop_last(), lines), UndoRedo::Redo).1,
        )
    }
}

/// The cursor after `ops` were applied backward to `lines`: the one that the
/// first edit gives, which is applied last; `(0, 0)` for no edits.
pub open spec fn undo_cursor(ops: Seq<EditOp>, lines: Seq<Seq<char>>) -> (int, int)
    decreases ops.len(),
{
    if ops.len() == 0 {
        (0, 0)
    } else if ops.len() == 1 {
        ops.last().cursor_after(lines, UndoRedo::Undo)
    } else {
        undo_cursor(ops.drop_last(), ops.last().apply_to(lines, UndoRedo::Undo))
    }
}

/// The lowest line on which the cursor came to stand while `ops` were applied
/// backward to `lines`; the largest `usize` for no edits.
pub open spec fn undo_floor(ops: Seq<EditOp>, lines: Seq<Seq<char>>) -> int
    decreases ops.len(),
{
    if ops.len() == 0 {
        usize::MAX as int
    } else {
        min_int(
            ops.last().cursor_after(lines, UndoRedo::Undo).1,
            undo_floor(ops.drop_last(), ops.last().apply_to(lines, UndoRedo::Undo)),
        )
    }
}

/// The lowest line of an undoing is at most the largest `usize`.
pub proof fn lemma_undo_floor_bound(ops: Seq<EditOp>, lines: Seq<Seq<char>>)
    ensures
        undo_floor(ops, lines) <= usize::MAX,
    decreases ops.len(),
{
    if ops.len() > 0 {
        lemma_undo_floor_bound(ops.drop_last(), ops.last().apply_to(lines, UndoRedo::Undo));
    }
}

/// Edits that can be applied forward from `lines` leave text, and so do all
/// that come first among them.
pub proof fn lemma_redo_prefix(ops: Seq<EditOp>, lines: Seq<Seq<char>>, k: int)
    requires
        lines_are_text(lines),
        can_redo_all(ops, lines),
        0 <= k <= ops.len(),
    ensures
        can_redo_all(ops.take(k), lines),
        lines_are_text(redo_all(ops.take(k), lines)),
        k < ops.len() ==> ops[k].fits(redo_all(ops.take(k), lines), UndoRedo::Redo),
    decreases ops.len(),
{
    if ops.len() == 0 {
        assert(ops.take(k) =~= ops);
    } else if k == ops.len() {
        assert(ops.take(k) =~= ops);
        lemma_redo_prefix(ops.drop_last(), lines, k - 1);
        assert(ops.drop_last().take(k - 1) =~= ops.drop_last());
        lemma_apply_inverts(ops.last(), redo_all(ops.drop_last(), lines), UndoRedo::Redo);
    } else {
        lemma_redo_prefix(ops.drop_last(), lines, k);
        assert(ops.drop_last().take(k) =~= ops.take(k));
        if k == ops.len() - 1 {
            assert(ops.take(k) =~= ops.drop_last());
        }
    }
}

/// Undoing edits from `lines` and redoing them gives `lines` back, and the
/// edits can be redone from where the undoing ends.
pub proof fn lemma_undo_then_redo(ops: Seq<EditOp>, lines: Seq<Seq<char>>)
    requires
        lines_are_text(lines),
        can_undo_all(ops, lines),
    ensures
        lines_are_text(undo_all(ops, lines)),
        can_redo_all(ops, undo_all(ops, lines)),
        redo_all(ops, undo_all(ops, lines)) == lines,
    decreases ops.len(),
{
    if ops.len() > 0 {
        let last = ops.last();
        let mid = last.apply_to(lines, UndoRedo::Undo);
        lemma_apply_inverts(last, lines, UndoRedo::Undo);
        lemma_undo_then_redo(ops.drop_last(), mid);
    }
}

/// Redoing edits from `lines` and undoing them gives `lines` back, and the
/// edits can be undone from where the redoing ends.
pub proof fn lemma_redo_then_undo(ops: Seq<EditOp>, lines: Seq<Seq<char>>)
    requires
        lines_are_text(lines),
        can_redo_all(ops, lines),
    ensures
        lines_are_text(redo_all(ops, lines)),
        can_undo_all(ops, redo_all(ops, lines)),
        undo_all(ops, redo_all(ops, lines)) == lines,
    decreases ops.len(),
{
    if ops.len() > 0 {
        let last = ops.last();
        lemma_redo_then_undo(ops.drop_last(), lines);
        let mid = redo_all(ops.drop_last(), lines);
        lemma_apply_inverts(last, mid, UndoRedo::Redo);
    }
}

/// Undoing edits from lines of which there is at least one leaves at least
/// one line, and the cursor that the undoing gives is a place in them.
pub proof fn lemma_undo_keeps_cursor(ops: Seq<EditOp>, lines: Seq<Seq<char>>)
    requires
        can_undo_all(ops, lines),
        lines.len() >= 1,
    ensures
        undo_all(ops, lines).len() >= 1,
        ops.len() > 0 ==> is_cursor(
            undo_all(ops, lines),
            undo_cursor(ops, lines).0,
            undo_cursor(ops, lines).1,
        ),
        ops.len() > 0 ==> 0 <= undo_floor(ops, lines) <= undo_cursor(ops, lines).1,
    decreases ops.len(),
{
    if ops.len() > 0 {
        let last = ops.last();
        let mid = last.apply_to(lines, UndoRedo::Undo);
        lemma_cursor_after_fits(last, lines, UndoRedo::Undo);
        lemma_undo_keeps_cursor(ops.drop_last(), mid);
        if ops.len() == 1 {
            assert(undo_floor(ops.drop_last(), mid) == usize::MAX);
        }
    }
}

/// Redoing edits from lines of which there is at least one leaves at least
/// one line, and the cursor that the redoing gives is a place in them.
pub proof fn lemma_redo_keeps_cursor(ops: Seq<EditOp>, lines: Seq<Seq<char>>)
    requires
        can_redo_all(ops, lines),
        lines.len() >= 1,
    ensures
        redo_all(ops, lines).len() >= 1,
        ops.len() > 0 ==> is_cursor(
            redo_all(ops, lines),
            redo_cursor(ops, lines).0,
            redo_cursor(ops, lines).1,
        ),
        ops.len() > 0 ==> 0 <= redo_floor(ops, lines) <= redo_cursor(ops, lines).1,
    decreases ops.len(),
{
    if ops.len() > 0 {
        let last = ops.last();
        lemma_redo_keeps_cursor(ops.drop_last(), lines);
        let mid = redo_all(ops.drop_last(), lines);
        lemma_cursor_after_fits(last, mid, UndoRedo::Redo);
        if ops.len() == 1 {
            assert(redo_floor(ops.drop_last(), lines) == usize::MAX);
        }
    }
}

} // verus!
