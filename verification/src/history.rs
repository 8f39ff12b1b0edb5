//! The log of edits, grouped into transactions, with undo and redo.

use crate::edit_diff::{lemma_apply_inverts, EditDiff, EditOp, UndoRedo};
use crate::replay::{
    can_redo_all, can_undo_all, lemma_redo_prefix, lemma_redo_then_undo, lemma_undo_floor_bound,
    lemma_undo_then_redo,
    min_int, redo_all, redo_cursor, redo_floor, undo_all, undo_cursor, undo_floor,
};
use crate::row::{lemma_rows_are_text, lines_are_text, lines_of, rows_wf, Row};
use vstd::prelude::*;

verus! {

/// The mathematical model of a history: the sealed transactions that can be
/// undone, oldest first; the open transaction; and the undone transactions
/// that can be redone, the next one first.
pub struct Log {
    pub done: Seq<Seq<EditOp>>,
    pub active: Seq<EditOp>,
    pub undone: Seq<Seq<EditOp>>,
}

/// True when the transactions `done` can be undone from `lines`, the last one
/// first, each from where the one before ends.
pub open spec fn can_undo_chain(done: Seq<Seq<EditOp>>, lines: Seq<Seq<char>>) -> bool
    decreases done.len(),
{
    done.len() == 0 || (can_undo_all(done.last(), lines) && can_undo_chain(
        done.drop_last(),
        undo_all(done.last(), lines),
    ))
}

/// True when the transactions `undone` can be redone from `lines`, the first
/// one first, each from where the one before ends.
pub open spec fn can_redo_chain(undone: Seq<Seq<EditOp>>, lines: Seq<Seq<char>>) -> bool
    decreases undone.len(),
{
    undone.len() == 0 || (can_redo_all(undone.first(), lines) && can_redo_chain(
        undone.drop_first(),
        redo_all(undone.first(), lines),
    ))
}

impl Log {
    /// The invariant of a history: no sealed transaction is empty, and while
    /// a transaction is open there is nothing to redo.
    pub open spec fn wf(self) -> bool {
        &&& forall|i: int| 0 <= i < self.done.len() ==> (#[trigger] self.done[i]).len() > 0
        &&& forall|i: int| 0 <= i < self.undone.len() ==> (#[trigger] self.undone[i]).len() > 0
        &&& self.active.len() > 0 ==> self.undone.len() == 0
    }

    /// The history with nothing in it.
    pub open spec fn empty() -> Log {
        Log { done: Seq::empty(), active: Seq::empty(), undone: Seq::empty() }
    }

    /// The history after `op` was recorded: it joins the open transaction,
    /// and nothing is left to redo.
    pub open spec fn record(self, op: EditOp) -> Log {
        Log { done: self.done, active: self.active.push(op), undone: Seq::empty() }
    }

    /// The history after the open transaction was closed: sealed, where it
    /// held an edit.
    pub open spec fn close(self) -> Log {
        if self.active.len() > 0 {
            Log { done: self.done.push(self.active), active: Seq::empty(), undone: self.undone }
        } else {
            self
        }
    }

    /// True when there is a transaction to undo, sealed or open.
    pub open spec fn can_undo(self) -> bool {
        self.done.len() > 0 || self.active.len() > 0
    }

    /// The transaction that an undo reverts: the open one where it holds an
    /// edit, else the last that was sealed.
    pub open spec fn undo_target(self) -> Seq<EditOp> {
        self.close().done.last()
    }

    /// The history after an undo: the open transaction is sealed, and the
    /// last sealed one moves to the front of those to redo.
    pub open spec fn undo(self) -> Log {
        let closed = self.close();
        Log {
            done: closed.done.drop_last(),
            active: Seq::empty(),
            undone: seq![closed.done.last()] + closed.undone,
        }
    }

    /// True when there is a transaction to redo.
    pub open spec fn can_redo(self) -> bool {
        self.undone.len() > 0
    }

    /// The history after a redo: the first of the undone transactions moves
    /// to the end of the sealed ones.
    pub open spec fn redo(self) -> Log {
        Log {
            done: self.done.push(self.undone.first()),
            active: self.active,
            undone: self.undone.drop_first(),
        }
    }

    /// True when the history goes with `lines`: the open transaction and then
    /// the sealed ones can be undone from `lines`, and the undone ones can be
    /// redone from `lines`.
    pub open spec fn replays_on(self, lines: Seq<Seq<char>>) -> bool {
        &&& can_undo_all(self.active, lines)
        &&& can_undo_chain(self.done, undo_all(self.active, lines))
        &&& can_redo_chain(self.undone, lines)
    }
}

/// A history with nothing in it goes with any lines.
pub proof fn lemma_empty_replays(lines: Seq<Seq<char>>)
    ensures
        Log::empty().wf(),
        Log::empty().replays_on(lines),
{
}

/// Recording an edit that fits the lines, once it is applied, leaves a
/// history that goes with the lines that the edit gives.
pub proof fn lemma_record_replays(log: Log, op: EditOp, lines: Seq<Seq<char>>)
    requires
        log.wf(),
        log.replays_on(lines),
        lines_are_text(lines),
        op.fits(lines, UndoRedo::Redo),
    ensures
        log.record(op).wf(),
        log.record(op).replays_on(op.apply_to(lines, UndoRedo::Redo)),
{
    lemma_apply_inverts(op, lines, UndoRedo::Redo);
    let after = log.record(op);
    assert(after.active.drop_last() =~= log.active);
}

/// Closing the open transaction leaves a history that goes with the same
/// lines.
pub proof fn lemma_close_replays(log: Log, lines: Seq<Seq<char>>)
    requires
        log.wf(),
        log.replays_on(lines),
    ensures
        log.close().wf(),
        log.close().replays_on(lines),
{
    if log.active.len() > 0 {
        let after = log.close();
        assert(after.done.drop_last() =~= log.done);
        assert forall|i: int| 0 <= i < after.done.len() implies (#[trigger] after.done[i]).len()
            > 0 by {
            if i < log.done.len() {
                assert(after.done[i] == log.done[i]);
            }
        }
    }
}

/// An undo turns a history that goes with `lines` into one that goes with
/// the lines that the undo gives.
pub proof fn lemma_undo_replays(log: Log, lines: Seq<Seq<char>>)
    requires
        log.wf(),
        log.replays_on(lines),
        log.can_undo(),
        lines_are_text(lines),
    ensures
        log.undo().wf(),
        log.undo_target().len() > 0,
        can_undo_all(log.undo_target(), lines),
        log.undo().replays_on(undo_all(log.undo_target(), lines)),
{
    lemma_close_replays(log, lines);
    let closed = log.close();
    let target = closed.done.last();
    let after = log.undo();
    lemma_undo_then_redo(target, lines);
    assert(after.undone.first() == target);
    assert(after.undone.drop_first() =~= closed.undone);
    assert forall|i: int| 0 <= i < after.undone.len() implies (#[trigger] after.undone[i]).len()
        > 0 by {
        if i > 0 {
            assert(after.undone[i] == closed.undone[i - 1]);
        }
    }
    assert forall|i: int| 0 <= i < after.done.len() implies (#[trigger] after.done[i]).len()
        > 0 by {
        assert(after.done[i] == closed.done[i]);
    }
}

/// A redo turns a history that goes with `lines` into one that goes with the
/// lines that the redo gives.
pub proof fn lemma_redo_replays(log: Log, lines: Seq<Seq<char>>)
    requires
        log.wf(),
        log.replays_on(lines),
        log.can_redo(),
        lines_are_text(lines),
    ensures
        log.redo().wf(),
        log.active.len() == 0,
        log.undone.first().len() > 0,
        can_redo_all(log.undone.first(), lines),
        log.redo().replays_on(redo_all(log.undone.first(), lines)),
{
    let target = log.undone.first();
    let after = log.redo();
    lemma_redo_then_undo(target, lines);
    assert(after.done.drop_last() =~= log.done);
    assert forall|i: int| 0 <= i < after.done.len() implies (#[trigger] after.done[i]).len()
        > 0 by {
        if i < log.done.len() {
            assert(after.done[i] == log.done[i]);
        }
    }
    assert forall|i: int| 0 <= i < after.undone.len() implies (#[trigger] after.undone[i]).len()
        > 0 by {
        assert(after.undone[i] == log.undone[i + 1]);
    }
}

/// The edits of a transaction, as the model has them.
pub open spec fn ops_of(txn: Seq<EditDiff>) -> Seq<EditOp> {
    Seq::new(txn.len(), |i: int| txn[i]@)
}

/// The transactions of a history, as the model has them.
pub open spec fn txns_of(entries: Seq<Vec<EditDiff>>) -> Seq<Seq<EditOp>> {
    Seq::new(entries.len(), |i: int| ops_of(entries[i]@))
}

/// The log of edits of a document. Its view is a `Log`.
pub struct History {
    index: usize,
    ongoing: Vec<EditDiff>,
    entries: Vec<Vec<EditDiff>>,
}

impl View for History {
    type V = Log;

    closed spec fn view(&self) -> Log {
        Log {
            done: txns_of(self.entries@.take(self.index as int)),
            active: ops_of(self.ongoing@),
            undone: txns_of(self.entries@.skip(self.index as int)),
        }
    }
}

impl Default for History {
    /// A history with nothing in it.
    fn default() -> (h: History)
        ensures
            h.wf(),
            h@ == Log::empty(),
    {
        History::new()
    }
}

impl History {
    /// The invariant of a history.
    pub closed spec fn wf(&self) -> bool {
        &&& self.index <= self.entries.len()
        &&& self@.wf()
    }

    /// A history with nothing in it.
    pub fn new() -> (h: History)
        ensures
            h.wf(),
            h@ == Log::empty(),
    {
        let h = History { index: 0, ongoing: Vec::new(), entries: Vec::new() };
        assert(h@.done =~= Seq::empty());
        assert(h@.active =~= Seq::empty());
        assert(h@.undone =~= Seq::empty());
        h
    }

    /// Adds `op` to the open transaction, which it opens where none is open,
    /// and forgets what was undone.
    pub fn record(&mut self, op: EditDiff)
        requires
            old(self).wf(),
        ensures
            final(self).wf(),
            final(self)@ == old(self)@.record(op@),
    {
        let ghost before = *self;
        self.entries.truncate(self.index);
        self.ongoing.push(op);
        proof {
            assert(self.entries@ =~= before.entries@.take(before.index as int));
            assert(self.entries@.take(self.index as int) =~= before.entries@.take(
                before.index as int,
            ));
            assert(self@.done =~= before@.done);
            assert(self@.active =~= before@.active.push(op@));
            assert(self@.undone =~= Seq::empty());
        }
    }

    /// Closes the open transaction, so that the next edit opens a new one,
    /// and tells whether there was one with an edit in it to seal.
    pub fn close_active(&mut self) -> (sealed: bool)
        requires
            old(self).wf(),
        ensures
            final(self).wf(),
            final(self)@ == old(self)@.close(),
            sealed == (old(self)@.active.len() > 0),
    {
        if self.ongoing.len() == 0 {
            return false;
        }
        let ghost before = *self;
        proof {
            assert(before@.undone.len() == 0);
            assert(before.index == before.entries.len());
        }
        let mut txn: Vec<EditDiff> = Vec::new();
        core::mem::swap(&mut txn, &mut self.ongoing);
        self.entries.push(txn);
        self.index = self.entries.len();
        proof {
            assert(before.entries@.take(before.index as int) =~= before.entries@);
            assert(self.entries@.take(self.index as int) =~= self.entries@);
            assert(self@.done =~= before@.done.push(before@.active));
            assert(self@.active =~= Seq::empty());
            assert(self@.undone =~= before@.undone);
            lemma_close_shape(before@);
        }
        true
    }

    /// Undoes the last transaction on `rows`, after closing the open one:
    /// its edits are applied backward, the last one first. Returns the cursor
    /// that the edit applied last gives, the lowest line on which the cursor
    /// came to stand, and whether the transaction was the open one; or
    /// `None` where there is nothing to undo.
    pub fn undo(&mut self, rows: &mut Vec<Row>) -> (r: Option<(usize, usize, usize, bool)>)
        requires
            old(self).wf(),
            rows_wf(old(rows)@),
            old(self)@.replays_on(lines_of(old(rows)@)),
        ensures
            final(self).wf(),
            rows_wf(final(rows)@),
            final(self)@.replays_on(lines_of(final(rows)@)),
            r is Some <==> old(self)@.can_undo(),
            r is None ==> final(self)@ == old(self)@ && final(rows)@ == old(rows)@,
            r matches Some(step) ==> {
                let lines = lines_of(old(rows)@);
                let target = old(self)@.undo_target();
                &&& final(self)@ == old(self)@.undo()
                &&& lines_of(final(rows)@) == undo_all(target, lines)
                &&& step.0 == undo_cursor(target, lines).0
                &&& step.1 == undo_cursor(target, lines).1
                &&& step.2 == undo_floor(target, lines)
                &&& step.3 == (old(self)@.active.len() > 0)
            },
    {
        let ghost log = self@;
        let ghost lines = lines_of(rows@);
        proof {
            lemma_rows_are_text(rows@);
            lemma_close_replays(log, lines);
        }
        let sealed = self.close_active();
        if self.index == 0 {
            proof {
                assert(self@.done.len() == 0);
            }
            return None;
        }
        let ghost closed = self@;
        let ghost before = *self;
        self.index = self.index - 1;
        let txn = &self.entries[self.index];
        let ghost ops = ops_of(txn@);
        proof {
            assert(closed.done.len() == before.index);
            assert(closed.done.last() == ops);
            assert(log.can_undo());
            assert(log.undo_target() == ops);
            lemma_undo_replays(log, lines);
            assert(self@.done =~= closed.done.drop_last()) by {
                assert(before.entries@.take(before.index as int).drop_last()
                    =~= before.entries@.take(self.index as int));
            }
            assert(self@.undone =~= seq![ops] + closed.undone) by {
                assert(self.entries@.skip(self.index as int) =~= seq![*txn]
                    + before.entries@.skip(before.index as int));
            }
            assert(self@.active =~= Seq::empty());
            assert(self@ == log.undo());
        }
        let mut i: usize = txn.len();
        let mut x: usize = 0;
        let mut y: usize = 0;
        let mut dirty: usize = usize::MAX;
        proof {
            assert(ops.take(i as int) =~= ops);
            lemma_undo_floor_bound(ops, lines);
        }
        while i > 0
            invariant
                i <= txn.len(),
                ops == ops_of(txn@),
                ops.len() > 0,
                rows_wf(rows@),
                can_undo_all(ops.take(i as int), lines_of(rows@)),
                undo_all(ops.take(i as int), lines_of(rows@)) == undo_all(ops, lines),
                min_int(dirty as int, undo_floor(ops.take(i as int), lines_of(rows@)))
                    == undo_floor(ops, lines),
                if i > 0 {
                    undo_cursor(ops.take(i as int), lines_of(rows@)) == undo_cursor(ops, lines)
                } else {
                    x == undo_cursor(ops, lines).0 && y == undo_cursor(ops, lines).1
                },
            decreases i,
        {
            let ghost part = ops.take(i as int);
            i = i - 1;
            proof {
                assert(part.last() == txn@[i as int]@);
                assert(part.drop_last() =~= ops.take(i as int));
            }
            let (cx, cy) = txn[i].apply(rows, UndoRedo::Undo);
            x = cx;
            y = cy;
            if cy < dirty {
                dirty = cy;
            }
            proof {
                if i == 0 {
                    assert(undo_floor(ops.take(0), lines_of(rows@)) == usize::MAX);
                }
            }
        }
        Some((x, y, dirty, sealed))
    }

    /// Redoes on `rows` the transaction that was undone last: its edits are
    /// applied forward, the first one first. Returns the cursor that the
    /// edit applied last gives, the lowest line on which the cursor came to
    /// stand, and `false`; or `None` where there is nothing to redo.
    pub fn redo(&mut self, rows: &mut Vec<Row>) -> (r: Option<(usize, usize, usize, bool)>)
        requires
            old(self).wf(),
            rows_wf(old(rows)@),
            old(self)@.replays_on(lines_of(old(rows)@)),
        ensures
            final(self).wf(),
            rows_wf(final(rows)@),
            final(self)@.replays_on(lines_of(final(rows)@)),
            r is Some <==> old(self)@.can_redo(),
            r is None ==> final(self)@ == old(self)@ && final(rows)@ == old(rows)@,
            r matches Some(step) ==> {
                let lines = lines_of(old(rows)@);
                let target = old(self)@.undone.first();
                &&& final(self)@ == old(self)@.redo()
                &&& lines_of(final(rows)@) == redo_all(target, lines)
                &&& step.0 == redo_cursor(target, lines).0
                &&& step.1 == redo_cursor(target, lines).1
                &&& step.2 == redo_floor(target, lines)
                &&& !step.3
            },
    {
        let ghost log = self@;
        let ghost lines = lines_of(rows@);
        if self.index == self.entries.len() {
            proof {
                assert(self@.undone.len() == 0);
            }
            return None;
        }
        let ghost before = *self;
        let txn = &self.entries[self.index];
        self.index = self.index + 1;
        let ghost ops = ops_of(txn@);
        proof {
            lemma_rows_are_text(rows@);
            assert(log.undone.first() == ops);
            lemma_redo_replays(log, lines);
            assert(self@.done =~= log.done.push(ops)) by {
                assert(before.entries@.take(self.index as int) =~= before.entries@.take(
                    before.index as int,
                ).push(*txn));
            }
            assert(self@.undone =~= log.undone.drop_first()) by {
                assert(before.entries@.skip(before.index as int).drop_first()
                    =~= before.entries@.skip(self.index as int));
            }
            assert(self@ == log.redo());
        }
        let mut i: usize = 0;
        let mut x: usize = 0;
        let mut y: usize = 0;
        let mut dirty: usize = usize::MAX;
        proof {
            assert(ops.take(0) =~= Seq::<EditOp>::empty());
        }
        while i < txn.len()
            invariant
                i <= txn.len(),
                ops == ops_of(txn@),
                rows_wf(rows@),
                lines_are_text(lines),
                can_redo_all(ops, lines),
                lines_of(rows@) == redo_all(ops.take(i as int), lines),
                dirty == redo_floor(ops.take(i as int), lines),
                x == redo_cursor(ops.take(i as int), lines).0,
                y == redo_cursor(ops.take(i as int), lines).1,
            decreases txn.len() - i,
        {
            proof {
                lemma_redo_prefix(ops, lines, i as int);
                assert(ops.take(i + 1).drop_last() =~= ops.take(i as int));
                assert(ops.take(i + 1).last() == txn@[i as int]@);
            }
            let (cx, cy) = txn[i].apply(rows, UndoRedo::Redo);
            x = cx;
            y = cy;
            if cy < dirty {
                dirty = cy;
            }
            i = i + 1;
        }
        proof {
            assert(ops.take(i as int) =~= ops);
        }
        Some((x, y, dirty, false))
    }
}

/// Closing a history with an open transaction seals it and leaves none open.
proof fn lemma_close_shape(log: Log)
    requires
        log.wf(),
        log.active.len() > 0,
    ensures
        log.close().wf(),
{
    let after = log.close();
    assert forall|i: int| 0 <= i < after.done.len() implies (#[trigger] after.done[i]).len()
        > 0 by {
        if i < log.done.len() {
            assert(after.done[i] == log.done[i]);
        }
    }
}

} // verus!
