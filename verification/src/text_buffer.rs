//! A document in memory: lines, cursor, file name and history.

pub use crate::document::CursorDir;
use crate::document::{
    lemma_commit_wf, lemma_delete_char_wf, lemma_edit_wf, lemma_insert_char_wf,
    lemma_insert_line_wf, lemma_move_wf, lemma_redo_wf, lemma_seal_wf, lemma_undo_wf, Document,
    FileName,
};
use crate::edit_diff::{is_cursor, EditDiff, EditOp, UndoRedo};
use crate::error::{Error, Result};
use crate::glyph::{is_text, is_text_char, text_char};
use crate::history::{lemma_empty_replays, History};
use crate::numeral::{decimal_of, push_decimal};
use crate::row::{lemma_rows_are_text, lines_are_text, lines_of, reports_first_control, rows_wf, Row};
use crate::storage::{file_text, join_lines, split_lines, split_text};
use vstd::prelude::*;

verus! {

/// The file that a document is bound to: where it lies, and the name under
/// which it is shown.
pub struct FilePath {
    pub path: String,
    pub display: String,
}

impl View for FilePath {
    type V = FileName;

    open spec fn view(&self) -> FileName {
        FileName { path: self.path@, display: self.display@ }
    }
}

impl FilePath {
    /// The file at `path`, shown under the same name.
    pub fn from_string(path: String) -> (f: FilePath)
        ensures
            f@ == (FileName { path: path@, display: path@ }),
    {
        let display = path.clone();
        FilePath { path, display }
    }
}

/// What is to be written to save a document: the whole text, to the file at
/// `path`.
pub struct FileWrite {
    pub path: String,
    pub text: String,
}

/// The step at which saving failed.
#[derive(Clone, Copy, PartialEq, Eq, Structural, Debug)]
pub enum SaveStep {
    Create,
    Write,
    Flush,
}

/// The report of a failure to save.
pub open spec fn save_failure_of(step: SaveStep, reason: Seq<char>) -> Seq<char> {
    match step {
        SaveStep::Create => "Could not save: "@ + reason,
        SaveStep::Write => "Could not write to file: "@ + reason,
        SaveStep::Flush => "Could not flush to file: "@ + reason,
    }
}

/// The report of a failure to save at the step `step`, for which the system
/// gave the reason `reason`.
pub fn save_failure(step: SaveStep, reason: &str) -> (msg: String)
    ensures
        msg@ == save_failure_of(step, reason@),
{
    let mut msg = String::new();
    match step {
        SaveStep::Create => msg.append("Could not save: "),
        SaveStep::Write => msg.append("Could not write to file: "),
        SaveStep::Flush => msg.append("Could not flush to file: "),
    }
    msg.append(reason);
    assert(msg@ =~= save_failure_of(step, reason@));
    msg
}

/// The document that a file at a path gives when it is opened: the lines of
/// the file, or one empty line where the file holds none, with the cursor at
/// the start and nothing to undo.
pub open spec fn opened(name: FileName, lines: Seq<Seq<char>>) -> Document {
    Document {
        lines: if lines.len() == 0 {
            seq![Seq::<char>::empty()]
        } else {
            lines
        },
        file: Some(name),
        ..Document::empty()
    }
}

/// Where the cursor stands among the lines: on the line with the given index,
/// or past the last line, where a new line is to begin.
#[derive(Clone, Copy, PartialEq, Eq, Structural, Debug)]
pub enum CursorLine {
    OnLine(usize),
    PastEnd,
}

/// A document that is being edited. Its view is a `Document`.
pub struct TextBuffer {
    cx: usize,
    cy: usize,
    file: Option<FilePath>,
    row: Vec<Row>,
    undo_count: i32,
    modified: bool,
    history: History,
    inserted_undo: bool,
    dirty_start: Option<usize>,
}

impl View for TextBuffer {
    type V = Document;

    closed spec fn view(&self) -> Document {
        Document {
            lines: lines_of(self.row@),
            cx: self.cx as int,
            cy: self.cy as int,
            file: match self.file {
                Some(f) => Some(f@),
                None => None,
            },
            undo_count: self.undo_count as int,
            modified: self.modified,
            log: self.history@,
            latch: self.inserted_undo,
            dirty: match self.dirty_start {
                Some(line) => Some(line as int),
                None => None,
            },
        }
    }
}

impl TextBuffer {
    /// The invariant of a document in memory: each line and the history are
    /// valid, and the document is.
    pub closed spec fn wf(&self) -> bool {
        &&& rows_wf(self.row@)
        &&& self.history.wf()
        &&& self@.wf()
    }

    /// What holds of the view of every valid document in memory.
    pub proof fn lemma_view_wf(&self)
        requires
            self.wf(),
        ensures
            self@.wf(),
    {
    }

    /// The empty document, bound to no file.
    pub fn empty() -> (buf: TextBuffer)
        ensures
            buf.wf(),
            buf@ == Document::empty(),
    {
        let mut row: Vec<Row> = Vec::new();
        row.push(Row::empty());
        let buf = TextBuffer {
            cx: 0,
            cy: 0,
            file: None,
            row,
            undo_count: 0,
            modified: false,
            history: History::new(),
            inserted_undo: false,
            dirty_start: Some(0),
        };
        proof {
            assert(buf@.lines =~= seq![Seq::<char>::empty()]);
            lemma_rows_are_text(buf.row@);
        }
        buf
    }

    /// The document for the file at `path`, of which `contents` is the text,
    /// or `None` where there is no such file yet: then the document is empty.
    /// A file with a character that may not stand in a line is refused, with
    /// the first such character of the first line that has one.
    pub fn open(path: String, contents: Option<&str>) -> (r: Result<TextBuffer>)
        ensures
            r matches Ok(buf) ==> buf.wf(),
            contents is None ==> r is Ok && r->Ok_0@ == opened(
                FileName { path: path@, display: path@ },
                Seq::empty(),
            ),
            contents matches Some(text) ==> {
                let lines = split_lines(text@);
                &&& r is Ok <==> lines_are_text(lines)
                &&& r matches Ok(buf) ==> buf@ == opened(
                    FileName { path: path@, display: path@ },
                    lines,
                )
                &&& r matches Err(e) ==> exists|i: int|
                    0 <= i < lines.len() && lines_are_text(lines.take(i)) && reports_first_control(
                        #[trigger] lines[i],
                        e,
                    )
            },
    {
        let file = Some(FilePath::from_string(path));
        let mut row: Vec<Row> = Vec::new();
        let ghost lines = Seq::<Seq<char>>::empty();
        if let Some(text) = contents {
            let texts = split_text(text);
            proof {
                lines = split_lines(text@);
                assert(lines.take(0) =~= Seq::<Seq<char>>::empty());
            }
            let mut i: usize = 0;
            while i < texts.len()
                invariant
                    i <= texts.len(),
                    contents == Some(text),
                    lines == split_lines(text@),
                    texts@.len() == lines.len(),
                    forall|j: int| 0 <= j < texts@.len() ==> (#[trigger] texts@[j])@ == lines[j],
                    rows_wf(row@),
                    lines_of(row@) == lines.take(i as int),
                decreases texts.len() - i,
            {
                let ghost before = row@;
                match Row::new(texts[i].clone()) {
                    Ok(r) => {
                        row.push(r);
                        assert(r@ == lines[i as int]);
                        assert(lines_of(row@) =~= lines_of(before).push(r@));
                        assert(lines.take(i + 1) =~= lines.take(i as int).push(lines[i as int]));
                    },
                    Err(e) => {
                        proof {
                            lemma_rows_are_text(row@);
                            assert(!is_text(lines[i as int]));
                            assert(reports_first_control(lines[i as int], e));
                        }
                        return Err(e);
                    },
                }
                i = i + 1;
            }
            proof {
                assert(lines.take(i as int) =~= lines);
            }
        }
        if row.len() == 0 {
            row.push(Row::empty());
            assert(lines_of(row@) =~= seq![Seq::<char>::empty()]);
        }
        let buf = TextBuffer {
            cx: 0,
            cy: 0,
            file,
            row,
            undo_count: 0,
            modified: false,
            history: History::new(),
            inserted_undo: false,
            dirty_start: Some(0),
        };
        proof {
            lemma_rows_are_text(buf.row@);
            lemma_empty_replays(buf@.lines);
        }
        Ok(buf)
    }

    /// Begins to save the document: closes the open transaction, and returns
    /// what is to be written, or `None` where the document is bound to no
    /// file.
    pub fn save(&mut self) -> (w: Option<FileWrite>)
        requires
            old(self).wf(),
        ensures
            final(self).wf(),
            final(self)@ == old(self)@.seal(),
            w is Some <==> old(self)@.file is Some,
            w matches Some(write) ==> (write.path@ == old(self)@.file->0.path && write.text@
                == file_text(old(self)@.lines)),
    {
        self.insert_undo_point();
        match &self.file {
            Some(file) => Some(
                FileWrite { path: file.path.clone(), text: join_lines(self.row.as_slice()) },
            ),
            None => None,
        }
    }

    /// Ends a save in which `bytes` bytes were written: nothing is unsaved
    /// any more. Returns the report of the save.
    pub fn save_done(&mut self, bytes: usize) -> (msg: String)
        requires
            old(self).wf(),
        ensures
            final(self).wf(),
            final(self)@ == old(self)@.saved(),
            msg@ == decimal_of(bytes as nat) + " bytes written to "@ + match old(self)@.file {
                Some(f) => f.display,
                None => "[No Name]"@,
            },
    {
        self.undo_count = 0;
        self.modified = false;
        let mut msg = String::new();
        push_decimal(&mut msg, bytes);
        msg.append(" bytes written to ");
        msg.append(self.filename());
        msg
    }

    /// Where the cursor stands among the lines.
    pub fn cursor_line(&self) -> (at: CursorLine)
        requires
            self.wf(),
        ensures
            at == if self@.cy < self@.lines.len() {
                CursorLine::OnLine(self@.cy as usize)
            } else {
                CursorLine::PastEnd
            },
            self@.lines.len() <= usize::MAX,
    {
        if self.cy < self.row.len() {
            CursorLine::OnLine(self.cy)
        } else {
            CursorLine::PastEnd
        }
    }

    /// The line of the cursor.
    pub fn cy(&self) -> (y: usize)
        ensures
            y == self@.cy,
    {
        self.cy
    }

    /// The cursor, as column and line.
    pub fn cursor(&self) -> (c: (usize, usize))
        ensures
            c.0 == self@.cx,
            c.1 == self@.cy,
    {
        (self.cx, self.cy)
    }

    /// Puts the cursor at column `x` of line `y`, which is a place in the
    /// lines.
    pub fn set_cursor(&mut self, x: usize, y: usize)
        requires
            old(self).wf(),
            is_cursor(old(self)@.lines, x as int, y as int),
        ensures
            final(self).wf(),
            final(self)@ == (Document { cx: x as int, cy: y as int, ..old(self)@ }),
    {
        self.cx = x;
        self.cy = y;
    }

    /// The lines.
    pub fn rows(&self) -> (rows: &[Row])
        requires
            self.wf(),
        ensures
            rows_wf(rows@),
            lines_of(rows@) == self@.lines,
    {
        self.row.as_slice()
    }

    /// The name under which the document is shown.
    pub fn filename(&self) -> (name: &str)
        ensures
            name@ == match self@.file {
                Some(f) => f.display,
                None => "[No Name]"@,
            },
    {
        match &self.file {
            Some(f) => f.display.as_str(),
            None => "[No Name]",
        }
    }

    /// Tells whether the document is bound to a file.
    pub fn has_file(&self) -> (b: bool)
        ensures
            b == (self@.file is Some),
    {
        self.file.is_some()
    }

    /// Tells whether there is something unsaved.
    pub fn modified(&self) -> (b: bool)
        ensures
            b == self@.is_modified(),
    {
        self.undo_count != 0 || self.modified
    }

    /// Binds the document to the file at `file_path`.
    pub fn set_file(&mut self, file_path: String)
        ensures
            final(self).wf() == old(self).wf(),
            final(self)@ == (Document {
                file: Some(FileName { path: file_path@, display: file_path@ }),
                ..old(self)@
            }),
    {
        self.file = Some(FilePath::from_string(file_path));
    }

    /// Binds the document to no file.
    pub fn set_unnamed(&mut self)
        ensures
            final(self).wf() == old(self).wf(),
            final(self)@ == (Document { file: None, ..old(self)@ }),
    {
        self.file = None;
    }

    /// Tells whether the document is bound to no file and is one empty line.
    pub fn is_scratch(&self) -> (b: bool)
        requires
            self.wf(),
        ensures
            b == self@.is_scratch(),
    {
        self.file.is_none() && self.row.len() == 1 && self.row[0].len() == 0
    }

    /// Marks `line` to be drawn again.
    fn set_dirty_start(&mut self, line: usize)
        ensures
            *final(self) == (TextBuffer { dirty_start: final(self).dirty_start, ..*old(self) }),
            final(self)@ == old(self)@.touch(line as int),
    {
        if let Some(l) = self.dirty_start {
            if l <= line {
                return ;
            }
        }
        self.dirty_start = Some(line);
    }

    /// Makes the edit `diff`: applies it forward, puts the cursor where it
    /// says, marks the cursor's line and records the edit in the history.
    fn new_diff(&mut self, diff: EditDiff)
        requires
            old(self).wf(),
            diff@.fits(old(self)@.lines, UndoRedo::Redo),
        ensures
            final(self).wf(),
            final(self)@ == old(self)@.edit(diff@),
    {
        proof {
            lemma_edit_wf(self@, diff@);
        }
        let (x, y) = diff.apply(&mut self.row, UndoRedo::Redo);
        self.cx = x;
        self.cy = y;
        self.set_dirty_start(y);
        self.modified = true;
        self.history.record(diff);
    }

    /// Closes the open transaction and counts it where it held an edit.
    fn commit(&mut self)
        requires
            old(self).wf(),
        ensures
            final(self).wf(),
            final(self)@ == old(self)@.commit(),
    {
        proof {
            lemma_commit_wf(self@);
        }
        if self.history.close_active() {
            if self.undo_count < i32::MAX {
                self.undo_count = self.undo_count + 1;
            }
        }
        self.modified = false;
    }

    /// Closes the open transaction ahead of an edit that is to stand alone,
    /// once for each keystroke.
    fn insert_undo_point(&mut self)
        requires
            old(self).wf(),
        ensures
            final(self).wf(),
            final(self)@ == old(self)@.seal(),
    {
        if !self.inserted_undo {
            self.commit();
            self.inserted_undo = true;
        }
    }

    /// Ends a keystroke: the next closing of a transaction counts again.
    /// Returns the lowest line that is to be drawn again, and forgets it.
    pub fn finish_edit(&mut self) -> (dirty: Option<usize>)
        requires
            old(self).wf(),
        ensures
            final(self).wf(),
            final(self)@ == old(self)@.finish_edit(),
            match dirty {
                Some(line) => old(self)@.dirty == Some(line as int),
                None => old(self)@.dirty is None,
            },
    {
        self.inserted_undo = false;
        let dirty_start = self.dirty_start;
        self.dirty_start = None;
        dirty_start
    }

    /// Types `ch` at the cursor, in the open transaction. A character that
    /// may not stand in a line is refused, and the document stays as it is.
    pub fn insert_char(&mut self, ch: char) -> (r: Result<()>)
        requires
            old(self).wf(),
        ensures
            final(self).wf(),
            final(self)@ == old(self)@.insert_char(ch),
            r is Ok <==> is_text_char(ch),
            r matches Err(e) ==> e == Error::ControlCharInText(ch),
    {
        if !text_char(ch) {
            return Err(Error::ControlCharInText(ch));
        }
        proof {
            lemma_insert_char_wf(self@, ch);
        }
        if self.cursor_line() == CursorLine::PastEnd {
            self.new_diff(EditDiff::Newline);
        }
        self.new_diff(EditDiff::InsertChar(self.cx, self.cy, ch));
        Ok(())
    }

    /// Deletes to the right of the cursor: nothing at the end of the
    /// document, else as a step to the right and a deletion to the left.
    pub fn delete_right_char(&mut self)
        requires
            old(self).wf(),
        ensures
            final(self).wf(),
            final(self)@ == old(self)@.delete_right_char(),
    {
        match self.cursor_line() {
            CursorLine::PastEnd => {},
            CursorLine::OnLine(y) => {
                if !(y == self.row.len() - 1 && self.cx == self.row[y].len()) {
                    self.move_cursor_one(CursorDir::Right);
                    self.delete_char();
                }
            },
        }
    }

    /// Deletes to the left of the cursor, in a transaction of its own, which
    /// is closed before and after: the character in front of the cursor, or,
    /// at column zero, the line break, so that the line joins the one above.
    /// Nothing happens at the start of the document or past its last line.
    pub fn delete_char(&mut self)
        requires
            old(self).wf(),
        ensures
            final(self).wf(),
            final(self)@ == old(self)@.delete_char(),
    {
        if self.cursor_line() == CursorLine::PastEnd || self.cx == 0 && self.cy == 0 {
            return ;
        }
        proof {
            lemma_delete_char_wf(self@);
            lemma_seal_wf(self@);
        }
        self.insert_undo_point();
        if self.cx > 0 {
            let idx = self.cx - 1;
            let deleted = self.row[self.cy].char_at(idx);
            self.new_diff(EditDiff::DeleteChar(self.cx, self.cy, deleted));
        } else {
            self.squash_to_previous_line();
        }
        self.commit();
    }

    /// Breaks the line at the cursor, in a transaction of its own, which is
    /// closed before and after.
    pub fn insert_line(&mut self)
        requires
            old(self).wf(),
        ensures
            final(self).wf(),
            final(self)@ == old(self)@.insert_line(),
    {
        proof {
            lemma_insert_line_wf(self@);
            lemma_seal_wf(self@);
        }
        self.insert_undo_point();
        if self.cursor_line() == CursorLine::PastEnd {
            self.new_diff(EditDiff::Newline);
        } else if self.cx >= self.row[self.cy].len() {
            let empty = String::new();
            self.new_diff(EditDiff::InsertLine(self.cy + 1, empty));
        } else {
            let ghost d = self@;
            let ghost line = d.lines[d.cy];
            let truncated = self.row[self.cy].slice_from(self.cx).to_owned();
            proof {
                assert(is_text(line));
                assert(is_text(truncated@)) by {
                    assert forall|i: int| 0 <= i < truncated@.len() implies is_text_char(
                        #[trigger] truncated@[i],
                    ) by {
                        assert(truncated@[i] == line[d.cx + i]);
                    }
                }
                assert(line.skip(line.len() - truncated@.len()) =~= truncated@);
                lemma_edit_wf(d, EditOp::Truncate(d.cy, truncated@));
            }
            let y = self.cy;
            self.new_diff(EditDiff::Truncate(y, truncated.clone()));
            self.new_diff(EditDiff::InsertLine(y + 1, truncated));
        }
        self.commit();
    }

    /// Moves the cursor one step in the direction `dir`.
    pub fn move_cursor_one(&mut self, dir: CursorDir)
        requires
            old(self).wf(),
        ensures
            final(self).wf(),
            final(self)@ == old(self)@.move_cursor(dir),
    {
        proof {
            lemma_move_wf(self@, dir);
        }
        match dir {
            CursorDir::Up => {
                if self.cy > 0 {
                    self.cy = self.cy - 1;
                }
            },
            CursorDir::Left => {
                if self.cx > 0 {
                    self.cx = self.cx - 1;
                } else if self.cy > 0 {
                    self.cy = self.cy - 1;
                    self.cx = self.row[self.cy].len();
                }
            },
            CursorDir::Down => {
                if self.cy < self.row.len() {
                    self.cy = self.cy + 1;
                }
            },
            CursorDir::Right => {
                if self.cy < self.row.len() {
                    let len = self.row[self.cy].len();
                    if self.cx < len {
                        self.cx = self.cx + 1;
                    } else {
                        self.cy = self.cy + 1;
                        self.cx = 0;
                    }
                }
            },
        }
        let len = if self.cy < self.row.len() {
            self.row[self.cy].len()
        } else {
            0
        };
        if self.cx > len {
            self.cx = len;
        }
    }

    /// Joins the cursor's line to the one above.
    fn squash_to_previous_line(&mut self)
        requires
            old(self).wf(),
            0 < old(self)@.cy < old(self)@.lines.len(),
        ensures
            final(self).wf(),
            final(self)@ == old(self)@.edit(
                EditOp::DeleteLine(old(self)@.cy, old(self)@.lines[old(self)@.cy]),
            ).edit(EditOp::Append(old(self)@.cy - 1, old(self)@.lines[old(self)@.cy])),
    {
        self.cy = self.cy - 1;
        self.cx = self.row[self.cy].len();
        self.concat_next_line();
    }

    /// Joins the line below the cursor to the cursor's line.
    fn concat_next_line(&mut self)
        requires
            old(self).wf(),
            old(self)@.cy + 1 < old(self)@.lines.len(),
        ensures
            final(self).wf(),
            final(self)@ == old(self)@.edit(
                EditOp::DeleteLine(old(self)@.cy + 1, old(self)@.lines[old(self)@.cy + 1]),
            ).edit(EditOp::Append(old(self)@.cy, old(self)@.lines[old(self)@.cy + 1])),
    {
        let ghost d = self@;
        let y = self.cy;
        assert(d.lines.len() == self.row.len());
        let removed = self.row[y + 1].buffer().to_owned();
        proof {
            assert(is_text(d.lines[y + 1]));
            lemma_edit_wf(d, EditOp::DeleteLine(y + 1, removed@));
        }
        self.new_diff(EditDiff::DeleteLine(y + 1, removed.clone()));
        self.new_diff(EditDiff::Append(y, removed));
    }

    /// Undoes the last transaction, and tells whether there was one.
    pub fn undo(&mut self) -> (done: bool)
        requires
            old(self).wf(),
        ensures
            final(self).wf(),
            final(self)@ == old(self)@.undo(),
            done == old(self)@.log.can_undo(),
    {
        proof {
            lemma_undo_wf(self@);
        }
        let state = self.history.undo(&mut self.row);
        if let Some((_, _, _, edited)) = state {
            if !edited {
                if self.undo_count > i32::MIN {
                    self.undo_count = self.undo_count - 1;
                }
            }
            self.modified = false;
        }
        self.after_undoredo(state)
    }

    /// Redoes the transaction that was undone last, and tells whether there
    /// was one.
    pub fn redo(&mut self) -> (done: bool)
        requires
            old(self).wf(),
        ensures
            final(self).wf(),
            final(self)@ == old(self)@.redo(),
            done == old(self)@.log.can_redo(),
    {
        proof {
            lemma_redo_wf(self@);
        }
        let state = self.history.redo(&mut self.row);
        if let Some((_, _, _, edited)) = state {
            if !edited {
                if self.undo_count < i32::MAX {
                    self.undo_count = self.undo_count + 1;
                }
            }
            self.modified = false;
        }
        self.after_undoredo(state)
    }

    /// Puts the cursor and the mark of what to draw where an undo or a redo
    /// says, and tells whether there was one.
    fn after_undoredo(&mut self, state: Option<(usize, usize, usize, bool)>) -> (done: bool)
        ensures
            done == (state is Some),
            *final(self) == (TextBuffer {
                cx: final(self).cx,
                cy: final(self).cy,
                dirty_start: final(self).dirty_start,
                ..*old(self)
            }),
            state is None ==> *final(self) == *old(self),
            state matches Some(step) ==> final(self)@ == (Document {
                cx: step.0 as int,
                cy: step.1 as int,
                ..old(self)@
            }).touch(step.2 as int),
    {
        match state {
            Some((x, y, s, _)) => {
                self.cx = x;
                self.cy = y;
                self.set_dirty_start(s);
                true
            },
            None => false,
        }
    }
}

} // verus!
