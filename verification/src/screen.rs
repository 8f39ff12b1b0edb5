//! What is shown of a document: which part, what the bars say, and what is
//! to be drawn again.

use crate::edit_diff::is_cursor;
use crate::encoding::string_push;
use crate::error::{Error, Result};
use crate::glyph::{display_width, is_text, is_text_char, width_cjk, TAB_STOP};
use crate::numeral::{decimal_of, push_decimal};
use crate::row::{
    display_col, glyphs, lemma_rows_are_text, lines_are_text, lines_of, render_of, rows_wf, Row,
};
use crate::status_bar::StatusBar;
use vstd::prelude::*;
use vstd::utf8::*;

verus! {

/// The keys that the editor tells of when it is asked for help.
pub const HELP: &'static str = "Ctrl-?              : Show this help";

/// The kind of a message.
#[derive(PartialEq, Eq, Structural, Clone, Copy, Debug)]
pub enum StatusMessageKind {
    Info,
    Error,
}

/// A message for the last line of the screen.
pub struct StatusMessage {
    pub text: String,
    pub kind: StatusMessageKind,
}

impl StatusMessage {
    /// A message with the text `message`.
    pub fn new(message: String, kind: StatusMessageKind) -> (m: StatusMessage)
        ensures
            m.text == message,
            m.kind == kind,
    {
        StatusMessage { text: message, kind }
    }
}

/// Tells whether a window of `width` columns and `height` rows is too small
/// for the editor.
pub fn too_small_window(width: u16, height: u16) -> (small: bool)
    ensures
        small == (width < 1 || height < 3),
{
    width < 1 || height < 3
}

/// What has happened to the message line since it was drawn.
#[derive(PartialEq, Eq, Structural, Clone, Copy, Debug)]
pub enum DrawMessage {
    Open,
    Close,
    Update,
    DoNothing,
}

impl DrawMessage {
    /// True when `rhs` can follow `self`: a line cannot open twice, close
    /// twice, change after it closed, or open while it is shown.
    pub open spec fn can_fold(self, rhs: DrawMessage) -> bool {
        match (self, rhs) {
            (DrawMessage::Open, DrawMessage::Open) => false,
            (DrawMessage::Close, DrawMessage::Close) => false,
            (DrawMessage::Close, DrawMessage::Update) => false,
            (DrawMessage::Update, DrawMessage::Open) => false,
            _ => true,
        }
    }

    /// What `self` and then `rhs` come to.
    pub open spec fn fold_of(self, rhs: DrawMessage) -> DrawMessage {
        match (self, rhs) {
            (DrawMessage::Open, DrawMessage::Close) => DrawMessage::DoNothing,
            (DrawMessage::Open, DrawMessage::Update) => DrawMessage::Open,
            (DrawMessage::Close, DrawMessage::Open) => DrawMessage::Update,
            (DrawMessage::Update, DrawMessage::Close) => DrawMessage::Close,
            (DrawMessage::Update, DrawMessage::Update) => DrawMessage::Update,
            (lhs, DrawMessage::DoNothing) => lhs,
            (_, rhs) => rhs,
        }
    }

    /// Puts together what happened first and what happened then.
    pub fn fold(self, rhs: DrawMessage) -> (r: DrawMessage)
        requires
            self.can_fold(rhs),
        ensures
            r == self.fold_of(rhs),
    {
        match (self, rhs) {
            (DrawMessage::Open, DrawMessage::Close) => DrawMessage::DoNothing,
            (DrawMessage::Open, DrawMessage::Update) => DrawMessage::Open,
            (DrawMessage::Close, DrawMessage::Open) => DrawMessage::Update,
            (DrawMessage::Update, DrawMessage::Close) => DrawMessage::Close,
            (DrawMessage::Update, DrawMessage::Update) => DrawMessage::Update,
            (lhs, DrawMessage::DoNothing) => lhs,
            (_, rhs) => rhs,
        }
    }
}

/// The change from the message `before` to the message `after`.
pub open spec fn message_change(
    before: Option<StatusMessage>,
    after: Option<StatusMessage>,
) -> DrawMessage {
    match (before, after) {
        (Some(p), Some(n)) => if p.text@ == n.text@ {
            DrawMessage::DoNothing
        } else {
            DrawMessage::Update
        },
        (None, Some(_)) => DrawMessage::Open,
        (Some(_), None) => DrawMessage::Close,
        (None, None) => DrawMessage::DoNothing,
    }
}

/// The width on screen of a character of a rendered line; one column where
/// it has none.
pub open spec fn glyph_width(c: char) -> int {
    match display_width(c) {
        Some(w) => w as int,
        None => 1,
    }
}

/// The sum of two columns, held at the largest `usize`.
pub open spec fn sat_add(a: int, b: int) -> int {
    if a + b > usize::MAX {
        usize::MAX as int
    } else {
        a + b
    }
}

/// The first column at or beyond `want` at which a character of `render`
/// ends, counted from the column `col` at which character `i` begins; the
/// end of the line where there is none.
pub open spec fn stop_from(render: Seq<char>, i: int, col: int, want: int) -> int
    decreases render.len() - i,
{
    if i < 0 || i >= render.len() {
        col
    } else {
        let next = sat_add(col, glyph_width(render[i]));
        if next >= want {
            next
        } else {
            stop_from(render, i + 1, next, want)
        }
    }
}

/// The characters of `render`, from character `i` on, which begins at column
/// `col`, that end beyond column `lo` and not beyond column `hi`, up to the
/// first that ends beyond `hi`.
pub open spec fn clip_from(render: Seq<char>, i: int, col: int, lo: int, hi: int) -> Seq<char>
    decreases render.len() - i,
{
    if i < 0 || i >= render.len() {
        Seq::empty()
    } else {
        let next = sat_add(col, glyph_width(render[i]));
        if next <= lo {
            clip_from(render, i + 1, next, lo, hi)
        } else if next > hi {
            Seq::empty()
        } else {
            seq![render[i]] + clip_from(render, i + 1, next, lo, hi)
        }
    }
}

/// One row of the screen that is to be drawn: its number, and the bytes for
/// it.
pub struct RowDraw {
    pub y: u16,
    pub bytes: Vec<u8>,
}

/// What is to be drawn. Where `full` is not set, only the cursor is to be
/// put in its place, if one is given. Else the cursor is hidden, the rows and
/// then the bars are written, and the cursor is put in its place and shown.
pub struct Frame {
    pub full: bool,
    pub rows: Vec<RowDraw>,
    pub bars: Vec<u8>,
    pub cursor: Option<(u16, u16)>,
}

/// The state of the screen: the display column of the cursor, the size of the
/// text area, the message, what happened to the message line and which lines
/// changed since the screen was drawn, and the line and column at which the
/// text area begins.
pub struct Screen {
    pub rx: usize,
    pub num_cols: usize,
    pub num_rows: usize,
    pub message: Option<StatusMessage>,
    pub draw_message: DrawMessage,
    pub dirty_start: Option<usize>,
    pub cursor_moved: bool,
    pub rowoff: usize,
    pub coloff: usize,
}

/// Puts `bytes` at the end of `out`.
pub fn push_bytes(out: &mut Vec<u8>, bytes: &[u8])
    ensures
        final(out)@ == old(out)@ + bytes@,
{
    let mut i: usize = 0;
    while i < bytes.len()
        invariant
            i <= bytes.len(),
            out@ == old(out)@ + bytes@.take(i as int),
        decreases bytes.len() - i,
    {
        out.push(bytes[i]);
        i = i + 1;
        assert(out@ =~= old(out)@ + bytes@.take(i as int));
    }
    assert(bytes@.take(i as int) =~= bytes@);
}

/// Puts the bytes of `text` at the end of `out`.
pub fn push_text(out: &mut Vec<u8>, text: &str)
    ensures
        final(out)@ == old(out)@ + encode_utf8(text@),
{
    push_bytes(out, text.as_bytes());
}

/// The bytes that put the cursor at the start of row `row`, counted from one.
pub open spec fn goto_row(row: int) -> Seq<u8> {
    encode_utf8("\x1b["@ + decimal_of(row as nat) + "H"@)
}

/// Puts at the end of `out` the bytes that put the cursor at the start of
/// row `row`, counted from one.
fn push_goto_row(out: &mut Vec<u8>, row: usize)
    ensures
        final(out)@ == old(out)@ + goto_row(row as int),
{
    let mut text = String::new();
    text.append("\x1b[");
    push_decimal(&mut text, row);
    text.append("H");
    assert(text@ =~= "\x1b["@ + decimal_of(row as nat) + "H"@);
    push_text(out, text.as_str());
}

/// The first `n` bytes of `bytes`, or all of them where there are fewer.
pub open spec fn cut(bytes: Seq<u8>, n: int) -> Seq<u8> {
    if bytes.len() <= n {
        bytes
    } else {
        bytes.take(n)
    }
}

/// `n` bytes that are spaces.
pub open spec fn blank(n: int) -> Seq<u8> {
    Seq::new(
        if n > 0 {
            n as nat
        } else {
            0
        },
        |i: int| 0x20u8,
    )
}

/// The bytes of a status line of `cols` columns with `left` at its left and
/// `right` at its right end: `left` is cut to the columns there are, and
/// `right` gives way to spaces where it does not fit behind it.
pub open spec fn status_line(left: Seq<u8>, right: Seq<u8>, cols: int) -> Seq<u8> {
    let head = cut(left, cols);
    let rest = cols - head.len();
    if rest == 0 {
        head
    } else if right.len() > rest {
        head + blank(rest)
    } else {
        head + blank(rest - right.len()) + right
    }
}

/// Puts `n` spaces at the end of `out`.
fn push_blank(out: &mut Vec<u8>, n: usize)
    ensures
        final(out)@ == old(out)@ + blank(n as int),
{
    let mut i: usize = 0;
    assert(out@ =~= old(out)@ + blank(0));
    while i < n
        invariant
            i <= n,
            out@ == old(out)@ + blank(i as int),
        decreases n - i,
    {
        out.push(0x20u8);
        i = i + 1;
        assert(out@ =~= old(out)@ + blank(i as int));
    }
}

/// Puts the first `n` bytes of `bytes` at the end of `out`, or all of them
/// where there are fewer, and returns how many they are.
fn push_cut(out: &mut Vec<u8>, bytes: &[u8], n: usize) -> (len: usize)
    ensures
        final(out)@ == old(out)@ + cut(bytes@, n as int),
        len == cut(bytes@, n as int).len(),
        len <= n,
{
    let len = if bytes.len() <= n {
        bytes.len()
    } else {
        n
    };
    let mut i: usize = 0;
    while i < len
        invariant
            i <= len <= bytes.len(),
            out@ == old(out)@ + bytes@.take(i as int),
        decreases len - i,
    {
        out.push(bytes[i]);
        i = i + 1;
        assert(out@ =~= old(out)@ + bytes@.take(i as int));
    }
    assert(bytes@.take(bytes@.len() as int) =~= bytes@);
    len
}

impl Screen {
    /// The invariant of a screen: the text area has at least one column and
    /// one row and no more than a terminal can report, and what happened to
    /// the message line goes with whether there is a message.
    pub open spec fn wf(&self) -> bool {
        &&& 1 <= self.num_cols <= u16::MAX
        &&& 1 <= self.num_rows <= u16::MAX
        &&& (self.draw_message == DrawMessage::Open || self.draw_message == DrawMessage::Update)
            ==> self.message is Some
        &&& self.draw_message == DrawMessage::Close ==> self.message is None
    }

    /// The screen for a window of `w` columns and `h` rows, with a hint for
    /// a message; a window that is too small is refused.
    pub fn new(w: u16, h: u16) -> (r: Result<Screen>)
        ensures
            r is Ok <==> !(w < 1 || h < 3),
            r matches Err(e) ==> e == Error::TooSmallWindow(w, h),
            r matches Ok(s) ==> s.wf() && s.is_initial(w, h),
    {
        if too_small_window(w, h) {
            return Err(Error::TooSmallWindow(w, h));
        }
        Ok(
            Screen {
                rx: 0,
                num_cols: w as usize,
                num_rows: (h - 2) as usize,
                message: Some(
                    StatusMessage::new("Ctrl-? for help".to_owned(), StatusMessageKind::Info),
                ),
                draw_message: DrawMessage::Open,
                dirty_start: Some(0),
                cursor_moved: true,
                rowoff: 0,
                coloff: 0,
            },
        )
    }

    /// True when `self` is the screen for a new window of `w` columns and `h`
    /// rows: all but two rows are for text, the part that is shown begins
    /// at the first line and column, a hint is the message, and everything
    /// is to be drawn.
    pub open spec fn is_initial(&self, w: u16, h: u16) -> bool {
        &&& self.num_cols == w
        &&& self.num_rows == h - 2
        &&& self.rx == 0 && self.rowoff == 0 && self.coloff == 0
        &&& self.message is Some
        &&& self.message->0.text@ == "Ctrl-? for help"@
        &&& self.message->0.kind == StatusMessageKind::Info
        &&& self.draw_message == DrawMessage::Open
        &&& self.dirty_start == Some(0usize)
        &&& self.cursor_moved
    }

    /// The number of rows of text: one more where no message is shown.
    pub fn rows(&self) -> (n: usize)
        requires
            self.wf(),
        ensures
            n == self.rows_of(),
    {
        if self.message.is_some() {
            self.num_rows
        } else {
            self.num_rows + 1
        }
    }

    /// What `rows` returns.
    pub open spec fn rows_of(&self) -> int {
        if self.message is Some {
            self.num_rows as int
        } else {
            self.num_rows + 1
        }
    }

    /// The number of columns.
    pub fn cols(&self) -> (n: usize)
        ensures
            n == self.num_cols,
    {
        self.num_cols
    }

    /// Marks the lines from `start` on to be drawn again.
    pub fn set_dirty_start(&mut self, start: usize)
        ensures
            *final(self) == (Screen {
                dirty_start: match old(self).dirty_start {
                    Some(s) => if s < start {
                        Some(s)
                    } else {
                        Some(start)
                    },
                    None => Some(start),
                },
                ..*old(self)
            }),
    {
        if let Some(s) = self.dirty_start {
            if s < start {
                return ;
            }
        }
        self.dirty_start = Some(start);
    }

    /// The screen once it is drawn: nothing is left to be drawn again.
    pub open spec fn drawn(self) -> Screen {
        Screen {
            dirty_start: None,
            cursor_moved: false,
            draw_message: DrawMessage::DoNothing,
            ..self
        }
    }

    /// Forgets what was to be drawn again, once it is drawn.
    fn after_render(&mut self)
        ensures
            *final(self) == old(self).drawn(),
    {
        self.dirty_start = None;
        self.cursor_moved = false;
        self.draw_message = DrawMessage::DoNothing;
    }

    /// Takes up the new size of the window, where it has got one: everything
    /// is to be drawn again. A window that is too small is refused. Tells
    /// whether there was a new size.
    pub fn maybe_resize(&mut self, resized: Option<(u16, u16)>) -> (r: Result<bool>)
        requires
            old(self).wf(),
        ensures
            final(self).wf(),
            match resized {
                None => r == Ok::<bool, Error>(false) && *final(self) == *old(self),
                Some((w, h)) => if w < 1 || h < 3 {
                    r == Err::<bool, Error>(Error::TooSmallWindow(w, h)) && *final(self) == *old(
                        self,
                    )
                } else {
                    r == Ok::<bool, Error>(true) && *final(self) == (Screen {
                        num_rows: (h - 2) as usize,
                        num_cols: w as usize,
                        dirty_start: Some(0usize),
                        ..*old(self)
                    })
                },
            },
    {
        match resized {
            None => Ok(false),
            Some((w, h)) => {
                if too_small_window(w, h) {
                    return Err(Error::TooSmallWindow(w, h));
                }
                self.num_rows = (h - 2) as usize;
                self.num_cols = w as usize;
                self.dirty_start = Some(0);
                Ok(true)
            },
        }
    }

    /// Shows `message` as information.
    pub fn set_info_message(&mut self, message: String)
        requires
            old(self).wf(),
        ensures
            final(self).wf(),
            final(self).shows_after(*old(self), Some(message@)),
            final(self).message->0.kind == StatusMessageKind::Info,
    {
        self.set_message(Some(StatusMessage::new(message, StatusMessageKind::Info)));
    }

    /// Shows `message` as an error.
    pub fn set_error_message(&mut self, message: String)
        requires
            old(self).wf(),
        ensures
            final(self).wf(),
            final(self).shows_after(*old(self), Some(message@)),
            final(self).message->0.kind == StatusMessageKind::Error,
    {
        self.set_message(Some(StatusMessage::new(message, StatusMessageKind::Error)));
    }

    /// Shows no message.
    pub fn unset_message(&mut self)
        requires
            old(self).wf(),
        ensures
            final(self).wf(),
            final(self).shows_after(*old(self), None),
    {
        self.set_message(None);
    }

    /// True when `self` is `before` with the message changed to one with the
    /// text `text`, or to none, and with the change taken up in what
    /// happened to the message line.
    pub open spec fn shows_after(&self, before: Screen, text: Option<Seq<char>>) -> bool {
        &&& *self == (Screen {
            message: self.message,
            draw_message: self.draw_message,
            ..before
        })
        &&& match text {
            Some(t) => self.message matches Some(m) && m.text@ == t,
            None => self.message is None,
        }
        &&& self.draw_message == before.draw_message.fold_of(
            message_change(before.message, self.message),
        )
    }

    /// Changes the message, and takes the change up in what happened to the
    /// message line.
    fn set_message(&mut self, m: Option<StatusMessage>)
        requires
            old(self).wf(),
        ensures
            final(self).wf(),
            final(self).message == m,
            final(self).shows_after(
                *old(self),
                match m {
                    Some(n) => Some(n.text@),
                    None => None,
                },
            ),
    {
        let op = match (&self.message, &m) {
            (Some(p), Some(n)) => {
                if p.text == n.text {
                    DrawMessage::DoNothing
                } else {
                    DrawMessage::Update
                }
            },
            (None, Some(_)) => DrawMessage::Open,
            (Some(_), None) => DrawMessage::Close,
            (None, None) => DrawMessage::DoNothing,
        };
        self.draw_message = self.draw_message.fold(op);
        self.message = m;
    }

    /// True when `self` is `before` at the end of a key: the lines from
    /// `dirty` on are marked to be drawn again, where there are any, and the
    /// cursor is noted to have moved where `moved` tells so.
    pub open spec fn after_key(&self, before: Screen, dirty: Option<int>, moved: bool) -> bool {
        &&& *self == (Screen {
            dirty_start: self.dirty_start,
            cursor_moved: self.cursor_moved,
            ..before
        })
        &&& self.cursor_moved == (before.cursor_moved || moved)
        &&& self.dirty_start == match dirty {
            None => before.dirty_start,
            Some(line) => match before.dirty_start {
                Some(s) => if s < line {
                    Some(s)
                } else {
                    Some(line as usize)
                },
                None => Some(line as usize),
            },
        }
    }

    /// True when `self` is `before` after a request was carried out and its
    /// key ended: the message line tells `notice`, where there is one, the
    /// lines from `dirty` on are marked to be drawn again, where there are
    /// any, and the cursor is noted to have moved where `moved` tells so.
    pub open spec fn after_request(
        &self,
        before: Screen,
        notice: Option<(Seq<char>, StatusMessageKind)>,
        dirty: Option<int>,
        moved: bool,
    ) -> bool {
        let told = Screen {
            dirty_start: before.dirty_start,
            cursor_moved: before.cursor_moved,
            ..*self
        };
        &&& match notice {
            None => told == before,
            Some((text, kind)) => told.shows_after(before, Some(text)) && told.message->0.kind
                == kind,
        }
        &&& self.after_key(told, dirty, moved)
    }

    /// What `trim_line` returns for the text `line`.
    pub open spec fn trimmed(&self, line: Seq<char>) -> Seq<char> {
        let from = if self.coloff < line.len() {
            self.coloff as int
        } else {
            line.len() as int
        };
        let to = if from + self.num_cols < line.len() {
            from + self.num_cols
        } else {
            line.len() as int
        };
        line.subrange(from, to)
    }

    /// The part of `line` that the screen shows: as many characters as there
    /// are columns, from the first column that is shown.
    pub fn trim_line(&self, line: &str) -> (text: String)
        ensures
            text@ == self.trimmed(line@),
    {
        let ghost s = line@;
        let mut text = String::new();
        let mut seen: usize = 0;
        let mut taken: usize = 0;
        let it = line.chars();
        for c in iter: it
            invariant
                iter.seq() == s,
                s == line@,
                seen <= self.coloff,
                taken <= self.num_cols,
                iter.index() == seen + taken,
                seen < self.coloff ==> taken == 0,
                text@ == s.subrange(seen as int, seen + taken),
        {
            if seen < self.coloff {
                seen = seen + 1;
                assert(text@ =~= s.subrange(seen as int, seen + taken));
            } else if taken < self.num_cols {
                string_push(&mut text, c);
                taken = taken + 1;
                assert(text@ =~= s.subrange(seen as int, seen + taken));
            } else {
                proof {
                    assert(iter.index() < s.len());
                }
                return text;
            }
        }
        text
    }

    /// The column from which the text is to be shown so that the column
    /// `want_stop` is the first that is not cut off: the first end of a
    /// character of the rendered line at or beyond it.
    fn next_coloff(&self, want_stop: usize, row: &Row) -> (coloff: usize)
        requires
            row.wf(),
        ensures
            coloff == stop_from(render_of(row@), 0, 0, want_stop as int),
    {
        let ghost render = render_of(row@);
        let mut coloff: usize = 0;
        let it = row.render_text().chars();
        for c in iter: it
            invariant
                iter.seq() == render,
                render == render_of(row@),
                stop_from(render, iter.index(), coloff as int, want_stop as int) == stop_from(
                    render,
                    0,
                    0,
                    want_stop as int,
                ),
        {
            let w = match width_cjk(c) {
                Some(w) => w,
                None => 1,
            };
            coloff = coloff.saturating_add(w);
            if coloff >= want_stop {
                return coloff;
            }
        }
        coloff
    }

    /// Moves the part that is shown so that the cursor, at `cursor` in
    /// `rows`, lies in it; where it moved, the rows are to be drawn again.
    /// Afterwards the cursor's line is one of the rows that are shown, and
    /// its display column one of the columns.
    pub fn do_scroll(&mut self, rows: &[Row], cursor: (usize, usize))
        requires
            old(self).wf(),
            rows_wf(rows@),
            is_cursor(lines_of(rows@), cursor.0 as int, cursor.1 as int),
            cursor.1 < rows@.len() ==> display_col(rows@[cursor.1 as int]@.take(cursor.0 as int))
                <= usize::MAX,
        ensures
            final(self).wf(),
            final(self).scrolled_from(
                *old(self),
                lines_of(rows@),
                cursor.0 as int,
                cursor.1 as int,
            ),
            final(self).rowoff <= cursor.1 < final(self).rowoff + final(self).rows_of(),
            final(self).coloff <= final(self).rx < final(self).coloff + final(self).num_cols,
    {
        let (cx, cy) = cursor;
        let prev_rowoff = self.rowoff;
        let prev_coloff = self.coloff;
        assert(rows@.len() == lines_of(rows@).len());
        if cy < rows.len() {
            assert(rows@[cy as int].wf());
            self.rx = rows[cy].rx_from_cx(cx);
        } else {
            self.rx = 0;
        }
        if cy < self.rowoff {
            self.rowoff = cy;
        }
        if cy - self.rowoff >= self.rows() {
            self.rowoff = cy - self.rows() + 1;
        }
        if self.rx < self.coloff {
            self.coloff = self.rx;
        }
        if self.rx - self.coloff >= self.num_cols {
            assert(rows@[cy as int].wf());
            self.coloff = self.next_coloff(self.rx - self.num_cols + 1, &rows[cy]);
        }
        if prev_rowoff != self.rowoff || prev_coloff != self.coloff {
            self.set_dirty_start(self.rowoff);
        }
        proof {
            lemma_rows_are_text(rows@);
            lemma_scroll_shows_cursor(*self, *old(self), lines_of(rows@), cx as int, cy as int);
        }
    }

    /// True when `self` is `before` scrolled to the cursor at column `cx` of
    /// line `cy` of `lines`.
    pub open spec fn scrolled_from(
        &self,
        before: Screen,
        lines: Seq<Seq<char>>,
        cx: int,
        cy: int,
    ) -> bool {
        let rx = if cy < lines.len() {
            display_col(lines[cy].take(cx)) as int
        } else {
            0
        };
        let up = if cy < before.rowoff {
            cy
        } else {
            before.rowoff as int
        };
        let rowoff = if cy - up >= before.rows_of() {
            cy - before.rows_of() + 1
        } else {
            up
        };
        let left = if rx < before.coloff {
            rx
        } else {
            before.coloff as int
        };
        let coloff = if rx - left >= before.num_cols {
            stop_from(render_of(lines[cy]), 0, 0, rx - before.num_cols + 1)
        } else {
            left
        };
        &&& self.rx == rx
        &&& self.rowoff == rowoff
        &&& self.coloff == coloff
        &&& self.dirty_start == if before.rowoff != rowoff || before.coloff != coloff {
            match before.dirty_start {
                Some(s) => if s < rowoff {
                    Some(s)
                } else {
                    Some(rowoff as usize)
                },
                None => Some(rowoff as usize),
            }
        } else {
            before.dirty_start
        }
        &&& *self == (Screen {
            rx: self.rx,
            rowoff: self.rowoff,
            coloff: self.coloff,
            dirty_start: self.dirty_start,
            ..before
        })
    }
}

/// The bytes that clear the rest of a row.
pub open spec fn clear_to_end() -> Seq<u8> {
    encode_utf8("\x1b[K"@)
}

/// The line above the status line of a welcome screen in row `y` of `rows`
/// rows, for a window of `cols` columns: the greeting `welcome` in the middle
/// of the row a third down, else a tilde, and a space in the first row.
pub open spec fn welcome_row(y: int, rows: int, cols: int, welcome: Seq<char>) -> Seq<u8> {
    let text = if y == rows / 3 {
        let padding = (cols - encode_utf8(welcome).len()) / 2;
        if padding > 0 {
            encode_utf8("~"@) + blank(padding - 1) + encode_utf8(welcome)
        } else {
            encode_utf8(welcome)
        }
    } else if y == 0 {
        encode_utf8(" "@)
    } else {
        encode_utf8("~"@)
    };
    goto_row(y + 1) + text + clear_to_end()
}

/// The rows of a welcome screen from the first up to row `n`.
pub open spec fn welcome_rows(n: int, rows: int, cols: int, welcome: Seq<char>) -> Seq<u8>
    decreases n,
{
    if n <= 0 {
        Seq::empty()
    } else {
        welcome_rows(n - 1, rows, cols, welcome) + welcome_row(n - 1, rows, cols, welcome)
    }
}

/// The bytes for row `y` of the screen where it shows the rendered line
/// `render`, or no line: what of the line lies in the columns that are
/// shown, or a tilde, and then the rest of the row cleared.
pub open spec fn row_bytes(render: Option<Seq<char>>, coloff: int, cols: int) -> Seq<u8> {
    let text = match render {
        None => encode_utf8("~"@),
        Some(r) => encode_utf8(clip_from(r, 0, 0, coloff, sat_add(cols, coloff))),
    };
    text + clear_to_end()
}

/// Puts row `y` of a welcome screen at the end of `out`.
fn push_welcome_row(
    out: &mut Vec<u8>,
    y: usize,
    rows: usize,
    cols: usize,
    welcome_bytes: &[u8],
    Ghost(greeting): Ghost<Seq<char>>,
)
    requires
        y < rows,
        welcome_bytes@ == encode_utf8(greeting),
        welcome_bytes@.len() <= cols,
    ensures
        final(out)@ == old(out)@ + welcome_row(y as int, rows as int, cols as int, greeting),
{
    push_goto_row(out, y + 1);
    if y == rows / 3 {
        let padding = (cols - welcome_bytes.len()) / 2;
        if padding > 0 {
            push_text(out, "~");
            push_blank(out, padding - 1);
        }
        push_bytes(out, welcome_bytes);
    } else {
        if y == 0 {
            push_text(out, " ");
        } else {
            push_text(out, "~");
        }
    }
    push_text(out, "\x1b[K");
    assert(out@ =~= old(out)@ + welcome_row(y as int, rows as int, cols as int, greeting));
}

impl Screen {
    /// What `draw_status_bar` puts out.
    pub open spec fn status_bar_of(&self, status_bar: StatusBar) -> Seq<u8> {
        goto_row(self.rows_of() + 1) + status_line(
            encode_utf8(status_bar.left_of()),
            encode_utf8(status_bar.right_of()),
            self.num_cols as int,
        )
    }

    /// Puts the status line at the end of `out`: in the row below the text,
    /// what `status_bar` tells at its left and its right end.
    pub fn draw_status_bar(&self, out: &mut Vec<u8>, status_bar: &StatusBar)
        requires
            self.wf(),
        ensures
            final(out)@ == old(out)@ + self.status_bar_of(*status_bar),
    {
        let ghost start = out@;
        push_goto_row(out, self.rows() + 1);
        let left = status_bar.left();
        let cut_len = push_cut(out, left.as_str().as_bytes(), self.num_cols);
        let rest_len = self.num_cols - cut_len;
        if rest_len == 0 {
            assert(out@ =~= start + self.status_bar_of(*status_bar));
            return ;
        }
        let right = status_bar.right();
        let right_bytes = right.as_str().as_bytes();
        if right_bytes.len() > rest_len {
            push_blank(out, rest_len);
            assert(out@ =~= start + self.status_bar_of(*status_bar));
            return ;
        }
        push_blank(out, rest_len - right_bytes.len());
        push_bytes(out, right_bytes);
        assert(out@ =~= start + self.status_bar_of(*status_bar));
    }

    /// What `draw_message_bar` puts out.
    pub open spec fn message_bar_of(&self, message: StatusMessage) -> Seq<u8> {
        goto_row(self.num_rows + 2) + cut(encode_utf8(message.text@), self.num_cols as int)
            + clear_to_end()
    }

    /// Puts the message line at the end of `out`: in the last row, the text
    /// of `message`, cut to the columns there are.
    pub fn draw_message_bar(&self, out: &mut Vec<u8>, message: &StatusMessage)
        requires
            self.wf(),
        ensures
            final(out)@ == old(out)@ + self.message_bar_of(*message),
    {
        let ghost start = out@;
        push_goto_row(out, self.num_rows + 2);
        push_cut(out, message.text.as_str().as_bytes(), self.num_cols);
        push_text(out, "\x1b[K");
        assert(out@ =~= start + self.message_bar_of(*message));
    }

    /// What `render_welcome` returns.
    pub open spec fn welcome_of(&self, status_bar: StatusBar, version: Seq<char>) -> Seq<u8> {
        let message = match self.message {
            Some(m) => self.message_bar_of(m),
            None => Seq::empty(),
        };
        encode_utf8("\x1b[?25l"@) + welcome_rows(
            self.rows_of(),
            self.rows_of(),
            self.num_cols as int,
            self.trimmed("Berry -- version "@ + version),
        ) + self.status_bar_of(status_bar) + message + encode_utf8("\x1b[H"@) + encode_utf8(
            "\x1b[?25h"@,
        )
    }

    /// The bytes that draw the welcome screen for the version `version`,
    /// which is in ASCII: the cursor hidden, a greeting a third down, the
    /// bars, and the cursor shown at the top. After it nothing is left to be
    /// drawn again.
    pub fn render_welcome(&mut self, status_bar: &StatusBar, version: &str) -> (out: Vec<u8>)
        requires
            old(self).wf(),
            is_ascii_chars(version@),
        ensures
            final(self).wf(),
            out@ == old(self).welcome_of(*status_bar, version@),
            *final(self) == old(self).drawn(),
    {
        let mut out: Vec<u8> = Vec::new();
        push_text(&mut out, "\x1b[?25l");
        let ghost head = out@;
        let mut msg_buf = String::new();
        msg_buf.append("Berry -- version ");
        msg_buf.append(version);
        let welcome = self.trim_line(msg_buf.as_str());
        let welcome_bytes = welcome.as_str().as_bytes();
        let ghost greeting = self.trimmed("Berry -- version "@ + version@);
        let rows = self.rows();
        let cols = self.num_cols;
        proof {
            reveal_strlit("Berry -- version ");
            let full = "Berry -- version "@ + version@;
            assert(is_ascii_chars(full)) by {
                assert forall|i: int| 0 <= i < full.len() implies '\0' <= #[trigger] full[i]
                    <= '\u{7f}' by {
                    if i >= 17 {
                        assert(full[i] == version@[i - 17]);
                    }
                }
            }
            assert(is_ascii_chars(greeting));
            is_ascii_chars_encode_utf8(greeting);
        }
        let mut y: usize = 0;
        assert(out@ =~= head + welcome_rows(0, rows as int, cols as int, greeting));
        while y < rows
            invariant
                y <= rows,
                welcome_bytes@ == encode_utf8(greeting),
                welcome_bytes@.len() <= cols,
                out@ == head + welcome_rows(y as int, rows as int, cols as int, greeting),
            decreases rows - y,
        {
            let ghost before = out@;
            push_welcome_row(&mut out, y, rows, cols, welcome_bytes, Ghost(greeting));
            y = y + 1;
            assert(out@ =~= head + welcome_rows(y as int, rows as int, cols as int, greeting));
        }
        self.draw_status_bar(&mut out, status_bar);
        if let Some(message) = &self.message {
            self.draw_message_bar(&mut out, message);
        } else {
            assert(out@ + Seq::<u8>::empty() =~= out@);
        }
        push_text(&mut out, "\x1b[H");
        push_text(&mut out, "\x1b[?25h");
        assert(out@ =~= self.welcome_of(*status_bar, version@));
        self.after_render();
        out
    }

    /// The bytes that put the cursor in row `row` and column `col`, counted
    /// from one.
    pub fn force_set_cursor(&self, row: usize, col: usize) -> (out: Vec<u8>)
        ensures
            out@ == encode_utf8(
                "\x1b["@ + decimal_of(row as nat) + ";"@ + decimal_of(col as nat) + "H"@,
            ),
    {
        let mut text = String::new();
        text.append("\x1b[");
        push_decimal(&mut text, row);
        text.append(";");
        push_decimal(&mut text, col);
        text.append("H");
        assert(text@ =~= "\x1b["@ + decimal_of(row as nat) + ";"@ + decimal_of(col as nat) + "H"@);
        let mut out: Vec<u8> = Vec::new();
        push_text(&mut out, text.as_str());
        assert(out@ =~= encode_utf8(text@));
        out
    }

    /// The bytes for a row of the screen that shows the line `row`: what of
    /// the rendered line lies in the columns that are shown, and the rest of
    /// the row cleared.
    fn draw_row(&self, row: &Row) -> (out: Vec<u8>)
        requires
            row.wf(),
        ensures
            out@ == row_bytes(Some(render_of(row@)), self.coloff as int, self.num_cols as int),
    {
        let ghost render = render_of(row@);
        let hi = self.num_cols.saturating_add(self.coloff);
        let ghost whole = clip_from(render, 0, 0, self.coloff as int, hi as int);
        let mut text = String::new();
        let mut col: usize = 0;
        let it = row.render_text().chars();
        let mut cut_off = false;
        assert(text@ + whole =~= whole);
        for c in iter: it
            invariant
                iter.seq() == render,
                hi == sat_add(self.num_cols as int, self.coloff as int),
                whole == clip_from(render, 0, 0, self.coloff as int, hi as int),
                if cut_off {
                    text@ == whole
                } else {
                    text@ + clip_from(render, iter.index(), col as int, self.coloff as int, hi as int)
                        == whole
                },
        {
            if !cut_off {
                let ghost i = iter.index();
                let ghost before = text@;
                let w = match width_cjk(c) {
                    Some(w) => w,
                    None => 1,
                };
                col = col.saturating_add(w);
                if col <= self.coloff {
                } else if col > hi {
                    cut_off = true;
                    assert(text@ + Seq::<char>::empty() =~= text@);
                } else {
                    string_push(&mut text, c);
                    assert(text@ + clip_from(
                        render,
                        i + 1,
                        col as int,
                        self.coloff as int,
                        hi as int,
                    ) =~= before + (seq![c] + clip_from(
                        render,
                        i + 1,
                        col as int,
                        self.coloff as int,
                        hi as int,
                    )));
                }
            }
        }
        assert(text@ + Seq::<char>::empty() =~= text@);
        let mut out: Vec<u8> = Vec::new();
        push_text(&mut out, text.as_str());
        push_text(&mut out, "\x1b[K");
        assert(out@ =~= row_bytes(Some(render), self.coloff as int, self.num_cols as int));
        out
    }

    /// True when `draws` are the rows of the screen up to row `to` that show
    /// a line of `lines` from `dirty_start` on, or none: each with its number
    /// and the bytes for it, in order.
    pub open spec fn draws_rows(
        &self,
        draws: Seq<RowDraw>,
        lines: Seq<Seq<char>>,
        dirty_start: int,
        to: int,
    ) -> bool {
        &&& forall|k: int|
            0 <= k < draws.len() ==> {
                let y = (#[trigger] draws[k]).y as int;
                let file_row = sat_add(y, self.rowoff as int);
                &&& 0 <= y < to
                &&& file_row >= dirty_start
                &&& draws[k].bytes@ == row_bytes(
                    if file_row < lines.len() {
                        Some(render_of(lines[file_row]))
                    } else {
                        None
                    },
                    self.coloff as int,
                    self.num_cols as int,
                )
            }
        &&& forall|j: int, k: int| 0 <= j < k < draws.len() ==> draws[j].y < draws[k].y
        &&& forall|y: int|
            0 <= y < to && sat_add(y, self.rowoff as int) >= dirty_start ==> exists|k: int|
                0 <= k < draws.len() && (#[trigger] draws[k]).y == y
    }

    /// The rows of the screen that are to be drawn again where the lines
    /// from `dirty_start` on changed.
    pub fn draw_rows(&self, dirty_start: usize, rows: &[Row]) -> (draws: Vec<RowDraw>)
        requires
            self.wf(),
            rows_wf(rows@),
        ensures
            self.draws_rows(draws@, lines_of(rows@), dirty_start as int, self.rows_of()),
    {
        let row_len = rows.len();
        let count = self.rows();
        let mut draws: Vec<RowDraw> = Vec::new();
        let mut y: usize = 0;
        while y < count
            invariant
                y <= count,
                count == self.rows_of(),
                count <= u16::MAX + 1,
                row_len == rows@.len(),
                rows_wf(rows@),
                self.draws_rows(draws@, lines_of(rows@), dirty_start as int, y as int),
            decreases count - y,
        {
            let file_row = y.saturating_add(self.rowoff);
            let ghost before = draws@;
            if file_row >= dirty_start {
                let bytes = if file_row >= row_len {
                    let mut out: Vec<u8> = Vec::new();
                    push_text(&mut out, "~");
                    push_text(&mut out, "\x1b[K");
                    assert(out@ =~= row_bytes(None, self.coloff as int, self.num_cols as int));
                    out
                } else {
                    assert(rows@[file_row as int].wf());
                    self.draw_row(&rows[file_row])
                };
                let draw = RowDraw { y: y as u16, bytes };
                draws.push(draw);
                proof {
                    assert forall|k: int| 0 <= k < draws@.len() implies {
                        let yy = (#[trigger] draws@[k]).y as int;
                        0 <= yy < y + 1
                    } by {
                        if k < before.len() {
                            assert(draws@[k] == before[k]);
                        }
                    }
                    assert forall|j: int, k: int| 0 <= j < k < draws@.len() implies draws@[j].y
                        < draws@[k].y by {
                        assert(draws@[j] == before[j]);
                        if k < before.len() {
                            assert(draws@[k] == before[k]);
                        }
                    }
                    assert forall|yy: int|
                        0 <= yy < y + 1 && sat_add(yy, self.rowoff as int)
                            >= dirty_start implies exists|k: int|
                        0 <= k < draws@.len() && (#[trigger] draws@[k]).y == yy by {
                        if yy < y {
                            let k = choose|k: int|
                                0 <= k < before.len() && (#[trigger] before[k]).y == yy;
                            assert(draws@[k] == before[k]);
                        } else {
                            assert(draws@[before.len() as int].y == yy);
                        }
                    }
                }
            }
            y = y + 1;
        }
        draws
    }

    /// True when `frame` is what is to be drawn for the screen `self`, of
    /// which the cursor stands on line `cy`, with the status line
    /// `status_bar` and the lines `lines`.
    pub open spec fn draws_frame(
        &self,
        frame: Frame,
        cy: int,
        status_bar: StatusBar,
        lines: Seq<Seq<char>>,
    ) -> bool {
        let place = (
            (if self.rx >= self.coloff {
                self.rx - self.coloff
            } else {
                0
            }) as u16,
            (if cy >= self.rowoff {
                cy - self.rowoff
            } else {
                0
            }) as u16,
        );
        let idle = self.dirty_start is None && !status_bar.redraw && self.draw_message
            == DrawMessage::DoNothing;
        &&& frame.full == !idle
        &&& idle ==> frame.rows@.len() == 0 && frame.bars@.len() == 0 && frame.cursor
            == if self.cursor_moved {
            Some(place)
        } else {
            None
        }
        &&& !idle ==> {
            &&& frame.cursor == Some(place)
            &&& match self.dirty_start {
                Some(s) => self.draws_rows(frame.rows@, lines, s as int, self.rows_of()),
                None => frame.rows@.len() == 0,
            }
            &&& frame.bars@ == (if status_bar.redraw || self.draw_message == DrawMessage::Open
                || self.draw_message == DrawMessage::Close {
                self.status_bar_of(status_bar)
            } else {
                Seq::empty()
            }) + (if (self.draw_message == DrawMessage::Update || self.draw_message
                == DrawMessage::Open) && self.message is Some {
                self.message_bar_of(self.message->0)
            } else {
                Seq::empty()
            })
        }
    }

    /// What is to be drawn: the cursor alone where nothing changed, else the
    /// rows that changed, the status line where it or the message line
    /// changed, and the message where it is new.
    fn redraw(&self, cy: usize, status_bar: &StatusBar, rows: &[Row]) -> (frame: Frame)
        requires
            self.wf(),
            rows_wf(rows@),
        ensures
            self.draws_frame(frame, cy as int, *status_bar, lines_of(rows@)),
    {
        let cursor_row = cy.saturating_sub(self.rowoff);
        let cursor_col = self.rx.saturating_sub(self.coloff);
        let place = (cursor_col as u16, cursor_row as u16);
        if self.dirty_start.is_none() && !status_bar.redraw && self.draw_message
            == DrawMessage::DoNothing {
            return Frame {
                full: false,
                rows: Vec::new(),
                bars: Vec::new(),
                cursor: if self.cursor_moved {
                    Some(place)
                } else {
                    None
                },
            };
        }
        let draws = match self.dirty_start {
            Some(s) => self.draw_rows(s, rows),
            None => Vec::new(),
        };
        let mut bars: Vec<u8> = Vec::new();
        if status_bar.redraw || self.draw_message == DrawMessage::Open || self.draw_message
            == DrawMessage::Close {
            self.draw_status_bar(&mut bars, status_bar);
        }
        let ghost first = bars@;
        if self.draw_message == DrawMessage::Update || self.draw_message == DrawMessage::Open {
            if let Some(message) = &self.message {
                self.draw_message_bar(&mut bars, message);
            }
        }
        assert(first + Seq::<u8>::empty() =~= first);
        assert(Seq::<u8>::empty() + bars@ =~= bars@);
        Frame { full: true, rows: draws, bars, cursor: Some(place) }
    }

    /// Scrolls to the cursor of `buf` and returns what is to be drawn; after
    /// it nothing is left to be drawn again.
    pub fn render(
        &mut self,
        rows: &[Row],
        cursor: (usize, usize),
        status_bar: &StatusBar,
    ) -> (frame: Frame)
        requires
            old(self).wf(),
            rows_wf(rows@),
            is_cursor(lines_of(rows@), cursor.0 as int, cursor.1 as int),
            cursor.1 < rows@.len() ==> display_col(rows@[cursor.1 as int]@.take(cursor.0 as int))
                <= usize::MAX,
        ensures
            final(self).wf(),
            exists|mid: Screen|
                {
                    &&& #[trigger] mid.scrolled_from(
                        *old(self),
                        lines_of(rows@),
                        cursor.0 as int,
                        cursor.1 as int,
                    )
                    &&& mid.draws_frame(frame, cursor.1 as int, *status_bar, lines_of(rows@))
                    &&& *final(self) == mid.drawn()
                },
    {
        self.do_scroll(rows, cursor);
        let frame = self.redraw(cursor.1, status_bar, rows);
        let ghost mid = *self;
        self.after_render();
        assert(mid.scrolled_from(
            *old(self),
            lines_of(rows@),
            cursor.0 as int,
            cursor.1 as int,
        ));
        frame
    }
}

/// The width on screen of the rendered text `render`: the sum of the widths
/// of its characters.
pub open spec fn width_of(render: Seq<char>) -> int
    decreases render.len(),
{
    if render.len() == 0 {
        0
    } else {
        width_of(render.drop_last()) + glyph_width(render.last())
    }
}

/// The width of two rendered texts, one behind the other, is the sum of their
/// widths.
proof fn lemma_width_of_concat(a: Seq<char>, b: Seq<char>)
    ensures
        width_of(a + b) == width_of(a) + width_of(b),
    decreases b.len(),
{
    if b.len() == 0 {
        assert(a + b =~= a);
    } else {
        lemma_width_of_concat(a, b.drop_last());
        assert((a + b).drop_last() =~= a + b.drop_last());
        assert((a + b).last() == b.last());
    }
}

/// The spaces that are shown for a tab take one column each.
proof fn lemma_width_of_spaces(n: nat)
    ensures
        width_of(Seq::new(n, |i: int| ' ')) == n,
    decreases n,
{
    let s = Seq::new(n, |i: int| ' ');
    if n > 0 {
        lemma_width_of_spaces((n - 1) as nat);
        assert(s.drop_last() =~= Seq::new((n - 1) as nat, |i: int| ' '));
        assert(s.last() == ' ');
    }
}

/// What is shown for the beginning of a text is the beginning of what is
/// shown for the text.
pub proof fn lemma_render_prefix(s: Seq<char>, i: int)
    requires
        0 <= i <= s.len(),
    ensures
        render_of(s.take(i)).len() <= render_of(s).len(),
        render_of(s).take(render_of(s.take(i)).len() as int) == render_of(s.take(i)),
    decreases s.len() - i,
{
    let front = s.take(i);
    if i < s.len() {
        lemma_render_prefix(s, i + 1);
        let next = s.take(i + 1);
        assert(next.drop_last() =~= front);
        assert(render_of(next).take(render_of(front).len() as int) =~= render_of(front));
        assert(render_of(s).take(render_of(front).len() as int) =~= render_of(s).take(
            render_of(next).len() as int,
        ).take(render_of(front).len() as int));
    } else {
        assert(front =~= s);
        assert(render_of(s).take(render_of(s).len() as int) =~= render_of(s));
    }
}

/// What is shown for the beginning of a text is as wide as the display column
/// that follows it.
pub proof fn lemma_render_width(s: Seq<char>, i: int)
    requires
        is_text(s),
        0 <= i <= s.len(),
    ensures
        width_of(render_of(s.take(i))) == display_col(s.take(i)),
    decreases i,
{
    let front = s.take(i);
    if i > 0 {
        let c = s[i - 1];
        let before = s.take(i - 1);
        assert(front.drop_last() =~= before);
        assert(front.last() == c);
        lemma_render_width(s, i - 1);
        lemma_width_of_concat(render_of(before), glyphs(display_col(before), c));
        assert(is_text_char(c));
        if c == '\t' {
            lemma_width_of_spaces((TAB_STOP - display_col(before) % (TAB_STOP as nat)) as nat);
        } else {
            assert(seq![c].drop_last() =~= Seq::<char>::empty());
            assert(width_of(seq![c]) == glyph_width(c)) by {
                reveal_with_fuel(width_of, 2);
            }
        }
    }
}

/// Where a beginning of `render` of `n` characters is as wide as `reach`,
/// which fits the machine, the first column at or beyond `want` at which a
/// character ends lies between `want` and `reach`, as long as `want` is not
/// beyond `reach`.
proof fn lemma_stop_in_reach(render: Seq<char>, i: int, n: int, want: int, reach: int)
    requires
        0 <= i <= n <= render.len(),
        width_of(render.take(i)) < want <= reach,
        width_of(render.take(n)) == reach,
        reach <= usize::MAX,
    ensures
        want <= stop_from(render, i, width_of(render.take(i)), want) <= reach,
    decreases render.len() - i,
{
    lemma_width_grows(render, i, n);
    if i < n {
        assert(render.take(i + 1).drop_last() =~= render.take(i));
        assert(render.take(i + 1).last() == render[i]);
        lemma_width_grows(render, i + 1, n);
        let next = width_of(render.take(i + 1));
        if next < want {
            lemma_stop_in_reach(render, i + 1, n, want, reach);
        }
    }
}

/// A longer beginning of a rendered text is at least as wide as a shorter.
proof fn lemma_width_grows(render: Seq<char>, i: int, j: int)
    requires
        0 <= i <= j <= render.len(),
    ensures
        0 <= width_of(render.take(i)) <= width_of(render.take(j)),
    decreases j,
{
    if j == 0 {
        assert(render.take(0) =~= Seq::<char>::empty());
    } else if i < j {
        lemma_width_grows(render, i, j - 1);
        assert(render.take(j).drop_last() =~= render.take(j - 1));
    } else {
        lemma_width_grows(render, i - 1, j - 1);
        assert(render.take(j).drop_last() =~= render.take(j - 1));
    }
}

/// After the screen was scrolled to the cursor, the cursor lies in the part
/// that is shown: its line is one of the rows, and its display column is one
/// of the columns.
pub proof fn lemma_scroll_shows_cursor(
    after: Screen,
    before: Screen,
    lines: Seq<Seq<char>>,
    cx: int,
    cy: int,
)
    requires
        before.wf(),
        lines_are_text(lines),
        is_cursor(lines, cx, cy),
        cy < lines.len() ==> display_col(lines[cy].take(cx)) <= usize::MAX,
        after.scrolled_from(before, lines, cx, cy),
    ensures
        after.rowoff <= cy < after.rowoff + after.rows_of(),
        after.coloff <= after.rx < after.coloff + after.num_cols,
{
    let rx = after.rx as int;
    let left = if rx < before.coloff {
        rx
    } else {
        before.coloff as int
    };
    if rx - left >= before.num_cols {
        let line = lines[cy];
        let render = render_of(line);
        assert(is_text(line));
        lemma_render_width(line, cx);
        lemma_render_prefix(line, cx);
        let n = render_of(line.take(cx)).len() as int;
        assert(render.take(0) =~= Seq::<char>::empty());
        lemma_stop_in_reach(render, 0, n, rx - before.num_cols + 1, rx);
    }
}

} // verus!
