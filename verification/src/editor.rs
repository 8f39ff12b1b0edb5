//! The editor: the documents that are open, the screen, and what each key
//! does to them.

use crate::document::{CursorDir, Document};
use crate::error::{Error, Result};
use crate::glyph::is_text_char;
use crate::input::{InputSeq, KeySeq};
use crate::numeral::decimal_of;
use crate::row::{display_col, lines_of};
use crate::screen::{DrawMessage, Frame, Screen, StatusMessageKind};
use crate::status_bar::StatusBar;
use crate::storage::file_text;
use crate::text_buffer::{FileWrite, TextBuffer};
use vstd::prelude::*;

verus! {

/// What a key asks of the editor.
#[derive(PartialEq, Eq, Structural, Clone, Copy, Debug)]
pub enum Request {
    /// The key is none that is known.
    Unidentified,
    DeleteRight,
    DeleteLeft,
    Save,
    LineBreak,
    Undo,
    Redo,
    Quit,
    Insert(char),
    Move(CursorDir),
    /// The key is known and asks for nothing.
    Nothing,
}

/// What the key `s` asks of the editor. With the control key, `d` deletes to
/// the right, `h` to the left, `s` saves, `m` breaks the line, `u` undoes,
/// `r` redoes and `q` quits. Without it, backspace and delete delete to the
/// left, return breaks the line, the arrows move the cursor, and a
/// character that is no control character is typed.
pub open spec fn request_of(s: InputSeq) -> Request {
    match s.key {
        KeySeq::Unidentified => Request::Unidentified,
        KeySeq::Key(b) => if s.ctrl {
            if b == 0x64 {
                Request::DeleteRight
            } else if b == 0x68 {
                Request::DeleteLeft
            } else if b == 0x73 {
                Request::Save
            } else if b == 0x6d {
                Request::LineBreak
            } else if b == 0x75 {
                Request::Undo
            } else if b == 0x72 {
                Request::Redo
            } else if b == 0x71 {
                Request::Quit
            } else {
                Request::Nothing
            }
        } else if b == 0x08 || b == 0x7f {
            Request::DeleteLeft
        } else if b == 0x0d {
            Request::LineBreak
        } else if b >= 0x20 {
            Request::Insert(b as char)
        } else {
            Request::Nothing
        },
        KeySeq::Utf8Key(c) => if s.ctrl {
            Request::Nothing
        } else {
            Request::Insert(c)
        },
        KeySeq::UpKey => if s.ctrl {
            Request::Nothing
        } else {
            Request::Move(CursorDir::Up)
        },
        KeySeq::LeftKey => if s.ctrl {
            Request::Nothing
        } else {
            Request::Move(CursorDir::Left)
        },
        KeySeq::DownKey => if s.ctrl {
            Request::Nothing
        } else {
            Request::Move(CursorDir::Down)
        },
        KeySeq::RightKey => if s.ctrl {
            Request::Nothing
        } else {
            Request::Move(CursorDir::Right)
        },
        _ => Request::Nothing,
    }
}

/// What the key `s` asks of the editor.
pub fn request(s: InputSeq) -> (r: Request)
    ensures
        r == request_of(s),
{
    match s.key {
        KeySeq::Unidentified => Request::Unidentified,
        KeySeq::Key(b) => {
            if s.ctrl {
                if b == 0x64 {
                    Request::DeleteRight
                } else if b == 0x68 {
                    Request::DeleteLeft
                } else if b == 0x73 {
                    Request::Save
                } else if b == 0x6d {
                    Request::LineBreak
                } else if b == 0x75 {
                    Request::Undo
                } else if b == 0x72 {
                    Request::Redo
                } else if b == 0x71 {
                    Request::Quit
                } else {
                    Request::Nothing
                }
            } else if b == 0x08 || b == 0x7f {
                Request::DeleteLeft
            } else if b == 0x0d {
                Request::LineBreak
            } else if b >= 0x20 {
                Request::Insert(b as char)
            } else {
                Request::Nothing
            }
        },
        KeySeq::Utf8Key(c) => {
            if s.ctrl {
                Request::Nothing
            } else {
                Request::Insert(c)
            }
        },
        KeySeq::UpKey => {
            if s.ctrl {
                Request::Nothing
            } else {
                Request::Move(CursorDir::Up)
            }
        },
        KeySeq::LeftKey => {
            if s.ctrl {
                Request::Nothing
            } else {
                Request::Move(CursorDir::Left)
            }
        },
        KeySeq::DownKey => {
            if s.ctrl {
                Request::Nothing
            } else {
                Request::Move(CursorDir::Down)
            }
        },
        KeySeq::RightKey => {
            if s.ctrl {
                Request::Nothing
            } else {
                Request::Move(CursorDir::Right)
            }
        },
        _ => Request::Nothing,
    }
}

/// The document after the request `req` was carried out on `d`. Saving and
/// quitting are not carried out on the document alone and leave it as it is.
pub open spec fn perform(d: Document, req: Request) -> Document {
    match req {
        Request::DeleteRight => d.delete_right_char(),
        Request::DeleteLeft => d.delete_char(),
        Request::LineBreak => d.insert_line(),
        Request::Undo => d.undo(),
        Request::Redo => d.redo(),
        Request::Insert(c) => d.insert_char(c),
        Request::Move(dir) => d.move_cursor(dir),
        _ => d,
    }
}

/// What the editor tells after the request `req` was carried out on `d`:
/// that there is nothing to undo or to redo, or why a character was
/// refused.
pub open spec fn notice_of(d: Document, req: Request) -> Option<(Seq<char>, StatusMessageKind)> {
    match req {
        Request::Undo => if d.log.can_undo() {
            None
        } else {
            Some(("No older change"@, StatusMessageKind::Info))
        },
        Request::Redo => if d.log.can_redo() {
            None
        } else {
            Some(("Buffer is already newest"@, StatusMessageKind::Info))
        },
        Request::Insert(c) => if is_text_char(c) {
            None
        } else {
            Some((Error::ControlCharInText(c).message_of(), StatusMessageKind::Error))
        },
        _ => None,
    }
}

/// What a key leads to.
#[derive(PartialEq, Eq, Structural, Clone, Copy, Debug)]
pub enum Keypress {
    /// The editor goes on.
    Continue,
    /// The editor is to end.
    Quit,
    /// The document is to be saved, and then the key is to be finished.
    Save,
}

/// What is drawn first.
pub enum Paint {
    /// The bytes of the welcome screen.
    Welcome(Vec<u8>),
    /// The document.
    Screen(Frame),
}

/// The editor.
pub struct Editor {
    pub quitting: bool,
    pub screen: Screen,
    pub bufs: Vec<TextBuffer>,
    pub buf_idx: usize,
    pub status_bar: StatusBar,
}

impl Editor {
    /// The invariant of an editor: a document is open, the document that is
    /// shown is one of those that are open, and each of them and the screen
    /// are valid.
    pub open spec fn wf(&self) -> bool {
        &&& self.bufs@.len() > 0
        &&& self.buf_idx < self.bufs@.len()
        &&& forall|i: int| 0 <= i < self.bufs@.len() ==> (#[trigger] self.bufs@[i]).wf()
        &&& self.screen.wf()
    }

    /// The document that is shown.
    pub open spec fn doc(&self) -> Document {
        self.bufs@[self.buf_idx as int]@
    }

    /// True when a document has something unsaved.
    pub open spec fn any_modified(&self) -> bool {
        exists|i: int| 0 <= i < self.bufs@.len() && (#[trigger] self.bufs@[i])@.is_modified()
    }

    /// The editor for the documents `bufs`, of which the first is shown, in
    /// a window of `w` columns and `h` rows; a window that is too small is
    /// refused.
    pub fn open(bufs: Vec<TextBuffer>, w: u16, h: u16) -> (r: Result<Editor>)
        requires
            bufs@.len() > 0,
            forall|i: int| 0 <= i < bufs@.len() ==> (#[trigger] bufs@[i]).wf(),
        ensures
            r is Ok <==> !(w < 1 || h < 3),
            r matches Err(e) ==> e == Error::TooSmallWindow(w, h),
            r matches Ok(ed) ==> {
                &&& ed.wf()
                &&& ed.bufs == bufs
                &&& ed.buf_idx == 0
                &&& !ed.quitting
                &&& ed.status_bar.shows(bufs@[0]@)
                &&& ed.status_bar.buf_pos == (1usize, bufs.len())
                &&& !ed.status_bar.redraw
                &&& ed.screen.is_initial(w, h)
            },
    {
        let screen = match Screen::new(w, h) {
            Ok(screen) => screen,
            Err(e) => {
                return Err(e);
            },
        };
        let status_bar = StatusBar::from_buffer(&bufs[0], (1, bufs.len()));
        Ok(Editor { quitting: false, screen, bufs, buf_idx: 0, status_bar })
    }

    /// The editor with one empty document.
    pub fn new(w: u16, h: u16) -> (r: Result<Editor>)
        ensures
            r is Ok <==> !(w < 1 || h < 3),
            r matches Err(e) ==> e == Error::TooSmallWindow(w, h),
            r matches Ok(ed) ==> ed.wf() && ed.bufs@.len() == 1 && ed.buf_idx == 0 && ed.doc()
                == Document::empty(),
    {
        let mut bufs: Vec<TextBuffer> = Vec::new();
        bufs.push(TextBuffer::empty());
        Editor::open(bufs, w, h)
    }

    /// The document that is shown.
    pub fn buf(&self) -> (b: &TextBuffer)
        requires
            self.wf(),
        ensures
            b.wf(),
            b@ == self.doc(),
    {
        &self.bufs[self.buf_idx]
    }

    /// The document that is shown, to be changed.
    pub fn buf_mut(&mut self) -> (b: &mut TextBuffer)
        requires
            old(self).wf(),
        ensures
            *b == old(self).bufs@[old(self).buf_idx as int],
            *final(self) == (Editor {
                bufs: final(self).bufs,
                ..*old(self)
            }),
            final(self).bufs@ == old(self).bufs@.update(old(self).buf_idx as int, *final(b)),
    {
        &mut self.bufs[self.buf_idx]
    }

    /// Makes the status line tell of the document that is shown.
    fn refresh_status_bar(&mut self)
        requires
            old(self).wf(),
        ensures
            final(self).wf(),
            *final(self) == (Editor { status_bar: final(self).status_bar, ..*old(self) }),
            final(self).status_bar.shows(old(self).doc()),
            final(self).status_bar.buf_pos == (
                line_no(old(self).buf_idx),
                old(self).bufs.len(),
            ),
            final(self).status_bar.redraw == (old(self).status_bar.redraw || !old(
                self,
            ).status_bar.shows(old(self).doc()) || old(self).status_bar.buf_pos != (
                line_no(old(self).buf_idx),
                old(self).bufs.len(),
            )),
    {
        let count = self.bufs.len();
        self.status_bar.set_buf_pos((self.buf_idx + 1, count));
        self.status_bar.update_from_buf(&self.bufs[self.buf_idx]);
    }

    /// True when the display column of the cursor of the document that is
    /// shown fits the machine, so that the screen can be drawn.
    pub open spec fn fits_screen(&self) -> bool {
        let d = self.doc();
        d.cy < d.lines.len() ==> display_col(d.lines[d.cy].take(d.cx)) <= usize::MAX
    }

    /// Tells whether the screen can be drawn.
    pub fn can_render(&self) -> (b: bool)
        requires
            self.wf(),
        ensures
            b == self.fits_screen(),
    {
        let buf = &self.bufs[self.buf_idx];
        let (cx, cy) = buf.cursor();
        let rows = buf.rows();
        proof {
            buf.lemma_view_wf();
            assert(rows@.len() == lines_of(rows@).len());
        }
        if cy < rows.len() {
            assert(rows@[cy as int].wf());
            rows[cy].checked_rx_from_cx(cx).is_some()
        } else {
            true
        }
    }

    /// True when `self` is `before` after its screen was drawn, and `frame`
    /// is what was drawn: the status line was brought up to date, the part
    /// that is shown was moved to the cursor, what had changed was drawn, and
    /// nothing is left to be drawn again.
    pub open spec fn rendered_from(&self, before: Editor, frame: Frame) -> bool {
        let d = before.doc();
        &&& *self == (Editor { screen: self.screen, status_bar: self.status_bar, ..before })
        &&& self.status_bar.shows(d)
        &&& self.status_bar.buf_pos == (line_no(before.buf_idx), before.bufs.len())
        &&& !self.status_bar.redraw
        &&& exists|mid: Screen|
            {
                &&& #[trigger] mid.scrolled_from(before.screen, d.lines, d.cx, d.cy)
                &&& mid.draws_frame(
                    frame,
                    d.cy,
                    StatusBar {
                        redraw: before.status_bar.redraw || !before.status_bar.shows(d)
                            || before.status_bar.buf_pos != (
                            line_no(before.buf_idx),
                            before.bufs.len(),
                        ),
                        ..self.status_bar
                    },
                    d.lines,
                )
                &&& self.screen == mid.drawn()
            }
    }

    /// Brings the status line up to date, scrolls to the cursor and returns
    /// what is to be drawn; after it nothing is left to be drawn again.
    pub fn render_screen(&mut self) -> (frame: Frame)
        requires
            old(self).wf(),
            old(self).fits_screen(),
        ensures
            final(self).wf(),
            final(self).rendered_from(*old(self), frame),
    {
        self.refresh_status_bar();
        let buf = &self.bufs[self.buf_idx];
        let cursor = buf.cursor();
        let rows = buf.rows();
        proof {
            buf.lemma_view_wf();
            assert(rows@.len() == lines_of(rows@).len());
        }
        let ghost bar = self.status_bar;
        let frame = self.screen.render(rows, cursor, &self.status_bar);
        self.status_bar.redraw = false;
        assert(bar == (StatusBar { redraw: bar.redraw, ..self.status_bar }));
        frame
    }

    /// What is to be drawn first: the welcome screen for the version
    /// `version` where the document that is shown is bound to no file and is
    /// empty, else the document.
    pub fn first_paint(&mut self, version: &str) -> (paint: Paint)
        requires
            old(self).wf(),
            old(self).fits_screen(),
            vstd::utf8::is_ascii_chars(version@),
        ensures
            final(self).wf(),
            match paint {
                Paint::Welcome(out) => {
                    &&& old(self).doc().is_scratch()
                    &&& out@ == old(self).screen.welcome_of(old(self).status_bar, version@)
                    &&& *final(self) == (Editor {
                        screen: old(self).screen.drawn(),
                        status_bar: StatusBar { redraw: false, ..old(self).status_bar },
                        ..*old(self)
                    })
                },
                Paint::Screen(frame) => {
                    &&& !old(self).doc().is_scratch()
                    &&& final(self).rendered_from(*old(self), frame)
                },
            },
    {
        if self.bufs[self.buf_idx].is_scratch() {
            let out = self.screen.render_welcome(&self.status_bar, version);
            self.status_bar.redraw = false;
            Paint::Welcome(out)
        } else {
            Paint::Screen(self.render_screen())
        }
    }

    /// Draws the screen as `render_screen` does, where the screen can be
    /// drawn; else nothing changes.
    pub fn try_render_screen(&mut self) -> (frame: Option<Frame>)
        requires
            old(self).wf(),
        ensures
            final(self).wf(),
            frame is Some <==> old(self).fits_screen(),
            frame is None ==> *final(self) == *old(self),
            frame matches Some(f) ==> final(self).rendered_from(*old(self), f),
    {
        if self.can_render() {
            Some(self.render_screen())
        } else {
            None
        }
    }

    /// Draws first as `first_paint` does, where the screen can be drawn and
    /// `version` is in ASCII; else nothing changes.
    pub fn try_first_paint(&mut self, version: &str) -> (paint: Option<Paint>)
        requires
            old(self).wf(),
        ensures
            final(self).wf(),
            paint is Some <==> old(self).fits_screen() && vstd::utf8::is_ascii_chars(version@),
            paint is None ==> *final(self) == *old(self),
            paint matches Some(Paint::Welcome(out)) ==> {
                &&& old(self).doc().is_scratch()
                &&& out@ == old(self).screen.welcome_of(old(self).status_bar, version@)
                &&& *final(self) == (Editor {
                    screen: old(self).screen.drawn(),
                    status_bar: StatusBar { redraw: false, ..old(self).status_bar },
                    ..*old(self)
                })
            },
            paint matches Some(Paint::Screen(frame)) ==> {
                &&& !old(self).doc().is_scratch()
                &&& final(self).rendered_from(*old(self), frame)
            },
    {
        if self.can_render() && version.is_ascii() {
            Some(self.first_paint(version))
        } else {
            None
        }
    }

    /// Takes a request to quit: quits where nothing is unsaved or where it
    /// is asked a second time in a row, else warns. Tells whether to quit.
    pub fn handle_quit(&mut self) -> (quit: bool)
        requires
            old(self).wf(),
        ensures
            final(self).wf(),
            quit == (!old(self).any_modified() || old(self).quitting),
            final(self).bufs == old(self).bufs,
            final(self).buf_idx == old(self).buf_idx,
            final(self).status_bar == old(self).status_bar,
            quit ==> *final(self) == *old(self),
            !quit ==> final(self).quitting && final(self).screen.shows_after(
                old(self).screen,
                Some(
                    "At least one file has unsaved changes! Press ^Q again to quit or ^S to save"@,
                ),
            ) && final(self).screen.message->0.kind == StatusMessageKind::Error,
    {
        let mut modified = false;
        let mut i: usize = 0;
        while i < self.bufs.len()
            invariant
                i <= self.bufs.len(),
                modified == exists|j: int|
                    0 <= j < i && (#[trigger] self.bufs@[j])@.is_modified(),
            decreases self.bufs.len() - i,
        {
            if self.bufs[i].modified() {
                modified = true;
            }
            i = i + 1;
        }
        if !modified || self.quitting {
            true
        } else {
            self.quitting = true;
            self.screen.set_error_message(
                "At least one file has unsaved changes! Press ^Q again to quit or ^S to save".to_owned(),
            );
            false
        }
    }

    /// Carries out the request `req` on the document that is shown, and
    /// tells on the message line where there was nothing to undo or to redo
    /// or where a character was refused.
    fn carry_out(&mut self, req: Request)
        requires
            old(self).wf(),
        ensures
            final(self).wf(),
            final(self).bufs@.len() == old(self).bufs@.len(),
            final(self).buf_idx == old(self).buf_idx,
            final(self).quitting == old(self).quitting,
            final(self).status_bar == old(self).status_bar,
            forall|i: int|
                0 <= i < old(self).bufs@.len() && i != old(self).buf_idx ==> final(self).bufs@[i]
                    == old(self).bufs@[i],
            final(self).doc() == perform(old(self).doc(), req),
            match notice_of(old(self).doc(), req) {
                None => final(self).screen == old(self).screen,
                Some((text, kind)) => final(self).screen.shows_after(old(self).screen, Some(text))
                    && final(self).screen.message->0.kind == kind,
            },
    {
        let idx = self.buf_idx;
        proof {
            self.bufs@[idx as int].lemma_view_wf();
        }
        match req {
            Request::DeleteRight => {
                self.bufs[idx].delete_right_char();
            },
            Request::DeleteLeft => {
                self.bufs[idx].delete_char();
            },
            Request::LineBreak => {
                self.bufs[idx].insert_line();
            },
            Request::Undo => {
                if !self.bufs[idx].undo() {
                    self.screen.set_info_message("No older change".to_owned());
                }
            },
            Request::Redo => {
                if !self.bufs[idx].redo() {
                    self.screen.set_info_message("Buffer is already newest".to_owned());
                }
            },
            Request::Insert(c) => {
                match self.bufs[idx].insert_char(c) {
                    Ok(()) => {},
                    Err(e) => {
                        self.screen.set_error_message(e.message());
                    },
                }
            },
            Request::Move(dir) => {
                self.bufs[idx].move_cursor_one(dir);
            },
            _ => {},
        }
    }

    /// Ends a key, before which the cursor stood at `prev_cursor`: the
    /// screen takes over what is to be drawn again from the document, and
    /// notes whether the cursor moved; a warning before quitting is
    /// forgotten.
    pub fn finish_key(&mut self, prev_cursor: (usize, usize))
        requires
            old(self).wf(),
        ensures
            final(self).wf(),
            final(self).bufs@.len() == old(self).bufs@.len(),
            final(self).buf_idx == old(self).buf_idx,
            final(self).status_bar == old(self).status_bar,
            forall|i: int|
                0 <= i < old(self).bufs@.len() && i != old(self).buf_idx ==> final(self).bufs@[i]
                    == old(self).bufs@[i],
            final(self).doc() == old(self).doc().finish_edit(),
            !final(self).quitting,
            final(self).screen.after_key(
                old(self).screen,
                old(self).doc().dirty,
                old(self).doc().cx != prev_cursor.0 || old(self).doc().cy != prev_cursor.1,
            ),
    {
        let idx = self.buf_idx;
        if let Some(line) = self.bufs[idx].finish_edit() {
            self.screen.set_dirty_start(line);
        }
        let cursor = self.bufs[idx].cursor();
        if cursor.0 != prev_cursor.0 || cursor.1 != prev_cursor.1 {
            self.screen.cursor_moved = true;
        }
        self.quitting = false;
    }

    /// Takes the key `s`. A key that is not known changes nothing. A request
    /// to quit or to save is handed back to be carried out, and changes
    /// nothing but the warning before quitting. Every other request is
    /// carried out on the document that is shown, and the key is ended.
    pub fn process_keypress(&mut self, s: InputSeq) -> (r: Keypress)
        requires
            old(self).wf(),
        ensures
            final(self).wf(),
            final(self).bufs@.len() == old(self).bufs@.len(),
            final(self).buf_idx == old(self).buf_idx,
            final(self).status_bar == old(self).status_bar,
            forall|i: int|
                0 <= i < old(self).bufs@.len() && i != old(self).buf_idx ==> final(self).bufs@[i]
                    == old(self).bufs@[i],
            match request_of(s) {
                Request::Unidentified => r == Keypress::Continue && *final(self) == *old(self),
                Request::Save => r == Keypress::Save && *final(self) == *old(self),
                Request::Quit => {
                    &&& r == if !old(self).any_modified() || old(self).quitting {
                        Keypress::Quit
                    } else {
                        Keypress::Continue
                    }
                    &&& final(self).bufs == old(self).bufs
                    &&& r == Keypress::Quit ==> *final(self) == *old(self)
                    &&& r == Keypress::Continue ==> final(self).quitting
                },
                req => {
                    &&& r == Keypress::Continue
                    &&& final(self).doc() == perform(old(self).doc(), req).finish_edit()
                    &&& !final(self).quitting
                    &&& final(self).screen.after_request(
                        old(self).screen,
                        notice_of(old(self).doc(), req),
                        perform(old(self).doc(), req).dirty,
                        perform(old(self).doc(), req).cx != old(self).doc().cx || perform(
                            old(self).doc(),
                            req,
                        ).cy != old(self).doc().cy,
                    )
                },
            },
    {
        let prev_cursor = self.bufs[self.buf_idx].cursor();
        let req = request(s);
        match req {
            Request::Unidentified => Keypress::Continue,
            Request::Save => Keypress::Save,
            Request::Quit => {
                if self.handle_quit() {
                    Keypress::Quit
                } else {
                    Keypress::Continue
                }
            },
            _ => {
                self.carry_out(req);
                let ghost mid = self.screen;
                self.finish_key(prev_cursor);
                assert(mid == (Screen {
                    dirty_start: old(self).screen.dirty_start,
                    cursor_moved: old(self).screen.cursor_moved,
                    ..self.screen
                }));
                Keypress::Continue
            },
        }
    }

    /// Begins to save the document that is shown, and returns what is to be
    /// written. Where the document is bound to no file there is nothing to
    /// write, and the message line is made empty.
    pub fn begin_save(&mut self) -> (w: Option<FileWrite>)
        requires
            old(self).wf(),
        ensures
            final(self).wf(),
            final(self).bufs@.len() == old(self).bufs@.len(),
            final(self).buf_idx == old(self).buf_idx,
            final(self).doc() == old(self).doc().seal(),
            w is Some <==> old(self).doc().file is Some,
            w matches Some(write) ==> (write.path@ == old(self).doc().file->0.path && write.text@
                == file_text(old(self).doc().lines)),
            w is Some ==> final(self).screen == old(self).screen,
            w is None ==> final(self).screen.shows_after(old(self).screen, Some(Seq::empty())),
    {
        let idx = self.buf_idx;
        let w = self.bufs[idx].save();
        if w.is_none() {
            self.screen.set_info_message(String::new());
        }
        w
    }

    /// Ends a save that wrote `bytes` bytes: nothing is unsaved any more in
    /// the document that is shown, and the message line tells of the save.
    pub fn save_succeeded(&mut self, bytes: usize)
        requires
            old(self).wf(),
        ensures
            final(self).wf(),
            final(self).bufs@.len() == old(self).bufs@.len(),
            final(self).buf_idx == old(self).buf_idx,
            final(self).doc() == old(self).doc().saved(),
            final(self).screen.shows_after(
                old(self).screen,
                Some(
                    decimal_of(bytes as nat) + " bytes written to "@ + match old(
                        self,
                    ).doc().file {
                        Some(f) => f.display,
                        None => "[No Name]"@,
                    },
                ),
            ),
            final(self).screen.message->0.kind == StatusMessageKind::Info,
    {
        let idx = self.buf_idx;
        let msg = self.bufs[idx].save_done(bytes);
        self.screen.set_info_message(msg);
    }

    /// Ends a save that failed with the report `report`: the message line
    /// shows it as an error, and a document that was bound to its file only
    /// for this save, as `created` tells, is bound to none again.
    pub fn save_failed(&mut self, report: String, created: bool)
        requires
            old(self).wf(),
        ensures
            final(self).wf(),
            final(self).bufs@.len() == old(self).bufs@.len(),
            final(self).buf_idx == old(self).buf_idx,
            final(self).doc() == if created {
                Document { file: None, ..old(self).doc() }
            } else {
                old(self).doc()
            },
            final(self).screen.shows_after(old(self).screen, Some(report@)),
            final(self).screen.message->0.kind == StatusMessageKind::Error,
    {
        self.screen.set_error_message(report);
        if created {
            let idx = self.buf_idx;
            self.bufs[idx].set_unnamed();
        }
    }
}

/// The number of the document at index `idx`, counted from one and held at
/// the largest `usize`.
pub open spec fn line_no(idx: usize) -> usize {
    if idx < usize::MAX {
        (idx + 1) as usize
    } else {
        idx
    }
}

} // verus!
