//! The line that tells which document is shown and where the cursor is.

use crate::document::Document;
use crate::numeral::{decimal_of, push_decimal};
use crate::text_buffer::TextBuffer;
use vstd::prelude::*;

verus! {

/// What `{:<20?}` writes for the text `s`: the text between double quotes,
/// escaped where it would not show.
pub uninterp spec fn str_debug_of(s: Seq<char>) -> Seq<char>;

/// Formats `s` with `{:<20?}`, which calls `<str as Debug>::fmt` with a
/// width of twenty and the text at the left. The result is named
/// `str_debug_of`.
#[verifier::external_body]
fn str_debug(s: &str) -> (out: String)
    ensures
        out@ == str_debug_of(s@),
{
    format!("{:<20?}", s)
}

/// The number of the line after line `y`, held at the largest `usize`.
pub open spec fn line_number(y: int) -> int {
    if y < usize::MAX {
        y + 1
    } else {
        y
    }
}

/// What the status line tells.
pub struct StatusBar {
    pub modified: bool,
    pub filename: String,
    pub buf_pos: (usize, usize),
    pub line_pos: (usize, usize),
    pub redraw: bool,
}

impl StatusBar {
    /// Sets which document of how many is shown; the line is to be drawn
    /// again where that changed.
    pub fn set_buf_pos(&mut self, buf_pos: (usize, usize))
        ensures
            *final(self) == (StatusBar {
                buf_pos,
                redraw: old(self).redraw || old(self).buf_pos != buf_pos,
                ..*old(self)
            }),
    {
        if self.buf_pos.0 != buf_pos.0 || self.buf_pos.1 != buf_pos.1 {
            self.redraw = true;
            self.buf_pos = buf_pos;
        }
    }

    /// Sets whether the document has something unsaved; the line is to be
    /// drawn again where that changed.
    pub fn set_modified(&mut self, modified: bool)
        ensures
            *final(self) == (StatusBar {
                modified,
                redraw: old(self).redraw || old(self).modified != modified,
                ..*old(self)
            }),
    {
        if self.modified != modified {
            self.redraw = true;
            self.modified = modified;
        }
    }

    /// Sets the name of the document; the line is to be drawn again where
    /// that changed.
    pub fn set_filename(&mut self, filename: &str)
        ensures
            final(self).filename@ == filename@,
            final(self).redraw == (old(self).redraw || old(self).filename@ != filename@),
            final(self).modified == old(self).modified,
            final(self).buf_pos == old(self).buf_pos,
            final(self).line_pos == old(self).line_pos,
    {
        let differs = !(self.filename == filename.to_owned());
        if differs {
            self.redraw = true;
            self.filename = filename.to_owned();
        }
    }

    /// Sets the number of the cursor's line and the number of lines; the line
    /// is to be drawn again where they changed.
    pub fn set_line_pos(&mut self, line_pos: (usize, usize))
        ensures
            *final(self) == (StatusBar {
                line_pos,
                redraw: old(self).redraw || old(self).line_pos != line_pos,
                ..*old(self)
            }),
    {
        if self.line_pos.0 != line_pos.0 || self.line_pos.1 != line_pos.1 {
            self.redraw = true;
            self.line_pos = line_pos;
        }
    }

    /// The status line for the document `buf`, which is number `buf_pos.0` of
    /// `buf_pos.1`.
    pub fn from_buffer(buf: &TextBuffer, buf_pos: (usize, usize)) -> (bar: StatusBar)
        requires
            buf.wf(),
        ensures
            bar.shows(buf@),
            bar.buf_pos == buf_pos,
            !bar.redraw,
    {
        let cy = buf.cy();
        StatusBar {
            modified: buf.modified(),
            filename: buf.filename().to_owned(),
            buf_pos,
            line_pos: (
                if cy < usize::MAX {
                    cy + 1
                } else {
                    cy
                },
                buf.rows().len(),
            ),
            redraw: false,
        }
    }

    /// True when the line tells of the document `d`: its name, whether it has
    /// something unsaved, the number of the cursor's line and the number of
    /// lines.
    pub open spec fn shows(&self, d: Document) -> bool {
        &&& self.modified == d.is_modified()
        &&& self.filename@ == match d.file {
            Some(f) => f.display,
            None => "[No Name]"@,
        }
        &&& self.line_pos.0 == line_number(d.cy)
        &&& self.line_pos.1 == d.lines.len()
    }

    /// What `left_with` returns for the name `name`.
    pub open spec fn left_with_of(&self, name: Seq<char>) -> Seq<char> {
        name + " - "@ + decimal_of(self.buf_pos.0 as nat) + "/"@ + decimal_of(
            self.buf_pos.1 as nat,
        ) + " "@ + if self.modified {
            "(modified) "@
        } else {
            Seq::empty()
        }
    }

    /// What `left` returns.
    pub open spec fn left_of(&self) -> Seq<char> {
        self.left_with_of(str_debug_of(self.filename@))
    }

    /// The left part of the line: the name between quotes, which document of
    /// how many is shown, and a mark where something is unsaved.
    pub fn left(&self) -> (text: String)
        ensures
            text@ == self.left_of(),
    {
        self.left_with(str_debug(self.filename.as_str()))
    }

    /// The left part of the line for the name `name`, which is written as it
    /// is: then which document of how many is shown, and a mark where
    /// something is unsaved.
    pub fn left_with(&self, name: String) -> (text: String)
        ensures
            text@ == self.left_with_of(name@),
    {
        let mut text = name;
        text.append(" - ");
        push_decimal(&mut text, self.buf_pos.0);
        text.append("/");
        push_decimal(&mut text, self.buf_pos.1);
        text.append(" ");
        if self.modified {
            text.append("(modified) ");
        } else {
            assert(text@ + Seq::<char>::empty() =~= text@);
        }
        text
    }

    /// What `right` returns.
    pub open spec fn right_of(&self) -> Seq<char> {
        decimal_of(self.line_pos.0 as nat) + "/"@ + decimal_of(self.line_pos.1 as nat)
    }

    /// The right part of the line: the number of the cursor's line and the
    /// number of lines.
    pub fn right(&self) -> (text: String)
        ensures
            text@ == self.right_of(),
    {
        let mut text = String::new();
        push_decimal(&mut text, self.line_pos.0);
        text.append("/");
        push_decimal(&mut text, self.line_pos.1);
        assert(text@ =~= decimal_of(self.line_pos.0 as nat) + "/"@ + decimal_of(
            self.line_pos.1 as nat,
        ));
        text
    }

    /// Makes the line tell of the document `buf`; it is to be drawn again
    /// where anything changed.
    pub fn update_from_buf(&mut self, buf: &TextBuffer)
        requires
            buf.wf(),
        ensures
            final(self).shows(buf@),
            final(self).buf_pos == old(self).buf_pos,
            final(self).redraw == (old(self).redraw || !old(self).shows(buf@)),
    {
        self.set_modified(buf.modified());
        self.set_filename(buf.filename());
        let cy = buf.cy();
        self.set_line_pos(
            (
                if cy < usize::MAX {
                    cy + 1
                } else {
                    cy
                },
                buf.rows().len(),
            ),
        );
    }
}

} // verus!
