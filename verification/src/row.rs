//! One line of text, with the form in which it is shown.

use crate::encoding::{
    byte_offset, lemma_byte_offset_bounds, lemma_byte_offset_increasing, lemma_byte_offset_step,
    lemma_encode_injective, lemma_encode_single, lemma_offset_is_boundary, lemma_splice,
    lemma_split_at_offset, len_utf8, string_drain, string_insert, string_push, string_remove,
    string_truncate,
};
use crate::error::{Error, Result};
use crate::glyph::{display_width, is_text, is_text_char, text_char, width_cjk, TAB_STOP};
use vstd::prelude::*;
use vstd::utf8::*;

verus! {

/// The column that follows `c` when `c` starts at column `col` and has the
/// width `width`: a tab reaches the next tab stop, any other character takes
/// its width, or no column where it has none.
pub open spec fn advance_by(col: nat, c: char, width: Option<usize>) -> nat {
    if c == '\t' {
        (col + TAB_STOP - col % (TAB_STOP as nat)) as nat
    } else {
        match width {
            Some(w) => col + w as nat,
            None => col,
        }
    }
}

/// The column that follows `c` when `c` starts at column `col`.
pub open spec fn advance(col: nat, c: char) -> nat {
    advance_by(col, c, display_width(c))
}

/// The column that follows `c` when `c` starts at column `col` and has the
/// width `width`, or `None` where that column does not fit the machine.
pub fn advance_col(col: usize, c: char, width: Option<usize>) -> (next: Option<usize>)
    ensures
        next is Some <==> advance_by(col as nat, c, width) <= usize::MAX,
        next matches Some(n) ==> n == advance_by(col as nat, c, width),
{
    let step: usize = if c == '\t' {
        TAB_STOP - col % TAB_STOP
    } else {
        match width {
            Some(w) => w,
            None => 0,
        }
    };
    col.checked_add(step)
}

/// The column that follows the text `s` when it starts at column zero.
pub open spec fn display_col(s: Seq<char>) -> nat
    decreases s.len(),
{
    if s.len() == 0 {
        0
    } else {
        advance(display_col(s.drop_last()), s.last())
    }
}

/// What is shown for `c` at column `col`: spaces up to the next tab stop for a
/// tab, the character itself otherwise.
pub open spec fn glyphs(col: nat, c: char) -> Seq<char> {
    if c == '\t' {
        Seq::new((TAB_STOP - col % (TAB_STOP as nat)) as nat, |i: int| ' ')
    } else {
        seq![c]
    }
}

/// The text that is shown for `s`: `s` with its tabs expanded.
pub open spec fn render_of(s: Seq<char>) -> Seq<char>
    decreases s.len(),
{
    if s.len() == 0 {
        Seq::empty()
    } else {
        render_of(s.drop_last()) + glyphs(display_col(s.drop_last()), s.last())
    }
}

/// True when `e` reports the first character of `s` that may not stand in a
/// line.
pub open spec fn reports_first_control(s: Seq<char>, e: Error) -> bool {
    exists|i: int|
        0 <= i < s.len() && is_text(s.take(i)) && !is_text_char(#[trigger] s[i]) && e
            == Error::ControlCharInText(s[i])
}

/// The display column grows with the text.
pub proof fn lemma_display_col_monotonic(s: Seq<char>, i: int, j: int)
    requires
        0 <= i <= j <= s.len(),
    ensures
        display_col(s.take(i)) <= display_col(s.take(j)),
    decreases j - i,
{
    if i < j {
        lemma_display_col_monotonic(s, i, j - 1);
        assert(s.take(j).drop_last() =~= s.take(j - 1));
    }
}

/// A line of text. Its view is its characters.
pub struct Row {
    buf: String,
    render: String,
    indices: Vec<usize>,
}

impl View for Row {
    type V = Seq<char>;

    closed spec fn view(&self) -> Seq<char> {
        self.buf@
    }
}

impl Default for Row {
    /// The empty line.
    fn default() -> (row: Row)
        ensures
            row.wf(),
            row@ == Seq::<char>::empty(),
    {
        Row::empty()
    }
}

/// True when `indices` is the table of byte offsets that goes with `s`: empty
/// where every character takes one byte, else the offset of each character.
pub open spec fn is_offset_table(s: Seq<char>, indices: Seq<usize>) -> bool {
    if encode_utf8(s).len() == s.len() {
        indices.len() == 0
    } else {
        &&& indices.len() == s.len()
        &&& forall|i: int| 0 <= i < s.len() ==> #[trigger] indices[i] == byte_offset(s, i)
    }
}

impl Row {
    /// The text that is shown for this line.
    pub closed spec fn rendered(&self) -> Seq<char> {
        self.render@
    }

    /// The table of byte offsets kept with this line.
    pub closed spec fn offsets(&self) -> Seq<usize> {
        self.indices@
    }

    /// The invariant of a line: every character may stand in a line, the
    /// rendered text and the table of byte offsets go with the content, and
    /// the content's length in bytes fits the machine.
    pub open spec fn wf(&self) -> bool {
        &&& is_text(self@)
        &&& self.rendered() == render_of(self@)
        &&& is_offset_table(self@, self.offsets())
        &&& encode_utf8(self@).len() <= usize::MAX
    }

    /// A valid line has no more characters than the machine can count.
    pub proof fn lemma_len_fits(&self)
        requires
            self.wf(),
        ensures
            self@.len() <= usize::MAX,
    {
        lemma_byte_offset_bounds(self@, self@.len() as int);
    }

    /// The empty line.
    pub fn empty() -> (row: Row)
        ensures
            row.wf(),
            row@ == Seq::<char>::empty(),
    {
        Row { buf: String::new(), render: String::new(), indices: Vec::new() }
    }

    /// A line with the content `line`, unless `line` holds a character that
    /// may not stand in a line.
    pub fn new(line: String) -> (r: Result<Row>)
        ensures
            r is Ok <==> is_text(line@),
            r matches Ok(row) ==> row.wf() && row@ == line@,
            r matches Err(e) ==> reports_first_control(line@, e),
    {
        let mut row = Row { buf: line, render: String::new(), indices: Vec::new() };
        match row.update_render() {
            Ok(()) => Ok(row),
            Err(e) => Err(e),
        }
    }

    /// The number of characters.
    pub fn len(&self) -> (n: usize)
        requires
            self.wf(),
        ensures
            n == self@.len(),
    {
        if self.indices.len() == 0 {
            self.buf.as_str().as_bytes().len()
        } else {
            self.indices.len()
        }
    }

    /// The byte at which character `char_idx` starts; the length in bytes for
    /// the index that follows the last character.
    pub fn byte_idx_of(&self, char_idx: usize) -> (b: usize)
        requires
            self.wf(),
            char_idx <= self@.len(),
        ensures
            b == byte_offset(self@, char_idx as int),
    {
        proof {
            lemma_byte_offset_bounds(self@, char_idx as int);
            if encode_utf8(self@).len() == self@.len() {
                lemma_ascii_offsets(self@, char_idx as int);
            }
        }
        let len = self.indices.len();
        if len == 0 {
            char_idx
        } else if len == char_idx {
            self.buf.as_str().as_bytes().len()
        } else {
            self.indices[char_idx]
        }
    }

    /// The content.
    pub fn buffer(&self) -> (s: &str)
        ensures
            s@ == self@,
    {
        self.buf.as_str()
    }

    /// The text that is shown for this line.
    pub fn render_text(&self) -> (s: &str)
        ensures
            s@ == self.rendered(),
    {
        self.render.as_str()
    }

    /// Recomputes the rendered text and the table of byte offsets from the
    /// content, or reports the first character that may not stand in a line.
    fn update_render(&mut self) -> (r: Result<()>)
        ensures
            final(self)@ == old(self)@,
            r is Ok <==> is_text(old(self)@),
            r is Ok ==> final(self).wf(),
            r matches Err(e) ==> reports_first_control(old(self)@, e),
    {
        let ghost s = self.buf@;
        let nbytes: usize = self.buf.as_str().as_bytes().len();
        let mut render = String::new();
        let mut col: usize = 0;
        let mut num_chars: usize = 0;
        let it = self.buf.as_str().chars();
        proof {
            assert(s.take(0) =~= Seq::<char>::empty());
        }
        for c in iter: it
            invariant
                iter.seq() == s,
                s == old(self)@,
                num_chars == iter.index(),
                nbytes == encode_utf8(s).len(),
                is_text(s.take(num_chars as int)),
                render@ == render_of(s.take(num_chars as int)),
                col == display_col(s.take(num_chars as int)) % (TAB_STOP as nat),
        {
            let ghost i = num_chars as int;
            proof {
                lemma_byte_offset_bounds(s, i + 1);
                assert(s.take(i + 1).drop_last() =~= s.take(i));
                assert(s.take(i + 1).last() == s[i]);
            }
            if c == '\t' {
                let gap: usize = TAB_STOP - col;
                let ghost before = render@;
                let mut k: usize = 0;
                while k < gap
                    invariant
                        k <= gap,
                        render@ == before + Seq::new(k as nat, |j: int| ' '),
                    decreases gap - k,
                {
                    string_push(&mut render, ' ');
                    k = k + 1;
                    assert(render@ =~= before + Seq::new(k as nat, |j: int| ' '));
                }
                col = 0;
            } else {
                match width_cjk(c) {
                    Some(w) => {
                        col = (col + w % TAB_STOP) % TAB_STOP;
                        string_push(&mut render, c);
                        assert(render@ =~= render_of(s.take(i)) + seq![c]);
                    },
                    None => {
                        assert(!is_text_char(s[i]));
                        return Err(Error::ControlCharInText(c));
                    },
                }
            }
            num_chars = num_chars + 1;
            assert(is_text(s.take(i + 1))) by {
                assert forall|j: int| 0 <= j < i + 1 implies is_text_char(
                    #[trigger] s.take(i + 1)[j],
                ) by {
                    if j < i {
                        assert(s.take(i)[j] == s[j]);
                    }
                }
            }
        }
        proof {
            assert(s.take(s.len() as int) =~= s);
        }
        let mut indices: Vec<usize> = Vec::new();
        if num_chars != nbytes {
            let mut off: usize = 0;
            let it2 = self.buf.as_str().chars();
            proof {
                lemma_byte_offset_bounds(s, 0);
            }
            for c in iter: it2
                invariant
                    iter.seq() == s,
                    indices.len() == iter.index(),
                    nbytes == encode_utf8(s).len(),
                    off == byte_offset(s, iter.index()),
                    forall|j: int| 0 <= j < indices.len() ==> #[trigger] indices[j] == byte_offset(s, j),
            {
                proof {
                    lemma_byte_offset_step(s, indices.len() as int);
                    lemma_byte_offset_bounds(s, indices.len() + 1);
                }
                indices.push(off);
                off = off + len_utf8(c);
            }
        }
        self.render = render;
        self.indices = indices;
        Ok(())
    }
}

impl Row {
    /// The character at index `at`.
    pub fn char_at(&self, at: usize) -> (c: char)
        requires
            self.wf(),
            at < self@.len(),
        ensures
            c == self@[at as int],
    {
        self.char_at_checked(at).unwrap()
    }

    /// The character at index `at`, or none at the end of the line.
    pub fn char_at_checked(&self, at: usize) -> (c: Option<char>)
        requires
            self.wf(),
            at <= self@.len(),
        ensures
            c == if at < self@.len() {
                Some(self@[at as int])
            } else {
                None
            },
    {
        let tail = self.slice_from(at);
        let mut it = tail.chars();
        proof {
            broadcast use vstd::string::group_string_axioms;

        }
        let c = it.next();
        proof {
            if at < self@.len() {
                assert(self@.skip(at as int)[0] == self@[at as int]);
            }
        }
        c
    }

    /// The content from character `start` to the end.
    pub fn slice_from(&self, start: usize) -> (s: &str)
        requires
            self.wf(),
            start <= self@.len(),
        ensures
            s@ == self@.skip(start as int),
    {
        let b = self.byte_idx_of(start);
        proof {
            lemma_offset_is_boundary(self@, start as int);
            lemma_split_at_offset(self@, start as int);
        }
        let (_, tail) = self.buf.as_str().split_at(b);
        proof {
            lemma_encode_injective(tail@, self@.skip(start as int));
        }
        tail
    }

    /// The content from character `start` up to character `end`.
    pub fn slice(&self, start: usize, end: usize) -> (s: &str)
        requires
            self.wf(),
            start <= end <= self@.len(),
        ensures
            s@ == self@.subrange(start as int, end as int),
    {
        let a = self.byte_idx_of(start);
        let b = self.byte_idx_of(end);
        proof {
            lemma_offset_is_boundary(self@, end as int);
            lemma_split_at_offset(self@, end as int);
        }
        let (head, _) = self.buf.as_str().split_at(b);
        proof {
            lemma_encode_injective(head@, self@.take(end as int));
            let h = self@.take(end as int);
            assert(h.take(start as int) =~= self@.take(start as int));
            lemma_offset_is_boundary(h, start as int);
            lemma_split_at_offset(h, start as int);
        }
        let (_, tail) = head.split_at(a);
        proof {
            let h = self@.take(end as int);
            lemma_encode_injective(tail@, h.skip(start as int));
            assert(h.skip(start as int) =~= self@.subrange(start as int, end as int));
        }
        tail
    }

    /// The content up to character `end`.
    pub fn slice_to(&self, end: usize) -> (s: &str)
        requires
            self.wf(),
            end <= self@.len(),
        ensures
            s@ == self@.take(end as int),
    {
        let b = self.byte_idx_of(end);
        proof {
            lemma_offset_is_boundary(self@, end as int);
            lemma_split_at_offset(self@, end as int);
        }
        let (head, _) = self.buf.as_str().split_at(b);
        proof {
            lemma_encode_injective(head@, self@.take(end as int));
        }
        head
    }

    /// The display column of character `cx`: the width of what stands before
    /// it, with tabs reaching to the next tab stop. The column must fit the
    /// machine.
    pub fn rx_from_cx(&self, cx: usize) -> (rx: usize)
        requires
            self.wf(),
            cx <= self@.len(),
            display_col(self@.take(cx as int)) <= usize::MAX,
        ensures
            rx == display_col(self@.take(cx as int)),
    {
        self.checked_rx_from_cx(cx).unwrap()
    }

    /// The display column of character `cx`, or `None` where the column does
    /// not fit the machine.
    pub fn checked_rx_from_cx(&self, cx: usize) -> (rx: Option<usize>)
        requires
            self.wf(),
            cx <= self@.len(),
        ensures
            rx is Some <==> display_col(self@.take(cx as int)) <= usize::MAX,
            rx matches Some(col) ==> col == display_col(self@.take(cx as int)),
    {
        let head = self.slice_to(cx);
        let ghost s = self@.take(cx as int);
        let mut fits: usize = 0;
        let it = head.chars();
        proof {
            assert(s.take(0) =~= Seq::<char>::empty());
        }
        for ch in iter: it
            invariant
                iter.seq() == s,
                s == self@.take(cx as int),
                fits == display_col(s.take(iter.index())),
        {
            let ghost i = iter.index();
            proof {
                lemma_display_col_monotonic(s, i + 1, s.len() as int);
                assert(s.take(s.len() as int) =~= s);
                assert(s.take(i + 1).drop_last() =~= s.take(i));
                assert(s.take(i + 1).last() == s[i]);
            }
            match advance_col(fits, ch, width_cjk(ch)) {
                Some(next) => {
                    fits = next;
                },
                None => {
                    return None;
                },
            }
        }
        proof {
            assert(s.take(s.len() as int) =~= s);
        }
        Some(fits)
    }

    /// Puts `c` in front of character `at`, or at the end of the line where
    /// `at` is no index of it. A character that may not stand in a line is
    /// refused and the line stays as it was.
    pub fn insert_char(&mut self, at: usize, c: char) -> (r: Result<()>)
        requires
            old(self).wf(),
        ensures
            final(self).wf(),
            r is Ok <==> is_text_char(c),
            r is Ok ==> final(self)@ == old(self)@.insert(
                if at < old(self)@.len() {
                    at as int
                } else {
                    old(self)@.len() as int
                },
                c,
            ),
            r matches Err(e) ==> e == Error::ControlCharInText(c) && *final(self) == *old(self),
    {
        if !text_char(c) {
            return Err(Error::ControlCharInText(c));
        }
        let ghost s = self@;
        if self.len() <= at {
            string_push(&mut self.buf, c);
            assert(self.buf@ =~= s.insert(s.len() as int, c));
        } else {
            let b = self.byte_idx_of(at);
            proof {
                lemma_offset_is_boundary(s, at as int);
            }
            string_insert(&mut self.buf, b, c);
            proof {
                lemma_splice(s, at as int, at as int, seq![c]);
                lemma_encode_single(c);
                lemma_encode_injective(self.buf@, s.take(at as int) + seq![c] + s.skip(at as int));
                assert(self.buf@ =~= s.insert(at as int, c));
            }
        }
        proof {
            let t = self.buf@;
            let k = if at < s.len() { at as int } else { s.len() as int };
            s.insert_ensures(k, c);
            assert forall|j: int| 0 <= j < t.len() implies is_text_char(#[trigger] t[j]) by {
                if j < k {
                    assert(t[j] == s[j]);
                } else if j > k {
                    assert(t[j] == s[j - 1]);
                }
            }
        }
        self.update_render()
    }

    /// Puts `text` at the end of the line. A text with a character that may
    /// not stand in a line is refused and the line stays as it was.
    pub fn append(&mut self, text: &str) -> (r: Result<()>)
        requires
            old(self).wf(),
        ensures
            final(self).wf(),
            r is Ok <==> is_text(text@),
            r is Ok ==> final(self)@ == old(self)@ + text@,
            r matches Err(e) ==> reports_first_control(text@, e) && *final(self) == *old(self),
    {
        match check_text(text) {
            Ok(()) => {},
            Err(e) => {
                return Err(e);
            },
        }
        if text.is_empty() {
            assert(self@ + text@ =~= self@);
            return Ok(());
        }
        let ghost s = self@;
        self.buf.append(text);
        proof {
            let t = self.buf@;
            assert forall|j: int| 0 <= j < t.len() implies is_text_char(#[trigger] t[j]) by {
                if j < s.len() {
                    assert(t[j] == s[j]);
                } else {
                    assert(t[j] == text@[j - s.len()]);
                }
            }
        }
        self.update_render()
    }

    /// Drops the characters from index `at` on; a line of at most `at`
    /// characters stays as it is.
    pub fn truncate(&mut self, at: usize)
        requires
            old(self).wf(),
        ensures
            final(self).wf(),
            final(self)@ == if at < old(self)@.len() {
                old(self)@.take(at as int)
            } else {
                old(self)@
            },
    {
        if at < self.len() {
            let ghost s = self@;
            let b = self.byte_idx_of(at);
            proof {
                lemma_offset_is_boundary(s, at as int);
                lemma_split_at_offset(s, at as int);
            }
            string_truncate(&mut self.buf, b);
            proof {
                lemma_encode_injective(self.buf@, s.take(at as int));
                assert(is_text(s.take(at as int)));
            }
            self.update_render().unwrap();
        }
    }

    /// Takes out the character at index `at`.
    pub fn remove_char(&mut self, at: usize)
        requires
            old(self).wf(),
            at < old(self)@.len(),
        ensures
            final(self).wf(),
            final(self)@ == old(self)@.remove(at as int),
    {
        let ghost s = self@;
        let b = self.byte_idx_of(at);
        proof {
            lemma_offset_is_boundary(s, at as int);
            lemma_byte_offset_step(s, at as int);
            lemma_byte_offset_bounds(s, at as int + 1);
        }
        string_remove(&mut self.buf, b);
        proof {
            let bytes = encode_utf8(s);
            let tail = bytes.subrange(b as int, bytes.len() as int);
            lemma_split_at_offset(s, at as int);
            lemma_split_at_offset(s, at as int + 1);
            encode_utf8_first_scalar(s.skip(at as int));
            assert(s.skip(at as int)[0] == s[at as int]);
            assert(pop_first_scalar(tail) =~= bytes.subrange(
                byte_offset(s, at as int + 1),
                bytes.len() as int,
            ));
            lemma_splice(s, at as int, at as int + 1, Seq::<char>::empty());
            assert(s.take(at as int) + Seq::<char>::empty() + s.skip(at as int + 1) =~= s.remove(
                at as int,
            ));
            assert(encode_utf8(Seq::<char>::empty()) =~= Seq::<u8>::empty());
            assert(encode_utf8(self.buf@) =~= encode_utf8(s.remove(at as int)));
            lemma_encode_injective(self.buf@, s.remove(at as int));
            s.remove_ensures(at as int);
            assert(is_text(s.remove(at as int)));
        }
        self.update_render().unwrap();
    }

    /// Takes out the characters from index `start` up to `end`; nothing where
    /// `start` is not below `end`.
    pub fn remove(&mut self, start: usize, end: usize)
        requires
            old(self).wf(),
            start < end ==> end <= old(self)@.len(),
        ensures
            final(self).wf(),
            final(self)@ == if start < end {
                old(self)@.take(start as int) + old(self)@.skip(end as int)
            } else {
                old(self)@
            },
    {
        if start < end {
            let ghost s = self@;
            let start_idx = self.byte_idx_of(start);
            let end_idx = self.byte_idx_of(end);
            proof {
                lemma_offset_is_boundary(s, start as int);
                lemma_offset_is_boundary(s, end as int);
                lemma_byte_offset_increasing(s, start as int, end as int);
            }
            string_drain(&mut self.buf, start_idx, end_idx);
            proof {
                let t = s.take(start as int) + s.skip(end as int);
                lemma_splice(s, start as int, end as int, Seq::<char>::empty());
                assert(s.take(start as int) + Seq::<char>::empty() + s.skip(end as int) =~= t);
                assert(encode_utf8(Seq::<char>::empty()) =~= Seq::<u8>::empty());
                assert(encode_utf8(self.buf@) =~= encode_utf8(t));
                lemma_encode_injective(self.buf@, t);
                assert(is_text(t));
            }
            self.update_render().unwrap();
        }
    }
}

/// Tells whether every character of `text` may stand in a line, and reports
/// the first that may not.
pub fn check_text(text: &str) -> (r: Result<()>)
    ensures
        r is Ok <==> is_text(text@),
        r matches Err(e) ==> reports_first_control(text@, e),
{
    let ghost s = text@;
    let it = text.chars();
    proof {
        assert(s.take(0) =~= Seq::<char>::empty());
    }
    for c in iter: it
        invariant
            iter.seq() == s,
            s == text@,
            is_text(s.take(iter.index())),
    {
        let ghost i = iter.index();
        if !text_char(c) {
            assert(!is_text_char(s[i]));
            return Err(Error::ControlCharInText(c));
        }
        assert(is_text(s.take(i + 1))) by {
            assert forall|j: int| 0 <= j < i + 1 implies is_text_char(#[trigger] s.take(i + 1)[j]) by {
                if j < i {
                    assert(s.take(i)[j] == s[j]);
                }
            }
        }
    }
    proof {
        assert(s.take(s.len() as int) =~= s);
    }
    Ok(())
}

/// The contents of the lines `rows`, one text for each.
pub open spec fn lines_of(rows: Seq<Row>) -> Seq<Seq<char>> {
    Seq::new(rows.len(), |i: int| rows[i]@)
}

/// True when every line of `rows` meets its invariant.
pub open spec fn rows_wf(rows: Seq<Row>) -> bool {
    forall|i: int| 0 <= i < rows.len() ==> (#[trigger] rows[i]).wf()
}

/// True when every character of every line may stand in a line.
pub open spec fn lines_are_text(lines: Seq<Seq<char>>) -> bool {
    forall|i: int| 0 <= i < lines.len() ==> is_text(#[trigger] lines[i])
}

/// The contents of valid lines hold only characters that may stand in a line.
pub proof fn lemma_rows_are_text(rows: Seq<Row>)
    requires
        rows_wf(rows),
    ensures
        lines_are_text(lines_of(rows)),
{
    assert forall|i: int| 0 <= i < lines_of(rows).len() implies is_text(
        #[trigger] lines_of(rows)[i],
    ) by {
        assert(rows[i].wf());
    }
}

/// Where every character takes one byte, the offset of a character is its
/// index.
pub proof fn lemma_ascii_offsets(s: Seq<char>, i: int)
    requires
        0 <= i <= s.len(),
        encode_utf8(s).len() == s.len(),
    ensures
        byte_offset(s, i) == i,
{
    lemma_byte_offset_bounds(s, i);
}

} // verus!
