//! The text of a document as it lies in a file: each line, then a line feed.

use crate::encoding::string_push;
use crate::glyph::{is_text, is_text_char};
use crate::row::{lines_are_text, lines_of, Row};
use vstd::prelude::*;

verus! {

/// The text of a file that holds `lines`: each line followed by one line
/// feed.
pub open spec fn file_text(lines: Seq<Seq<char>>) -> Seq<char>
    decreases lines.len(),
{
    if lines.len() == 0 {
        Seq::empty()
    } else {
        file_text(lines.drop_last()) + lines.last() + seq!['\n']
    }
}

/// The pieces into which the line feeds cut `text`: one more than there are
/// line feeds.
pub open spec fn pieces(text: Seq<char>) -> Seq<Seq<char>>
    decreases text.len(),
{
    if text.len() == 0 {
        seq![Seq::<char>::empty()]
    } else {
        let before = pieces(text.drop_last());
        if text.last() == '\n' {
            before.push(Seq::empty())
        } else {
            before.drop_last().push(before.last().push(text.last()))
        }
    }
}

/// `piece` without a carriage return at its end.
pub open spec fn strip_cr(piece: Seq<char>) -> Seq<char> {
    if piece.len() > 0 && piece.last() == '\r' {
        piece.drop_last()
    } else {
        piece
    }
}

/// The lines of a file with the text `text`: what stands in front of each
/// line feed, without a carriage return at its end, and what follows the last
/// line feed, where that is not empty.
pub open spec fn split_lines(text: Seq<char>) -> Seq<Seq<char>> {
    let cut = pieces(text);
    let ended = Seq::new((cut.len() - 1) as nat, |i: int| strip_cr(cut[i]));
    if cut.last().len() > 0 {
        ended.push(cut.last())
    } else {
        ended
    }
}

/// The text of the file that holds the lines `rows`.
pub fn join_lines(rows: &[Row]) -> (text: String)
    ensures
        text@ == file_text(lines_of(rows@)),
{
    let ghost lines = lines_of(rows@);
    let mut text = String::new();
    let mut i: usize = 0;
    proof {
        assert(lines.take(0) =~= Seq::<Seq<char>>::empty());
    }
    while i < rows.len()
        invariant
            i <= rows.len(),
            lines == lines_of(rows@),
            text@ == file_text(lines.take(i as int)),
        decreases rows.len() - i,
    {
        proof {
            assert(lines.take(i + 1).drop_last() =~= lines.take(i as int));
            assert(lines.take(i + 1).last() == rows@[i as int]@);
        }
        text.append(rows[i].buffer());
        string_push(&mut text, '\n');
        i = i + 1;
    }
    proof {
        assert(lines.take(i as int) =~= lines);
    }
    text
}

/// The lines of a file with the text `text`.
pub fn split_text(text: &str) -> (lines: Vec<String>)
    ensures
        lines@.len() == split_lines(text@).len(),
        forall|i: int| 0 <= i < lines@.len() ==> (#[trigger] lines@[i])@ == split_lines(text@)[i],
{
    let ghost s = text@;
    let mut lines: Vec<String> = Vec::new();
    let mut cur = String::new();
    let mut cr = false;
    let it = text.chars();
    proof {
        assert(s.take(0) =~= Seq::<char>::empty());
    }
    for c in iter: it
        invariant
            iter.seq() == s,
            lines@.len() + 1 == pieces(s.take(iter.index())).len(),
            forall|i: int|
                0 <= i < lines@.len() ==> (#[trigger] lines@[i])@ == strip_cr(
                    pieces(s.take(iter.index()))[i],
                ),
            pieces(s.take(iter.index())).last() == if cr {
                cur@.push('\r')
            } else {
                cur@
            },
            !cr && cur@.len() > 0 ==> cur@.last() != '\r',
    {
        let ghost i = iter.index();
        let ghost before = pieces(s.take(i));
        proof {
            assert(s.take(i + 1).drop_last() =~= s.take(i));
            assert(s.take(i + 1).last() == s[i]);
        }
        proof {
            let after = pieces(s.take(i + 1));
            assert forall|j: int| 0 <= j < lines@.len() implies after[j] == before[j] by {}
        }
        if c == '\n' {
            proof {
                if cr {
                    assert(cur@.push('\r').drop_last() =~= cur@);
                }
            }
            lines.push(cur);
            cur = String::new();
            cr = false;
        } else {
            if cr {
                string_push(&mut cur, '\r');
            }
            if c == '\r' {
                cr = true;
            } else {
                string_push(&mut cur, c);
                cr = false;
            }
        }
    }
    proof {
        assert(s.take(s.len() as int) =~= s);
    }
    if cr {
        string_push(&mut cur, '\r');
    }
    if !cur.as_str().is_empty() {
        lines.push(cur);
    }
    lines
}

/// A text without a line feed is one piece, and put behind another text it
/// lengthens that text's last piece.
proof fn lemma_pieces_extend(text: Seq<char>, line: Seq<char>)
    requires
        forall|i: int| 0 <= i < line.len() ==> line[i] != '\n',
    ensures
        pieces(text + line) == pieces(text).drop_last().push(pieces(text).last() + line),
    decreases line.len(),
{
    let p = pieces(text);
    if line.len() == 0 {
        assert(text + line =~= text);
        assert(p.last() + line =~= p.last());
        assert(p.drop_last().push(p.last()) =~= p);
    } else {
        let front = line.drop_last();
        lemma_pieces_extend(text, front);
        assert((text + line).drop_last() =~= text + front);
        assert((text + line).last() == line.last());
        let q = pieces(text + front);
        assert(q.last().push(line.last()) =~= p.last() + line);
        assert(q.drop_last() =~= p.drop_last());
    }
}

/// The pieces of the text of a file are its lines and an empty piece behind
/// them.
proof fn lemma_pieces_of_file_text(lines: Seq<Seq<char>>)
    requires
        lines_are_text(lines),
    ensures
        pieces(file_text(lines)) == lines.push(Seq::empty()),
    decreases lines.len(),
{
    if lines.len() == 0 {
        assert(pieces(file_text(lines)) =~= lines.push(Seq::empty()));
    } else {
        let front = lines.drop_last();
        let line = lines.last();
        lemma_pieces_of_file_text(front);
        assert(is_text(line));
        assert forall|i: int| 0 <= i < line.len() implies line[i] != '\n' by {
            assert(is_text_char(line[i]));
        }
        lemma_pieces_extend(file_text(front), line);
        let body = file_text(front) + line;
        assert(file_text(lines).drop_last() =~= body);
        assert(file_text(lines).last() == '\n');
        assert(Seq::<char>::empty() + line =~= line);
        assert(front.push(Seq::empty()).drop_last() =~= front);
        assert(front.push(line) =~= lines);
    }
}

/// Writing lines to a file and reading the file again gives the same lines:
/// as many, each with the same content.
pub proof fn lemma_round_trip(lines: Seq<Seq<char>>)
    requires
        lines_are_text(lines),
    ensures
        split_lines(file_text(lines)) == lines,
{
    lemma_pieces_of_file_text(lines);
    let cut = pieces(file_text(lines));
    assert(cut.last() =~= Seq::<char>::empty());
    assert forall|i: int| 0 <= i < lines.len() implies strip_cr(cut[i]) == lines[i] by {
        let line = lines[i];
        assert(is_text(line));
        if line.len() > 0 {
            assert(is_text_char(line.last()));
        }
    }
    assert(split_lines(file_text(lines)) =~= lines);
}

} // verus!
