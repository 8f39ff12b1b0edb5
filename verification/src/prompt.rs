//! The line in which a name is asked for.

use crate::encoding::string_push;
use crate::input::{InputSeq, KeySeq};
use vstd::prelude::*;

verus! {

/// How a prompt ended.
#[derive(PartialEq, Debug)]
pub enum PromptResult {
    Canceled,
    Input(String),
}

/// True where the template `s` has `{}`, the place for what is typed, at
/// character `i`.
pub open spec fn hole_at(s: Seq<char>, i: int) -> bool {
    0 <= i && i + 1 < s.len() && s[i] == '{' && s[i + 1] == '}'
}

/// True where `i` is the first place for what is typed in the template `s`.
pub open spec fn first_hole(s: Seq<char>, i: int) -> bool {
    hole_at(s, i) && forall|j: int| 0 <= j < i ==> !hole_at(s, j)
}

/// The text of a prompt: what stands in front of what is typed, and what
/// stands behind it.
pub struct PromptTemplate {
    prefix: String,
    suffix: String,
    prefix_chars: usize,
}

impl PromptTemplate {
    /// What stands in front of what is typed.
    pub closed spec fn prefix(&self) -> Seq<char> {
        self.prefix@
    }

    /// What stands behind what is typed.
    pub closed spec fn suffix(&self) -> Seq<char> {
        self.suffix@
    }

    /// The invariant of a template: the number of characters of the prefix
    /// is known.
    pub closed spec fn wf(&self) -> bool {
        self.prefix_chars == self.prefix@.len()
    }

    /// The template with `prefix` in front of what is typed and `suffix`
    /// behind it.
    pub fn new(prefix: &str, suffix: &str) -> (t: PromptTemplate)
        ensures
            t.wf(),
            t.prefix() == prefix@,
            t.suffix() == suffix@,
    {
        let prefix_chars = prefix.unicode_len();
        PromptTemplate { prefix: prefix.to_owned(), suffix: suffix.to_owned(), prefix_chars }
    }

    /// The template that `template` writes, with `{}` where the typed text
    /// goes: what stands in front of the first `{}` and what stands behind
    /// it. `None` where there is no `{}`.
    pub fn parse(template: &str) -> (r: Option<PromptTemplate>)
        ensures
            r is Some <==> exists|i: int| hole_at(template@, i),
            r matches Some(t) ==> t.wf() && exists|i: int|
                #![trigger first_hole(template@, i)]
                first_hole(template@, i) && t.prefix() == template@.take(i) && t.suffix()
                    == template@.skip(i + 2),
    {
        let ghost s = template@;
        let mut prefix = String::new();
        let mut suffix = String::new();
        let mut open = false;
        let mut found = false;
        let it = template.chars();
        for c in iter: it
            invariant
                iter.seq() == s,
                s == template@,
                !found ==> {
                    &&& forall|j: int| 0 <= j && j + 1 < iter.index() ==> !hole_at(s, j)
                    &&& open == (iter.index() > 0 && s[iter.index() - 1] == '{')
                    &&& suffix@.len() == 0
                    &&& prefix@ == s.take(
                        if open {
                            iter.index() - 1
                        } else {
                            iter.index()
                        },
                    )
                },
                found ==> exists|i: int|
                    #![trigger first_hole(s, i)]
                    first_hole(s, i) && i + 2 <= iter.index() && prefix@ == s.take(i) && suffix@
                        == s.subrange(i + 2, iter.index()),
        {
            let ghost k = iter.index();
            if found {
                let ghost i = choose|i: int|
                    #![trigger first_hole(s, i)]
                    first_hole(s, i) && i + 2 <= k && prefix@ == s.take(i) && suffix@
                        == s.subrange(i + 2, k);
                string_push(&mut suffix, c);
                assert(suffix@ =~= s.subrange(i + 2, k + 1));
                assert(first_hole(s, i));
            } else if open && c == '}' {
                found = true;
                assert(hole_at(s, k - 1));
                assert(first_hole(s, k - 1));
                assert(suffix@ =~= s.subrange(k + 1, k + 1));
            } else {
                if open {
                    string_push(&mut prefix, '{');
                }
                if c == '{' {
                    open = true;
                } else {
                    open = false;
                    string_push(&mut prefix, c);
                }
                assert(prefix@ =~= s.take(
                    if open {
                        k
                    } else {
                        k + 1
                    },
                ));
            }
        }
        if found {
            proof {
                let i = choose|i: int|
                    #![trigger first_hole(s, i)]
                    first_hole(s, i) && i + 2 <= s.len() && prefix@ == s.take(i) && suffix@
                        == s.subrange(i + 2, s.len() as int);
                assert(first_hole(s, i));
            }
            let prefix_chars = prefix.as_str().unicode_len();
            Some(PromptTemplate { prefix, suffix, prefix_chars })
        } else {
            None
        }
    }

    /// The text of the prompt when `input` is typed.
    pub fn build(&self, input: &str) -> (text: String)
        ensures
            text@ == self.prefix() + input@ + self.suffix(),
    {
        let mut buf = String::new();
        buf.append(self.prefix.as_str());
        buf.append(input);
        buf.append(self.suffix.as_str());
        assert(buf@ =~= self.prefix() + input@ + self.suffix());
        buf
    }

    /// The column of the cursor, counted from one, when `input` is typed.
    pub fn cursor_col(&self, input: &str) -> (col: usize)
        requires
            self.wf(),
            self.prefix().len() + input@.len() + 1 <= usize::MAX,
        ensures
            col == self.prefix().len() + input@.len() + 1,
    {
        self.prefix_chars + input.unicode_len() + 1
    }
}

/// True for the punctuation of ASCII.
pub open spec fn is_punctuation(c: char) -> bool {
    let u = c as u32;
    (0x21 <= u <= 0x2f) || (0x3a <= u <= 0x40) || (0x5b <= u <= 0x60) || (0x7b <= u <= 0x7e)
}

/// True for the white space of ASCII: space, tab, line feed, form feed and
/// carriage return.
pub open spec fn is_whitespace(c: char) -> bool {
    c == ' ' || c == '\t' || c == '\n' || c == '\x0c' || c == '\r'
}

/// True for a character of a word: neither punctuation nor white space.
pub open spec fn is_word_char(c: char) -> bool {
    !is_punctuation(c) && !is_whitespace(c)
}

/// `s` without its last word: characters go from the end until one of a
/// word has gone that stood behind punctuation or white space.
pub open spec fn delete_word(s: Seq<char>) -> Seq<char>
    decreases s.len(),
{
    if s.len() == 0 {
        s
    } else {
        let rest = s.drop_last();
        if rest.len() > 0 && is_word_char(s.last()) && !is_word_char(rest.last()) {
            rest
        } else {
            delete_word(rest)
        }
    }
}

/// What a key does to a prompt.
#[derive(PartialEq, Eq, Structural, Clone, Copy, Debug)]
pub enum PromptStep {
    /// The key is none that is known: nothing follows.
    Skip,
    /// The key was taken, and the prompt goes on.
    Continue,
    /// The prompt is given up.
    Cancel,
    /// The prompt is over, with what was typed.
    Enter,
}

/// What the key `seq` does to a prompt.
pub open spec fn step_of(seq: InputSeq) -> PromptStep {
    match seq.key {
        KeySeq::Unidentified => PromptStep::Skip,
        KeySeq::Key(b) => if b == 0x7f || (b == 0x68 && seq.ctrl) {
            PromptStep::Continue
        } else if b == 0x1b || ((b == 0x67 || b == 0x71) && seq.ctrl) {
            PromptStep::Cancel
        } else if b == 0x0d || (b == 0x6d && seq.ctrl) {
            PromptStep::Enter
        } else {
            PromptStep::Continue
        },
        _ => PromptStep::Continue,
    }
}

/// What is typed in a prompt after the key `seq`, when `s` was typed before:
/// the delete keys take the last character, control and `w` takes the last
/// word, and a character without the control key is put at the end.
pub open spec fn typed_after(s: Seq<char>, seq: InputSeq) -> Seq<char> {
    match seq.key {
        KeySeq::DeleteKey => if s.len() > 0 {
            s.drop_last()
        } else {
            s
        },
        KeySeq::Key(b) => if b == 0x7f || (b == 0x68 && seq.ctrl) {
            if s.len() > 0 {
                s.drop_last()
            } else {
                s
            }
        } else if b == 0x1b || ((b == 0x67 || b == 0x71) && seq.ctrl) {
            s
        } else if b == 0x0d || (b == 0x6d && seq.ctrl) {
            s
        } else if b == 0x77 && seq.ctrl {
            delete_word(s)
        } else if !seq.ctrl {
            s.push(b as char)
        } else {
            s
        },
        KeySeq::Utf8Key(c) => if !seq.ctrl {
            s.push(c)
        } else {
            s
        },
        _ => s,
    }
}

/// What is typed in a prompt. Its view is the characters.
pub struct PromptLine {
    buf: Vec<char>,
}

impl View for PromptLine {
    type V = Seq<char>;

    closed spec fn view(&self) -> Seq<char> {
        self.buf@
    }
}

impl PromptLine {
    /// A prompt in which nothing is typed.
    pub fn new() -> (line: PromptLine)
        ensures
            line@ == Seq::<char>::empty(),
    {
        PromptLine { buf: Vec::new() }
    }

    /// What is typed, as a text.
    pub fn text(&self) -> (text: String)
        ensures
            text@ == self@,
    {
        let mut text = String::new();
        let mut i: usize = 0;
        while i < self.buf.len()
            invariant
                i <= self.buf.len(),
                text@ == self.buf@.take(i as int),
            decreases self.buf.len() - i,
        {
            string_push(&mut text, self.buf[i]);
            i = i + 1;
            assert(text@ =~= self.buf@.take(i as int));
        }
        assert(self.buf@.take(i as int) =~= self.buf@);
        text
    }

    /// Takes the key `seq`, and tells what it does to the prompt.
    pub fn key(&mut self, seq: InputSeq) -> (step: PromptStep)
        ensures
            step == step_of(seq),
            final(self)@ == typed_after(old(self)@, seq),
    {
        match seq.key {
            KeySeq::Unidentified => PromptStep::Skip,
            KeySeq::DeleteKey => {
                self.buf.pop();
                PromptStep::Continue
            },
            KeySeq::Key(b) => {
                if b == 0x7f || (b == 0x68 && seq.ctrl) {
                    self.buf.pop();
                    PromptStep::Continue
                } else if b == 0x1b || ((b == 0x67 || b == 0x71) && seq.ctrl) {
                    PromptStep::Cancel
                } else if b == 0x0d || (b == 0x6d && seq.ctrl) {
                    PromptStep::Enter
                } else if b == 0x77 && seq.ctrl {
                    self.delete_last_word();
                    PromptStep::Continue
                } else {
                    if !seq.ctrl {
                        self.buf.push(b as char);
                    }
                    PromptStep::Continue
                }
            },
            KeySeq::Utf8Key(c) => {
                if !seq.ctrl {
                    self.buf.push(c);
                }
                PromptStep::Continue
            },
            _ => PromptStep::Continue,
        }
    }

    /// Takes the last word out of what is typed.
    fn delete_last_word(&mut self)
        ensures
            final(self)@ == delete_word(old(self)@),
    {
        let ghost start = self.buf@;
        loop
            invariant_except_break
                delete_word(self.buf@) == delete_word(start),
            ensures
                self.buf@ == delete_word(start),
            decreases self.buf.len(),
        {
            let ghost before = self.buf@;
            match self.buf.pop() {
                None => {
                    break ;
                },
                Some(current) => {
                    assert(self.buf@ =~= before.drop_last());
                    let n = self.buf.len();
                    if n > 0 {
                        let next = self.buf[n - 1];
                        if word_char(current) && !word_char(next) {
                            break ;
                        }
                    }
                },
            }
        }
    }

    /// How the prompt ends: given up where it was canceled, or where nothing
    /// was typed and that counts as giving up; else with what was typed.
    pub fn finish(&self, canceled: bool, empty_is_cancel: bool) -> (r: PromptResult)
        ensures
            match r {
                PromptResult::Canceled => canceled || (empty_is_cancel && self@.len() == 0),
                PromptResult::Input(text) => !(canceled || (empty_is_cancel && self@.len() == 0))
                    && text@ == self@,
            },
    {
        if canceled || empty_is_cancel && self.buf.len() == 0 {
            PromptResult::Canceled
        } else {
            PromptResult::Input(self.text())
        }
    }
}

/// Tells whether `c` is a character of a word.
fn word_char(c: char) -> (r: bool)
    ensures
        r == is_word_char(c),
{
    let u: u32 = c as u32;
    let punctuation = (0x21 <= u && u <= 0x2f) || (0x3a <= u && u <= 0x40) || (0x5b <= u && u
        <= 0x60) || (0x7b <= u && u <= 0x7e);
    let whitespace = c == ' ' || c == '\t' || c == '\n' || c == '\x0c' || c == '\r';
    !punctuation && !whitespace
}

} // verus!
