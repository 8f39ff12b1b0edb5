//! What can go wrong in the editor.

use crate::numeral::{decimal_of, hex_of, push_decimal, push_hex};
use vstd::prelude::*;

verus! {

/// What `{:?}` writes for `c`: the character between single quotes, escaped
/// where it would not show.
pub uninterp spec fn char_debug_of(c: char) -> Seq<char>;

/// Formats `c` with `{:?}`, which calls `<char as Debug>::fmt`. The result is
/// named `char_debug_of`.
#[verifier::external_body]
fn char_debug(c: char) -> (s: String)
    ensures
        s@ == char_debug_of(c),
{
    format!("{:?}", c)
}

/// The bytes `seq`, each as `\x` and its value in hexadecimal.
pub open spec fn escaped_bytes(seq: Seq<u8>) -> Seq<char>
    decreases seq.len(),
{
    if seq.len() == 0 {
        Seq::empty()
    } else {
        escaped_bytes(seq.drop_last()) + "\\x"@ + hex_of(seq.last() as nat)
    }
}

/// A failure of the editor.
#[derive(Debug)]
pub enum Error {
    /// Reading or writing failed; the text is the system's description.
    IoError(String),
    /// The terminal is narrower than one column or lower than three rows.
    TooSmallWindow(u16, u16),
    /// The size of the terminal could not be found out.
    UnknownWindowSize,
    /// The input held these bytes, which are no UTF-8 sequence.
    NotUtf8Input(Vec<u8>),
    /// The text held this character, which has no width on screen.
    ControlCharInText(char),
}

/// The report that a character may not stand in a text, where `quoted` is
/// the character as `{:?}` writes it.
pub fn invalid_char_message(quoted: &str) -> (s: String)
    ensures
        s@ == "Invalid character for text is included: "@ + quoted@,
{
    let mut s = String::new();
    s.append("Invalid character for text is included: ");
    s.append(quoted);
    assert(s@ =~= "Invalid character for text is included: "@ + quoted@);
    s
}

impl Error {
    /// What `message` returns for `self`.
    pub open spec fn message_of(&self) -> Seq<char> {
        match *self {
            Error::IoError(text) => text@,
            Error::TooSmallWindow(w, h) => "Screen "@ + decimal_of(w as nat) + "x"@ + decimal_of(
                h as nat,
            ) + " is too small. At least 1x3 is necessary in width x height"@,
            Error::UnknownWindowSize => "Could not detect terminal window size"@,
            Error::NotUtf8Input(seq) => "Cannot handle non-UTF8 multi-byte input sequence: "@
                + escaped_bytes(seq@),
            Error::ControlCharInText(c) => "Invalid character for text is included: "@
                + char_debug_of(c),
        }
    }

    /// The failure in words.
    pub fn message(&self) -> (s: String)
        ensures
            s@ == self.message_of(),
    {
        let mut s = String::new();
        match self {
            Error::IoError(text) => {
                s.append(text.as_str());
                assert(s@ =~= text@);
            },
            Error::TooSmallWindow(w, h) => {
                s.append("Screen ");
                push_decimal(&mut s, *w as usize);
                s.append("x");
                push_decimal(&mut s, *h as usize);
                s.append(" is too small. At least 1x3 is necessary in width x height");
                assert(s@ =~= self.message_of());
            },
            Error::UnknownWindowSize => {
                s.append("Could not detect terminal window size");
                assert(s@ =~= self.message_of());
            },
            Error::NotUtf8Input(seq) => {
                s.append("Cannot handle non-UTF8 multi-byte input sequence: ");
                let ghost head = s@;
                let mut i: usize = 0;
                assert(seq@.take(0) =~= Seq::<u8>::empty());
                while i < seq.len()
                    invariant
                        i <= seq.len(),
                        s@ == head + escaped_bytes(seq@.take(i as int)),
                    decreases seq.len() - i,
                {
                    proof {
                        assert(seq@.take(i + 1).drop_last() =~= seq@.take(i as int));
                        assert(seq@.take(i + 1).last() == seq@[i as int]);
                    }
                    s.append("\\x");
                    push_hex(&mut s, seq[i] as usize);
                    i = i + 1;
                    assert(s@ =~= head + escaped_bytes(seq@.take(i as int)));
                }
                assert(seq@.take(i as int) =~= seq@);
            },
            Error::ControlCharInText(c) => {
                s = invalid_char_message(char_debug(*c).as_str());
            },
        }
        s
    }
}

/// The result of an operation of the editor.
pub type Result<T> = core::result::Result<T, Error>;

} // verus!
