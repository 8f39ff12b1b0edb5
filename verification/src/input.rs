//! Keys, and the decoding of the bytes that a terminal sends into keys.

use crate::encoding::{lemma_encode_single, lemma_scalar_len, string_push};
use crate::error::{Error, Result};
use crate::numeral::{decimal_of, hex_of, push_decimal, push_hex};
use vstd::prelude::*;
use vstd::utf8::*;

verus! {

/// A key.
#[derive(PartialEq, Eq, Structural, Debug, Clone, Copy)]
pub enum KeySeq {
    Unidentified,
    Utf8Key(char),
    Key(u8),
    LeftKey,
    RightKey,
    UpKey,
    DownKey,
    DeleteKey,
    Cursor(usize, usize),
}

impl KeySeq {
    /// What `name` returns.
    pub open spec fn name_of(self) -> Seq<char> {
        match self {
            KeySeq::Unidentified => "UNKNOWN"@,
            KeySeq::Key(b) => if b < 0x20 || b == 0x7f {
                "\\x"@ + hex_of(b as nat)
            } else {
                seq![b as char]
            },
            KeySeq::Utf8Key(c) => seq![c],
            KeySeq::LeftKey => "LEFT"@,
            KeySeq::RightKey => "RIGHT"@,
            KeySeq::UpKey => "UP"@,
            KeySeq::DownKey => "DOWN"@,
            KeySeq::DeleteKey => "DELETE"@,
            KeySeq::Cursor(r, c) => "CURSOR("@ + decimal_of(r as nat) + ", "@ + decimal_of(
                c as nat,
            ) + ")"@,
        }
    }

    /// The key in words: a character as itself, a control character by its
    /// value in hexadecimal, and the other keys by name.
    pub fn name(&self) -> (text: String)
        ensures
            text@ == self.name_of(),
    {
        let mut text = String::new();
        match *self {
            KeySeq::Unidentified => text.append("UNKNOWN"),
            KeySeq::Key(b) => {
                if b < 0x20 || b == 0x7f {
                    text.append("\\x");
                    push_hex(&mut text, b as usize);
                } else {
                    string_push(&mut text, b as char);
                }
            },
            KeySeq::Utf8Key(c) => string_push(&mut text, c),
            KeySeq::LeftKey => text.append("LEFT"),
            KeySeq::RightKey => text.append("RIGHT"),
            KeySeq::UpKey => text.append("UP"),
            KeySeq::DownKey => text.append("DOWN"),
            KeySeq::DeleteKey => text.append("DELETE"),
            KeySeq::Cursor(r, c) => {
                text.append("CURSOR(");
                push_decimal(&mut text, r);
                text.append(", ");
                push_decimal(&mut text, c);
                text.append(")");
            },
        }
        assert(text@ =~= self.name_of());
        text
    }
}

/// A key with the modifiers that were held.
#[derive(PartialEq, Eq, Structural, Debug, Clone, Copy)]
pub struct InputSeq {
    pub key: KeySeq,
    pub ctrl: bool,
    pub alt: bool,
}

impl InputSeq {
    /// `key` with no modifier.
    pub fn new(key: KeySeq) -> (seq: InputSeq)
        ensures
            seq == (InputSeq { key, ctrl: false, alt: false }),
    {
        InputSeq { key, ctrl: false, alt: false }
    }

    /// `key` with the control key.
    pub fn ctrl(key: KeySeq) -> (seq: InputSeq)
        ensures
            seq == (InputSeq { key, ctrl: true, alt: false }),
    {
        InputSeq { key, ctrl: true, alt: false }
    }
}

/// Where the decoding of a key stands between two bytes.
pub enum Decoder {
    /// No byte of a key was read yet.
    Ground,
    /// An escape byte was read.
    Escape,
    /// An escape byte and `[` were read, and then these bytes.
    Csi(Vec<u8>),
    /// These bytes of a character of more than one byte were read; the flag
    /// tells whether an escape byte came first.
    Utf8(Vec<u8>, bool),
}

/// The mathematical model of a `Decoder`.
pub enum DecoderState {
    Ground,
    Escape,
    Csi(Seq<u8>),
    Utf8(Seq<u8>, bool),
}

impl View for Decoder {
    type V = DecoderState;

    open spec fn view(&self) -> DecoderState {
        match *self {
            Decoder::Ground => DecoderState::Ground,
            Decoder::Escape => DecoderState::Escape,
            Decoder::Csi(buf) => DecoderState::Csi(buf@),
            Decoder::Utf8(buf, alt) => DecoderState::Utf8(buf@, alt),
        }
    }
}

/// What a byte leads to: the next state, and the key that is complete, if
/// one is.
pub struct Decoded {
    pub next: DecoderState,
    pub key: Option<core::result::Result<InputSeq, Seq<u8>>>,
}

/// A key that is complete, with the decoder back at the start.
pub open spec fn done(key: KeySeq, ctrl: bool, alt: bool) -> Decoded {
    Decoded { next: DecoderState::Ground, key: Some(Ok(InputSeq { key, ctrl, alt })) }
}

/// True for the bytes that end a control sequence.
pub open spec fn is_final_byte(b: u8) -> bool {
    b == 0x41 || b == 0x42 || b == 0x43 || b == 0x44 || b == 0x46 || b == 0x48 || b == 0x4b || b
        == 0x4a || b == 0x52 || b == 0x63 || b == 0x66 || b == 0x67 || b == 0x68 || b == 0x6c || b
        == 0x6d || b == 0x6e || b == 0x71 || b == 0x74 || b == 0x79 || b == 0x7e
}

/// True when the first of the arguments `buf`, which semicolons part, is the
/// one byte `first`.
pub open spec fn first_arg_is(buf: Seq<u8>, first: u8) -> bool {
    buf.len() >= 1 && buf[0] == first && (buf.len() == 1 || buf[1] == 0x3b)
}

/// True when the arguments `buf`, which semicolons part, begin with the one
/// byte `first` and then the one byte `second`.
pub open spec fn two_args_are(buf: Seq<u8>, first: u8, second: u8) -> bool {
    buf.len() >= 3 && buf[0] == first && buf[1] == 0x3b && buf[2] == second && (buf.len() == 3
        || buf[3] == 0x3b)
}

/// What the end of a control sequence with the arguments `buf` and the final
/// byte `cmd` leads to: an arrow key, with the control key for the arguments
/// `1;5`; the delete key for `3~`; else no key that is known.
pub open spec fn csi_key(buf: Seq<u8>, cmd: u8) -> Decoded {
    let ctrl = two_args_are(buf, 0x31, 0x35);
    if cmd == 0x41 {
        done(KeySeq::UpKey, ctrl, false)
    } else if cmd == 0x42 {
        done(KeySeq::DownKey, ctrl, false)
    } else if cmd == 0x43 {
        done(KeySeq::RightKey, ctrl, false)
    } else if cmd == 0x44 {
        done(KeySeq::LeftKey, ctrl, false)
    } else if cmd == 0x7e && first_arg_is(buf, 0x33) {
        done(KeySeq::DeleteKey, false, false)
    } else {
        done(KeySeq::Unidentified, false, false)
    }
}

/// What the first byte `b` of a key leads to, after an escape byte where
/// `alt` is set: a control character is the key of its letter with the
/// control key; the rest of ASCII is itself; a byte from `0x80` up to `0x9f`
/// is no key that is known; a byte from `0xa0` begins a character.
pub open spec fn first_byte(b: u8, alt: bool) -> Decoded {
    if b == 0x1b {
        Decoded { next: DecoderState::Escape, key: None }
    } else if b == 0x00 || b == 0x1f {
        done(KeySeq::Key(b | 0x20), true, alt)
    } else if b == 0x1c || b == 0x1d {
        done(KeySeq::Key(b | 0x40), true, alt)
    } else if b < 0x20 {
        done(KeySeq::Key(b | 0x60), true, alt)
    } else if b < 0x80 {
        done(KeySeq::Key(b), false, alt)
    } else if b < 0xa0 {
        done(KeySeq::Unidentified, false, alt)
    } else {
        Decoded { next: DecoderState::Utf8(seq![b], alt), key: None }
    }
}

/// What the decoder does in the state `state` when the terminal sends
/// `byte`, or when it sends nothing in time.
pub open spec fn decode_step(state: DecoderState, byte: Option<u8>) -> Decoded {
    match state {
        DecoderState::Ground => match byte {
            None => done(KeySeq::Unidentified, false, false),
            Some(b) => first_byte(b, false),
        },
        DecoderState::Escape => match byte {
            None => done(KeySeq::Key(0x1b), false, false),
            Some(b) => if b == 0x5b {
                Decoded { next: DecoderState::Csi(Seq::empty()), key: None }
            } else if b < 0x20 || b == 0x7f {
                done(KeySeq::Key(0x1b), false, false)
            } else {
                first_byte(b, true)
            },
        },
        DecoderState::Csi(buf) => match byte {
            None => done(KeySeq::Unidentified, false, false),
            Some(b) => if is_final_byte(b) {
                csi_key(buf, b)
            } else {
                Decoded { next: DecoderState::Csi(buf.push(b)), key: None }
            },
        },
        DecoderState::Utf8(buf, alt) => match byte {
            None => Decoded { next: DecoderState::Ground, key: Some(Err(buf)) },
            Some(b) => {
                let bytes = buf.push(b);
                if valid_utf8(bytes) {
                    done(KeySeq::Utf8Key(decode_first_scalar(bytes) as char), false, alt)
                } else if bytes.len() >= 4 {
                    Decoded { next: DecoderState::Ground, key: Some(Err(bytes)) }
                } else {
                    Decoded { next: DecoderState::Utf8(bytes, alt), key: None }
                }
            },
        },
    }
}

/// True when `out` is what the model says: no key, the same key, or the
/// failure for bytes that are no character.
pub open spec fn is_outcome(
    out: Option<Result<InputSeq>>,
    key: Option<core::result::Result<InputSeq, Seq<u8>>>,
) -> bool {
    match key {
        None => out is None,
        Some(Ok(seq)) => out == Some(Ok::<InputSeq, Error>(seq)),
        Some(Err(bytes)) => out matches Some(Err(Error::NotUtf8Input(v))) && v@ == bytes,
    }
}

/// Calls `core::str::from_utf8`, which gives the text that `bytes` are in
/// UTF-8, or fails where they are none.
#[verifier::external_body]
fn utf8_text(bytes: &[u8]) -> (text: Option<&str>)
    ensures
        text is Some <==> valid_utf8(bytes@),
        text matches Some(s) ==> encode_utf8(s@) == bytes@,
{
    core::str::from_utf8(bytes).ok()
}

/// Tells whether `b` ends a control sequence.
fn final_byte(b: u8) -> (r: bool)
    ensures
        r == is_final_byte(b),
{
    b == 0x41 || b == 0x42 || b == 0x43 || b == 0x44 || b == 0x46 || b == 0x48 || b == 0x4b || b
        == 0x4a || b == 0x52 || b == 0x63 || b == 0x66 || b == 0x67 || b == 0x68 || b == 0x6c || b
        == 0x6d || b == 0x6e || b == 0x71 || b == 0x74 || b == 0x79 || b == 0x7e
}

impl Decoder {
    /// A decoder that has read no byte.
    pub fn new() -> (d: Decoder)
        ensures
            d@ == DecoderState::Ground,
    {
        Decoder::Ground
    }

    /// Takes the next byte from the terminal, or `None` where the terminal
    /// sent nothing in time. Returns the decoder for the byte after it, and
    /// the key that is complete with this byte, if one is: then the decoder
    /// is back at the start.
    pub fn feed(self, byte: Option<u8>) -> (r: (Decoder, Option<Result<InputSeq>>))
        ensures
            r.0@ == decode_step(self@, byte).next,
            is_outcome(r.1, decode_step(self@, byte).key),
    {
        match self {
            Decoder::Ground => match byte {
                None => (Decoder::Ground, Some(Ok(InputSeq::new(KeySeq::Unidentified)))),
                Some(b) => Decoder::decode(b, false),
            },
            Decoder::Escape => match byte {
                None => (Decoder::Ground, Some(Ok(InputSeq::new(KeySeq::Key(0x1b))))),
                Some(b) => {
                    if b == 0x5b {
                        let buf: Vec<u8> = Vec::new();
                        (Decoder::Csi(buf), None)
                    } else if b < 0x20 || b == 0x7f {
                        (Decoder::Ground, Some(Ok(InputSeq::new(KeySeq::Key(0x1b)))))
                    } else {
                        Decoder::decode(b, true)
                    }
                },
            },
            Decoder::Csi(buf) => match byte {
                None => (Decoder::Ground, Some(Ok(InputSeq::new(KeySeq::Unidentified)))),
                Some(b) => {
                    if final_byte(b) {
                        (Decoder::Ground, Some(Ok(Decoder::decode_escape_sequence(&buf, b))))
                    } else {
                        let mut buf = buf;
                        buf.push(b);
                        (Decoder::Csi(buf), None)
                    }
                },
            },
            Decoder::Utf8(buf, alt) => Decoder::decode_utf8(buf, alt, byte),
        }
    }

    /// The key for the first byte `b` of a key.
    fn decode(b: u8, alt: bool) -> (r: (Decoder, Option<Result<InputSeq>>))
        ensures
            r.0@ == first_byte(b, alt).next,
            is_outcome(r.1, first_byte(b, alt).key),
    {
        if b == 0x1b {
            (Decoder::Escape, None)
        } else if b == 0x00 || b == 0x1f {
            (Decoder::Ground, Some(Ok(InputSeq { key: KeySeq::Key(b | 0x20), ctrl: true, alt })))
        } else if b == 0x1c || b == 0x1d {
            (Decoder::Ground, Some(Ok(InputSeq { key: KeySeq::Key(b | 0x40), ctrl: true, alt })))
        } else if b < 0x20 {
            (Decoder::Ground, Some(Ok(InputSeq { key: KeySeq::Key(b | 0x60), ctrl: true, alt })))
        } else if b < 0x80 {
            (Decoder::Ground, Some(Ok(InputSeq { key: KeySeq::Key(b), ctrl: false, alt })))
        } else if b < 0xa0 {
            (Decoder::Ground, Some(Ok(InputSeq { key: KeySeq::Unidentified, ctrl: false, alt })))
        } else {
            let mut buf: Vec<u8> = Vec::new();
            buf.push(b);
            assert(buf@ =~= seq![b]);
            (Decoder::Utf8(buf, alt), None)
        }
    }

    /// The key for a control sequence with the arguments `buf` and the final
    /// byte `cmd`.
    fn decode_escape_sequence(buf: &Vec<u8>, cmd: u8) -> (seq: InputSeq)
        requires
            is_final_byte(cmd),
        ensures
            csi_key(buf@, cmd).key == Some(Ok::<InputSeq, Seq<u8>>(seq)),
    {
        let n = buf.len();
        if cmd == 0x41 || cmd == 0x42 || cmd == 0x43 || cmd == 0x44 {
            let key = if cmd == 0x41 {
                KeySeq::UpKey
            } else if cmd == 0x42 {
                KeySeq::DownKey
            } else if cmd == 0x43 {
                KeySeq::RightKey
            } else {
                KeySeq::LeftKey
            };
            let ctrl = n >= 3 && buf[0] == 0x31 && buf[1] == 0x3b && buf[2] == 0x35 && (n == 3
                || buf[3] == 0x3b);
            InputSeq { key, ctrl, alt: false }
        } else if cmd == 0x7e && n >= 1 && buf[0] == 0x33 && (n == 1 || buf[1] == 0x3b) {
            InputSeq::new(KeySeq::DeleteKey)
        } else {
            InputSeq::new(KeySeq::Unidentified)
        }
    }

    /// The next step in a character of more than one byte, of which `buf`
    /// was read.
    fn decode_utf8(buf: Vec<u8>, alt: bool, byte: Option<u8>) -> (r: (
        Decoder,
        Option<Result<InputSeq>>,
    ))
        ensures
            r.0@ == decode_step(DecoderState::Utf8(buf@, alt), byte).next,
            is_outcome(r.1, decode_step(DecoderState::Utf8(buf@, alt), byte).key),
    {
        let mut buf = buf;
        match byte {
            None => (Decoder::Ground, Some(Err(Error::NotUtf8Input(buf)))),
            Some(b) => {
                buf.push(b);
                match utf8_text(buf.as_slice()) {
                    Some(s) => {
                        proof {
                            vstd::utf8::decode_utf8_encode_utf8(buf@);
                            vstd::utf8::encode_utf8_decode_utf8(s@);
                            assert(s@ == decode_utf8(buf@));
                        }
                        let c = s.get_char(0);
                        (
                            Decoder::Ground,
                            Some(Ok(InputSeq { key: KeySeq::Utf8Key(c), ctrl: false, alt })),
                        )
                    },
                    None => {
                        if buf.len() >= 4 {
                            (Decoder::Ground, Some(Err(Error::NotUtf8Input(buf))))
                        } else {
                            (Decoder::Utf8(buf, alt), None)
                        }
                    },
                }
            },
        }
    }
}

/// What the decoder has come to when the terminal has sent `bytes` one after
/// another, beginning in the state `state`: the first key that is complete,
/// or the state after the last byte.
pub open spec fn decode_run(state: DecoderState, bytes: Seq<u8>) -> Decoded
    decreases bytes.len(),
{
    if bytes.len() == 0 {
        Decoded { next: state, key: None }
    } else {
        let before = decode_run(state, bytes.drop_last());
        if before.key is Some {
            before
        } else {
            decode_step(before.next, Some(bytes.last()))
        }
    }
}

/// The bytes of a character beyond ASCII decode to that character: no key is
/// complete before the last byte, and with the last byte the key is the
/// character, with no modifier.
pub proof fn lemma_decodes_character(c: char)
    requires
        c as u32 >= 0x80,
    ensures
        decode_run(DecoderState::Ground, encode_scalar(c as u32)) == done(
            KeySeq::Utf8Key(c),
            false,
            false,
        ),
        forall|k: int|
            0 <= k < encode_scalar(c as u32).len() ==> (#[trigger] decode_run(
                DecoderState::Ground,
                encode_scalar(c as u32).take(k),
            )).key is None,
{
    let e = encode_scalar(c as u32);
    let text = seq![c];
    lemma_encode_single(c);
    lemma_scalar_len(c);
    encode_utf8_first_scalar(text);
    encode_utf8_valid_utf8(text);
    char_u32_cast(c, decode_first_scalar(e));
    assert(valid_utf8(e));
    assert(length_of_first_scalar(e) == e.len());
    let n = e.len() as int;
    let g = DecoderState::Ground;
    assert(e.take(0) =~= Seq::<u8>::empty());
    assert(decode_run(g, e.take(0)) == (Decoded { next: g, key: None }));
    assert(e.take(1).drop_last() =~= e.take(0));
    assert(e.take(1).last() == e[0]);
    let r1 = decode_run(g, e.take(1));
    assert(r1 == first_byte(e[0], false));
    assert(e[0] >= 0xa0);
    assert(r1.next == DecoderState::Utf8(seq![e[0]], false) && r1.key is None);
    assert(seq![e[0]] =~= e.take(1));
    assert(e.take(2).drop_last() =~= e.take(1));
    assert(e.take(2).last() == e[1]);
    assert(e.take(1).push(e[1]) =~= e.take(2));
    let r2 = decode_run(g, e.take(2));
    if n == 2 {
        assert(e.take(2) =~= e);
    } else {
        assert(!valid_utf8(e.take(2))) by {
            assert(e.take(2)[0] == e[0]);
        }
        assert(r2.next == DecoderState::Utf8(e.take(2), false) && r2.key is None);
        assert(e.take(3).drop_last() =~= e.take(2));
        assert(e.take(3).last() == e[2]);
        assert(e.take(2).push(e[2]) =~= e.take(3));
        let r3 = decode_run(g, e.take(3));
        if n == 3 {
            assert(e.take(3) =~= e);
        } else {
            assert(!valid_utf8(e.take(3))) by {
                assert(e.take(3)[0] == e[0]);
            }
            assert(r3.next == DecoderState::Utf8(e.take(3), false) && r3.key is None);
            assert(e.take(4).drop_last() =~= e.take(3));
            assert(e.take(4).last() == e[3]);
            assert(e.take(3).push(e[3]) =~= e.take(4));
            assert(e.take(4) =~= e);
        }
    }
    assert forall|k: int| 0 <= k < e.len() implies (#[trigger] decode_run(g, e.take(k))).key
        is None by {
        if k == 0 {
        } else if k == 1 {
        } else if k == 2 {
        } else {
        }
    }
}

} // verus!
