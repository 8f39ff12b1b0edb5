//! Character indices and byte offsets in UTF-8 text.

use vstd::prelude::*;
use vstd::utf8::*;

verus! {

/// The byte at which character `i` of `s` starts; for `i == s.len()`, the
/// length of the text in bytes.
pub open spec fn byte_offset(s: Seq<char>, i: int) -> int {
    encode_utf8(s.take(i)).len() as int
}

/// The number of bytes that `c` takes in UTF-8.
pub open spec fn scalar_len(c: char) -> int {
    encode_scalar(c as u32).len() as int
}

/// A character takes one to four bytes, by the size of its code point.
pub proof fn lemma_scalar_len(c: char)
    ensures
        1 <= scalar_len(c) <= 4,
        scalar_len(c) == if (c as u32) < 0x80 {
            1int
        } else if (c as u32) < 0x800 {
            2int
        } else if (c as u32) < 0x10000 {
            3int
        } else {
            4int
        },
{
    char_is_scalar(c);
}

/// Encoding distributes over concatenation.
pub proof fn lemma_encode_concat(a: Seq<char>, b: Seq<char>)
    ensures
        encode_utf8(a + b) =~= encode_utf8(a) + encode_utf8(b),
    decreases a.len(),
{
    if a.len() == 0 {
        assert(a + b =~= b);
    } else {
        lemma_encode_concat(a.drop_first(), b);
        assert((a + b).drop_first() =~= a.drop_first() + b);
        assert((a + b)[0] == a[0]);
    }
}

/// Two texts with the same bytes are the same text.
pub proof fn lemma_encode_injective(a: Seq<char>, b: Seq<char>)
    requires
        encode_utf8(a) == encode_utf8(b),
    ensures
        a == b,
{
    encode_utf8_decode_utf8(a);
    encode_utf8_decode_utf8(b);
}

/// The encoding of a single character.
pub proof fn lemma_encode_single(c: char)
    ensures
        encode_utf8(seq![c]) =~= encode_scalar(c as u32),
{
    let s = seq![c];
    assert(s.drop_first() =~= Seq::<char>::empty());
    assert(encode_utf8(s.drop_first()) =~= Seq::<u8>::empty()) by {
        reveal_with_fuel(encode_utf8, 1);
    }
    assert(encode_utf8(s) == encode_scalar(s[0] as u32) + encode_utf8(s.drop_first()));
}

/// The offset of the next character is the offset of this one plus its length.
pub proof fn lemma_byte_offset_step(s: Seq<char>, i: int)
    requires
        0 <= i < s.len(),
    ensures
        byte_offset(s, i + 1) == byte_offset(s, i) + scalar_len(s[i]),
        byte_offset(s, i) < byte_offset(s, i + 1),
{
    assert(s.take(i + 1) =~= s.take(i) + seq![s[i]]);
    lemma_encode_concat(s.take(i), seq![s[i]]);
    lemma_encode_single(s[i]);
    lemma_scalar_len(s[i]);
}

/// Byte offsets start at zero, end at the length in bytes, and each character
/// takes at least one byte.
pub proof fn lemma_byte_offset_bounds(s: Seq<char>, i: int)
    requires
        0 <= i <= s.len(),
    ensures
        byte_offset(s, 0) == 0,
        byte_offset(s, s.len() as int) == encode_utf8(s).len(),
        i <= byte_offset(s, i) <= encode_utf8(s).len(),
        encode_utf8(s).len() - byte_offset(s, i) >= s.len() - i,
    decreases s.len() - i,
{
    assert(s.take(0) =~= Seq::<char>::empty());
    assert(s.take(s.len() as int) =~= s);
    if i < s.len() {
        lemma_byte_offset_step(s, i);
        lemma_byte_offset_bounds(s, i + 1);
    }
    lemma_byte_offset_lower(s, i);
}

/// The offset of a character is at least its index.
proof fn lemma_byte_offset_lower(s: Seq<char>, i: int)
    requires
        0 <= i <= s.len(),
    ensures
        i <= byte_offset(s, i),
    decreases i,
{
    if i == 0 {
        assert(s.take(0) =~= Seq::<char>::empty());
    } else {
        lemma_byte_offset_lower(s, i - 1);
        lemma_byte_offset_step(s, i - 1);
    }
}

/// Byte offsets grow strictly with the character index.
pub proof fn lemma_byte_offset_increasing(s: Seq<char>, i: int, j: int)
    requires
        0 <= i < j <= s.len(),
    ensures
        byte_offset(s, i) < byte_offset(s, j),
    decreases j - i,
{
    if i + 1 < j {
        lemma_byte_offset_increasing(s, i, j - 1);
    }
    lemma_byte_offset_step(s, j - 1);
}

/// Cutting the bytes at the offset of character `i` gives the bytes of the
/// first `i` characters and the bytes of the rest.
pub proof fn lemma_split_at_offset(s: Seq<char>, i: int)
    requires
        0 <= i <= s.len(),
    ensures
        encode_utf8(s).subrange(0, byte_offset(s, i)) =~= encode_utf8(s.take(i)),
        encode_utf8(s).subrange(byte_offset(s, i), encode_utf8(s).len() as int) =~= encode_utf8(
            s.skip(i),
        ),
        encode_utf8(s) =~= encode_utf8(s.take(i)) + encode_utf8(s.skip(i)),
{
    assert(s =~= s.take(i) + s.skip(i));
    lemma_encode_concat(s.take(i), s.skip(i));
}

/// The offset of every character, and the end of the text, is a character
/// boundary of its bytes.
pub proof fn lemma_offset_is_boundary(s: Seq<char>, i: int)
    requires
        0 <= i <= s.len(),
    ensures
        is_char_boundary(encode_utf8(s), byte_offset(s, i)),
    decreases i,
{
    let bytes = encode_utf8(s);
    encode_utf8_valid_utf8(s);
    if i == 0 {
        assert(s.take(0) =~= Seq::<char>::empty());
    } else {
        let rest = s.drop_first();
        encode_utf8_first_scalar(s);
        assert(pop_first_scalar(bytes) =~= encode_utf8(rest));
        lemma_offset_is_boundary(rest, i - 1);
        assert(s.take(i) =~= seq![s[0]] + rest.take(i - 1));
        lemma_encode_concat(seq![s[0]], rest.take(i - 1));
        lemma_encode_single(s[0]);
        lemma_byte_offset_bounds(s, i);
        lemma_scalar_len(s[0]);
        assert(byte_offset(s, i) == length_of_first_scalar(bytes) + byte_offset(rest, i - 1));
    }
}

/// The character that is decoded at the byte offset of character `i` is
/// character `i`.
pub proof fn lemma_char_at_offset(s: Seq<char>, i: int)
    requires
        0 <= i < s.len(),
    ensures
        decode_first_scalar(
            encode_utf8(s).subrange(byte_offset(s, i), encode_utf8(s).len() as int),
        ) == s[i] as u32,
{
    lemma_split_at_offset(s, i);
    encode_utf8_first_scalar(s.skip(i));
    assert(s.skip(i)[0] == s[i]);
}

/// The number of bytes that `c` takes in UTF-8.
pub fn len_utf8(c: char) -> (n: usize)
    ensures
        n == scalar_len(c),
        1 <= n <= 4,
{
    proof {
        lemma_scalar_len(c);
    }
    let code: u32 = c as u32;
    if code < 0x80 {
        1
    } else if code < 0x800 {
        2
    } else if code < 0x10000 {
        3
    } else {
        4
    }
}

} // verus!

verus! {

/// Calls `String::push`, which appends `c` to the end of `s`.
#[verifier::external_body]
pub(crate) fn string_push(s: &mut String, c: char)
    ensures
        final(s)@ == old(s)@.push(c),
{
    s.push(c)
}

/// Calls `String::insert`, which puts the bytes of `c` in front of the byte at
/// `idx`. It panics unless `idx` lies on a character boundary, which the
/// contract requires.
#[verifier::external_body]
pub(crate) fn string_insert(s: &mut String, idx: usize, c: char)
    requires
        is_char_boundary(encode_utf8(old(s)@), idx as int),
    ensures
        encode_utf8(final(s)@) == encode_utf8(old(s)@).subrange(0, idx as int) + encode_scalar(
            c as u32,
        ) + encode_utf8(old(s)@).subrange(idx as int, encode_utf8(old(s)@).len() as int),
{
    s.insert(idx, c)
}

/// Calls `String::truncate`, which keeps the first `new_len` bytes of `s`. It
/// panics unless `new_len` lies on a character boundary, which the contract
/// requires.
#[verifier::external_body]
pub(crate) fn string_truncate(s: &mut String, new_len: usize)
    requires
        is_char_boundary(encode_utf8(old(s)@), new_len as int),
    ensures
        encode_utf8(final(s)@) == encode_utf8(old(s)@).subrange(0, new_len as int),
{
    s.truncate(new_len)
}

/// Calls `String::remove`, which takes out the character that starts at byte
/// `idx` and returns it. It panics unless `idx` is the first byte of a
/// character, which the contract requires.
#[verifier::external_body]
pub(crate) fn string_remove(s: &mut String, idx: usize) -> (c: char)
    requires
        idx < encode_utf8(old(s)@).len(),
        is_char_boundary(encode_utf8(old(s)@), idx as int),
    ensures
        c as u32 == decode_first_scalar(
            encode_utf8(old(s)@).subrange(idx as int, encode_utf8(old(s)@).len() as int),
        ),
        encode_utf8(final(s)@) == encode_utf8(old(s)@).subrange(0, idx as int) + pop_first_scalar(
            encode_utf8(old(s)@).subrange(idx as int, encode_utf8(old(s)@).len() as int),
        ),
{
    s.remove(idx)
}

/// Calls `String::drain` on the bytes from `start` up to `end` and drops what
/// it hands out, which takes those bytes out of `s`. It panics unless both
/// ends lie on character boundaries, in order, which the contract requires.
#[verifier::external_body]
pub(crate) fn string_drain(s: &mut String, start: usize, end: usize)
    requires
        start <= end,
        is_char_boundary(encode_utf8(old(s)@), start as int),
        is_char_boundary(encode_utf8(old(s)@), end as int),
    ensures
        encode_utf8(final(s)@) == encode_utf8(old(s)@).subrange(0, start as int) + encode_utf8(
            old(s)@,
        ).subrange(end as int, encode_utf8(old(s)@).len() as int),
{
    s.drain(start..end);
}

/// Replacing the characters from `i` up to `j` by `mid` replaces the bytes
/// between their offsets by the bytes of `mid`.
pub proof fn lemma_splice(s: Seq<char>, i: int, j: int, mid: Seq<char>)
    requires
        0 <= i <= j <= s.len(),
    ensures
        encode_utf8(s.take(i) + mid + s.skip(j)) =~= encode_utf8(s).subrange(0, byte_offset(s, i))
            + encode_utf8(mid) + encode_utf8(s).subrange(
            byte_offset(s, j),
            encode_utf8(s).len() as int,
        ),
{
    lemma_split_at_offset(s, i);
    lemma_split_at_offset(s, j);
    lemma_encode_concat(s.take(i) + mid, s.skip(j));
    lemma_encode_concat(s.take(i), mid);
}

} // verus!
