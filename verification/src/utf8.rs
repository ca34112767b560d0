//! UTF-8: the encoding of characters as bytes, and the two decoders of
//! std the library calls.

use vstd::prelude::*;

verus! {

/// What `String::from_utf8_lossy` decodes `bytes` to: their characters, with
/// U+FFFD in place of each invalid sequence.
pub uninterp spec fn utf8_lossy(bytes: Seq<u8>) -> Seq<char>;

/// `String::from_utf8_lossy` (std): decodes bytes, replacing invalid UTF-8.
/// Claimed: the result is `utf8_lossy` of the bytes, a function of them
/// alone, and has no more characters than there are bytes (each character
/// decodes from one to four bytes, each U+FFFD replaces at least one).
#[verifier::external_body]
pub(crate) fn string_from_utf8_lossy(bytes: &[u8]) -> (r: String)
    ensures
        r@ == utf8_lossy(bytes@),
        r@.len() <= bytes@.len(),
{
    String::from_utf8_lossy(bytes).into_owned()
}

/// The UTF-8 encoding of one character.
pub open spec fn utf8_of(c: char) -> Seq<u8> {
    let n = c as u32;
    if n < 0x80 {
        seq![n as u8]
    } else if n < 0x800 {
        seq![(0xC0 + n / 64) as u8, (0x80 + n % 64) as u8]
    } else if n < 0x10000 {
        seq![(0xE0 + n / 4096) as u8, (0x80 + (n / 64) % 64) as u8, (0x80 + n % 64) as u8]
    } else {
        seq![
            (0xF0 + n / 262144) as u8,
            (0x80 + (n / 4096) % 64) as u8,
            (0x80 + (n / 64) % 64) as u8,
            (0x80 + n % 64) as u8,
        ]
    }
}

/// The UTF-8 encoding of a character sequence.
pub open spec fn utf8_encode(s: Seq<char>) -> Seq<u8>
    decreases s.len(),
{
    if s.len() == 0 {
        Seq::<u8>::empty()
    } else {
        utf8_of(s[0]) + utf8_encode(s.skip(1))
    }
}

/// What `String::from_utf8` decodes `bytes` to: `None` for invalid UTF-8.
pub uninterp spec fn utf8_text(bytes: Seq<u8>) -> Option<Seq<char>>;

/// `String::from_utf8` (std), keeping the text when the bytes are valid
/// UTF-8. Claimed: the result is `utf8_text` of the bytes; it is some text
/// exactly when some text encodes to the bytes, and then it encodes to them.
#[verifier::external_body]
pub(crate) fn string_from_utf8(bytes: &[u8]) -> (r: Option<String>)
    ensures
        match r {
            Some(s) => utf8_text(bytes@) == Some(s@) && utf8_encode(s@) == bytes@,
            None => utf8_text(bytes@) is None && forall|t: Seq<char>| utf8_encode(t) != bytes@,
        },
{
    String::from_utf8(bytes.to_vec()).ok()
}

/// Every character takes at least one byte.
pub proof fn lemma_utf8_encode_len(s: Seq<char>)
    ensures
        utf8_encode(s).len() >= s.len(),
    decreases s.len(),
{
    if s.len() > 0 {
        lemma_utf8_encode_len(s.skip(1));
    }
}

/// Appends the UTF-8 encoding of `c`.
pub fn push_utf8(out: &mut Vec<u8>, c: char)
    ensures
        final(out)@ == old(out)@ + utf8_of(c),
{
    let n: u32 = c as u32;
    if n < 0x80 {
        out.push(n as u8);
        assert(out@ =~= old(out)@ + utf8_of(c));
    } else if n < 0x800 {
        out.push((0xC0 + n / 64) as u8);
        out.push((0x80 + n % 64) as u8);
        assert(out@ =~= old(out)@ + utf8_of(c));
    } else if n < 0x10000 {
        out.push((0xE0 + n / 4096) as u8);
        out.push((0x80 + (n / 64) % 64) as u8);
        out.push((0x80 + n % 64) as u8);
        assert(out@ =~= old(out)@ + utf8_of(c));
    } else {
        out.push((0xF0 + n / 262144) as u8);
        out.push((0x80 + (n / 4096) % 64) as u8);
        out.push((0x80 + (n / 64) % 64) as u8);
        out.push((0x80 + n % 64) as u8);
        assert(out@ =~= old(out)@ + utf8_of(c));
    }
}

} // verus!
