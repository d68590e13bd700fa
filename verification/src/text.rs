//! Records as text.

use vstd::prelude::*;

verus! {

/// The record as characters, one for each glyph.
pub open spec fn as_text(bytes: Seq<u8>) -> Seq<char> {
    Seq::new(bytes.len(), |i: int| bytes[i] as char)
}

/// The record as eight lines of eight characters, each ended by a line feed.
pub open spec fn as_rows(bytes: Seq<u8>) -> Seq<char> {
    Seq::new(
        72,
        |i: int|
            if i % 9 == 8 {
                '\n'
            } else {
                bytes[i / 9 * 8 + i % 9] as char
            },
    )
}

/// `String::push`: the character is added at the end of the string.
#[verifier::external_body]
fn push_char(s: &mut String, c: char)
    ensures
        final(s)@ == old(s)@.push(c),
{
    s.push(c);
}

/// The record as a string of 64 characters.
pub fn text_of(bytes: &[u8; 64]) -> (s: String)
    ensures
        s@ == as_text(bytes@),
{
    let mut s = String::new();
    let mut pos: usize = 0;
    while pos < 64
        invariant
            pos <= 64,
            s@ == as_text(bytes@).take(pos as int),
        decreases 64 - pos,
    {
        push_char(&mut s, bytes[pos] as char);
        pos += 1;
        assert(s@ =~= as_text(bytes@).take(pos as int));
    }
    assert(as_text(bytes@).take(64) =~= as_text(bytes@));
    s
}

/// The record as a string of eight lines.
pub fn rows_of(bytes: &[u8; 64]) -> (s: String)
    ensures
        s@ == as_rows(bytes@),
{
    let mut s = String::new();
    let mut pos: usize = 0;
    while pos < 64
        invariant
            pos <= 64,
            s@ == as_rows(bytes@).take(pos + pos / 8),
        decreases 64 - pos,
    {
        push_char(&mut s, bytes[pos] as char);
        if pos % 8 == 7 {
            push_char(&mut s, '\n');
        }
        pos += 1;
        assert(s@ =~= as_rows(bytes@).take(pos + pos / 8));
    }
    assert(as_rows(bytes@).take(72) =~= as_rows(bytes@));
    s
}

} // verus!
