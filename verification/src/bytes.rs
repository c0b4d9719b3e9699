//! Little-endian words in a byte buffer.
use vstd::prelude::*;

verus! {

/// The word that four bytes spell, least significant byte first.
pub open spec fn le_word(b0: u8, b1: u8, b2: u8, b3: u8) -> u32 {
    (b0 + 0x100 * b1 + 0x1_0000 * b2 + 0x100_0000 * b3) as u32
}

/// The word at byte offset `off`, where the buffer holds all four bytes of it.
pub open spec fn word_at(b: Seq<u8>, off: int) -> Option<u32> {
    if 0 <= off && off + 4 <= b.len() {
        Some(le_word(b[off], b[off + 1], b[off + 2], b[off + 3]))
    } else {
        None
    }
}

/// The four bytes that spell a word, least significant byte first.
pub open spec fn le_bytes(w: u32) -> Seq<u8> {
    seq![
        (w % 0x100) as u8,
        (w / 0x100 % 0x100) as u8,
        (w / 0x1_0000 % 0x100) as u8,
        (w / 0x100_0000) as u8,
    ]
}

/// Reads the little-endian word at `off`; `None` where the buffer ends before it does.
pub fn u32_le(b: &[u8], off: usize) -> (r: Option<u32>)
    ensures
        r == word_at(b@, off as int),
{
    let len: usize = b.len();
    if len < 4 || off > len - 4 {
        return None;
    }
    Some(
        b[off] as u32 + 0x100 * (b[off + 1] as u32) + 0x1_0000 * (b[off + 2] as u32) + 0x100_0000
            * (b[off + 3] as u32),
    )
}

/// Reads the single precision number at `off`, as its pattern.
pub fn f32_le(b: &[u8], off: usize) -> (r: Option<u32>)
    ensures
        r == word_at(b@, off as int),
{
    u32_le(b, off)
}

/// A word that was spelled into a buffer at some offset is read back from there.
pub proof fn spelled_word_is_read_back(before: Seq<u8>, w: u32, after: Seq<u8>)
    ensures
        word_at(before + le_bytes(w) + after, before.len() as int) == Some(w),
{
    let b = before + le_bytes(w) + after;
    let n = before.len() as int;
    assert(b[n] == le_bytes(w)[0] && b[n + 1] == le_bytes(w)[1] && b[n + 2] == le_bytes(w)[2]
        && b[n + 3] == le_bytes(w)[3]);
}

/// A word is read wherever its four bytes lie in the buffer, and nowhere else; each byte
/// counts 256 times as much as the one before it.
pub proof fn word_is_the_sum_of_its_bytes(b: Seq<u8>, off: int)
    ensures
        word_at(b, off) is Some <==> 0 <= off && off + 4 <= b.len(),
        word_at(b, off) matches Some(w) ==> w as int == b[off] as int + 256 * (b[off + 1] as int
            + 256 * (b[off + 2] as int + 256 * (b[off + 3] as int))),
{
}

} // verus!
