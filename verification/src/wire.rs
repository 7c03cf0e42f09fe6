//! Numbers and text as bytes: little-endian integers and UTF-8.

use vstd::prelude::*;
use vstd::utf8::{decode_utf8, encode_utf8, valid_utf8};

verus! {

/// The two bytes of a 16-bit number, low byte first.
pub open spec fn le16(x: u16) -> Seq<u8> {
    seq![(x % 256) as u8, (x / 256) as u8]
}

/// The number whose low byte is `b[0]` and whose high byte is `b[1]`.
pub open spec fn from_le16(b: Seq<u8>) -> u16 {
    (b[0] + 256 * b[1]) as u16
}

/// The four bytes of a 32-bit number, low byte first.
pub open spec fn le32(x: u32) -> Seq<u8> {
    seq![
        (x % 256) as u8,
        (x / 256 % 256) as u8,
        (x / 65536 % 256) as u8,
        (x / 16777216) as u8,
    ]
}

/// The number that four bytes give, low byte first.
pub open spec fn from_le32(b: Seq<u8>) -> u32 {
    (b[0] + 256 * b[1] + 65536 * b[2] + 16777216 * b[3]) as u32
}

/// The number that eight bytes give, low byte first.
pub open spec fn from_le64(b: Seq<u8>) -> u64 {
    (from_le32(b.subrange(0, 4)) + 4294967296 * from_le32(b.subrange(4, 8))) as u64
}

/// The eight bytes of a 64-bit number, low byte first.
pub open spec fn le64(x: u64) -> Seq<u8> {
    le32((x % 4294967296) as u32) + le32((x / 4294967296) as u32)
}

/// The number that stands for `v` in two's complement, `half` being the least
/// number that stands for a negative one.
pub open spec fn unsigned_of(v: int, half: int) -> int {
    if v < 0 {
        v + 2 * half
    } else {
        v
    }
}

/// The signed number that `v` stands for in two's complement, `half` being
/// the least number that stands for a negative one.
pub open spec fn signed_of(v: int, half: int) -> int {
    if v >= half {
        v - 2 * half
    } else {
        v
    }
}

/// Reading back the bytes of a 16-bit number gives the number.
pub proof fn lemma_le16_round_trip(x: u16)
    ensures
        le16(x).len() == 2,
        from_le16(le16(x)) == x,
{
}

/// Reading back the bytes of a 32-bit number gives the number.
pub proof fn lemma_le32_round_trip(x: u32)
    ensures
        le32(x).len() == 4,
        from_le32(le32(x)) == x,
{
}

/// Two bytes are the bytes of the number that they give.
pub proof fn lemma_le16_bytes(b: Seq<u8>)
    requires
        b.len() == 2,
    ensures
        le16(from_le16(b)) == b,
{
    assert(le16(from_le16(b)) =~= b);
}

/// Four bytes are the bytes of the number that they give.
pub proof fn lemma_le32_bytes(b: Seq<u8>)
    requires
        b.len() == 4,
    ensures
        le32(from_le32(b)) == b,
{
    let x = from_le32(b);
    assert(x == b[0] + 256 * b[1] + 65536 * b[2] + 16777216 * b[3]);
    assert(x % 256 == b[0]);
    assert(x / 256 % 256 == b[1]);
    assert(x / 65536 % 256 == b[2]);
    assert(x / 16777216 == b[3]);
    assert(le32(x) =~= b);
}

/// Bytes that spell a text are the UTF-8 bytes of that text.
pub proof fn lemma_bytes_of_text(b: Seq<u8>)
    requires
        text_of_bytes(b) is Some,
    ensures
        encode_utf8(text_of_bytes(b)->Some_0) == b,
{
    vstd::utf8::decode_utf8_encode_utf8(b);
}

/// Reading back the bytes of a 64-bit number gives the number.
pub proof fn lemma_le64_round_trip(x: u64)
    ensures
        le64(x).len() == 8,
        from_le64(le64(x)) == x,
{
    let lo = (x % 4294967296) as u32;
    let hi = (x / 4294967296) as u32;
    lemma_le32_round_trip(lo);
    lemma_le32_round_trip(hi);
    assert(le64(x).subrange(0, 4) =~= le32(lo));
    assert(le64(x).subrange(4, 8) =~= le32(hi));
}

/// A number and the number that stands for it in two's complement give each
/// other back.
pub proof fn lemma_signed_round_trip(v: int, half: int)
    requires
        half > 0,
        -half <= v < half,
    ensures
        0 <= unsigned_of(v, half) < 2 * half,
        signed_of(unsigned_of(v, half), half) == v,
{
}

/// Appends the eight bytes of `x`, low byte first.
pub fn push_le64(out: &mut Vec<u8>, x: u64)
    ensures
        final(out)@ == old(out)@ + le64(x),
{
    push_le32(out, (x % 4294967296) as u32);
    push_le32(out, (x / 4294967296) as u32);
    proof {
        assert(out@ =~= old(out)@ + le64(x));
    }
}

/// Appends the two bytes of `x`, low byte first.
pub fn push_le16(out: &mut Vec<u8>, x: u16)
    ensures
        final(out)@ == old(out)@ + le16(x),
{
    out.push((x % 256) as u8);
    out.push((x / 256) as u8);
    proof {
        assert(out@ =~= old(out)@ + le16(x));
    }
}

/// Appends the four bytes of `x`, low byte first.
pub fn push_le32(out: &mut Vec<u8>, x: u32)
    ensures
        final(out)@ == old(out)@ + le32(x),
{
    out.push((x % 256) as u8);
    out.push((x / 256 % 256) as u8);
    out.push((x / 65536 % 256) as u8);
    out.push((x / 16777216) as u8);
    proof {
        assert(out@ =~= old(out)@ + le32(x));
    }
}

/// The 16-bit number at `at`, low byte first.
pub fn read_le16(bytes: &Vec<u8>, at: usize) -> (x: u16)
    requires
        at + 2 <= bytes.len(),
    ensures
        x == from_le16(bytes@.subrange(at as int, at + 2)),
{
    let lo = bytes[at] as u16;
    let hi = bytes[at + 1] as u16;
    lo + 256 * hi
}

/// The 32-bit number at `at`, low byte first.
pub fn read_le32(bytes: &Vec<u8>, at: usize) -> (x: u32)
    requires
        at + 4 <= bytes.len(),
    ensures
        x == from_le32(bytes@.subrange(at as int, at + 4)),
{
    let b0 = bytes[at] as u32;
    let b1 = bytes[at + 1] as u32;
    let b2 = bytes[at + 2] as u32;
    let b3 = bytes[at + 3] as u32;
    b0 + 256 * b1 + 65536 * b2 + 16777216 * b3
}

/// The 64-bit number at `at`, low byte first.
pub fn read_le64(bytes: &Vec<u8>, at: usize) -> (x: u64)
    requires
        at + 8 <= bytes.len(),
    ensures
        x == from_le64(bytes@.subrange(at as int, at + 8)),
{
    let lo = read_le32(bytes, at) as u64;
    let hi = read_le32(bytes, at + 4) as u64;
    proof {
        let b = bytes@.subrange(at as int, at + 8);
        assert(b.subrange(0, 4) =~= bytes@.subrange(at as int, at + 4));
        assert(b.subrange(4, 8) =~= bytes@.subrange(at + 4, at + 8));
    }
    lo + 4294967296 * hi
}

/// Appends the bytes `bytes[from..to]`.
pub fn push_bytes(out: &mut Vec<u8>, bytes: &Vec<u8>, from: usize, to: usize)
    requires
        from <= to <= bytes.len(),
    ensures
        final(out)@ == old(out)@ + bytes@.subrange(from as int, to as int),
{
    let ghost before = out@;
    let mut i: usize = from;
    proof {
        assert(before + bytes@.subrange(from as int, from as int) =~= before);
    }
    while i < to
        invariant
            from <= i <= to <= bytes.len(),
            out@ == before + bytes@.subrange(from as int, i as int),
        decreases to - i,
    {
        out.push(bytes[i]);
        proof {
            assert(out@ =~= before + bytes@.subrange(from as int, i + 1));
        }
        i += 1;
    }
}

/// The bytes `bytes[from..to]`.
pub fn copy_bytes(bytes: &Vec<u8>, from: usize, to: usize) -> (r: Vec<u8>)
    requires
        from <= to <= bytes.len(),
    ensures
        r@ == bytes@.subrange(from as int, to as int),
{
    let mut out: Vec<u8> = Vec::new();
    push_bytes(&mut out, bytes, from, to);
    proof {
        assert(out@ =~= bytes@.subrange(from as int, to as int));
    }
    out
}

/// The text that bytes spell in UTF-8, if they spell one.
pub open spec fn text_of_bytes(bytes: Seq<u8>) -> Option<Seq<char>> {
    if valid_utf8(bytes) {
        Some(decode_utf8(bytes))
    } else {
        None
    }
}

/// Calls `String::from_utf8`, which makes a string of bytes that are valid
/// UTF-8 and refuses all others.
#[verifier::external_body]
fn string_from_utf8(bytes: Vec<u8>) -> (r: Option<String>)
    ensures
        r is Some <==> valid_utf8(bytes@),
        r is Some ==> r->Some_0@ == decode_utf8(bytes@),
{
    match String::from_utf8(bytes) {
        Ok(s) => Some(s),
        Err(_) => None,
    }
}

/// The text that `bytes[from..to]` spell in UTF-8, if they spell one.
pub fn read_text(bytes: &Vec<u8>, from: usize, to: usize) -> (r: Option<String>)
    requires
        from <= to <= bytes.len(),
    ensures
        match text_of_bytes(bytes@.subrange(from as int, to as int)) {
            Some(text) => r is Some && r->Some_0@ == text,
            None => r is None,
        },
{
    string_from_utf8(copy_bytes(bytes, from, to))
}

/// Appends the UTF-8 bytes of `text`.
pub fn push_text_bytes(out: &mut Vec<u8>, text: &str)
    ensures
        final(out)@ == old(out)@ + encode_utf8(text@),
{
    let bytes = text.as_bytes();
    let ghost before = out@;
    let mut i: usize = 0;
    proof {
        assert(before + bytes@.take(0) =~= before);
    }
    while i < bytes.len()
        invariant
            i <= bytes.len(),
            bytes@ == encode_utf8(text@),
            out@ == before + bytes@.take(i as int),
        decreases bytes.len() - i,
    {
        out.push(bytes[i]);
        proof {
            assert(out@ =~= before + bytes@.take(i + 1));
        }
        i += 1;
    }
    proof {
        assert(bytes@.take(bytes.len() as int) =~= bytes@);
    }
}

/// Number of bytes that `text` takes in UTF-8.
pub fn text_len(text: &str) -> (n: usize)
    ensures
        n == encode_utf8(text@).len(),
{
    text.as_bytes().len()
}

/// Reading back the UTF-8 bytes of a text gives the text.
pub proof fn lemma_text_round_trip(text: Seq<char>)
    ensures
        text_of_bytes(encode_utf8(text)) == Some(text),
{
    vstd::utf8::encode_utf8_valid_utf8(text);
    vstd::utf8::encode_utf8_decode_utf8(text);
}

} // verus!
