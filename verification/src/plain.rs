//! Plain values that live in a shared byte region.
//!
//! A shared mapping holds values as raw little-endian bytes. `Plain` describes a
//! type by its byte length and its encoding, so that reading and writing the
//! region can be stated over `Seq<u8>`.
use vstd::prelude::*;

verus! {

/// The four little-endian bytes `s[0..4]` read as an unsigned word.
pub open spec fn u32_of_le(s: Seq<u8>) -> u32 {
    (s[0] as u32) | ((s[1] as u32) << 8u32) | ((s[2] as u32) << 16u32) | ((s[3] as u32) << 24u32)
}

/// The little-endian bytes of an unsigned word.
pub open spec fn le_of_u32(x: u32) -> Seq<u8> {
    seq![
        (x & 0xffu32) as u8,
        ((x >> 8u32) & 0xffu32) as u8,
        ((x >> 16u32) & 0xffu32) as u8,
        ((x >> 24u32) & 0xffu32) as u8,
    ]
}

/// The four little-endian bytes `s[0..4]` read as a signed word.
pub open spec fn i32_of_le(s: Seq<u8>) -> i32 {
    u32_of_le(s) as i32
}

/// The little-endian bytes of a signed word (two's complement).
pub open spec fn le_of_i32(x: i32) -> Seq<u8> {
    le_of_u32(x as u32)
}

/// Four bytes read as a signed word are the little-endian base-256 number they
/// spell, taken in two's complement: the last byte is the most significant one,
/// and a last byte of 128 or more makes the word negative.
pub proof fn law_i32_of_le_is_base_256(s: Seq<u8>)
    requires
        s.len() == 4,
    ensures
        i32_of_le(s) as int == s[0] as int + 256 * s[1] + 65536 * s[2] + 16777216 * s[3] - (
        if s[3] >= 128 {
            4294967296int
        } else {
            0int
        }),
{
    let b0: u8 = s[0];
    let b1: u8 = s[1];
    let b2: u8 = s[2];
    let b3: u8 = s[3];
    let y: u32 = u32_of_le(s);
    assert(y == (b0 as u32) | ((b1 as u32) << 8u32) | ((b2 as u32) << 16u32) | ((b3 as u32)
        << 24u32));
    assert(((b0 as u32) | ((b1 as u32) << 8u32) | ((b2 as u32) << 16u32) | ((b3 as u32) << 24u32))
        == (b0 as u32) + (b1 as u32) * 256u32 + (b2 as u32) * 65536u32 + (b3 as u32)
        * 16777216u32) by (bit_vector);
    assert((b3 >= 128u8) == (y >= 0x8000_0000u32)) by (bit_vector)
        requires
            y == (b0 as u32) + (b1 as u32) * 256u32 + (b2 as u32) * 65536u32 + (b3 as u32)
                * 16777216u32,
    ;
    assert((y as i32) as int == if y >= 0x8000_0000u32 {
        y as int - 4294967296int
    } else {
        y as int
    }) by (bit_vector);
}

/// Decoding the encoding of a word gives the word back.
pub proof fn lemma_i32_decode_encode(x: i32)
    ensures
        le_of_i32(x).len() == 4,
        i32_of_le(le_of_i32(x)) == x,
{
    let y: u32 = x as u32;
    let b0: u8 = (y & 0xffu32) as u8;
    let b1: u8 = ((y >> 8u32) & 0xffu32) as u8;
    let b2: u8 = ((y >> 16u32) & 0xffu32) as u8;
    let b3: u8 = ((y >> 24u32) & 0xffu32) as u8;
    assert(((b0 as u32) | ((b1 as u32) << 8u32) | ((b2 as u32) << 16u32) | ((b3 as u32) << 24u32))
        == y) by (bit_vector)
        requires
            b0 == (y & 0xffu32) as u8,
            b1 == ((y >> 8u32) & 0xffu32) as u8,
            b2 == ((y >> 16u32) & 0xffu32) as u8,
            b3 == ((y >> 24u32) & 0xffu32) as u8,
    ;
    assert((y as i32) == x) by (bit_vector)
        requires
            y == x as u32,
    ;
    let s = le_of_i32(x);
    assert(s[0] == b0 && s[1] == b1 && s[2] == b2 && s[3] == b3);
}

/// Encoding the word that four bytes decode to gives the same four bytes.
pub proof fn lemma_i32_encode_decode(s: Seq<u8>)
    requires
        s.len() == 4,
    ensures
        le_of_i32(i32_of_le(s)) == s,
{
    let b0: u8 = s[0];
    let b1: u8 = s[1];
    let b2: u8 = s[2];
    let b3: u8 = s[3];
    let y: u32 = (b0 as u32) | ((b1 as u32) << 8u32) | ((b2 as u32) << 16u32) | ((b3 as u32) << 24u32);
    assert(y == u32_of_le(s));
    assert(((y as i32) as u32) == y) by (bit_vector);
    assert(((y & 0xffu32) as u8) == b0 && (((y >> 8u32) & 0xffu32) as u8) == b1 && (((y >> 16u32)
        & 0xffu32) as u8) == b2 && (((y >> 24u32) & 0xffu32) as u8) == b3) by (bit_vector)
        requires
            y == (b0 as u32) | ((b1 as u32) << 8u32) | ((b2 as u32) << 16u32) | ((b3 as u32)
                << 24u32),
    ;
    assert(le_of_i32(i32_of_le(s)) =~= s);
}

/// A value that is stored in a byte region as a fixed number of bytes.
pub trait Plain: Sized + Copy {
    /// The number of bytes one value takes.
    spec fn byte_len() -> nat;

    /// The value that exactly `byte_len()` bytes hold.
    spec fn from_bytes(bytes: Seq<u8>) -> Self;

    /// The bytes that hold a value.
    spec fn to_bytes(self) -> Seq<u8>;

    /// Decoding an encoding gives the value back.
    proof fn lemma_from_to(v: Self)
        ensures
            v.to_bytes().len() == Self::byte_len(),
            Self::from_bytes(v.to_bytes()) == v,
    ;

    /// Every byte string of the right length is the encoding of what it decodes to.
    proof fn lemma_to_from(bytes: Seq<u8>)
        requires
            bytes.len() == Self::byte_len(),
        ensures
            Self::from_bytes(bytes).to_bytes() == bytes,
    ;

    /// The number of bytes one value takes.
    fn size() -> (n: usize)
        ensures
            n == Self::byte_len(),
    ;

    /// Reads the value stored at `pos`.
    fn decode(bytes: &[u8], pos: usize) -> (v: Self)
        requires
            pos + Self::byte_len() <= bytes@.len(),
        ensures
            v == Self::from_bytes(bytes@.subrange(pos as int, pos + Self::byte_len())),
    ;

    /// Stores the value at `pos`, leaving every other byte as it was.
    fn encode(&self, bytes: &mut Vec<u8>, pos: usize)
        requires
            pos + Self::byte_len() <= old(bytes)@.len(),
        ensures
            final(bytes)@ == old(bytes)@.take(pos as int) + self.to_bytes() + old(bytes)@.skip(
                pos + Self::byte_len(),
            ),
    ;
}

impl Plain for u8 {
    open spec fn byte_len() -> nat {
        1
    }

    open spec fn from_bytes(bytes: Seq<u8>) -> u8 {
        bytes[0]
    }

    open spec fn to_bytes(self) -> Seq<u8> {
        seq![self]
    }

    proof fn lemma_from_to(v: u8) {
    }

    proof fn lemma_to_from(bytes: Seq<u8>) {
        assert(seq![bytes[0]] =~= bytes);
    }

    fn size() -> (n: usize) {
        1
    }

    fn decode(bytes: &[u8], pos: usize) -> (v: u8) {
        bytes[pos]
    }

    fn encode(&self, bytes: &mut Vec<u8>, pos: usize) {
        bytes.set(pos, *self);
        assert(bytes@ =~= old(bytes)@.take(pos as int) + self.to_bytes() + old(bytes)@.skip(
            pos + 1,
        ));
    }
}

impl Plain for i32 {
    open spec fn byte_len() -> nat {
        4
    }

    open spec fn from_bytes(bytes: Seq<u8>) -> i32 {
        i32_of_le(bytes)
    }

    open spec fn to_bytes(self) -> Seq<u8> {
        le_of_i32(self)
    }

    proof fn lemma_from_to(v: i32) {
        lemma_i32_decode_encode(v);
    }

    proof fn lemma_to_from(bytes: Seq<u8>) {
        lemma_i32_encode_decode(bytes);
    }

    fn size() -> (n: usize) {
        4
    }

    fn decode(bytes: &[u8], pos: usize) -> (v: i32) {
        let b0: u32 = bytes[pos] as u32;
        let b1: u32 = bytes[pos + 1] as u32;
        let b2: u32 = bytes[pos + 2] as u32;
        let b3: u32 = bytes[pos + 3] as u32;
        let w: u32 = b0 | (b1 << 8u32) | (b2 << 16u32) | (b3 << 24u32);
        let ghost s = bytes@.subrange(pos as int, pos + 4);
        assert(s[0] == bytes@[pos as int] && s[1] == bytes@[pos + 1] && s[2] == bytes@[pos + 2]
            && s[3] == bytes@[pos + 3]);
        w as i32
    }

    fn encode(&self, bytes: &mut Vec<u8>, pos: usize) {
        let w: u32 = *self as u32;
        let n: usize = bytes.len();
        assert(pos + 4 <= n);
        bytes.set(pos, (w & 0xffu32) as u8);
        bytes.set(pos + 1, ((w >> 8u32) & 0xffu32) as u8);
        bytes.set(pos + 2, ((w >> 16u32) & 0xffu32) as u8);
        bytes.set(pos + 3, ((w >> 24u32) & 0xffu32) as u8);
        assert(bytes@ =~= old(bytes)@.take(pos as int) + self.to_bytes() + old(bytes)@.skip(
            pos + 4,
        ));
    }
}

} // verus!
