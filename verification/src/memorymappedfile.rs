//! Typed access to a shared pixel buffer.
//!
//! The buffer is a byte region that starts with a 32-byte [`Header`] (eight
//! little-endian `i32`s) followed by the pixels. Pixel `index` starts at byte
//! `32 + index * depth`, where `depth` comes from the header. Every access is
//! bounds-checked: a read or write that would leave the region is refused with
//! [`MmfError::OutOfBounds`] and changes nothing.
use vstd::prelude::*;

use crate::plain::{Plain, i32_of_le, le_of_i32, lemma_i32_decode_encode, lemma_i32_encode_decode};

verus! {

/// Why an access to the shared region failed.
#[derive(Clone, Copy, Debug, PartialEq, Eq, Structural)]
pub enum MmfError {
    /// The named mapping could not be opened or mapped.
    OpenFailed,
    /// The access reaches past the end of the region.
    OutOfBounds,
}

/// The header at the start of a shared pixel buffer.
#[derive(Clone, Copy, Debug, PartialEq, Eq, Structural)]
pub struct Header {
    pub size: i32,
    pub typecode: i32,
    pub width: i32,
    pub height: i32,
    pub depth: i32,
    /// Reserved words. They are public because the header's byte layout, which
    /// the public contracts state, names every word.
    pub dummy1: i32,
    pub dummy2: i32,
    pub dummy3: i32,
}

/// The byte length of [`Header`].
pub const HEADER_LEN: usize = 32;

/// The four bytes at `k..k+4` of `b`, as a word.
pub open spec fn word_at(b: Seq<u8>, k: int) -> i32 {
    i32_of_le(b.subrange(k, k + 4))
}

/// If `x` is `s` with `a` spliced in at `p`, and `y` is `x` with `b` spliced in right
/// after `a`, then `y` is `s` with `a + b` spliced in at `p`.
pub proof fn lemma_splice_twice(s: Seq<u8>, x: Seq<u8>, y: Seq<u8>, p: int, a: Seq<u8>, b: Seq<u8>)
    requires
        0 <= p,
        p + a.len() + b.len() <= s.len(),
        x == s.take(p) + a + s.skip(p + a.len()),
        y == x.take(p + a.len()) + b + x.skip(p + a.len() + b.len()),
    ensures
        y == s.take(p) + (a + b) + s.skip(p + a.len() + b.len()),
{
    assert(x.len() == s.len());
    assert(x.take(p + a.len()) =~= s.take(p) + a);
    assert(x.skip(p + a.len() + b.len()) =~= s.skip(p + a.len() + b.len()));
    assert(y =~= s.take(p) + (a + b) + s.skip(p + a.len() + b.len()));
}

impl Default for Header {
    fn default() -> (h: Header)
        ensures
            h.words() == Seq::new(8, |i: int| 0i32),
    {
        Header {
            size: 0,
            typecode: 0,
            width: 0,
            height: 0,
            depth: 0,
            dummy1: 0,
            dummy2: 0,
            dummy3: 0,
        }
    }
}

impl Header {
    /// The eight words of the header, in storage order.
    pub open spec fn words(self) -> Seq<i32> {
        seq![
            self.size,
            self.typecode,
            self.width,
            self.height,
            self.depth,
            self.dummy1,
            self.dummy2,
            self.dummy3,
        ]
    }
}

impl Plain for Header {
    open spec fn byte_len() -> nat {
        32
    }

    open spec fn from_bytes(b: Seq<u8>) -> Header {
        Header {
            size: word_at(b, 0),
            typecode: word_at(b, 4),
            width: word_at(b, 8),
            height: word_at(b, 12),
            depth: word_at(b, 16),
            dummy1: word_at(b, 20),
            dummy2: word_at(b, 24),
            dummy3: word_at(b, 28),
        }
    }

    open spec fn to_bytes(self) -> Seq<u8> {
        le_of_i32(self.size) + le_of_i32(self.typecode) + le_of_i32(self.width) + le_of_i32(
            self.height,
        ) + le_of_i32(self.depth) + le_of_i32(self.dummy1) + le_of_i32(self.dummy2) + le_of_i32(
            self.dummy3,
        )
    }

    proof fn lemma_from_to(v: Header) {
        lemma_i32_decode_encode(v.size);
        lemma_i32_decode_encode(v.typecode);
        lemma_i32_decode_encode(v.width);
        lemma_i32_decode_encode(v.height);
        lemma_i32_decode_encode(v.depth);
        lemma_i32_decode_encode(v.dummy1);
        lemma_i32_decode_encode(v.dummy2);
        lemma_i32_decode_encode(v.dummy3);
        let b = v.to_bytes();
        assert(b.subrange(0, 4) =~= le_of_i32(v.size));
        assert(b.subrange(4, 8) =~= le_of_i32(v.typecode));
        assert(b.subrange(8, 12) =~= le_of_i32(v.width));
        assert(b.subrange(12, 16) =~= le_of_i32(v.height));
        assert(b.subrange(16, 20) =~= le_of_i32(v.depth));
        assert(b.subrange(20, 24) =~= le_of_i32(v.dummy1));
        assert(b.subrange(24, 28) =~= le_of_i32(v.dummy2));
        assert(b.subrange(28, 32) =~= le_of_i32(v.dummy3));
    }

    proof fn lemma_to_from(b: Seq<u8>) {
        lemma_i32_encode_decode(b.subrange(0, 4));
        lemma_i32_encode_decode(b.subrange(4, 8));
        lemma_i32_encode_decode(b.subrange(8, 12));
        lemma_i32_encode_decode(b.subrange(12, 16));
        lemma_i32_encode_decode(b.subrange(16, 20));
        lemma_i32_encode_decode(b.subrange(20, 24));
        lemma_i32_encode_decode(b.subrange(24, 28));
        lemma_i32_encode_decode(b.subrange(28, 32));
        assert(Header::from_bytes(b).to_bytes() =~= b);
    }

    fn size() -> (n: usize) {
        HEADER_LEN
    }

    fn decode(bytes: &[u8], pos: usize) -> (v: Header) {
        let n: usize = bytes.len();
        assert(pos + 32 <= n);
        let ghost s = bytes@.subrange(pos as int, pos + 32);
        let size = i32::decode(bytes, pos);
        let typecode = i32::decode(bytes, pos + 4);
        let width = i32::decode(bytes, pos + 8);
        let height = i32::decode(bytes, pos + 12);
        let depth = i32::decode(bytes, pos + 16);
        let dummy1 = i32::decode(bytes, pos + 20);
        let dummy2 = i32::decode(bytes, pos + 24);
        let dummy3 = i32::decode(bytes, pos + 28);
        assert(s.subrange(0, 4) =~= bytes@.subrange(pos as int, pos + 4));
        assert(s.subrange(4, 8) =~= bytes@.subrange(pos + 4, pos + 8));
        assert(s.subrange(8, 12) =~= bytes@.subrange(pos + 8, pos + 12));
        assert(s.subrange(12, 16) =~= bytes@.subrange(pos + 12, pos + 16));
        assert(s.subrange(16, 20) =~= bytes@.subrange(pos + 16, pos + 20));
        assert(s.subrange(20, 24) =~= bytes@.subrange(pos + 20, pos + 24));
        assert(s.subrange(24, 28) =~= bytes@.subrange(pos + 24, pos + 28));
        assert(s.subrange(28, 32) =~= bytes@.subrange(pos + 28, pos + 32));
        Header { size, typecode, width, height, depth, dummy1, dummy2, dummy3 }
    }

    fn encode(&self, bytes: &mut Vec<u8>, pos: usize) {
        let n: usize = bytes.len();
        assert(pos + 32 <= n);
        let ghost s0 = bytes@;
        let ghost p = pos as int;
        proof {
            lemma_i32_decode_encode(self.size);
            lemma_i32_decode_encode(self.typecode);
            lemma_i32_decode_encode(self.width);
            lemma_i32_decode_encode(self.height);
            lemma_i32_decode_encode(self.depth);
            lemma_i32_decode_encode(self.dummy1);
            lemma_i32_decode_encode(self.dummy2);
            lemma_i32_decode_encode(self.dummy3);
        }
        let ghost e0 = le_of_i32(self.size);
        let ghost e1 = e0 + le_of_i32(self.typecode);
        let ghost e2 = e1 + le_of_i32(self.width);
        let ghost e3 = e2 + le_of_i32(self.height);
        let ghost e4 = e3 + le_of_i32(self.depth);
        let ghost e5 = e4 + le_of_i32(self.dummy1);
        let ghost e6 = e5 + le_of_i32(self.dummy2);
        self.size.encode(bytes, pos);
        let ghost x1 = bytes@;
        self.typecode.encode(bytes, pos + 4);
        proof { lemma_splice_twice(s0, x1, bytes@, p, e0, le_of_i32(self.typecode)); }
        let ghost x2 = bytes@;
        self.width.encode(bytes, pos + 8);
        proof { lemma_splice_twice(s0, x2, bytes@, p, e1, le_of_i32(self.width)); }
        let ghost x3 = bytes@;
        self.height.encode(bytes, pos + 12);
        proof { lemma_splice_twice(s0, x3, bytes@, p, e2, le_of_i32(self.height)); }
        let ghost x4 = bytes@;
        self.depth.encode(bytes, pos + 16);
        proof { lemma_splice_twice(s0, x4, bytes@, p, e3, le_of_i32(self.depth)); }
        let ghost x5 = bytes@;
        self.dummy1.encode(bytes, pos + 20);
        proof { lemma_splice_twice(s0, x5, bytes@, p, e4, le_of_i32(self.dummy1)); }
        let ghost x6 = bytes@;
        self.dummy2.encode(bytes, pos + 24);
        proof { lemma_splice_twice(s0, x6, bytes@, p, e5, le_of_i32(self.dummy2)); }
        let ghost x7 = bytes@;
        self.dummy3.encode(bytes, pos + 28);
        proof { lemma_splice_twice(s0, x7, bytes@, p, e6, le_of_i32(self.dummy3)); }
    }
}


// ---------------------------------------------------------------------------
// The region as a byte sequence.
// ---------------------------------------------------------------------------

/// `n` bytes starting at `pos` lie inside a region of `len` bytes.
pub open spec fn in_region(len: nat, pos: int, n: int) -> bool {
    0 <= pos && 0 <= n && pos + n <= len
}

/// The value stored at `pos`, if it lies inside the region.
pub open spec fn read_spec<T: Plain>(view: Seq<u8>, pos: int) -> Option<T> {
    if in_region(view.len(), pos, T::byte_len() as int) {
        Some(T::from_bytes(view.subrange(pos, pos + T::byte_len())))
    } else {
        None
    }
}

/// The region after storing `v` at `pos`, if it lies inside the region.
pub open spec fn write_spec<T: Plain>(view: Seq<u8>, pos: int, v: T) -> Option<Seq<u8>> {
    if in_region(view.len(), pos, T::byte_len() as int) {
        Some(view.take(pos) + v.to_bytes() + view.skip(pos + T::byte_len()))
    } else {
        None
    }
}

/// The `i`-th of a run of values stored back to back from `pos`.
pub open spec fn element_at<T: Plain>(view: Seq<u8>, pos: int, i: int) -> T {
    T::from_bytes(
        view.subrange(pos + i * T::byte_len(), pos + i * T::byte_len() + T::byte_len()),
    )
}

/// The bytes of a run of values stored back to back.
pub open spec fn encode_all<T: Plain>(xs: Seq<T>) -> Seq<u8>
    decreases xs.len(),
{
    if xs.len() == 0 {
        Seq::empty()
    } else {
        encode_all(xs.drop_last()) + xs.last().to_bytes()
    }
}

/// The run of `n` values stored back to back from `pos`, if it lies inside the region.
pub open spec fn read_array_spec<T: Plain>(view: Seq<u8>, pos: int, n: nat) -> Option<Seq<T>> {
    if in_region(view.len(), pos, (n * T::byte_len()) as int) {
        Some(Seq::new(n, |i: int| element_at::<T>(view, pos, i)))
    } else {
        None
    }
}

/// The region after storing `xs` back to back from `pos`, if they fit.
pub open spec fn write_array_spec<T: Plain>(view: Seq<u8>, pos: int, xs: Seq<T>) -> Option<
    Seq<u8>,
> {
    if in_region(view.len(), pos, (xs.len() * T::byte_len()) as int) {
        Some(view.take(pos) + encode_all(xs) + view.skip(pos + xs.len() * T::byte_len()))
    } else {
        None
    }
}

proof fn lemma_mul_step(i: int, n: int, l: int)
    by (nonlinear_arith)
    requires
        0 <= i < n,
        0 <= l,
    ensures
        (i + 1) * l == i * l + l,
        i * l + l <= n * l,
        0 <= i * l,
{
}

proof fn lemma_mul_nonneg(i: int, l: int)
    by (nonlinear_arith)
    requires
        0 <= i,
        0 <= l,
    ensures
        0 <= i * l,
{
}

/// A run of `n` values takes `n` times the size of one.
pub proof fn lemma_encode_all_len<T: Plain>(xs: Seq<T>)
    ensures
        encode_all(xs).len() == xs.len() * T::byte_len(),
    decreases xs.len(),
{
    if xs.len() > 0 {
        lemma_encode_all_len(xs.drop_last());
        T::lemma_from_to(xs.last());
        lemma_mul_step(xs.len() - 1, xs.len() as int, T::byte_len() as int);
    }
}

/// The `i`-th slot of an encoded run holds the encoding of the `i`-th value.
pub proof fn lemma_encode_all_slot<T: Plain>(xs: Seq<T>, i: int)
    requires
        0 <= i < xs.len(),
    ensures
        i * T::byte_len() + T::byte_len() <= encode_all(xs).len(),
        encode_all(xs).subrange(i * T::byte_len(), i * T::byte_len() + T::byte_len())
            == xs[i].to_bytes(),
    decreases xs.len(),
{
    let l = T::byte_len() as int;
    let init = xs.drop_last();
    lemma_encode_all_len(xs);
    lemma_encode_all_len(init);
    T::lemma_from_to(xs.last());
    lemma_mul_step(i, xs.len() as int, l);
    if i == xs.len() - 1 {
        assert(encode_all(xs).subrange(i * l, i * l + l) =~= xs.last().to_bytes());
    } else {
        lemma_encode_all_slot(init, i);
        lemma_mul_step(i, init.len() as int, l);
        assert(encode_all(xs).subrange(i * l, i * l + l) =~= encode_all(init).subrange(
            i * l,
            i * l + l,
        ));
    }
}

/// Reading a value back from where it was written gives that value.
pub proof fn law_read_after_write<T: Plain>(view: Seq<u8>, pos: int, v: T)
    requires
        write_spec(view, pos, v) is Some,
    ensures
        write_spec(view, pos, v)->0.len() == view.len(),
        read_spec::<T>(write_spec(view, pos, v)->0, pos) == Some(v),
{
    T::lemma_from_to(v);
    let w = write_spec(view, pos, v)->0;
    assert(w.subrange(pos, pos + T::byte_len()) =~= v.to_bytes());
}

/// Writing a value changes no byte outside the slot it is written to.
pub proof fn law_write_is_local<T: Plain>(view: Seq<u8>, pos: int, v: T, k: int)
    requires
        write_spec(view, pos, v) is Some,
        0 <= k < view.len(),
        k < pos || pos + T::byte_len() <= k,
    ensures
        write_spec(view, pos, v)->0[k] == view[k],
{
    T::lemma_from_to(v);
}

/// Writing back the value that is already stored leaves the region as it was.
pub proof fn law_write_what_was_read<T: Plain>(view: Seq<u8>, pos: int)
    requires
        read_spec::<T>(view, pos) is Some,
    ensures
        write_spec(view, pos, read_spec::<T>(view, pos)->0) == Some(view),
{
    let b = view.subrange(pos, pos + T::byte_len());
    T::lemma_to_from(b);
    assert(view.take(pos) + b + view.skip(pos + T::byte_len()) =~= view);
}

/// Reading a run back from where it was written gives that run.
pub proof fn law_read_array_after_write_array<T: Plain>(view: Seq<u8>, pos: int, xs: Seq<T>)
    requires
        write_array_spec(view, pos, xs) is Some,
    ensures
        write_array_spec(view, pos, xs)->0.len() == view.len(),
        read_array_spec::<T>(write_array_spec(view, pos, xs)->0, pos, xs.len()) == Some(xs),
{
    let l = T::byte_len() as int;
    let w = write_array_spec(view, pos, xs)->0;
    lemma_encode_all_len(xs);
    assert(w.len() == view.len());
    let r = Seq::new(xs.len(), |i: int| element_at::<T>(w, pos, i));
    assert forall|i: int| 0 <= i < xs.len() implies r[i] == xs[i] by {
        lemma_encode_all_slot(xs, i);
        lemma_mul_step(i, xs.len() as int, l);
        T::lemma_from_to(xs[i]);
        assert(w.subrange(pos + i * l, pos + i * l + l) =~= encode_all(xs).subrange(
            i * l,
            i * l + l,
        ));
    }
    assert(r =~= xs);
}

// ---------------------------------------------------------------------------
// Raw access at byte offsets.
// ---------------------------------------------------------------------------

/// Checks that `n` bytes from `pos` lie inside a region of `len` bytes, without overflow.
fn fits(len: usize, pos: usize, n: usize) -> (r: bool)
    ensures
        r == in_region(len as nat, pos as int, n as int),
{
    pos <= len && n <= len - pos
}

/// Reads the value stored at byte offset `pos`.
pub fn read<T: Plain>(view: &[u8], pos: usize) -> (r: Result<T, MmfError>)
    ensures
        match r {
            Ok(v) => read_spec::<T>(view@, pos as int) == Some(v),
            Err(e) => read_spec::<T>(view@, pos as int) is None && e == MmfError::OutOfBounds,
        },
{
    if fits(view.len(), pos, T::size()) {
        Ok(T::decode(view, pos))
    } else {
        Err(MmfError::OutOfBounds)
    }
}

/// Stores `val` at byte offset `pos`; on failure the region is left as it was.
pub fn write<T: Plain>(view: &mut Vec<u8>, pos: usize, val: T) -> (r: Result<(), MmfError>)
    ensures
        match r {
            Ok(()) => write_spec(old(view)@, pos as int, val) == Some(final(view)@),
            Err(e) => write_spec(old(view)@, pos as int, val) is None && final(view)@ == old(
                view,
            )@ && e == MmfError::OutOfBounds,
        },
{
    if fits(view.len(), pos, T::size()) {
        val.encode(view, pos);
        Ok(())
    } else {
        Err(MmfError::OutOfBounds)
    }
}

/// Fills `dst` with the run of `dst.len()` values stored back to back from `pos`.
/// On failure `dst` is left as it was.
pub fn read_array<T: Plain>(view: &[u8], pos: usize, dst: &mut Vec<T>) -> (r: Result<
    (),
    MmfError,
>)
    ensures
        match r {
            Ok(()) => read_array_spec::<T>(view@, pos as int, old(dst)@.len()) == Some(
                final(dst)@,
            ),
            Err(e) => read_array_spec::<T>(view@, pos as int, old(dst)@.len()) is None
                && final(dst)@ == old(dst)@ && e == MmfError::OutOfBounds,
        },
{
    let n = dst.len();
    let l = T::size();
    let vlen = view.len();
    let total = match n.checked_mul(l) {
        Some(t) => t,
        None => {
            proof {
                lemma_mul_nonneg(n as int, l as int);
            }
            return Err(MmfError::OutOfBounds);
        },
    };
    if !fits(vlen, pos, total) {
        return Err(MmfError::OutOfBounds);
    }
    let mut off: usize = pos;
    let mut i: usize = 0;
    while i < n
        invariant
            n == dst@.len(),
            vlen == view@.len(),
            l == T::byte_len(),
            total == n * l,
            in_region(view@.len(), pos as int, total as int),
            0 <= i <= n,
            off == pos + i * l,
            i * l <= n * l,
            forall|j: int| 0 <= j < i ==> dst@[j] == element_at::<T>(view@, pos as int, j),
        decreases n - i,
    {
        proof {
            lemma_mul_step(i as int, n as int, l as int);
        }
        let v = T::decode(view, off);
        dst.set(i, v);
        off = off + l;
        i = i + 1;
    }
    assert(dst@ =~= Seq::new(n as nat, |j: int| element_at::<T>(view@, pos as int, j)));
    Ok(())
}

/// Stores the values of `src` back to back from `pos`; on failure the region is
/// left as it was.
pub fn write_array<T: Plain>(view: &mut Vec<u8>, pos: usize, src: &Vec<T>) -> (r: Result<
    (),
    MmfError,
>)
    ensures
        match r {
            Ok(()) => write_array_spec(old(view)@, pos as int, src@) == Some(final(view)@),
            Err(e) => write_array_spec(old(view)@, pos as int, src@) is None && final(view)@
                == old(view)@ && e == MmfError::OutOfBounds,
        },
{
    let n = src.len();
    let l = T::size();
    let vlen = view.len();
    let total = match n.checked_mul(l) {
        Some(t) => t,
        None => {
            proof {
                lemma_mul_nonneg(n as int, l as int);
            }
            return Err(MmfError::OutOfBounds);
        },
    };
    if !fits(vlen, pos, total) {
        return Err(MmfError::OutOfBounds);
    }
    let ghost v0 = view@;
    let mut off: usize = pos;
    let mut i: usize = 0;
    proof {
        assert(v0.take(pos as int) + encode_all(src@.take(0)) + v0.skip(pos as int) =~= v0);
    }
    while i < n
        invariant
            n == src@.len(),
            vlen == v0.len(),
            l == T::byte_len(),
            total == n * l,
            in_region(v0.len(), pos as int, total as int),
            0 <= i <= n,
            off == pos + i * l,
            i * l <= n * l,
            view@ == v0.take(pos as int) + encode_all(src@.take(i as int)) + v0.skip(
                pos + i * l,
            ),
        decreases n - i,
    {
        proof {
            lemma_mul_step(i as int, n as int, l as int);
            lemma_encode_all_len(src@.take(i as int));
            T::lemma_from_to(src@[i as int]);
        }
        let ghost before = view@;
        let x = src[i];
        x.encode(view, off);
        proof {
            let a = encode_all(src@.take(i as int));
            let b = x.to_bytes();
            lemma_splice_twice(v0, before, view@, pos as int, a, b);
            assert(src@.take(i + 1).drop_last() =~= src@.take(i as int));
            assert(encode_all(src@.take(i + 1)) == a + b);
        }
        off = off + l;
        i = i + 1;
    }
    assert(src@.take(n as int) =~= src@);
    Ok(())
}

/// The three leading words of the region: `(size, width, height)` as an old-style
/// header lays them out.
pub fn get_state(view: &[u8]) -> (r: Result<(i32, i32, i32), MmfError>)
    ensures
        match r {
            Ok(t) => view@.len() >= 12 && t == (word_at(view@, 0), word_at(view@, 4), word_at(
                view@,
                8,
            )),
            Err(e) => view@.len() < 12 && e == MmfError::OutOfBounds,
        },
{
    if view.len() < 12 {
        return Err(MmfError::OutOfBounds);
    }
    let size = i32::decode(view, 0);
    let width = i32::decode(view, 4);
    let height = i32::decode(view, 8);
    Ok((size, width, height))
}


// ---------------------------------------------------------------------------
// Pixel access through the header.
// ---------------------------------------------------------------------------

/// The header at the start of the region, if the region is long enough to hold one.
pub open spec fn header_spec(view: Seq<u8>) -> Option<Header> {
    read_spec::<Header>(view, 0)
}

/// The byte offset of pixel `index`: the header, then `index` steps of `depth` bytes.
/// A negative depth is taken as the unsigned machine word it converts to.
pub open spec fn pixel_offset(h: Header, index: int) -> int {
    HEADER_LEN + index * (h.depth as usize)
}

/// Pixel `index`, if the header and the pixel lie inside the region.
pub open spec fn get_pixel_spec<T: Plain>(view: Seq<u8>, index: int) -> Option<T> {
    match header_spec(view) {
        Some(h) => read_spec::<T>(view, pixel_offset(h, index)),
        None => None,
    }
}

/// The region after storing `v` as pixel `index`, if header and pixel lie inside it.
pub open spec fn set_pixel_spec<T: Plain>(view: Seq<u8>, index: int, v: T) -> Option<Seq<u8>> {
    match header_spec(view) {
        Some(h) => write_spec(view, pixel_offset(h, index), v),
        None => None,
    }
}

/// `n` pixels from pixel `index` on, if they lie inside the region.
pub open spec fn get_pixels_spec<T: Plain>(view: Seq<u8>, index: int, n: nat) -> Option<Seq<T>> {
    match header_spec(view) {
        Some(h) => read_array_spec::<T>(view, pixel_offset(h, index), n),
        None => None,
    }
}

/// The region after storing `xs` as the pixels from `index` on, if they fit.
pub open spec fn set_pixels_spec<T: Plain>(view: Seq<u8>, index: int, xs: Seq<T>) -> Option<
    Seq<u8>,
> {
    match header_spec(view) {
        Some(h) => write_array_spec(view, pixel_offset(h, index), xs),
        None => None,
    }
}

/// With a non-negative depth, pixel 0 starts right after the 32-byte header and
/// each next pixel starts `depth` bytes after the one before.
pub proof fn law_pixels_are_depth_apart(h: Header, index: int)
    requires
        0 <= h.depth,
        0 <= index,
    ensures
        pixel_offset(h, 0) == 32,
        pixel_offset(h, index + 1) == pixel_offset(h, index) + h.depth,
{
    assert((h.depth as usize) as int == h.depth as int);
    assert((index + 1) * (h.depth as usize) == index * (h.depth as usize) + (h.depth as usize))
        by (nonlinear_arith);
}

/// A pixel offset never reaches into the header.
pub proof fn lemma_pixel_offset_after_header(h: Header, index: int)
    requires
        0 <= index,
    ensures
        pixel_offset(h, index) >= HEADER_LEN,
{
    lemma_mul_nonneg(index, (h.depth as usize) as int);
}

/// Bytes that a splice at or after the header leaves alone keep the header as it was.
proof fn lemma_header_survives(view: Seq<u8>, w: Seq<u8>)
    requires
        view.len() >= HEADER_LEN,
        w.len() == view.len(),
        forall|k: int| 0 <= k < HEADER_LEN ==> w[k] == view[k],
    ensures
        header_spec(w) == header_spec(view),
{
    assert(w.subrange(0, 32) =~= view.subrange(0, 32));
}

/// Setting a pixel leaves the header as it was.
pub proof fn law_set_pixel_keeps_header<T: Plain>(view: Seq<u8>, index: int, v: T)
    requires
        0 <= index,
        set_pixel_spec(view, index, v) is Some,
    ensures
        header_spec(set_pixel_spec(view, index, v)->0) == header_spec(view),
{
    let h = header_spec(view)->0;
    let w = set_pixel_spec(view, index, v)->0;
    lemma_pixel_offset_after_header(h, index);
    T::lemma_from_to(v);
    assert forall|k: int| 0 <= k < HEADER_LEN implies w[k] == view[k] by {
        law_write_is_local(view, pixel_offset(h, index), v, k);
    }
    lemma_header_survives(view, w);
}

/// Reading a pixel back after setting it gives the value that was set.
pub proof fn law_get_pixel_after_set_pixel<T: Plain>(view: Seq<u8>, index: int, v: T)
    requires
        0 <= index,
        set_pixel_spec(view, index, v) is Some,
    ensures
        get_pixel_spec::<T>(set_pixel_spec(view, index, v)->0, index) == Some(v),
{
    let h = header_spec(view)->0;
    law_set_pixel_keeps_header(view, index, v);
    law_read_after_write(view, pixel_offset(h, index), v);
}

/// Setting a run of pixels leaves the header as it was.
pub proof fn law_set_pixels_keeps_header<T: Plain>(view: Seq<u8>, index: int, xs: Seq<T>)
    requires
        0 <= index,
        set_pixels_spec(view, index, xs) is Some,
    ensures
        header_spec(set_pixels_spec(view, index, xs)->0) == header_spec(view),
{
    let h = header_spec(view)->0;
    let w = set_pixels_spec(view, index, xs)->0;
    lemma_pixel_offset_after_header(h, index);
    lemma_encode_all_len(xs);
    assert(w.len() == view.len());
    assert forall|k: int| 0 <= k < HEADER_LEN implies w[k] == view[k] by {
        assert(w[k] == view.take(pixel_offset(h, index))[k]);
    }
    lemma_header_survives(view, w);
}

/// Reading a run of pixels back after setting them gives the values that were set.
pub proof fn law_get_pixels_after_set_pixels<T: Plain>(view: Seq<u8>, index: int, xs: Seq<T>)
    requires
        0 <= index,
        set_pixels_spec(view, index, xs) is Some,
    ensures
        get_pixels_spec::<T>(set_pixels_spec(view, index, xs)->0, index, xs.len()) == Some(xs),
{
    let h = header_spec(view)->0;
    law_set_pixels_keeps_header(view, index, xs);
    law_read_array_after_write_array(view, pixel_offset(h, index), xs);
}

/// Reads the header at the start of the region.
pub fn header(view: &[u8]) -> (r: Result<Header, MmfError>)
    ensures
        match r {
            Ok(h) => header_spec(view@) == Some(h),
            Err(e) => header_spec(view@) is None && e == MmfError::OutOfBounds,
        },
{
    read::<Header>(view, 0)
}

/// The byte offset of pixel `index` under `h`, or `None` where it exceeds the
/// machine word.
fn pixel_offset_of(h: &Header, index: usize) -> (r: Option<usize>)
    ensures
        match r {
            Some(o) => o == pixel_offset(*h, index as int),
            None => pixel_offset(*h, index as int) > usize::MAX,
        },
{
    let depth: usize = h.depth as usize;
    match index.checked_mul(depth) {
        Some(m) => HEADER_LEN.checked_add(m),
        None => {
            proof {
                lemma_mul_nonneg(index as int, depth as int);
            }
            None
        },
    }
}

/// Reads pixel `index`.
pub fn get_pixel<T: Plain>(view: &[u8], index: usize) -> (r: Result<T, MmfError>)
    ensures
        match r {
            Ok(v) => get_pixel_spec::<T>(view@, index as int) == Some(v),
            Err(e) => get_pixel_spec::<T>(view@, index as int) is None && e
                == MmfError::OutOfBounds,
        },
{
    // The region's length fits a machine word, so an offset past it is out of range.
    let _region_len = view.len();
    let head = header(view)?;
    match pixel_offset_of(&head, index) {
        Some(off) => read::<T>(view, off),
        None => Err(MmfError::OutOfBounds),
    }
}

/// Stores `val` as pixel `index`; on failure the region is left as it was.
pub fn set_pixel<T: Plain>(view: &mut Vec<u8>, index: usize, val: T) -> (r: Result<(), MmfError>)
    ensures
        match r {
            Ok(()) => set_pixel_spec(old(view)@, index as int, val) == Some(final(view)@),
            Err(e) => set_pixel_spec(old(view)@, index as int, val) is None && final(view)@
                == old(view)@ && e == MmfError::OutOfBounds,
        },
{
    // The region's length fits a machine word, so an offset past it is out of range.
    let _region_len = view.len();
    let head = header(view.as_slice())?;
    match pixel_offset_of(&head, index) {
        Some(off) => write(view, off, val),
        None => Err(MmfError::OutOfBounds),
    }
}

/// Fills `dst` with the `dst.len()` pixels from pixel `index` on; on failure
/// `dst` is left as it was.
pub fn get_pixels<T: Plain>(view: &[u8], index: usize, dst: &mut Vec<T>) -> (r: Result<
    (),
    MmfError,
>)
    ensures
        match r {
            Ok(()) => get_pixels_spec::<T>(view@, index as int, old(dst)@.len()) == Some(
                final(dst)@,
            ),
            Err(e) => get_pixels_spec::<T>(view@, index as int, old(dst)@.len()) is None
                && final(dst)@ == old(dst)@ && e == MmfError::OutOfBounds,
        },
{
    // The region's length fits a machine word, so an offset past it is out of range.
    let _region_len = view.len();
    let n = dst.len();
    let head = header(view)?;
    match pixel_offset_of(&head, index) {
        Some(off) => read_array(view, off, dst),
        None => {
            proof {
                lemma_mul_nonneg(n as int, T::byte_len() as int);
            }
            Err(MmfError::OutOfBounds)
        },
    }
}

/// Stores the values of `src` as the pixels from pixel `index` on; on failure the
/// region is left as it was.
pub fn set_pixels<T: Plain>(view: &mut Vec<u8>, index: usize, src: &Vec<T>) -> (r: Result<
    (),
    MmfError,
>)
    ensures
        match r {
            Ok(()) => set_pixels_spec(old(view)@, index as int, src@) == Some(final(view)@),
            Err(e) => set_pixels_spec(old(view)@, index as int, src@) is None && final(view)@
                == old(view)@ && e == MmfError::OutOfBounds,
        },
{
    // The region's length fits a machine word, so an offset past it is out of range.
    let _region_len = view.len();
    let n = src.len();
    let head = header(view.as_slice())?;
    match pixel_offset_of(&head, index) {
        Some(off) => write_array(view, off, src),
        None => {
            proof {
                lemma_mul_nonneg(n as int, T::byte_len() as int);
            }
            Err(MmfError::OutOfBounds)
        },
    }
}

/// The whole frame: the header's `size` pixels from pixel 0 on, if the size is not
/// negative and they lie inside the region.
pub open spec fn frame_spec<T: Plain>(view: Seq<u8>) -> Option<Seq<T>> {
    match header_spec(view) {
        Some(h) => if h.size >= 0 {
            get_pixels_spec::<T>(view, 0, h.size as nat)
        } else {
            None
        },
        None => None,
    }
}

/// Reads the whole frame of `i32` pixels, as many as the header's `size` says,
/// together with the header (which gives its width and height).
pub fn get_pixels_fullarray(view: &[u8]) -> (r: Result<(Vec<i32>, Header), MmfError>)
    ensures
        match r {
            Ok((px, h)) => header_spec(view@) == Some(h) && frame_spec::<i32>(view@) == Some(
                px@,
            ) && px@.len() == h.size,
            Err(e) => frame_spec::<i32>(view@) is None && e == MmfError::OutOfBounds,
        },
{
    let vlen = view.len();
    let head = header(view)?;
    if head.size < 0 {
        return Err(MmfError::OutOfBounds);
    }
    let n = head.size as usize;
    proof {
        lemma_mul_nonneg(n as int, 4);
        assert(pixel_offset(head, 0) == HEADER_LEN);
    }
    // Refuse before allocating a frame that cannot fit.
    if n > (vlen - HEADER_LEN) / 4 {
        proof {
            assert(n * 4 > vlen - HEADER_LEN) by (nonlinear_arith)
                requires
                    n > (vlen - HEADER_LEN) / 4,
                    vlen >= HEADER_LEN,
            ;
        }
        return Err(MmfError::OutOfBounds);
    }
    let mut px: Vec<i32> = vec![0i32; n];
    match get_pixels::<i32>(view, 0, &mut px) {
        Ok(()) => Ok((px, head)),
        Err(e) => Err(e),
    }
}

} // verus!
