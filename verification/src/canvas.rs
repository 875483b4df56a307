//! Byte-per-pixel drawing on a shared region with a short header.
//!
//! The region starts with three little-endian words `(size, width, height)` (see
//! [`get_state`]) and holds one byte per pixel from byte 32 on. Drawing refuses,
//! with [`MmfError::OutOfBounds`], any header whose pixels do not fit in the region,
//! and then changes nothing.
use vstd::prelude::*;

use crate::memorymappedfile::{MmfError, get_state, word_at};

verus! {

/// Where the pixels start.
pub const BODY: usize = 32;

/// The shade of pixel `(x, y)` in the lattice pattern: 10x10 tiles that alternate
/// between light (215) and dark (40).
pub open spec fn shade(x: int, y: int) -> u8 {
    if (x / 10) % 2 == (y / 10) % 2 {
        215
    } else {
        40
    }
}

/// The header words, when the region is long enough to hold them.
pub open spec fn state_spec(view: Seq<u8>) -> Option<(i32, i32, i32)> {
    if view.len() >= 12 {
        Some((word_at(view, 0), word_at(view, 4), word_at(view, 8)))
    } else {
        None
    }
}

/// The header's pixel count, when the header is there and its pixels fit (no
/// pixel at all always fits).
pub open spec fn body_len(view: Seq<u8>) -> Option<int> {
    match state_spec(view) {
        Some((size, _, _)) => if 0 <= size && (size == 0 || BODY + size <= view.len()) {
            Some(size as int)
        } else {
            None
        },
        None => None,
    }
}

/// The header's first word `s` (bytes `0..4`) is a pixel count: `0 <= s` and the
/// `s` pixels from byte 32 on lie inside the region.
pub open spec fn size_fits(view: Seq<u8>) -> bool {
    &&& view.len() >= 12
    &&& 0 <= word_at(view, 0)
    &&& BODY + word_at(view, 0) <= view.len()
}

/// Where the first header word is a pixel count that fits, the pixels are exactly
/// that many: the count is the word itself, not some reduction of it.
pub proof fn law_body_len_is_size_word(view: Seq<u8>)
    requires
        size_fits(view),
    ensures
        body_len(view) == Some(word_at(view, 0) as int),
{
}

/// `w` is `view` with bytes `from..to` changed and no other.
pub open spec fn changed_only(view: Seq<u8>, w: Seq<u8>, from: int, to: int) -> bool {
    &&& w.len() == view.len()
    &&& forall|k: int| 0 <= k < view.len() && !(from <= k < to) ==> w[k] == view[k]
}

/// Sets all `size` pixels to `val`.
pub fn fill(view: &mut Vec<u8>, val: u8) -> (r: Result<(), MmfError>)
    ensures
        match r {
            Ok(()) => {
                &&& body_len(old(view)@) is Some
                &&& changed_only(
                    old(view)@,
                    final(view)@,
                    BODY as int,
                    BODY + body_len(old(view)@)->0,
                )
                &&& forall|k: int|
                    BODY <= k < BODY + body_len(old(view)@)->0 ==> final(view)@[k] == val
            },
            Err(e) => body_len(old(view)@) is None && final(view)@ == old(view)@ && e
                == MmfError::OutOfBounds,
        },
        size_fits(old(view)@) ==> r is Ok && forall|k: int|
            BODY <= k < BODY + word_at(old(view)@, 0) ==> final(view)@[k] == val,
{
    let vlen = view.len();
    let (size, _, _) = get_state(view.as_slice())?;
    if size == 0 {
        return Ok(());
    }
    if size < 0 || vlen < BODY || (size as usize) > vlen - BODY {
        return Err(MmfError::OutOfBounds);
    }
    let n = size as usize;
    let ghost v0 = view@;
    let mut i: usize = 0;
    while i < n
        invariant
            n == size,
            BODY + n <= vlen,
            vlen == v0.len(),
            body_len(v0) == Some(n as int),
            0 <= i <= n,
            changed_only(v0, view@, BODY as int, BODY + n),
            forall|k: int| BODY <= k < BODY + i ==> view@[k] == val,
        decreases n - i,
    {
        view.set(BODY + i, val);
        i = i + 1;
    }
    Ok(())
}

/// Copies the first `size` bytes of `val` into the pixels.
pub fn mmf_copy_to(view: &mut Vec<u8>, val: &[u8]) -> (r: Result<(), MmfError>)
    requires
        body_len(old(view)@) is Some ==> body_len(old(view)@)->0 <= val@.len(),
    ensures
        match r {
            Ok(()) => {
                &&& body_len(old(view)@) is Some
                &&& changed_only(
                    old(view)@,
                    final(view)@,
                    BODY as int,
                    BODY + body_len(old(view)@)->0,
                )
                &&& forall|k: int|
                    BODY <= k < BODY + body_len(old(view)@)->0 ==> final(view)@[k] == val@[k
                        - BODY]
            },
            Err(e) => body_len(old(view)@) is None && final(view)@ == old(view)@ && e
                == MmfError::OutOfBounds,
        },
        size_fits(old(view)@) ==> r is Ok && forall|k: int|
            BODY <= k < BODY + word_at(old(view)@, 0) ==> final(view)@[k] == val@[k - BODY],
{
    let vlen = view.len();
    let (size, _, _) = get_state(view.as_slice())?;
    if size == 0 {
        return Ok(());
    }
    if size < 0 || vlen < BODY || (size as usize) > vlen - BODY {
        return Err(MmfError::OutOfBounds);
    }
    let n = size as usize;
    let ghost v0 = view@;
    let mut i: usize = 0;
    while i < n
        invariant
            n == size,
            n <= val@.len(),
            BODY + n <= vlen,
            vlen == v0.len(),
            body_len(v0) == Some(n as int),
            0 <= i <= n,
            changed_only(v0, view@, BODY as int, BODY + n),
            forall|k: int| BODY <= k < BODY + i ==> view@[k] == val@[k - BODY],
        decreases n - i,
    {
        view.set(BODY + i, val[i]);
        i = i + 1;
    }
    Ok(())
}

/// The pixel grid `(width, height)`, when the header is there and its rows can be
/// drawn: no rows at all (whatever the width), or non-negative width and height
/// whose `width * height` pixels fit in the region (no pixel at all always fits).
pub open spec fn grid_spec(view: Seq<u8>) -> Option<(int, int)> {
    match state_spec(view) {
        Some((_, w, h)) => if 0 <= h && (h == 0 || (0 <= w && (w == 0 || BODY + w * h
            <= view.len()))) {
            Some((w as int, h as int))
        } else {
            None
        },
        None => None,
    }
}

/// The header's width and height (words at bytes 4 and 8) are non-negative and
/// their `width * height` pixels from byte 32 on lie inside the region.
pub open spec fn grid_fits(view: Seq<u8>) -> bool {
    &&& view.len() >= 12
    &&& 0 <= word_at(view, 4)
    &&& 0 <= word_at(view, 8)
    &&& BODY + word_at(view, 4) * word_at(view, 8) <= view.len()
}

/// Where the header's grid fits, the grid drawn is exactly the header's width and
/// height.
pub proof fn law_grid_is_header_grid(view: Seq<u8>)
    requires
        grid_fits(view),
    ensures
        grid_spec(view) == Some((word_at(view, 4) as int, word_at(view, 8) as int)),
{
}

/// The lattice is made of 10x10 tiles: the top-left pixel is light, a shade is one
/// of the two, it is the same throughout a tile, and it flips from a tile to the
/// next one across or down, however far from the origin.
pub proof fn law_shade_tiles(x: int, y: int, x2: int, y2: int)
    requires
        0 <= x,
        0 <= y,
        0 <= x2,
        0 <= y2,
    ensures
        shade(0, 0) == 215u8,
        shade(x, y) == 215u8 || shade(x, y) == 40u8,
        x / 10 == x2 / 10 && y / 10 == y2 / 10 ==> shade(x, y) == shade(x2, y2),
        shade(x + 10, y) != shade(x, y),
        shade(x, y + 10) != shade(x, y),
{
    assert((x + 10) / 10 == x / 10 + 1);
    assert((y + 10) / 10 == y / 10 + 1);
}

/// Pixels are stored row by row from byte 32: `(0, 0)` first, the next pixel of a
/// row in the next byte, the next row `w` bytes further on; within a `w x h` grid
/// distinct pixels have distinct bytes, all inside `32 .. 32 + w*h`.
pub proof fn law_cell_layout(x: int, y: int, x2: int, y2: int, w: int, h: int)
    requires
        0 <= x < w,
        0 <= y < h,
        0 <= x2 < w,
        0 <= y2 < h,
    ensures
        cell(0, 0, w) == BODY,
        cell(x + 1, y, w) == cell(x, y, w) + 1,
        cell(x, y + 1, w) == cell(x, y, w) + w,
        BODY <= cell(x, y, w) < BODY + w * h,
        (x, y) != (x2, y2) ==> cell(x, y, w) != cell(x2, y2, w),
{
    lemma_cell_in_grid(x, y, w, h);
    lemma_cell_in_grid(x2, y2, w, h);
    assert(cell(x, y + 1, w) == cell(x, y, w) + w) by (nonlinear_arith);
    if (x, y) != (x2, y2) {
        if y == y2 {
            assert(x != x2);
        } else if y < y2 {
            lemma_earlier_row(x, y, y2, w, x2);
        } else {
            lemma_earlier_row(x2, y2, y, w, x);
        }
    }
}

/// The byte that holds pixel `(x, y)` of a grid `w` pixels wide.
pub open spec fn cell(x: int, y: int, w: int) -> int {
    BODY + x + y * w
}

proof fn lemma_cell_in_grid(x: int, y: int, w: int, h: int)
    by (nonlinear_arith)
    requires
        0 <= x < w,
        0 <= y < h,
    ensures
        0 <= y * w,
        x + y * w < w * h,
        y * w + w <= w * h,
        x + y * w < (y + 1) * w,
{
}

proof fn lemma_earlier_row(x: int, yy: int, y: int, w: int, x0: int)
    by (nonlinear_arith)
    requires
        0 <= x < w,
        0 <= yy < y,
        0 <= x0,
    ensures
        x + yy * w < x0 + y * w,
{
}

proof fn lemma_mul_nonneg2(a: int, b: int)
    by (nonlinear_arith)
    requires
        0 <= a,
        0 <= b,
    ensures
        0 <= a * b,
{
}

/// Draws the lattice pattern over the `width x height` grid, row by row.
pub fn lattice(view: &mut Vec<u8>) -> (r: Result<(), MmfError>)
    ensures
        match r {
            Ok(()) => {
                let (w, h) = grid_spec(old(view)@)->0;
                &&& grid_spec(old(view)@) is Some
                &&& changed_only(old(view)@, final(view)@, BODY as int, BODY + w * h)
                &&& forall|x: int, y: int|
                    0 <= x < w && 0 <= y < h ==> final(view)@[#[trigger] cell(x, y, w)]
                        == shade(x, y)
            },
            Err(e) => grid_spec(old(view)@) is None && final(view)@ == old(view)@ && e
                == MmfError::OutOfBounds,
        },
        grid_fits(old(view)@) ==> r is Ok,
        r is Ok ==> forall|x: int, y: int|
            0 <= x < word_at(old(view)@, 4) && 0 <= y < word_at(old(view)@, 8) ==> final(view)@[
                #[trigger] cell(x, y, word_at(old(view)@, 4) as int)] == if (x / 10) % 2 == (y
                / 10) % 2 {
                215u8
            } else {
                40u8
            },
{
    let vlen = view.len();
    let (_, width, height) = get_state(view.as_slice())?;
    if height < 0 {
        return Err(MmfError::OutOfBounds);
    }
    if height == 0 {
        // No rows: nothing is drawn, whatever the width.
        return Ok(());
    }
    if width < 0 {
        return Err(MmfError::OutOfBounds);
    }
    if width == 0 {
        return Ok(());
    }
    if vlen < BODY {
        return Err(MmfError::OutOfBounds);
    }
    let w = width as usize;
    let h = height as usize;
    let cells = match w.checked_mul(h) {
        Some(c) => c,
        None => {
            proof {
                lemma_mul_nonneg2(w as int, h as int);
            }
            return Err(MmfError::OutOfBounds);
        },
    };
    if cells > vlen - BODY {
        return Err(MmfError::OutOfBounds);
    }
    let ghost v0 = view@;
    let mut y: usize = 0;
    while y < h
        invariant
            w == width,
            h == height,
            cells == w * h,
            BODY + cells <= vlen,
            vlen == v0.len(),
            grid_spec(v0) == Some((w as int, h as int)),
            0 <= y <= h,
            changed_only(v0, view@, BODY as int, BODY + cells),
            forall|x: int, yy: int|
                0 <= x < w && 0 <= yy < y ==> view@[#[trigger] cell(x, yy, w as int)] == shade(
                    x,
                    yy,
                ),
        decreases h - y,
    {
        let mut x: usize = 0;
        while x < w
            invariant
                w == width,
                h == height,
                cells == w * h,
                BODY + cells <= vlen,
                vlen == v0.len(),
                0 <= y < h,
                0 <= x <= w,
                changed_only(v0, view@, BODY as int, BODY + cells),
                forall|xx: int, yy: int|
                    0 <= xx < w && 0 <= yy < y ==> view@[#[trigger] cell(xx, yy, w as int)]
                        == shade(xx, yy),
                forall|xx: int| 0 <= xx < x ==> view@[#[trigger] cell(xx, y as int, w as int)] == shade(xx, y as int),
            decreases w - x,
        {
            proof {
                lemma_cell_in_grid(x as int, y as int, w as int, h as int);
            }
            let row: usize = y * w;
            let k: usize = BODY + x + row;
            let shade_val: u8 = if (x / 10) % 2 == (y / 10) % 2 {
                215
            } else {
                40
            };
            let ghost before = view@;
            view.set(k, shade_val);
            proof {
                assert forall|xx: int, yy: int|
                    0 <= xx < w && 0 <= yy < y implies view@[#[trigger] cell(xx, yy, w as int)]
                    == shade(xx, yy) by {
                    lemma_earlier_row(xx, yy, y as int, w as int, x as int);
                    assert(before[cell(xx, yy, w as int)] == shade(xx, yy));
                }
            }
            x = x + 1;
        }
        proof {
            assert forall|xx: int, yy: int|
                0 <= xx < w && 0 <= yy < y + 1 implies view@[#[trigger] cell(xx, yy, w as int)]
                == shade(xx, yy) by {
                if yy == y {
                    assert(view@[cell(xx, y as int, w as int)] == shade(xx, y as int));
                }
            }
        }
        y = y + 1;
    }
    proof {
        assert(width == word_at(old(view)@, 4));
        assert(height == word_at(old(view)@, 8));
    }
    Ok(())
}

/// Sets pixel `index` (byte `32 + index`) to `val`.
pub fn set_pixel(view: &mut Vec<u8>, index: usize, val: u8) -> (r: Result<(), MmfError>)
    ensures
        match r {
            Ok(()) => BODY + index < old(view)@.len() && final(view)@ == old(view)@.update(
                BODY + index,
                val,
            ),
            Err(e) => BODY + index >= old(view)@.len() && final(view)@ == old(view)@ && e
                == MmfError::OutOfBounds,
        },
{
    let vlen = view.len();
    if vlen <= BODY || index >= vlen - BODY {
        return Err(MmfError::OutOfBounds);
    }
    view.set(BODY + index, val);
    Ok(())
}

/// Reads byte `index` of the region (counted from the start of the region, header
/// included).
pub fn get_pixel(view: &[u8], index: usize) -> (r: Result<u8, MmfError>)
    ensures
        match r {
            Ok(b) => index < view@.len() && b == view@[index as int],
            Err(e) => index >= view@.len() && e == MmfError::OutOfBounds,
        },
{
    if index < view.len() {
        Ok(view[index])
    } else {
        Err(MmfError::OutOfBounds)
    }
}

/// A pixel set through [`set_pixel`] is read back by [`get_pixel`] at byte
/// `32 + index`.
pub proof fn law_get_pixel_sees_set_pixel(view: Seq<u8>, index: int, val: u8)
    requires
        0 <= index,
        BODY + index < view.len(),
    ensures
        view.update(BODY + index, val)[BODY + index] == val,
        forall|k: int| 0 <= k < view.len() && k != BODY + index ==> view.update(BODY + index, val)[k] == view[k],
{
}

} // verus!
