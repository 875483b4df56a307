//! Verified core of a small inter-process toolkit: named-pipe requests and
//! replies, and pixel buffers shared through a memory-mapped region.
use vstd::prelude::*;

pub mod plain;
pub mod memorymappedfile;
pub mod canvas;
pub mod pipe_args;
pub mod namedpipe;
pub mod pipe_line;
pub mod control;

pub use namedpipe::namedpipe;
pub use memorymappedfile::{Header, MmfError};

verus! {

/// Reads the header of a shared pixel buffer.
pub fn header(view: &[u8]) -> (r: Result<Header, MmfError>)
    ensures
        match r {
            Ok(h) => memorymappedfile::header_spec(view@) == Some(h),
            Err(e) => memorymappedfile::header_spec(view@) is None && e == MmfError::OutOfBounds,
        },
{
    memorymappedfile::header(view)
}

/// Reads pixel `index` of a buffer of `i32` pixels.
pub fn get_i32pixel(view: &[u8], index: usize) -> (r: Result<i32, MmfError>)
    ensures
        match r {
            Ok(v) => memorymappedfile::get_pixel_spec::<i32>(view@, index as int) == Some(v),
            Err(e) => memorymappedfile::get_pixel_spec::<i32>(view@, index as int) is None && e
                == MmfError::OutOfBounds,
        },
{
    memorymappedfile::get_pixel::<i32>(view, index)
}

/// Stores `val` as pixel `index` of a buffer of `i32` pixels.
pub fn set_i32pixel(view: &mut Vec<u8>, index: usize, val: i32) -> (r: Result<(), MmfError>)
    ensures
        match r {
            Ok(()) => memorymappedfile::set_pixel_spec(old(view)@, index as int, val) == Some(
                final(view)@,
            ),
            Err(e) => memorymappedfile::set_pixel_spec(old(view)@, index as int, val) is None
                && final(view)@ == old(view)@ && e == MmfError::OutOfBounds,
        },
{
    memorymappedfile::set_pixel::<i32>(view, index, val)
}

/// Fills `src` with the `src.len()` pixels from pixel `index` on, of a buffer of
/// `i32` pixels.
pub fn get_i32pixels(view: &[u8], index: usize, src: &mut Vec<i32>) -> (r: Result<(), MmfError>)
    ensures
        match r {
            Ok(()) => memorymappedfile::get_pixels_spec::<i32>(
                view@,
                index as int,
                old(src)@.len(),
            ) == Some(final(src)@),
            Err(e) => memorymappedfile::get_pixels_spec::<i32>(
                view@,
                index as int,
                old(src)@.len(),
            ) is None && final(src)@ == old(src)@ && e == MmfError::OutOfBounds,
        },
{
    memorymappedfile::get_pixels::<i32>(view, index, src)
}

/// Stores the values of `src` as the pixels from pixel `index` on, of a buffer of
/// `i32` pixels. `src` itself is left as it was.
pub fn set_i32pixels(view: &mut Vec<u8>, index: usize, src: &mut Vec<i32>) -> (r: Result<
    (),
    MmfError,
>)
    ensures
        final(src)@ == old(src)@,
        match r {
            Ok(()) => memorymappedfile::set_pixels_spec(old(view)@, index as int, old(src)@)
                == Some(final(view)@),
            Err(e) => memorymappedfile::set_pixels_spec(old(view)@, index as int, old(src)@)
                is None && final(view)@ == old(view)@ && e == MmfError::OutOfBounds,
        },
{
    memorymappedfile::set_pixels::<i32>(view, index, src)
}

} // verus!
