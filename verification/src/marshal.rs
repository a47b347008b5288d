//! Marshalling arithmetic: the exact byte layouts native calls require.
//!
//! These functions compute buffer sizes from pixel format and type,
//! lengths for pointer/length pairs, null-terminated byte buffers for
//! strings, and the truncation of returned info-log buffers. The
//! native calls that consume the results live outside the library;
//! callers pin row padding to "no padding" (pack alignment 1) so the
//! computed pixel-readback length matches what the native side writes.

use vstd::prelude::*;
use vstd::string::StrSliceExecFns;
use vstd::string::StringSliceAdditionalSpecFns;
use crate::error::Error;
use crate::registry::Namespace;

verus! {

/// Pixel format: three color channels.
pub const RGB: u32 = 0x1907;

/// Pixel format: four channels with alpha.
pub const RGBA: u32 = 0x1908;

/// Pixel format: single alpha channel.
pub const ALPHA: u32 = 0x1906;

/// Pixel format: single luminance channel.
pub const LUMINANCE: u32 = 0x1909;

/// Pixel format: three color channels, reversed byte order.
pub const BGR: u32 = 0x80E0;

/// Pixel format: four channels with alpha, reversed byte order.
pub const BGRA: u32 = 0x80E1;

/// Channel type: one byte per channel.
pub const UNSIGNED_BYTE: u32 = 0x1401;

/// Pixel-storage parameter for row packing; set to 1 before readback.
pub const PACK_ALIGNMENT: u32 = 0x0D05;

/// The authoritative channel-count table, keyed by pixel format.
///
/// The reversed-order formats (`BGR`, `BGRA`) are recognized on the
/// desktop namespace only; the embedded namespace treats them as
/// unrecognized. Every format outside the table is unrecognized.
pub open spec fn spec_channel_count(ns: Namespace, format: u32) -> Option<u32> {
    if format == RGB {
        Some(3u32)
    } else if format == RGBA {
        Some(4u32)
    } else if format == ALPHA {
        Some(1u32)
    } else if format == LUMINANCE {
        Some(1u32)
    } else if format == BGR && ns == Namespace::DesktopGl {
        Some(3u32)
    } else if format == BGRA && ns == Namespace::DesktopGl {
        Some(4u32)
    } else {
        None
    }
}

/// Bytes per channel, keyed by channel type. Only the one-byte channel
/// type is recognized.
pub open spec fn spec_bytes_per_channel(pixel_type: u32) -> Option<u32> {
    if pixel_type == UNSIGNED_BYTE {
        Some(1u32)
    } else {
        None
    }
}

/// Channel count of a pixel format; see [`spec_channel_count`].
/// An unrecognized format is a caller error, reported loudly.
pub fn channel_count(ns: Namespace, format: u32) -> (r: Result<u32, Error>)
    ensures
        match r {
            Ok(c) => spec_channel_count(ns, format) == Some(c),
            Err(e) => spec_channel_count(ns, format) is None && e == Error::InvalidArgument,
        },
{
    if format == RGB {
        Ok(3)
    } else if format == RGBA {
        Ok(4)
    } else if format == ALPHA {
        Ok(1)
    } else if format == LUMINANCE {
        Ok(1)
    } else if format == BGR && ns == Namespace::DesktopGl {
        Ok(3)
    } else if format == BGRA && ns == Namespace::DesktopGl {
        Ok(4)
    } else {
        Err(Error::InvalidArgument)
    }
}

/// Bytes per channel of a channel type; see [`spec_bytes_per_channel`].
pub fn bytes_per_channel(pixel_type: u32) -> (r: Result<u32, Error>)
    ensures
        match r {
            Ok(b) => spec_bytes_per_channel(pixel_type) == Some(b),
            Err(e) => spec_bytes_per_channel(pixel_type) is None && e == Error::InvalidArgument,
        },
{
    if pixel_type == UNSIGNED_BYTE {
        Ok(1)
    } else {
        Err(Error::InvalidArgument)
    }
}

/// Length in bytes of a pixel-readback buffer:
/// width * height * channel_count(format) * bytes_per_channel(type).
///
/// Fails with `InvalidArgument` instead of guessing when the format or
/// type is unrecognized, when a dimension is negative, or when the
/// product does not fit the host word: a wrong length here would cause
/// an out-of-bounds native write.
pub fn read_pixels_len(ns: Namespace, width: i32, height: i32, format: u32, pixel_type: u32) -> (r:
    Result<usize, Error>)
    ensures
        match r {
            Ok(n) => {
                &&& width >= 0
                &&& height >= 0
                &&& spec_channel_count(ns, format) is Some
                &&& spec_bytes_per_channel(pixel_type) is Some
                &&& n == width * height * spec_channel_count(ns, format).unwrap()
                    * spec_bytes_per_channel(pixel_type).unwrap()
            },
            Err(e) => {
                &&& e == Error::InvalidArgument
                &&& {
                    ||| width < 0
                    ||| height < 0
                    ||| spec_channel_count(ns, format) is None
                    ||| spec_bytes_per_channel(pixel_type) is None
                    ||| width * height * spec_channel_count(ns, format).unwrap()
                        * spec_bytes_per_channel(pixel_type).unwrap() > usize::MAX
                }
            },
        },
{
    if width < 0 || height < 0 {
        return Err(Error::InvalidArgument);
    }
    let cc = match channel_count(ns, format) {
        Ok(c) => c,
        Err(e) => {
            return Err(e);
        },
    };
    let bpc = match bytes_per_channel(pixel_type) {
        Ok(b) => b,
        Err(e) => {
            return Err(e);
        },
    };
    assert(cc <= 4 && bpc <= 1);
    let w = width as u64;
    let h = height as u64;
    assert(w * h <= 0x3fff_ffff_0000_0001u64) by (nonlinear_arith)
        requires
            w <= 0x7fff_ffffu64,
            h <= 0x7fff_ffffu64,
    ;
    let wh: u64 = w * h;
    assert(wh * (cc as u64) <= 0xffff_fffc_0000_0004u64) by (nonlinear_arith)
        requires
            wh <= 0x3fff_ffff_0000_0001u64,
            cc <= 4u32,
    ;
    let whc: u64 = wh * (cc as u64);
    assert(whc * (bpc as u64) <= whc) by (nonlinear_arith)
        requires
            bpc <= 1u32,
    ;
    let n: u64 = whc * (bpc as u64);
    assert(n == width * height * cc * bpc) by (nonlinear_arith)
        requires
            wh == w * h,
            whc == wh * cc,
            n == whc * bpc,
            w == width,
            h == height,
            width >= 0,
            height >= 0,
    ;
    if n > usize::MAX as u64 {
        Err(Error::InvalidArgument)
    } else {
        Ok(n as usize)
    }
}

/// Length of the info-log content returned to the caller, given the
/// native-reported length and the scratch-buffer capacity.
///
/// Native logs are null-terminated: a positive reported length is
/// trimmed by one so the terminator is not returned; a reported length
/// of zero (or a negative one) yields an empty log; a reported length
/// at or above the capacity is clamped to `capacity - 1`, truncated
/// content being no error.
pub open spec fn spec_trimmed_log_len(reported: int, capacity: nat) -> nat {
    if reported <= 0 || capacity == 0 {
        0
    } else if reported < capacity {
        (reported - 1) as nat
    } else {
        (capacity - 1) as nat
    }
}

/// Executable form of [`spec_trimmed_log_len`].
pub fn trimmed_log_len(reported: i32, capacity: usize) -> (r: usize)
    ensures
        r == spec_trimmed_log_len(reported as int, capacity as nat),
{
    if reported <= 0 || capacity == 0 {
        0
    } else if (reported as usize) < capacity {
        (reported as usize) - 1
    } else {
        capacity - 1
    }
}

/// Trims a scratch buffer filled by a native info-log query down to
/// the content to return: the terminator (and anything past the
/// reported length) is dropped.
pub fn trim_info_log(buf: &mut Vec<u8>, reported: i32)
    ensures
        final(buf)@ == old(buf)@.take(
            spec_trimmed_log_len(reported as int, old(buf)@.len() as nat) as int,
        ),
{
    let keep = trimmed_log_len(reported, buf.len());
    buf.truncate(keep);
}

/// A string as a null-terminated byte buffer: the string's bytes with
/// one zero byte appended.
pub fn cstring_from_str(s: &str) -> (r: Vec<u8>)
    ensures
        r@ == s.spec_bytes().push(0u8),
{
    let mut v = s.as_bytes_vec();
    v.push(0);
    v
}

/// Byte length of a typed sequence handed to a native call:
/// element count times element size. Fails rather than truncating when
/// the product exceeds the native signed-size range.
pub fn buffer_byte_len(count: usize, elem_size: usize) -> (r: Result<usize, Error>)
    ensures
        match r {
            Ok(n) => n == count * elem_size && n <= isize::MAX,
            Err(e) => e == Error::InvalidArgument && count * elem_size > isize::MAX,
        },
{
    match count.checked_mul(elem_size) {
        Some(n) => {
            if n <= isize::MAX as usize {
                Ok(n)
            } else {
                Err(Error::InvalidArgument)
            }
        },
        None => Err(Error::InvalidArgument),
    }
}

/// The parallel length array for a shader-source upload: one native
/// signed length per byte string, in order. Fails when a string is too
/// long for the native length type.
pub fn shader_source_lengths(strings: &Vec<Vec<u8>>) -> (r: Result<Vec<i32>, Error>)
    ensures
        match r {
            Ok(lens) => {
                &&& lens@.len() == strings@.len()
                &&& forall|i: int|
                    0 <= i < strings@.len() ==> #[trigger] lens@[i] == strings@[i]@.len()
            },
            Err(e) => {
                &&& e == Error::InvalidArgument
                &&& exists|i: int| 0 <= i < strings@.len() && #[trigger] strings@[i]@.len()
                    > i32::MAX
            },
        },
{
    let mut lens: Vec<i32> = Vec::new();
    let mut i: usize = 0;
    while i < strings.len()
        invariant
            0 <= i <= strings.len(),
            lens@.len() == i,
            forall|t: int| 0 <= t < i ==> #[trigger] lens@[t] == strings@[t]@.len(),
        decreases strings.len() - i,
    {
        let n = strings[i].len();
        if n > i32::MAX as usize {
            assert(strings@[i as int]@.len() > i32::MAX);
            return Err(Error::InvalidArgument);
        }
        lens.push(n as i32);
        i = i + 1;
    }
    Ok(lens)
}

/// Pixel-readback length law: a four-channel format with a one-byte
/// channel type reads exactly 4 * W * H bytes, for all nonnegative
/// dimensions, on either namespace.
pub proof fn lemma_readback_four_channel(ns: Namespace, w: int, h: int)
    requires
        w >= 0,
        h >= 0,
    ensures
        spec_channel_count(ns, RGBA) == Some(4u32),
        spec_bytes_per_channel(UNSIGNED_BYTE) == Some(1u32),
        w * h * 4 * 1 == 4 * w * h,
{
    assert(w * h * 4 * 1 == 4 * w * h) by (nonlinear_arith);
}

/// Info-log truncation law: a reported length within the capacity
/// yields `max(0, L - 1)` content characters; a reported length at or
/// above the capacity yields `capacity - 1`; a reported length of
/// zero yields the empty log.
pub proof fn lemma_info_log_truncation(reported: int, capacity: nat)
    requires
        capacity > 0,
    ensures
        reported == 0 ==> spec_trimmed_log_len(reported, capacity) == 0,
        0 < reported < capacity ==> spec_trimmed_log_len(reported, capacity) == reported - 1,
        reported >= capacity ==> spec_trimmed_log_len(reported, capacity) == capacity - 1,
{
}

} // verus!
