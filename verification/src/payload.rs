//! The binary payloads the `preview`, `thumbnail` and `focus_crop` commands
//! hand the frontend: a fixed little-endian header followed by the image
//! bytes, and the crop size a viewport asks for.

use vstd::prelude::*;

verus! {

/// Size of the header that precedes the JPEG bytes in a `preview` payload.
pub const PREVIEW_HEADER_LEN: usize = 8;

/// Tag identifying the payload kind and version: an IFD0 preview JPEG, v1.
pub const PREVIEW_KIND_JPEG_V1: u16 = 1;

/// Tag for the other payload kind: a cached thumbnail JPEG, v1.
pub const THUMBNAIL_KIND_JPEG_V1: u16 = 2;

/// Size of the header that precedes the pixels in a `focus_crop` payload.
pub const CROP_HEADER_LEN: usize = 32;

/// Tag for the third payload kind: a raw RGBA focus crop, v3.
pub const CROP_KIND_RGBA_V3: u16 = 5;

/// The largest crop produced per axis, in JPEG pixels. The payload is raw
/// RGBA, so this caps it at 4 MB.
pub const CROP_MAX: usize = 1024;

/// The two little-endian bytes of `v`.
pub open spec fn le16(v: u16) -> Seq<u8> {
    seq![(v % 256) as u8, (v / 256) as u8]
}

/// The four little-endian bytes of `v`.
pub open spec fn le32(v: u32) -> Seq<u8> {
    seq![
        (v % 256) as u8,
        ((v / 256) % 256) as u8,
        ((v / 65536) % 256) as u8,
        (v / 16777216) as u8,
    ]
}

/// A `preview` payload: the kind tag, the EXIF Orientation, four reserved
/// zero bytes, then the JPEG bytes verbatim.
pub open spec fn preview_payload(kind: u16, orientation: u16, jpeg: Seq<u8>) -> Seq<u8> {
    le16(kind) + le16(orientation) + le32(0) + jpeg
}

/// Appends the little-endian bytes of `v` to `out`.
fn push_u16(out: &mut Vec<u8>, v: u16)
    ensures
        final(out)@ == old(out)@ + le16(v),
{
    out.push((v % 256) as u8);
    out.push((v / 256) as u8);
    assert(final(out)@ =~= old(out)@ + le16(v));
}

/// Appends the little-endian bytes of `v` to `out`.
fn push_u32(out: &mut Vec<u8>, v: u32)
    ensures
        final(out)@ == old(out)@ + le32(v),
{
    out.push((v % 256) as u8);
    out.push(((v / 256) % 256) as u8);
    out.push(((v / 65536) % 256) as u8);
    out.push((v / 16777216) as u8);
    assert(final(out)@ =~= old(out)@ + le32(v));
}

/// Appends `bytes` to `out`.
fn push_all(out: &mut Vec<u8>, bytes: &[u8])
    ensures
        final(out)@ == old(out)@ + bytes@,
{
    let ghost start = out@;
    let mut i: usize = 0;
    while i < bytes.len()
        invariant
            i <= bytes@.len(),
            out@ == start + bytes@.take(i as int),
        decreases bytes@.len() - i,
    {
        out.push(bytes[i]);
        assert(out@ =~= start + bytes@.take(i + 1));
        i = i + 1;
    }
    assert(bytes@.take(i as int) =~= bytes@);
}

/// Build a `preview` payload: a fixed-size little-endian header followed by
/// the embedded JPEG bytes, copied verbatim.
///
/// Header layout (8 bytes, little-endian): the kind/version tag
/// (`PREVIEW_KIND_JPEG_V1` or `THUMBNAIL_KIND_JPEG_V1`) at 0, the EXIF
/// Orientation at 2, four reserved zero bytes at 4.
pub fn payload(kind: u16, orientation: u16, jpeg: &[u8]) -> (r: Vec<u8>)
    ensures
        r@ == preview_payload(kind, orientation, jpeg@),
        r@.len() == PREVIEW_HEADER_LEN + jpeg@.len(),
{
    let mut out: Vec<u8> = Vec::new();
    push_u16(&mut out, kind);
    push_u16(&mut out, orientation);
    push_u32(&mut out, 0);
    push_all(&mut out, jpeg);
    assert(out@ =~= preview_payload(kind, orientation, jpeg@));
    out
}

/// How long the two phases of one `focus_crop` took, in microseconds.
#[derive(Clone, Copy, Debug, PartialEq, Eq, Structural)]
pub struct CropTiming {
    pub read_us: u32,
    pub decode_us: u32,
}

/// The pixels cut out of a full-resolution JPEG, with where they lie in it.
#[derive(Debug, PartialEq, Eq)]
pub struct PixelCrop {
    /// RGBA pixels, row by row.
    pub pixels: Vec<u8>,
    pub width: usize,
    pub height: usize,
    /// Top-left of the cut in the full JPEG.
    pub x: usize,
    pub y: usize,
    /// The full JPEG's size.
    pub image_width: usize,
    pub image_height: usize,
}

/// A crop around the focus point, and the focus point in crop pixels.
#[derive(Debug, PartialEq, Eq)]
pub struct FocusCrop {
    pub crop: PixelCrop,
    pub point_x: usize,
    pub point_y: usize,
}

/// `v` cut to its low 32 bits, as `as u32` does.
pub open spec fn low32(v: usize) -> u32 {
    ((v as int) % 0x1_0000_0000int) as u32
}

/// `v` cut to its low 16 bits, as `as u16` does.
pub open spec fn low16(v: usize) -> u16 {
    ((v as int) % 0x1_0000int) as u16
}

/// A `focus_crop` payload: the kind tag, the Orientation, the crop's width
/// and height, the focus point, the two timings and the full JPEG's size,
/// then the RGBA pixels. Each size goes in as its low 32 (or, for the full
/// JPEG's size, 16) bits.
pub open spec fn focus_crop_payload(orientation: u16, crop: FocusCrop, timing: CropTiming) -> Seq<
    u8,
> {
    le16(CROP_KIND_RGBA_V3) + le16(orientation) + le32(low32(crop.crop.width)) + le32(
        low32(crop.crop.height),
    ) + le32(low32(crop.point_x)) + le32(low32(crop.point_y)) + le32(timing.read_us) + le32(
        timing.decode_us,
    ) + le16(low16(crop.crop.image_width)) + le16(low16(crop.crop.image_height))
        + crop.crop.pixels@
}

/// `v` cut to its low 32 bits.
fn cut32(v: usize) -> (r: u32)
    ensures
        r == low32(v),
{
    ((v as u64) % 0x1_0000_0000u64) as u32
}

/// `v` cut to its low 16 bits.
fn cut16(v: usize) -> (r: u16)
    ensures
        r == low16(v),
{
    (v % 0x1_0000usize) as u16
}

/// Build a `focus_crop` payload: a fixed-size little-endian header followed
/// by the crop's RGBA bytes.
///
/// Header layout (32 bytes, little-endian): the kind/version tag
/// (`CROP_KIND_RGBA_V3`) at 0, the EXIF Orientation at 2, the crop width at
/// 4 and height at 8, the point of interest in crop pixels at 12 (x) and 16
/// (y), the ranged read of the JpgFromRaw at 20 and the partial decode at 24
/// (in us), the full JPEG's width at 28 and height at 30.
pub fn crop_payload(orientation: u16, crop: &FocusCrop, timing: CropTiming) -> (r: Vec<u8>)
    ensures
        r@ == focus_crop_payload(orientation, *crop, timing),
        r@.len() == CROP_HEADER_LEN + crop.crop.pixels@.len(),
{
    let mut out: Vec<u8> = Vec::new();
    push_u16(&mut out, CROP_KIND_RGBA_V3);
    push_u16(&mut out, orientation);
    push_u32(&mut out, cut32(crop.crop.width));
    push_u32(&mut out, cut32(crop.crop.height));
    push_u32(&mut out, cut32(crop.point_x));
    push_u32(&mut out, cut32(crop.point_y));
    push_u32(&mut out, timing.read_us);
    push_u32(&mut out, timing.decode_us);
    push_u16(&mut out, cut16(crop.crop.image_width));
    push_u16(&mut out, cut16(crop.crop.image_height));
    push_all(&mut out, crop.crop.pixels.as_slice());
    assert(out@ =~= focus_crop_payload(orientation, *crop, timing));
    out
}

/// `v` held to `1..=CROP_MAX`.
pub open spec fn cap(v: usize) -> usize {
    if v < 1 {
        1
    } else if v > CROP_MAX {
        CROP_MAX
    } else {
        v
    }
}

/// The crop size in unrotated JPEG pixels for a viewport of `width` x
/// `height` device pixels: each axis is capped, and the two are swapped for
/// the quarter-turn orientations (6 and 8), where the viewport's width runs
/// along the unrotated JPEG's height.
pub fn crop_size(orientation: u16, width: usize, height: usize) -> (r: (usize, usize))
    ensures
        r == if orientation == 6 || orientation == 8 {
            (cap(height), cap(width))
        } else {
            (cap(width), cap(height))
        },
{
    let w = if width < 1 {
        1
    } else if width > CROP_MAX {
        CROP_MAX
    } else {
        width
    };
    let h = if height < 1 {
        1
    } else if height > CROP_MAX {
        CROP_MAX
    } else {
        height
    };
    if orientation == 6 || orientation == 8 {
        (h, w)
    } else {
        (w, h)
    }
}

/// Reading the header of a `preview` payload gives back the kind and the
/// Orientation it was built with, and the bytes after it are the JPEG.
pub proof fn law_a_preview_header_reads_back(kind: u16, orientation: u16, jpeg: Seq<u8>)
    ensures
        ({
            let p = preview_payload(kind, orientation, jpeg);
            &&& p[0] + 256 * p[1] == kind
            &&& p[2] + 256 * p[3] == orientation
            &&& p[4] == 0 && p[5] == 0 && p[6] == 0 && p[7] == 0
            &&& p.subrange(PREVIEW_HEADER_LEN as int, p.len() as int) == jpeg
        }),
{
    let p = preview_payload(kind, orientation, jpeg);
    assert(p.subrange(8, p.len() as int) =~= jpeg);
}

} // verus!
