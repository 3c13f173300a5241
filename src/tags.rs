//! Reading DateTimeOriginal and Orientation, and clearing Orientation.

use vstd::prelude::*;
use crate::bytes::{ByteOrder, u16_at, u32_at, u16_bytes, decode_u16, decode_u32, encode_u16};
use crate::error::ExifError;
use crate::ifd::{order_of, ifd0_of, tag_value, detect_byte_order, ifd0_offset, read_tag};
use crate::segment::{has_soi, app1_of, get_app1};

verus! {

/// Tag id of Orientation, in the 0th IFD.
pub const ORIENTATION: u16 = 0x0112;
/// Tag id of the pointer to the Exif IFD, in the 0th IFD.
pub const EXIF_IFD_POINTER: u16 = 0x8769;
/// Tag id of DateTimeOriginal, in the Exif IFD.
pub const DATE_TIME_ORIGINAL: u16 = 0x9003;

/// A located tag value as the extractors see it: a value type that this
/// reader does not decode counts as absent.
pub open spec fn known(r: Result<Option<(int, int, int)>, ExifError>) -> Result<
    Option<(int, int, int)>,
    ExifError,
> {
    match r {
        Err(ExifError::UnsupportedValueType) => Ok(None),
        _ => r,
    }
}

/// Where the Orientation value of the APP1 segment `s` lies: one SHORT.
/// A value of any other type or count counts as absent.
pub open spec fn orientation_pos(s: Seq<u8>) -> Result<Option<int>, ExifError> {
    if s.len() < 18 {
        Err(ExifError::Truncated)
    } else {
        match known(tag_value(s, ifd0_of(s), ORIENTATION, order_of(s))) {
            Ok(Some((p, n, t))) => if t == 3 && n == 2 {
                Ok(Some(p))
            } else {
                Ok(None)
            },
            Ok(None) => Ok(None),
            Err(e) => Err(e),
        }
    }
}

/// The Orientation of the APP1 segment `s`, where it lies in 1 to 8.
pub open spec fn orientation_in(s: Seq<u8>) -> Result<Option<u16>, ExifError> {
    match orientation_pos(s) {
        Ok(Some(p)) => {
            let v = u16_at(s, p, order_of(s));
            if 1 <= v <= 8 {
                Ok(Some(v as u16))
            } else {
                Ok(None)
            }
        },
        Ok(None) => Ok(None),
        Err(e) => Err(e),
    }
}

/// The Orientation of a JPEG file.
pub open spec fn orientation_of(jpeg: Seq<u8>) -> Result<Option<u16>, ExifError> {
    if !has_soi(jpeg) {
        Err(ExifError::MalformedJpeg)
    } else {
        match app1_of(jpeg) {
            Ok(Some(a)) => orientation_in(a),
            Ok(None) => Ok(None),
            Err(e) => Err(e),
        }
    }
}

/// The first 19 bytes of DateTimeOriginal in the IFD at offset `ifd`, where
/// it is an ASCII value of at least 19 bytes.
pub open spec fn date_in_ifd(s: Seq<u8>, ifd: int, order: ByteOrder) -> Result<
    Option<Seq<u8>>,
    ExifError,
> {
    match known(tag_value(s, ifd, DATE_TIME_ORIGINAL, order)) {
        Ok(Some((q, m, u))) => if u == 2 && m >= 19 {
            Ok(Some(s.subrange(q, q + 19)))
        } else {
            Ok(None)
        },
        Ok(None) => Ok(None),
        Err(e) => Err(e),
    }
}

/// The first 19 bytes of DateTimeOriginal in the APP1 segment `s`, reached
/// through the Exif IFD pointer of the 0th IFD. The pointer must be one LONG
/// and the date an ASCII value of at least 19 bytes; otherwise it is absent.
pub open spec fn date_time_in(s: Seq<u8>) -> Result<Option<Seq<u8>>, ExifError> {
    if s.len() < 18 {
        Err(ExifError::Truncated)
    } else {
        let order = order_of(s);
        match known(tag_value(s, ifd0_of(s), EXIF_IFD_POINTER, order)) {
            Ok(Some((p, n, t))) => if t != 4 || n != 4 {
                Ok(None)
            } else {
                date_in_ifd(s, u32_at(s, p, order), order)
            },
            Ok(None) => Ok(None),
            Err(e) => Err(e),
        }
    }
}

/// The DateTimeOriginal of a JPEG file, without its closing NUL.
pub open spec fn date_time_of(jpeg: Seq<u8>) -> Result<Option<Seq<u8>>, ExifError> {
    if !has_soi(jpeg) {
        Err(ExifError::MalformedJpeg)
    } else {
        match app1_of(jpeg) {
            Ok(Some(a)) => date_time_in(a),
            Ok(None) => Ok(None),
            Err(e) => Err(e),
        }
    }
}

/// The APP1 segment `s` with the Orientation value set to 1 (no rotation),
/// in the segment's own byte order; unchanged where there is no Orientation.
pub open spec fn cleared(s: Seq<u8>) -> Result<Seq<u8>, ExifError> {
    match orientation_pos(s) {
        Ok(Some(p)) => {
            let one = u16_bytes(1, order_of(s));
            Ok(s.update(p, one[0]).update(p + 1, one[1]))
        },
        Ok(None) => Ok(s),
        Err(e) => Err(e),
    }
}

/// The APP1 segment of a JPEG file with its Orientation cleared; `None`
/// where the file has no APP1 segment.
pub open spec fn cleared_of(jpeg: Seq<u8>) -> Result<Option<Seq<u8>>, ExifError> {
    if !has_soi(jpeg) {
        Err(ExifError::MalformedJpeg)
    } else {
        match app1_of(jpeg) {
            Ok(Some(a)) => match cleared(a) {
                Ok(c) => Ok(Some(c)),
                Err(e) => Err(e),
            },
            Ok(None) => Ok(None),
            Err(e) => Err(e),
        }
    }
}

/// `read_tag`, with an unsupported value type read as an absent tag.
fn read_known_tag(app1: &[u8], ifd_offset: usize, tag: u16, order: ByteOrder) -> (r: Result<
    Option<(usize, usize, u16)>,
    ExifError,
>)
    ensures
        crate::ifd::located(r) == known(tag_value(app1@, ifd_offset as int, tag, order)),
        r != Err::<Option<(usize, usize, u16)>, ExifError>(ExifError::UnsupportedValueType),
{
    match read_tag(app1, ifd_offset, tag, order) {
        Err(ExifError::UnsupportedValueType) => Ok(None),
        r => r,
    }
}

/// Where the Orientation value (one SHORT) of `app1` lies.
fn find_orientation(app1: &[u8]) -> (r: Result<Option<usize>, ExifError>)
    ensures
        match r {
            Ok(Some(p)) => orientation_pos(app1@) == Ok::<Option<int>, ExifError>(Some(p as int)),
            Ok(None) => orientation_pos(app1@) == Ok::<Option<int>, ExifError>(None),
            Err(e) => orientation_pos(app1@) == Err::<Option<int>, ExifError>(e),
        },
{
    if app1.len() < 18 {
        return Err(ExifError::Truncated);
    }
    let order = detect_byte_order(app1);
    let ifd0 = ifd0_offset(app1, order) as usize;
    match read_known_tag(app1, ifd0, ORIENTATION, order) {
        Ok(Some((p, n, t))) => if t == 3 && n == 2 {
            Ok(Some(p))
        } else {
            Ok(None)
        },
        Ok(None) => Ok(None),
        Err(e) => Err(e),
    }
}

/// The Orientation (1 to 8) of the APP1 segment `app1`; `None` where it is
/// absent or out of that range.
pub fn orientation_in_app1(app1: &[u8]) -> (r: Result<Option<u16>, ExifError>)
    ensures
        r == orientation_in(app1@),
{
    match find_orientation(app1) {
        Ok(Some(p)) => {
            proof {
                lemma_value_in_bounds(app1@);
            }
            let order = detect_byte_order(app1);
            let v = decode_u16(app1, p, order);
            if v == 0 || v > 8 {
                Ok(None)
            } else {
                Ok(Some(v))
            }
        },
        Ok(None) => Ok(None),
        Err(e) => Err(e),
    }
}

/// The two bytes of a located Orientation value lie inside the segment.
pub proof fn lemma_value_in_bounds(s: Seq<u8>)
    ensures
        match orientation_pos(s) {
            Ok(Some(p)) => s.len() >= 18 && 0 <= p && p + 2 <= s.len(),
            _ => true,
        },
{
    if s.len() >= 18 {
        crate::ifd::lemma_last_match_bound(
            s,
            ifd0_of(s),
            ORIENTATION,
            order_of(s),
            crate::ifd::entry_count(s, ifd0_of(s), order_of(s)),
        );
    }
}

/// The Orientation (1 to 8) of a JPEG file; `None` where it is absent or out
/// of that range.
pub fn get_orientation(jpeg_binary: &[u8]) -> (r: Result<Option<u16>, ExifError>)
    ensures
        r == orientation_of(jpeg_binary@),
{
    if jpeg_binary.len() < 2 || jpeg_binary[0] != 0xFF || jpeg_binary[1] != 0xD8 {
        return Err(ExifError::MalformedJpeg);
    }
    match get_app1(jpeg_binary) {
        Ok(Some(app1)) => orientation_in_app1(app1),
        Ok(None) => Ok(None),
        Err(e) => Err(e),
    }
}

/// The first 19 bytes of the DateTimeOriginal value of `app1`.
pub fn date_time_in_app1(app1: &[u8]) -> (r: Result<Option<[u8; 19]>, ExifError>)
    ensures
        match r {
            Ok(Some(d)) => date_time_in(app1@) == Ok::<Option<Seq<u8>>, ExifError>(Some(d@)),
            Ok(None) => date_time_in(app1@) == Ok::<Option<Seq<u8>>, ExifError>(None),
            Err(e) => date_time_in(app1@) == Err::<Option<Seq<u8>>, ExifError>(e),
        },
{
    if app1.len() < 18 {
        return Err(ExifError::Truncated);
    }
    let order = detect_byte_order(app1);
    let ifd0 = ifd0_offset(app1, order) as usize;
    let (p, n, t) = match read_known_tag(app1, ifd0, EXIF_IFD_POINTER, order) {
        Ok(Some(loc)) => loc,
        Ok(None) => return Ok(None),
        Err(e) => return Err(e),
    };
    if t != 4 || n != 4 {
        return Ok(None);
    }
    proof {
        crate::ifd::lemma_value_bounds(app1@, ifd0 as int, EXIF_IFD_POINTER, order);
    }
    let exif_ifd = decode_u32(app1, p, order) as usize;
    let (q, m, u) = match read_known_tag(app1, exif_ifd, DATE_TIME_ORIGINAL, order) {
        Ok(Some(loc)) => loc,
        Ok(None) => return Ok(None),
        Err(e) => return Err(e),
    };
    if u != 2 || m < 19 {
        return Ok(None);
    }
    proof {
        crate::ifd::lemma_value_bounds(app1@, exif_ifd as int, DATE_TIME_ORIGINAL, order);
    }
    let len = app1.len();
    let mut d = [0u8; 19];
    let mut i: usize = 0;
    while i < 19
        invariant
            len == app1@.len(),
            q + m <= app1@.len(),
            m >= 19,
            i <= 19,
            forall|j: int| 0 <= j < i ==> d@[j] == app1@[q + j],
        decreases 19 - i,
    {
        d[i] = app1[q + i];
        i += 1;
    }
    assert(d@ =~= app1@.subrange(q as int, q + 19));
    Ok(Some(d))
}

/// The DateTimeOriginal of a JPEG file (`YYYY:MM:DD HH:MM:SS`), without its
/// closing NUL.
pub fn get_date_time_original(jpeg_binary: &[u8]) -> (r: Result<Option<[u8; 19]>, ExifError>)
    ensures
        match r {
            Ok(Some(d)) => date_time_of(jpeg_binary@) == Ok::<Option<Seq<u8>>, ExifError>(
                Some(d@),
            ),
            Ok(None) => date_time_of(jpeg_binary@) == Ok::<Option<Seq<u8>>, ExifError>(None),
            Err(e) => date_time_of(jpeg_binary@) == Err::<Option<Seq<u8>>, ExifError>(e),
        },
{
    if jpeg_binary.len() < 2 || jpeg_binary[0] != 0xFF || jpeg_binary[1] != 0xD8 {
        return Err(ExifError::MalformedJpeg);
    }
    match get_app1(jpeg_binary) {
        Ok(Some(app1)) => date_time_in_app1(app1),
        Ok(None) => Ok(None),
        Err(e) => Err(e),
    }
}

/// A copy of the EXIF APP1 segment of a JPEG file, marker included, with the
/// Orientation value set to 1 (no rotation) in the segment's own byte order.
/// Without an Orientation the copy is unchanged; without an APP1 segment
/// there is no copy.
pub fn clear_orientation(jpeg_binary: &[u8]) -> (r: Result<Option<Vec<u8>>, ExifError>)
    ensures
        match r {
            Ok(Some(v)) => cleared_of(jpeg_binary@) == Ok::<Option<Seq<u8>>, ExifError>(Some(v@)),
            Ok(None) => cleared_of(jpeg_binary@) == Ok::<Option<Seq<u8>>, ExifError>(None),
            Err(e) => cleared_of(jpeg_binary@) == Err::<Option<Seq<u8>>, ExifError>(e),
        },
{
    if jpeg_binary.len() < 2 || jpeg_binary[0] != 0xFF || jpeg_binary[1] != 0xD8 {
        return Err(ExifError::MalformedJpeg);
    }
    let app1 = match get_app1(jpeg_binary) {
        Ok(Some(app1)) => app1,
        Ok(None) => return Ok(None),
        Err(e) => return Err(e),
    };
    let mut copy = vstd::slice::slice_to_vec(app1);
    match find_orientation(app1) {
        Ok(Some(p)) => {
            proof {
                lemma_value_in_bounds(app1@);
                assert(app1@.len() == app1.len());
            }
            let one = encode_u16(1, detect_byte_order(app1));
            copy.set(p, one[0]);
            copy.set(p + 1, one[1]);
            Ok(Some(copy))
        },
        Ok(None) => Ok(Some(copy)),
        Err(e) => Err(e),
    }
}

} // verus!
