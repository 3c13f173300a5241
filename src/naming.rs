//! New file names of the form `YYYY-MM-DD_HHMM_xxxxxxxx.jpg`, from the date a
//! photo was taken and the CRC-32 of the file.

use vstd::prelude::*;
use crate::error::ExifError;
use crate::tags::{date_time_of, get_date_time_original};

verus! {

/// The CRC-32 checksum of `b`.
pub uninterp spec fn crc32_of(b: Seq<u8>) -> u32;

/// Relies on crc32fast::hash: the CRC-32 checksum of the whole buffer, which
/// depends on its bytes alone.
#[verifier::external_body]
fn crc32(b: &[u8]) -> (r: u32)
    ensures
        r == crc32_of(b@),
{
    crc32fast::hash(b)
}

/// `YYYY:MM:DD HH:MM:SS` turned into `YYYY-MM-DD_HHMM`.
pub open spec fn date_stamp(d: Seq<u8>) -> Seq<u8> {
    d.subrange(0, 4) + seq![0x2Du8] + d.subrange(5, 7) + seq![0x2Du8] + d.subrange(8, 10)
        + seq![0x5Fu8] + d.subrange(11, 13) + d.subrange(14, 16)
}

/// The date stamp of a JPEG file, where it has a DateTimeOriginal.
pub open spec fn date_stamp_of(jpeg: Seq<u8>) -> Result<Option<Seq<u8>>, ExifError> {
    match date_time_of(jpeg) {
        Ok(Some(d)) => Ok(Some(date_stamp(d))),
        Ok(None) => Ok(None),
        Err(e) => Err(e),
    }
}

/// The lower-case hexadecimal digit of `d` (below 16).
pub open spec fn hex_digit(d: u32) -> u8 {
    if d < 10 {
        (0x30 + d) as u8
    } else {
        (0x61 + d - 10) as u8
    }
}

/// The eight lower-case hexadecimal digits of `v`, most significant first.
pub open spec fn hex_of(v: u32) -> Seq<u8> {
    Seq::new(8, |k: int| hex_digit((v >> ((28 - 4 * k) as u32)) & 0xF))
}

/// `.jpg`
pub open spec fn jpg_suffix() -> Seq<u8> {
    seq![0x2Eu8, 0x6Au8, 0x70u8, 0x67u8]
}

/// The new name of a file: the date stamp and `_` where there is one, then the
/// checksum in hexadecimal, then `.jpg`.
pub open spec fn file_name_of(stamp: Option<Seq<u8>>, crc: u32) -> Seq<u8> {
    match stamp {
        Some(d) => d + seq![0x5Fu8] + hex_of(crc) + jpg_suffix(),
        None => hex_of(crc) + jpg_suffix(),
    }
}

/// The ASCII lower-case form of a byte.
pub open spec fn ascii_lower(b: u8) -> u8 {
    if 0x41 <= b <= 0x5A {
        (b + 0x20) as u8
    } else {
        b
    }
}

/// Whether a file extension reads `jpg`, in any case.
pub fn is_jpg_extension(ext: &[u8]) -> (r: bool)
    ensures
        r == (ext@.len() == 3 && ascii_lower(ext@[0]) == 0x6A && ascii_lower(ext@[1]) == 0x70
            && ascii_lower(ext@[2]) == 0x67),
{
    if ext.len() != 3 {
        return false;
    }
    let mut same = true;
    let want: [u8; 3] = [0x6A, 0x70, 0x67];
    let mut i: usize = 0;
    while i < 3
        invariant
            ext@.len() == 3,
            i <= 3,
            want@ == seq![0x6Au8, 0x70u8, 0x67u8],
            same == forall|j: int| 0 <= j < i ==> ascii_lower(ext@[j]) == want@[j],
        decreases 3 - i,
    {
        let b = ext[i];
        let lower = if 0x41 <= b && b <= 0x5A {
            b + 0x20
        } else {
            b
        };
        same = same && lower == want[i];
        i += 1;
    }
    same
}

/// `YYYY:MM:DD HH:MM:SS` turned into `YYYY-MM-DD_HHMM`.
pub fn format_date_time(d: [u8; 19]) -> (r: [u8; 15])
    ensures
        r@ == date_stamp(d@),
{
    let mut r = [0u8; 15];
    let mut i: usize = 0;
    while i < 13
        invariant
            i <= 13,
            forall|j: int| 0 <= j < i ==> r@[j] == d@[j],
        decreases 13 - i,
    {
        r[i] = d[i];
        i += 1;
    }
    r[4] = 0x2D;
    r[7] = 0x2D;
    r[10] = 0x5F;
    r[13] = d[14];
    r[14] = d[15];
    assert(r@ =~= date_stamp(d@));
    r
}

/// The date stamp `YYYY-MM-DD_HHMM` of a JPEG file, where it has a
/// DateTimeOriginal.
pub fn get_date_time(jpeg_binary: &[u8]) -> (r: Result<Option<[u8; 15]>, ExifError>)
    ensures
        match r {
            Ok(Some(d)) => date_stamp_of(jpeg_binary@) == Ok::<Option<Seq<u8>>, ExifError>(
                Some(d@),
            ),
            Ok(None) => date_stamp_of(jpeg_binary@) == Ok::<Option<Seq<u8>>, ExifError>(None),
            Err(e) => date_stamp_of(jpeg_binary@) == Err::<Option<Seq<u8>>, ExifError>(e),
        },
{
    match get_date_time_original(jpeg_binary) {
        Ok(Some(d)) => Ok(Some(format_date_time(d))),
        Ok(None) => Ok(None),
        Err(e) => Err(e),
    }
}

/// The eight lower-case hexadecimal digits of `v`, most significant first.
pub fn hex_u32(v: u32) -> (r: [u8; 8])
    ensures
        r@ == hex_of(v),
{
    let mut r = [0u8; 8];
    let mut k: usize = 0;
    while k < 8
        invariant
            k <= 8,
            forall|j: int| 0 <= j < k ==> r@[j] == hex_of(v)[j],
        decreases 8 - k,
    {
        let shift: u32 = 28 - 4 * (k as u32);
        let nibble: u32 = (v >> shift) & 0xF;
        assert(nibble < 16) by (bit_vector)
            requires
                nibble == (v >> shift) & 0xF,
        ;
        r[k] = if nibble < 10 {
            (0x30 + nibble) as u8
        } else {
            (0x61 + nibble - 10) as u8
        };
        k += 1;
    }
    assert(r@ =~= hex_of(v));
    r
}

/// The new name of a file from its date stamp, where it has one, and its
/// checksum.
pub fn new_file_name(date_time: Option<[u8; 15]>, crc: u32) -> (r: Vec<u8>)
    ensures
        r@ == file_name_of(
            match date_time {
                Some(d) => Some(d@),
                None => None,
            },
            crc,
        ),
{
    let mut name: Vec<u8> = Vec::new();
    if let Some(d) = date_time {
        let mut i: usize = 0;
        while i < 15
            invariant
                i <= 15,
                name@ == d@.subrange(0, i as int),
            decreases 15 - i,
        {
            name.push(d[i]);
            i += 1;
            assert(name@ =~= d@.subrange(0, i as int));
        }
        name.push(0x5F);
    }
    let ghost prefix = name@;
    let hex = hex_u32(crc);
    let mut k: usize = 0;
    while k < 8
        invariant
            k <= 8,
            name@ == prefix + hex@.subrange(0, k as int),
        decreases 8 - k,
    {
        name.push(hex[k]);
        k += 1;
        assert(name@ =~= prefix + hex@.subrange(0, k as int));
    }
    name.push(0x2E);
    name.push(0x6A);
    name.push(0x70);
    name.push(0x67);
    assert(hex@.subrange(0, 8) =~= hex@);
    assert(name@ =~= prefix + hex@ + jpg_suffix());
    proof {
        match date_time {
            Some(d) => assert(prefix =~= d@ + seq![0x5Fu8]),
            None => assert(prefix =~= Seq::<u8>::empty()),
        }
    }
    name
}

/// The new name of a JPEG file: its date stamp, where it has a
/// DateTimeOriginal, and the CRC-32 of all its bytes.
pub fn file_name(jpeg_binary: &[u8]) -> (r: Result<Vec<u8>, ExifError>)
    ensures
        match r {
            Ok(v) => date_stamp_of(jpeg_binary@) is Ok && v@ == file_name_of(
                date_stamp_of(jpeg_binary@)->Ok_0,
                crc32_of(jpeg_binary@),
            ),
            Err(e) => date_stamp_of(jpeg_binary@) == Err::<Option<Seq<u8>>, ExifError>(e),
        },
{
    let date_time = match get_date_time(jpeg_binary) {
        Ok(d) => d,
        Err(e) => return Err(e),
    };
    let crc = crc32(jpeg_binary);
    Ok(new_file_name(date_time, crc))
}

} // verus!
