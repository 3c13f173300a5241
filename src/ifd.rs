//! The TIFF block inside an APP1 segment: header, byte order and IFD entries.

use vstd::prelude::*;
use crate::bytes::{ByteOrder, u16_at, u32_at, decode_u16, decode_u32};
use crate::error::ExifError;

verus! {

/// Offset of the TIFF header inside an APP1 segment: after the marker, the
/// length and `Exif\0\0`. Every offset in the TIFF block counts from here.
pub const OFFSET_TIFF_HEADER: usize = 10;

/// The byte order that the TIFF header names: `MM` is big-endian, anything
/// else is taken as little-endian.
pub open spec fn order_of(s: Seq<u8>) -> ByteOrder {
    if s[10] == 0x4D && s[11] == 0x4D {
        ByteOrder::BigEndian
    } else {
        ByteOrder::LittleEndian
    }
}

/// The offset of the 0th IFD, read from the TIFF header.
pub open spec fn ifd0_of(s: Seq<u8>) -> int {
    u32_at(s, 14, order_of(s))
}

/// The position of entry `j` of the IFD at offset `ifd`.
pub open spec fn entry_pos(ifd: int, j: int) -> int {
    10 + ifd + 2 + 12 * j
}

/// The number of entries of the IFD at offset `ifd`.
pub open spec fn entry_count(s: Seq<u8>, ifd: int, order: ByteOrder) -> int {
    u16_at(s, 10 + ifd, order)
}

/// The entry count and all the entries of the IFD lie inside `s`.
pub open spec fn ifd_fits(s: Seq<u8>, ifd: int, order: ByteOrder) -> bool {
    0 <= ifd && 10 + ifd + 2 <= s.len() && entry_pos(ifd, entry_count(s, ifd, order)) <= s.len()
}

/// The last of the first `n` entries whose tag id is `tag`.
pub open spec fn last_match(s: Seq<u8>, ifd: int, tag: u16, order: ByteOrder, n: int) -> Option<int>
    decreases n,
{
    if n <= 0 {
        None
    } else if u16_at(s, entry_pos(ifd, n - 1), order) == tag {
        Some(n - 1)
    } else {
        last_match(s, ifd, tag, order, n - 1)
    }
}

/// Bytes per item of a value type: ASCII 1, SHORT 2, LONG 4; 0 for the others.
pub open spec fn type_width(t: int) -> int {
    if t == 2 {
        1
    } else if t == 3 {
        2
    } else if t == 4 {
        4
    } else {
        0
    }
}

/// Where the value of tag `tag` in the IFD at offset `ifd` lies: its start in
/// `s`, its length in bytes and its value type. A value of at most four bytes stands in the
/// entry itself; a longer one where the entry's offset points.
pub open spec fn tag_value(s: Seq<u8>, ifd: int, tag: u16, order: ByteOrder) -> Result<
    Option<(int, int, int)>,
    ExifError,
> {
    if !ifd_fits(s, ifd, order) {
        Err(ExifError::Truncated)
    } else {
        match last_match(s, ifd, tag, order, entry_count(s, ifd, order)) {
            None => Ok(None),
            Some(k) => {
                let p = entry_pos(ifd, k);
                let t = u16_at(s, p + 2, order);
                let w = type_width(t);
                let n = w * u32_at(s, p + 4, order);
                if w == 0 {
                    Err(ExifError::UnsupportedValueType)
                } else if n <= 4 {
                    Ok(Some((p + 8, n, t)))
                } else if 10 + u32_at(s, p + 8, order) + n <= s.len() {
                    Ok(Some((10 + u32_at(s, p + 8, order), n, t)))
                } else {
                    Err(ExifError::Truncated)
                }
            },
        }
    }
}

/// The mathematical reading of a located value.
pub open spec fn located(r: Result<Option<(usize, usize, u16)>, ExifError>) -> Result<
    Option<(int, int, int)>,
    ExifError,
> {
    match r {
        Ok(Some((a, b, t))) => Ok(Some((a as int, b as int, t as int))),
        Ok(None) => Ok(None),
        Err(e) => Err(e),
    }
}

/// A position that `last_match` gives is one of the first `n` entries.
pub proof fn lemma_last_match_bound(s: Seq<u8>, ifd: int, tag: u16, order: ByteOrder, n: int)
    ensures
        match last_match(s, ifd, tag, order, n) {
            Some(k) => 0 <= k < n,
            None => true,
        },
    decreases n,
{
    if n > 0 && u16_at(s, entry_pos(ifd, n - 1), order) != tag {
        lemma_last_match_bound(s, ifd, tag, order, n - 1);
    }
}

/// The byte order that the TIFF header of `app1` names.
pub fn detect_byte_order(app1: &[u8]) -> (r: ByteOrder)
    requires
        app1@.len() >= 12,
    ensures
        r == order_of(app1@),
{
    if app1[10] == 0x4D && app1[11] == 0x4D {
        ByteOrder::BigEndian
    } else {
        ByteOrder::LittleEndian
    }
}

/// The offset of the 0th IFD, counted from the TIFF header.
pub fn ifd0_offset(app1: &[u8], order: ByteOrder) -> (r: u32)
    requires
        app1@.len() >= 18,
    ensures
        r == u32_at(app1@, 14, order),
{
    decode_u32(app1, OFFSET_TIFF_HEADER + 4, order)
}

/// Locates the value of tag `tag` in the IFD at offset `ifd_offset` (counted
/// from the TIFF header): its start in `app1`, its length in bytes and its
/// value type.
/// Where several entries carry the tag, the last one counts.
pub fn read_tag(app1: &[u8], ifd_offset: usize, tag: u16, order: ByteOrder) -> (r: Result<
    Option<(usize, usize, u16)>,
    ExifError,
>)
    ensures
        located(r) == tag_value(app1@, ifd_offset as int, tag, order),
{
    let n = app1.len();
    if ifd_offset > n || n - ifd_offset < OFFSET_TIFF_HEADER + 2 {
        return Err(ExifError::Truncated);
    }
    let base = OFFSET_TIFF_HEADER + ifd_offset;
    let count = decode_u16(app1, base, order) as usize;
    if 12 * count > n - base - 2 {
        return Err(ExifError::Truncated);
    }
    let mut found: Option<usize> = None;
    let mut j: usize = 0;
    let mut p: usize = base + 2;
    while j < count
        invariant
            n == app1@.len(),
            base == 10 + ifd_offset,
            count == entry_count(app1@, ifd_offset as int, order),
            base + 2 + 12 * count <= n,
            j <= count,
            p == entry_pos(ifd_offset as int, j as int),
            match found {
                Some(k) => last_match(app1@, ifd_offset as int, tag, order, j as int) == Some(
                    k as int,
                ),
                None => last_match(app1@, ifd_offset as int, tag, order, j as int) is None,
            },
        decreases count - j,
    {
        if decode_u16(app1, p, order) == tag {
            found = Some(j);
        }
        j += 1;
        p += 12;
    }
    match found {
        None => Ok(None),
        Some(k) => {
            proof {
                lemma_last_match_bound(app1@, ifd_offset as int, tag, order, count as int);
            }
            let p = base + 2 + 12 * k;
            let typ = decode_u16(app1, p + 2, order);
            let w: u64 = if typ == 2 {
                1
            } else if typ == 3 {
                2
            } else if typ == 4 {
                4
            } else {
                return Err(ExifError::UnsupportedValueType);
            };
            let c = decode_u32(app1, p + 4, order) as u64;
            assert(w * c <= 4 * 0xFFFF_FFFF) by (nonlinear_arith)
                requires
                    w <= 4,
                    c <= 0xFFFF_FFFF,
            ;
            let vb: u64 = w * c;
            if vb <= 4 {
                Ok(Some((p + 8, vb as usize, typ)))
            } else {
                let off = decode_u32(app1, p + 8, order) as u64;
                if off + 10 + vb <= n as u64 {
                    Ok(Some(((off + 10) as usize, vb as usize, typ)))
                } else {
                    Err(ExifError::Truncated)
                }
            }
        },
    }
}

/// A located value lies inside the segment.
pub proof fn lemma_value_bounds(s: Seq<u8>, ifd: int, tag: u16, order: ByteOrder)
    ensures
        match tag_value(s, ifd, tag, order) {
            Ok(Some((p, n, t))) => 0 <= p && 0 <= n && p + n <= s.len(),
            _ => true,
        },
{
    if ifd_fits(s, ifd, order) {
        lemma_last_match_bound(s, ifd, tag, order, entry_count(s, ifd, order));
    }
}

} // verus!
