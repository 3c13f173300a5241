//! JPEG marker segments: finding APP0 and APP1, and inserting APP1.

use vstd::prelude::*;
use crate::bytes::{ByteOrder, u16_at, decode_u16};
use crate::error::ExifError;

verus! {

/// Second byte of the APP0 marker `FF E0`.
pub const APP0: u8 = 0xE0;
/// Second byte of the APP1 marker `FF E1`.
pub const APP1: u8 = 0xE1;

/// `JFIF\0`, the identifier that opens a JFIF APP0 payload.
pub open spec fn jfif_id() -> Seq<u8> {
    seq![0x4Au8, 0x46u8, 0x49u8, 0x46u8, 0x00u8]
}

/// `Exif\0`, the identifier that opens an EXIF APP1 payload.
pub open spec fn exif_id() -> Seq<u8> {
    seq![0x45u8, 0x78u8, 0x69u8, 0x66u8, 0x00u8]
}

/// The identifier that a segment with marker `FF m` must carry to count.
pub open spec fn id_of(m: u8) -> Seq<u8> {
    if m == APP0 { jfif_id() } else { exif_id() }
}

/// The buffer begins with the start-of-image marker `FF D8`.
pub open spec fn has_soi(s: Seq<u8>) -> bool {
    s.len() >= 2 && s[0] == 0xFF && s[1] == 0xD8
}

/// At `i` stands the marker `FF m` and, four bytes on, the five-byte
/// identifier of `m`. An APP1 segment must also have a length field that
/// leaves room for its identifier; an APP0 segment is taken at its word.
pub open spec fn segment_at(s: Seq<u8>, i: int, m: u8) -> bool {
    0 <= i && i + 9 <= s.len() && s[i] == 0xFF && s[i + 1] == m
        && (m == APP0 || u16_at(s, i + 2, ByteOrder::BigEndian) >= 7)
        && s.subrange(i + 4, i + 9) == id_of(m)
}

/// The first position from `from` on where `segment_at` holds.
pub open spec fn first_segment(s: Seq<u8>, from: int, m: u8) -> Option<int>
    decreases s.len() - from,
{
    if from < 0 || from + 9 > s.len() {
        None
    } else if segment_at(s, from, m) {
        Some(from)
    } else {
        first_segment(s, from + 1, m)
    }
}

/// A position that `first_segment` gives holds a segment.
pub proof fn lemma_first_segment(s: Seq<u8>, from: int, m: u8)
    ensures
        match first_segment(s, from, m) {
            Some(i) => from <= i && segment_at(s, i, m),
            None => true,
        },
    decreases s.len() - from,
{
    if !(from < 0 || from + 9 > s.len()) && !segment_at(s, from, m) {
        lemma_first_segment(s, from + 1, m);
    }
}

/// The end of the segment that starts at `i`: marker, then a big-endian
/// length that counts itself and the payload.
pub open spec fn segment_end(s: Seq<u8>, i: int) -> int {
    i + 2 + u16_at(s, i + 2, ByteOrder::BigEndian)
}

/// Where an APP1 segment belongs: right after the JFIF APP0 segment, or right
/// after SOI where there is none.
pub open spec fn app0_end(s: Seq<u8>) -> Result<int, ExifError> {
    if !has_soi(s) {
        Err(ExifError::MalformedJpeg)
    } else {
        match first_segment(s, 2, APP0) {
            None => Ok(2),
            Some(i) => if segment_end(s, i) <= s.len() {
                Ok(segment_end(s, i))
            } else {
                Err(ExifError::Truncated)
            },
        }
    }
}

/// The bounds of the first EXIF APP1 segment, marker included.
pub open spec fn app1_span(s: Seq<u8>) -> Result<Option<(int, int)>, ExifError> {
    match first_segment(s, 0, APP1) {
        None => Ok(None),
        Some(i) => if segment_end(s, i) <= s.len() {
            Ok(Some((i, segment_end(s, i))))
        } else {
            Err(ExifError::Truncated)
        },
    }
}

/// The bytes of the first EXIF APP1 segment, marker included.
pub open spec fn app1_of(s: Seq<u8>) -> Result<Option<Seq<u8>>, ExifError> {
    match app1_span(s) {
        Ok(Some((a, b))) => Ok(Some(s.subrange(a, b))),
        Ok(None) => Ok(None),
        Err(e) => Err(e),
    }
}

/// `jpeg` with `app1` inserted where an APP1 segment belongs.
pub open spec fn spliced(jpeg: Seq<u8>, app1: Seq<u8>) -> Result<Seq<u8>, ExifError> {
    match app0_end(jpeg) {
        Ok(k) => Ok(jpeg.subrange(0, k) + app1 + jpeg.subrange(k, jpeg.len() as int)),
        Err(e) => Err(e),
    }
}

/// Whether `segment_at(s, i, m)` holds.
fn is_segment_at(s: &[u8], i: usize, m: u8) -> (r: bool)
    requires
        i + 9 <= s@.len(),
    ensures
        r == segment_at(s@, i as int, m),
{
    let id: [u8; 5] = if m == APP0 {
        [0x4A, 0x46, 0x49, 0x46, 0x00]
    } else {
        [0x45, 0x78, 0x69, 0x66, 0x00]
    };
    let n = s.len();
    let mut k: usize = 0;
    let mut same = s[i] == 0xFF && s[i + 1] == m
        && (m == APP0 || decode_u16(s, i + 2, ByteOrder::BigEndian) >= 7);
    while k < 5
        invariant
            k <= 5,
            i + 9 <= n,
            n == s@.len(),
            id@ == id_of(m),
            same == (s[i as int] == 0xFF && s[i as int + 1] == m
                && (m == APP0 || u16_at(s@, i + 2, ByteOrder::BigEndian) >= 7)
                && forall|j: int| 0 <= j < k ==> s@[i + 4 + j] == id@[j]),
        decreases 5 - k,
    {
        same = same && s[i + 4 + k] == id[k];
        k += 1;
    }
    proof {
        if same {
            assert(s@.subrange(i + 4, i + 9) =~= id_of(m));
        }
        if segment_at(s@, i as int, m) {
            assert forall|j: int| 0 <= j < 5 implies s@[i + 4 + j] == id@[j] by {
                assert(s@.subrange(i + 4, i + 9)[j] == s@[i + 4 + j]);
            }
        }
    }
    same
}

/// The first position from `from` on where a segment with marker `FF m` and
/// its identifier stands.
fn find_segment(s: &[u8], from: usize, m: u8) -> (r: Option<usize>)
    ensures
        match r {
            Some(i) => first_segment(s@, from as int, m) == Some(i as int),
            None => first_segment(s@, from as int, m) is None,
        },
{
    let mut i = from;
    while i <= s.len() && s.len() - i >= 9
        invariant
            from <= i,
            first_segment(s@, from as int, m) == first_segment(s@, i as int, m),
        decreases s.len() - i,
    {
        if is_segment_at(s, i, m) {
            return Some(i);
        }
        i += 1;
    }
    None
}

/// The offset right after the first JFIF APP0 segment (its start, plus 2,
/// plus its big-endian length field), or `2` (right after SOI) where there is
/// none: the place where an APP1 segment is to be inserted. An APP0 segment
/// that runs past the end of the buffer is `Truncated`.
pub fn next_app0_index(non_app1_binary: &[u8]) -> (r: Result<usize, ExifError>)
    ensures
        match r {
            Ok(k) => app0_end(non_app1_binary@) == Ok::<int, ExifError>(k as int),
            Err(e) => app0_end(non_app1_binary@) == Err::<int, ExifError>(e),
        },
{
    let s = non_app1_binary;
    if s.len() < 2 || s[0] != 0xFF || s[1] != 0xD8 {
        return Err(ExifError::MalformedJpeg);
    }
    match find_segment(s, 2, APP0) {
        None => Ok(2),
        Some(i) => {
            proof {
                lemma_first_segment(s@, 2, APP0);
            }
            let len = decode_u16(s, i + 2, ByteOrder::BigEndian) as usize;
            if s.len() - i - 2 >= len {
                Ok(i + 2 + len)
            } else {
                Err(ExifError::Truncated)
            }
        },
    }
}

/// The first EXIF APP1 segment (an `FF E1` segment whose payload begins with
/// `Exif\0`), marker included; `None` where there is none.
pub fn get_app1(jpeg_binary: &[u8]) -> (r: Result<Option<&[u8]>, ExifError>)
    ensures
        match r {
            Ok(Some(seg)) => app1_of(jpeg_binary@) == Ok::<Option<Seq<u8>>, ExifError>(
                Some(seg@),
            ),
            Ok(None) => app1_of(jpeg_binary@) == Ok::<Option<Seq<u8>>, ExifError>(None),
            Err(e) => app1_of(jpeg_binary@) == Err::<Option<Seq<u8>>, ExifError>(e),
        },
{
    let s = jpeg_binary;
    let n = s.len();
    match find_segment(s, 0, APP1) {
        None => Ok(None),
        Some(i) => {
            proof {
                lemma_first_segment(s@, 0, APP1);
            }
            let len = decode_u16(s, i + 2, ByteOrder::BigEndian) as usize;
            if s.len() - i - 2 >= len {
                Ok(Some(vstd::slice::slice_subrange(s, i, i + 2 + len)))
            } else {
                Err(ExifError::Truncated)
            }
        },
    }
}

/// `jpeg_without_exif` with `app1_segment` inserted right after its JFIF APP0
/// segment, or right after SOI where there is none.
pub fn splice_app1(jpeg_without_exif: &[u8], app1_segment: &[u8]) -> (r: Result<Vec<u8>, ExifError>)
    ensures
        match r {
            Ok(v) => spliced(jpeg_without_exif@, app1_segment@) == Ok::<Seq<u8>, ExifError>(v@),
            Err(e) => spliced(jpeg_without_exif@, app1_segment@) == Err::<Seq<u8>, ExifError>(e),
        },
{
    let k = match next_app0_index(jpeg_without_exif) {
        Ok(k) => k,
        Err(e) => return Err(e),
    };
    let mut out: Vec<u8> = Vec::new();
    let mut i: usize = 0;
    while i < k
        invariant
            k <= jpeg_without_exif@.len(),
            i <= k,
            out@ == jpeg_without_exif@.subrange(0, i as int),
        decreases k - i,
    {
        out.push(jpeg_without_exif[i]);
        i += 1;
        assert(out@ =~= jpeg_without_exif@.subrange(0, i as int));
    }
    let mut j: usize = 0;
    while j < app1_segment.len()
        invariant
            j <= app1_segment@.len(),
            out@ == jpeg_without_exif@.subrange(0, k as int) + app1_segment@.subrange(0, j as int),
        decreases app1_segment@.len() - j,
    {
        out.push(app1_segment[j]);
        j += 1;
        assert(out@ =~= jpeg_without_exif@.subrange(0, k as int) + app1_segment@.subrange(0, j as int));
    }
    assert(app1_segment@.subrange(0, j as int) =~= app1_segment@);
    let mut i: usize = k;
    while i < jpeg_without_exif.len()
        invariant
            k <= i <= jpeg_without_exif@.len(),
            out@ == jpeg_without_exif@.subrange(0, k as int) + app1_segment@
                + jpeg_without_exif@.subrange(k as int, i as int),
        decreases jpeg_without_exif@.len() - i,
    {
        out.push(jpeg_without_exif[i]);
        i += 1;
        assert(out@ =~= jpeg_without_exif@.subrange(0, k as int) + app1_segment@
            + jpeg_without_exif@.subrange(k as int, i as int));
    }
    Ok(out)
}

} // verus!
