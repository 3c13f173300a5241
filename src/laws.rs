//! Properties that relate the functions of the library, proved over their
//! mathematical models.

use vstd::prelude::*;
use crate::bytes::{ByteOrder, u16_at, u32_at, u16_bytes};
use crate::error::ExifError;
use crate::ifd::{
    order_of, ifd0_of, entry_pos, entry_count, ifd_fits, last_match, type_width, tag_value,
    lemma_last_match_bound,
};
use crate::segment::{
    APP0, APP1, has_soi, segment_at, first_segment, segment_end, app0_end, app1_of, spliced,
};
use crate::tags::{
    ORIENTATION, EXIF_IFD_POINTER, DATE_TIME_ORIGINAL, orientation_pos, orientation_in,
    orientation_of, date_in_ifd, date_time_in, date_time_of, cleared, cleared_of,
};

verus! {

/// A buffer that does not begin with `FF D8` is refused as a malformed JPEG
/// by every operation on whole JPEG files.
pub proof fn lemma_no_soi_is_malformed(jpeg: Seq<u8>, app1: Seq<u8>)
    requires
        !has_soi(jpeg),
    ensures
        app0_end(jpeg) == Err::<int, ExifError>(ExifError::MalformedJpeg),
        spliced(jpeg, app1) == Err::<Seq<u8>, ExifError>(ExifError::MalformedJpeg),
        orientation_of(jpeg) == Err::<Option<u16>, ExifError>(ExifError::MalformedJpeg),
        date_time_of(jpeg) == Err::<Option<Seq<u8>>, ExifError>(ExifError::MalformedJpeg),
        cleared_of(jpeg) == Err::<Option<Seq<u8>>, ExifError>(ExifError::MalformedJpeg),
{
}

/// A JPEG without a JFIF APP0 segment takes APP1 right after SOI, at 2.
pub proof fn lemma_no_app0_inserts_after_soi(jpeg: Seq<u8>)
    requires
        has_soi(jpeg),
        first_segment(jpeg, 2, APP0) is None,
    ensures
        app0_end(jpeg) == Ok::<int, ExifError>(2),
{
}

/// A JPEG whose first JFIF APP0 segment starts at `o` with length field `l`
/// takes APP1 at `o + l + 2`, right after that segment.
pub proof fn lemma_app0_end(jpeg: Seq<u8>, o: int)
    requires
        has_soi(jpeg),
        first_segment(jpeg, 2, APP0) == Some(o),
        o + u16_at(jpeg, o + 2, ByteOrder::BigEndian) + 2 <= jpeg.len(),
    ensures
        app0_end(jpeg) == Ok::<int, ExifError>(o + u16_at(jpeg, o + 2, ByteOrder::BigEndian) + 2),
{
}

/// Without an `FF E1` segment that carries `Exif\0` there is no APP1, no
/// DateTimeOriginal and no Orientation.
pub proof fn lemma_no_app1_no_tags(jpeg: Seq<u8>)
    requires
        first_segment(jpeg, 0, APP1) is None,
    ensures
        app1_of(jpeg) == Ok::<Option<Seq<u8>>, ExifError>(None),
        has_soi(jpeg) ==> orientation_of(jpeg) == Ok::<Option<u16>, ExifError>(None),
        has_soi(jpeg) ==> date_time_of(jpeg) == Ok::<Option<Seq<u8>>, ExifError>(None),
{
}

/// `last_match` reads only the tag ids of the entries.
proof fn lemma_last_match_frame(
    a: Seq<u8>,
    t: Seq<u8>,
    ifd: int,
    tag: u16,
    order: ByteOrder,
    n: int,
)
    requires
        forall|j: int|
            0 <= j < n ==> u16_at(a, entry_pos(ifd, j), order) == u16_at(
                t,
                entry_pos(ifd, j),
                order,
            ),
    ensures
        last_match(a, ifd, tag, order, n) == last_match(t, ifd, tag, order, n),
    decreases n,
{
    if n > 0 {
        lemma_last_match_frame(a, t, ifd, tag, order, n - 1);
    }
}

/// Clearing the Orientation of an APP1 segment that has one leaves an
/// Orientation of 1, and changes no byte but the two of its value.
pub proof fn lemma_clear_orientation_round_trip(app1: Seq<u8>, v: u16)
    requires
        orientation_in(app1) == Ok::<Option<u16>, ExifError>(Some(v)),
    ensures
        cleared(app1) is Ok,
        orientation_in(cleared(app1)->Ok_0) == Ok::<Option<u16>, ExifError>(Some(1)),
        cleared(app1)->Ok_0.len() == app1.len(),
        orientation_pos(app1) is Ok && orientation_pos(app1)->Ok_0 is Some,
        forall|i: int|
            0 <= i < app1.len() && i != orientation_pos(app1)->Ok_0->Some_0 && i
                != orientation_pos(app1)->Ok_0->Some_0 + 1 ==> cleared(app1)->Ok_0[i] == app1[i],
{
    let a = app1;
    let order = order_of(a);
    let ifd = ifd0_of(a);
    let cnt = entry_count(a, ifd, order);
    lemma_last_match_bound(a, ifd, ORIENTATION, order, cnt);
    let k = last_match(a, ifd, ORIENTATION, order, cnt)->Some_0;
    let p = entry_pos(ifd, k) + 8;
    assert(orientation_pos(a) == Ok::<Option<int>, ExifError>(Some(p)));
    let one = u16_bytes(1, order);
    let t = a.update(p, one[0]).update(p + 1, one[1]);
    assert(cleared(a) == Ok::<Seq<u8>, ExifError>(t));
    assert(t.len() == a.len());
    assert(order_of(t) == order);
    assert(ifd0_of(t) == ifd);
    assert(entry_count(t, ifd, order) == cnt);
    assert forall|j: int| 0 <= j < cnt implies u16_at(a, entry_pos(ifd, j), order) == u16_at(
        t,
        entry_pos(ifd, j),
        order,
    ) by {
        assert(entry_pos(ifd, j) != p && entry_pos(ifd, j) != p + 1);
        assert(entry_pos(ifd, j) + 1 != p && entry_pos(ifd, j) + 1 != p + 1);
    }
    lemma_last_match_frame(a, t, ifd, ORIENTATION, order, cnt);
    let e = entry_pos(ifd, k);
    assert(u16_at(t, e + 2, order) == u16_at(a, e + 2, order));
    assert(u32_at(t, e + 4, order) == u32_at(a, e + 4, order));
    assert(ifd_fits(t, ifd, order));
    assert(tag_value(t, ifd, ORIENTATION, order) == tag_value(a, ifd, ORIENTATION, order));
    assert(orientation_pos(t) == Ok::<Option<int>, ExifError>(Some(p)));
    assert(u16_at(t, p, order) == 1);
}

/// The same 16-bit value stored big-endian and stored little-endian decodes
/// the same; so does a 32-bit value.
pub proof fn lemma_byte_order_agrees(be: Seq<u8>, i: int, le: Seq<u8>, j: int)
    requires
        0 <= i && i + 4 <= be.len(),
        0 <= j && j + 4 <= le.len(),
        be[i] == le[j + 3],
        be[i + 1] == le[j + 2],
        be[i + 2] == le[j + 1],
        be[i + 3] == le[j],
    ensures
        u32_at(be, i, ByteOrder::BigEndian) == u32_at(le, j, ByteOrder::LittleEndian),
        u16_at(be, i, ByteOrder::BigEndian) == u16_at(le, j + 2, ByteOrder::LittleEndian),
{
}

/// Encoding a 16-bit value in either byte order and decoding it in the same
/// order gives the value back.
pub proof fn lemma_u16_bytes_decode(v: u16, order: ByteOrder)
    ensures
        u16_at(u16_bytes(v, order), 0, order) == v,
{
}

/// A value of at most four bytes is read from the entry itself; a longer one
/// from where the entry's offset points.
pub proof fn lemma_inline_or_indirect(s: Seq<u8>, ifd: int, tag: u16, order: ByteOrder)
    requires
        ifd_fits(s, ifd, order),
        last_match(s, ifd, tag, order, entry_count(s, ifd, order)) is Some,
        type_width(
            u16_at(
                s,
                entry_pos(ifd, last_match(s, ifd, tag, order, entry_count(s, ifd, order))->Some_0)
                    + 2,
                order,
            ),
        ) != 0,
    ensures
        ({
            let e = entry_pos(ifd, last_match(s, ifd, tag, order, entry_count(s, ifd, order))->Some_0);
            let t = u16_at(s, e + 2, order);
            let n = type_width(t) * u32_at(s, e + 4, order);
            &&& n <= 4 ==> tag_value(s, ifd, tag, order) == Ok::<Option<(int, int, int)>, ExifError>(
                Some((e + 8, n, t)),
            )
            &&& n > 4 && 10 + u32_at(s, e + 8, order) + n <= s.len() ==> tag_value(s, ifd, tag, order)
                == Ok::<Option<(int, int, int)>, ExifError>(Some((10 + u32_at(s, e + 8, order), n, t)))
        }),
{
}

/// The search for a segment from `from` finds `k` where no position in
/// between holds one and `k` does.
proof fn lemma_first_segment_at(s: Seq<u8>, from: int, k: int, m: u8)
    requires
        0 <= from <= k,
        segment_at(s, k, m),
        forall|i: int| from <= i < k ==> !segment_at(s, i, m),
    ensures
        first_segment(s, from, m) == Some(k),
    decreases k - from,
{
    if from < k {
        lemma_first_segment_at(s, from + 1, k, m);
    }
}

/// No byte pair `FF E1` starts before `end - 1` in `s`.
pub open spec fn no_app1_marker_before(s: Seq<u8>, end: int) -> bool {
    forall|i: int| 0 <= i && i + 1 < end ==> !(#[trigger] s[i] == 0xFF && s[i + 1] == APP1)
}

/// `s` is one whole EXIF APP1 segment.
pub open spec fn is_app1_segment(s: Seq<u8>) -> bool {
    segment_at(s, 0, APP1) && segment_end(s, 0) == s.len()
}

/// Splicing an APP1 segment into a JPEG with no `FF E1` pair before the
/// insertion point gives a buffer as long as both together, whose APP1
/// segment is the one spliced in.
pub proof fn lemma_splice_then_find(jpeg: Seq<u8>, app1: Seq<u8>)
    requires
        app0_end(jpeg) is Ok,
        no_app1_marker_before(jpeg, app0_end(jpeg)->Ok_0),
        is_app1_segment(app1),
    ensures
        spliced(jpeg, app1) is Ok,
        spliced(jpeg, app1)->Ok_0.len() == jpeg.len() + app1.len(),
        app1_of(spliced(jpeg, app1)->Ok_0) == Ok::<Option<Seq<u8>>, ExifError>(Some(app1)),
{
    let k = app0_end(jpeg)->Ok_0;
    crate::segment::lemma_first_segment(jpeg, 2, APP0);
    assert(0 <= k <= jpeg.len());
    let head = jpeg.subrange(0, k);
    let tail = jpeg.subrange(k, jpeg.len() as int);
    let r = head + app1 + tail;
    assert(spliced(jpeg, app1) == Ok::<Seq<u8>, ExifError>(r));
    assert(r[k] == app1[0] && r[k + 1] == app1[1]);
    assert(r.subrange(k + 4, k + 9) =~= app1.subrange(4, 9));
    assert(segment_at(r, k, APP1));
    assert forall|i: int| 0 <= i < k implies !segment_at(r, i, APP1) by {
        if i + 1 < k {
            assert(r[i] == jpeg[i] && r[i + 1] == jpeg[i + 1]);
        } else {
            assert(r[i + 1] == app1[0]);
        }
    }
    lemma_first_segment_at(r, 0, k, APP1);
    assert(u16_at(r, k + 2, ByteOrder::BigEndian) == u16_at(app1, 2, ByteOrder::BigEndian));
    assert(r.subrange(k, k + app1.len()) =~= app1);
}

/// Item `k` of a value of type `t` at `p` is the same in `a`, read
/// big-endian, as in `b`, read little-endian: equal ASCII bytes, equal SHORTs,
/// equal LONGs.
pub open spec fn item_mirrored(a: Seq<u8>, b: Seq<u8>, p: int, t: int, k: int) -> bool {
    if t == 2 {
        a[p + k] == b[p + k]
    } else if t == 3 {
        u16_at(a, p + 2 * k, ByteOrder::BigEndian) == u16_at(b, p + 2 * k, ByteOrder::LittleEndian)
    } else if t == 4 {
        u32_at(a, p + 4 * k, ByteOrder::BigEndian) == u32_at(b, p + 4 * k, ByteOrder::LittleEndian)
    } else {
        true
    }
}

/// The `count` items of type `t` at `p` are the same in `a` and in `b`.
pub open spec fn value_mirrored(a: Seq<u8>, b: Seq<u8>, p: int, t: int, count: int) -> bool {
    forall|k: int| 0 <= k < count ==> #[trigger] item_mirrored(a, b, p, t, k)
}

/// Entry `j` of the IFD at `ifd` holds the same tag, type, count and value in
/// `a`, read big-endian, as in `b`, read little-endian; a value that does not
/// fit in the entry stands at the same offset in both.
pub open spec fn entry_mirrored(a: Seq<u8>, b: Seq<u8>, ifd: int, j: int) -> bool {
    let e = entry_pos(ifd, j);
    let t = u16_at(a, e + 2, ByteOrder::BigEndian);
    let c = u32_at(a, e + 4, ByteOrder::BigEndian);
    let off = u32_at(a, e + 8, ByteOrder::BigEndian);
    let n = type_width(t) * c;
    &&& u16_at(a, e, ByteOrder::BigEndian) == u16_at(b, e, ByteOrder::LittleEndian)
    &&& t == u16_at(b, e + 2, ByteOrder::LittleEndian)
    &&& c == u32_at(b, e + 4, ByteOrder::LittleEndian)
    &&& n <= 4 ==> value_mirrored(a, b, e + 8, t, c)
    &&& n > 4 ==> off == u32_at(b, e + 8, ByteOrder::LittleEndian)
    &&& n > 4 && 10 + off + n <= a.len() ==> value_mirrored(a, b, 10 + off, t, c)
}

/// The IFD at `ifd` holds the same entries in `a`, read big-endian, as in
/// `b`, read little-endian.
pub open spec fn ifd_mirrored(a: Seq<u8>, b: Seq<u8>, ifd: int) -> bool {
    &&& a.len() == b.len()
    &&& 0 <= ifd && 10 + ifd + 2 <= a.len() ==> entry_count(a, ifd, ByteOrder::BigEndian)
        == entry_count(b, ifd, ByteOrder::LittleEndian)
    &&& forall|j: int|
        0 <= j < entry_count(a, ifd, ByteOrder::BigEndian) && entry_pos(ifd, j) + 12 <= a.len()
            ==> #[trigger] entry_mirrored(a, b, ifd, j)
}

/// `a` and `b` are one TIFF block, written with `MM` (big-endian) in `a`
/// and with `II` (little-endian) in `b`, as far as the 0th IFD goes.
pub open spec fn tiff_mirrored(a: Seq<u8>, b: Seq<u8>) -> bool {
    &&& a.len() == b.len() && a.len() >= 18
    &&& a[10] == 0x4D && a[11] == 0x4D && b[10] == 0x49 && b[11] == 0x49
    &&& u32_at(a, 14, ByteOrder::BigEndian) == u32_at(b, 14, ByteOrder::LittleEndian)
    &&& ifd_mirrored(a, b, u32_at(a, 14, ByteOrder::BigEndian))
}

/// The Exif IFD, where the 0th IFD of `a` points to one, is the same in `a`
/// and in `b`.
pub open spec fn exif_ifd_mirrored(a: Seq<u8>, b: Seq<u8>) -> bool {
    match tag_value(a, u32_at(a, 14, ByteOrder::BigEndian), EXIF_IFD_POINTER, ByteOrder::BigEndian) {
        Ok(Some((p, n, t))) => ifd_mirrored(a, b, u32_at(a, p, ByteOrder::BigEndian)),
        _ => true,
    }
}

/// `last_match` finds the same entry in both byte orders.
proof fn lemma_last_match_mirrored(a: Seq<u8>, b: Seq<u8>, ifd: int, tag: u16, n: int)
    requires
        forall|j: int|
            0 <= j < n ==> u16_at(a, entry_pos(ifd, j), ByteOrder::BigEndian) == u16_at(
                b,
                entry_pos(ifd, j),
                ByteOrder::LittleEndian,
            ),
    ensures
        last_match(a, ifd, tag, ByteOrder::BigEndian, n) == last_match(
            b,
            ifd,
            tag,
            ByteOrder::LittleEndian,
            n,
        ),
    decreases n,
{
    if n > 0 {
        lemma_last_match_mirrored(a, b, ifd, tag, n - 1);
    }
}

/// Looking a tag up in an IFD written big-endian and in the same IFD written
/// little-endian gives the same place, length and type.
pub proof fn lemma_tag_value_mirrored(a: Seq<u8>, b: Seq<u8>, ifd: int, tag: u16)
    requires
        ifd_mirrored(a, b, ifd),
    ensures
        tag_value(a, ifd, tag, ByteOrder::BigEndian) == tag_value(b, ifd, tag, ByteOrder::LittleEndian),
{
    let be = ByteOrder::BigEndian;
    let le = ByteOrder::LittleEndian;
    if ifd_fits(a, ifd, be) {
        let cnt = entry_count(a, ifd, be);
        assert forall|j: int| 0 <= j < cnt implies u16_at(a, entry_pos(ifd, j), be) == u16_at(
            b,
            entry_pos(ifd, j),
            le,
        ) by {
            assert(entry_mirrored(a, b, ifd, j));
        }
        lemma_last_match_mirrored(a, b, ifd, tag, cnt);
        lemma_last_match_bound(a, ifd, tag, be, cnt);
        if let Some(k) = last_match(a, ifd, tag, be, cnt) {
            assert(entry_mirrored(a, b, ifd, k));
        }
    }
}

/// The entry behind a located value, and what the lookup makes of it.
proof fn lemma_located_entry(a: Seq<u8>, b: Seq<u8>, ifd: int, tag: u16)
    requires
        ifd_mirrored(a, b, ifd),
        tag_value(a, ifd, tag, ByteOrder::BigEndian) is Ok,
        tag_value(a, ifd, tag, ByteOrder::BigEndian)->Ok_0 is Some,
    ensures
        ({
            let (p, n, t) = tag_value(a, ifd, tag, ByteOrder::BigEndian)->Ok_0->Some_0;
            exists|c: int| 0 <= c && n == type_width(t) * c && #[trigger] value_mirrored(a, b, p, t, c)
        }),
{
    let be = ByteOrder::BigEndian;
    let cnt = entry_count(a, ifd, be);
    lemma_last_match_bound(a, ifd, tag, be, cnt);
    let k = last_match(a, ifd, tag, be, cnt)->Some_0;
    assert(entry_mirrored(a, b, ifd, k));
    let e = entry_pos(ifd, k);
    let c = u32_at(a, e + 4, be);
    let (p, n, t) = tag_value(a, ifd, tag, be)->Ok_0->Some_0;
    assert(value_mirrored(a, b, p, t, c));
}

/// One TIFF block written big-endian and written little-endian gives the
/// same Orientation.
pub proof fn lemma_orientation_byte_order(a: Seq<u8>, b: Seq<u8>)
    requires
        tiff_mirrored(a, b),
    ensures
        orientation_in(a) == orientation_in(b),
{
    let ifd = u32_at(a, 14, ByteOrder::BigEndian);
    assert(order_of(a) == ByteOrder::BigEndian && order_of(b) == ByteOrder::LittleEndian);
    lemma_tag_value_mirrored(a, b, ifd, ORIENTATION);
    if let Ok(Some((p, n, t))) = tag_value(a, ifd, ORIENTATION, ByteOrder::BigEndian) {
        lemma_located_entry(a, b, ifd, ORIENTATION);
        if t == 3 && n == 2 {
            let c = choose|c: int| 0 <= c && n == type_width(t) * c && #[trigger] value_mirrored(a, b, p, t, c);
            assert(item_mirrored(a, b, p, t, 0));
        }
    }
}

/// The DateTimeOriginal of an IFD written big-endian and of the same IFD
/// written little-endian agree.
proof fn lemma_date_in_ifd_mirrored(a: Seq<u8>, b: Seq<u8>, ifd: int)
    requires
        ifd_mirrored(a, b, ifd),
    ensures
        date_in_ifd(a, ifd, ByteOrder::BigEndian) == date_in_ifd(b, ifd, ByteOrder::LittleEndian),
{
    lemma_tag_value_mirrored(a, b, ifd, DATE_TIME_ORIGINAL);
    if let Ok(Some((q, m, u))) = tag_value(a, ifd, DATE_TIME_ORIGINAL, ByteOrder::BigEndian) {
        lemma_located_entry(a, b, ifd, DATE_TIME_ORIGINAL);
        crate::ifd::lemma_value_bounds(a, ifd, DATE_TIME_ORIGINAL, ByteOrder::BigEndian);
        if u == 2 && m >= 19 {
            let c = choose|c: int|
                0 <= c && m == type_width(u) * c && #[trigger] value_mirrored(a, b, q, u, c);
            assert(0 <= q && q + 19 <= a.len() && a.len() == b.len());
            assert forall|k: int| 0 <= k < 19 implies #[trigger] a.subrange(q, q + 19)[k]
                == b.subrange(q, q + 19)[k] by {
                assert(item_mirrored(a, b, q, u, k));
            }
            assert(a.subrange(q, q + 19) =~= b.subrange(q, q + 19));
        }
    }
}

/// One TIFF block written big-endian and written little-endian gives the
/// same DateTimeOriginal.
pub proof fn lemma_date_time_byte_order(a: Seq<u8>, b: Seq<u8>)
    requires
        tiff_mirrored(a, b),
        exif_ifd_mirrored(a, b),
    ensures
        date_time_in(a) == date_time_in(b),
{
    let be = ByteOrder::BigEndian;
    let ifd = u32_at(a, 14, be);
    assert(order_of(a) == be && order_of(b) == ByteOrder::LittleEndian);
    lemma_tag_value_mirrored(a, b, ifd, EXIF_IFD_POINTER);
    if let Ok(Some((p, n, t))) = tag_value(a, ifd, EXIF_IFD_POINTER, be) {
        lemma_located_entry(a, b, ifd, EXIF_IFD_POINTER);
        if t == 4 && n == 4 {
            let c = choose|c: int|
                0 <= c && n == type_width(t) * c && #[trigger] value_mirrored(a, b, p, t, c);
            assert(item_mirrored(a, b, p, t, 0));
            lemma_date_in_ifd_mirrored(a, b, u32_at(a, p, be));
        }
    }
}

/// Two JPEG files whose APP1 segments hold one TIFF block, written
/// big-endian in the first and little-endian in the second, give the same
/// Orientation and the same DateTimeOriginal.
pub proof fn lemma_jpeg_byte_order(ja: Seq<u8>, jb: Seq<u8>, a: Seq<u8>, b: Seq<u8>)
    requires
        has_soi(ja) && has_soi(jb),
        app1_of(ja) == Ok::<Option<Seq<u8>>, ExifError>(Some(a)),
        app1_of(jb) == Ok::<Option<Seq<u8>>, ExifError>(Some(b)),
        tiff_mirrored(a, b),
        exif_ifd_mirrored(a, b),
    ensures
        orientation_of(ja) == orientation_of(jb),
        date_time_of(ja) == date_time_of(jb),
{
    lemma_orientation_byte_order(a, b);
    lemma_date_time_byte_order(a, b);
}

/// A whole APP1 segment whose Orientation was cleared, put between SOI and
/// EOI, reads back as a JPEG file with Orientation 1.
pub proof fn lemma_cleared_segment_in_jpeg(app1: Seq<u8>, v: u16)
    requires
        is_app1_segment(app1),
        orientation_in(app1) == Ok::<Option<u16>, ExifError>(Some(v)),
    ensures
        cleared(app1) is Ok,
        orientation_of(seq![0xFFu8, 0xD8u8] + cleared(app1)->Ok_0 + seq![0xFFu8, 0xD9u8])
            == Ok::<Option<u16>, ExifError>(Some(1)),
{
    lemma_clear_orientation_round_trip(app1, v);
    let c = cleared(app1)->Ok_0;
    let p = orientation_pos(app1)->Ok_0->Some_0;
    crate::tags::lemma_value_in_bounds(app1);
    assert(p >= 20) by {
        let order = order_of(app1);
        let ifd = ifd0_of(app1);
        let cnt = entry_count(app1, ifd, order);
        lemma_last_match_bound(app1, ifd, ORIENTATION, order, cnt);
    }
    let j = seq![0xFFu8, 0xD8u8] + c + seq![0xFFu8, 0xD9u8];
    assert forall|i: int| 0 <= i < 9 implies #[trigger] c[i] == app1[i] by {}
    assert(j.subrange(6, 11) =~= app1.subrange(4, 9));
    assert(j[2] == app1[0] && j[3] == app1[1] && j[4] == app1[2] && j[5] == app1[3]);
    assert(segment_at(j, 2, APP1));
    assert(!segment_at(j, 0, APP1));
    assert(!segment_at(j, 1, APP1));
    lemma_first_segment_at(j, 0, 2, APP1);
    assert(segment_end(j, 2) == 2 + c.len());
    assert(j.subrange(2, 2 + c.len() as int) =~= c);
    assert(app1_of(j) == Ok::<Option<Seq<u8>>, ExifError>(Some(c)));
}

} // verus!
