use jpeg_exif::bytes::{decode_u16, decode_u32, encode_u16, ByteOrder};
use jpeg_exif::error::ExifError;
use jpeg_exif::ifd::{detect_byte_order, ifd0_offset, read_tag};
use jpeg_exif::segment::{get_app1, next_app0_index, splice_app1};
use jpeg_exif::tags::{
    clear_orientation, date_time_in_app1, get_date_time_original, get_orientation,
    orientation_in_app1,
};

const DATE: &[u8; 20] = b"2015:09:27 11:43:11\0";

fn put16(out: &mut Vec<u8>, v: u16, be: bool) {
    if be {
        out.extend_from_slice(&v.to_be_bytes());
    } else {
        out.extend_from_slice(&v.to_le_bytes());
    }
}

fn put32(out: &mut Vec<u8>, v: u32, be: bool) {
    if be {
        out.extend_from_slice(&v.to_be_bytes());
    } else {
        out.extend_from_slice(&v.to_le_bytes());
    }
}

/// One IFD entry: tag, type, count, and the four value-or-offset bytes.
fn entry(out: &mut Vec<u8>, tag: u16, typ: u16, count: u32, value: [u8; 4], be: bool) {
    put16(out, tag, be);
    put16(out, typ, be);
    put32(out, count, be);
    out.extend_from_slice(&value);
}

fn short_value(v: u16, be: bool) -> [u8; 4] {
    let b = if be { v.to_be_bytes() } else { v.to_le_bytes() };
    [b[0], b[1], 0, 0]
}

fn long_value(v: u32, be: bool) -> [u8; 4] {
    if be {
        v.to_be_bytes()
    } else {
        v.to_le_bytes()
    }
}

/// A whole EXIF APP1 segment. The 0th IFD holds an ImageWidth entry, the
/// Orientation (where given) and the Exif IFD pointer (where a date is given).
fn app1(be: bool, orientation: Option<u16>, date: Option<&[u8]>) -> Vec<u8> {
    let mut tiff: Vec<u8> = Vec::new();
    tiff.extend_from_slice(if be { b"MM" } else { b"II" });
    put16(&mut tiff, 0x2A, be);
    put32(&mut tiff, 8, be);
    let n0: u16 = 1 + orientation.is_some() as u16 + date.is_some() as u16;
    put16(&mut tiff, n0, be);
    let exif_ifd: u32 = 8 + 2 + 12 * n0 as u32 + 4;
    entry(&mut tiff, 0x0100, 3, 1, short_value(640, be), be);
    if let Some(o) = orientation {
        entry(&mut tiff, 0x0112, 3, 1, short_value(o, be), be);
    }
    if date.is_some() {
        entry(&mut tiff, 0x8769, 4, 1, long_value(exif_ifd, be), be);
    }
    put32(&mut tiff, 0, be);
    if let Some(d) = date {
        put16(&mut tiff, 1, be);
        let data = exif_ifd + 2 + 12 + 4;
        entry(&mut tiff, 0x9003, 2, d.len() as u32, long_value(data, be), be);
        put32(&mut tiff, 0, be);
        tiff.extend_from_slice(d);
    }
    let mut seg = vec![0xFF, 0xE1];
    let len = (2 + 6 + tiff.len()) as u16;
    seg.extend_from_slice(&len.to_be_bytes());
    seg.extend_from_slice(b"Exif\0\0");
    seg.extend_from_slice(&tiff);
    seg
}

fn app0() -> Vec<u8> {
    let mut seg = vec![0xFF, 0xE0, 0x00, 0x10];
    seg.extend_from_slice(b"JFIF\0");
    seg.extend_from_slice(&[0x01, 0x01, 0x00, 0x00, 0x01, 0x00, 0x01, 0x00, 0x00]);
    seg
}

/// The segments after the application segments: a quantisation table stub,
/// some scan data and EOI.
fn body() -> Vec<u8> {
    vec![0xFF, 0xDB, 0x00, 0x04, 0x01, 0x02, 0xFF, 0xDA, 0x12, 0x34, 0xFF, 0x00, 0xFF, 0xD9]
}

fn jpeg(with_app0: bool, segment: Option<Vec<u8>>) -> Vec<u8> {
    let mut out = vec![0xFF, 0xD8];
    if with_app0 {
        out.extend_from_slice(&app0());
    }
    if let Some(s) = segment {
        out.extend_from_slice(&s);
    }
    out.extend_from_slice(&body());
    out
}

#[test]
fn decode_integers_in_both_orders() {
    let b = [0x12, 0x34, 0x56, 0x78];
    assert_eq!(decode_u16(&b, 0, ByteOrder::BigEndian), 0x1234);
    assert_eq!(decode_u16(&b, 0, ByteOrder::LittleEndian), 0x3412);
    assert_eq!(decode_u16(&b, 2, ByteOrder::BigEndian), 0x5678);
    assert_eq!(decode_u32(&b, 0, ByteOrder::BigEndian), 0x1234_5678);
    assert_eq!(decode_u32(&b, 0, ByteOrder::LittleEndian), 0x7856_3412);
    assert_eq!(encode_u16(1, ByteOrder::BigEndian), [0x00, 0x01]);
    assert_eq!(encode_u16(1, ByteOrder::LittleEndian), [0x01, 0x00]);
    assert_eq!(encode_u16(0xABCD, ByteOrder::BigEndian), [0xAB, 0xCD]);
}

#[test]
fn no_soi_is_malformed() {
    let bad = vec![0x00, 0xD8, 0xFF, 0xE0, 0x00, 0x10];
    assert_eq!(next_app0_index(&bad), Err(ExifError::MalformedJpeg));
    assert_eq!(next_app0_index(&[0xFF]), Err(ExifError::MalformedJpeg));
    assert_eq!(next_app0_index(&[]), Err(ExifError::MalformedJpeg));
    let mut no_soi = jpeg(true, Some(app1(true, Some(6), Some(DATE))));
    no_soi[1] = 0xD9;
    assert_eq!(get_orientation(&no_soi), Err(ExifError::MalformedJpeg));
    assert_eq!(get_date_time_original(&no_soi), Err(ExifError::MalformedJpeg));
    assert_eq!(clear_orientation(&no_soi), Err(ExifError::MalformedJpeg));
    assert_eq!(splice_app1(&bad, &app1(true, None, None)), Err(ExifError::MalformedJpeg));
}

#[test]
fn without_app0_insert_after_soi() {
    let j = jpeg(false, None);
    assert_eq!(next_app0_index(&j), Ok(2));
    assert_eq!(next_app0_index(&[0xFF, 0xD8]), Ok(2));
}

#[test]
fn with_app0_insert_after_it() {
    let j = jpeg(true, None);
    assert_eq!(next_app0_index(&j), Ok(2 + 16 + 2));
    // An APP0 segment that is not JFIF does not count.
    let mut other = vec![0xFF, 0xD8, 0xFF, 0xE0, 0x00, 0x10];
    other.extend_from_slice(b"JFXX\0");
    other.extend_from_slice(&[0; 9]);
    assert_eq!(next_app0_index(&other), Ok(2));
    // An APP0 segment further in.
    let mut later = vec![0xFF, 0xD8, 0xFF, 0xDB, 0x00, 0x04, 0x01, 0x02];
    later.extend_from_slice(&app0());
    assert_eq!(next_app0_index(&later), Ok(8 + 16 + 2));
}

#[test]
fn app0_running_past_the_end_is_truncated() {
    let mut j = vec![0xFF, 0xD8, 0xFF, 0xE0, 0x01, 0x00];
    j.extend_from_slice(b"JFIF\0");
    assert_eq!(next_app0_index(&j), Err(ExifError::Truncated));
}

#[test]
fn without_app1_everything_is_absent() {
    let j = jpeg(true, None);
    assert_eq!(get_app1(&j), Ok(None));
    assert_eq!(get_orientation(&j), Ok(None));
    assert_eq!(get_date_time_original(&j), Ok(None));
    assert_eq!(clear_orientation(&j), Ok(None));
}

#[test]
fn xmp_app1_is_skipped() {
    let mut xmp = vec![0xFF, 0xE1, 0x00, 0x0C];
    xmp.extend_from_slice(b"http://ns");
    xmp.push(0);
    let j = jpeg(true, Some(xmp.clone()));
    assert_eq!(get_app1(&j), Ok(None));
    assert_eq!(get_orientation(&j), Ok(None));
    let mut both = xmp;
    let exif = app1(true, Some(3), None);
    both.extend_from_slice(&exif);
    let j = jpeg(true, Some(both));
    assert_eq!(get_app1(&j), Ok(Some(&exif[..])));
    assert_eq!(get_orientation(&j), Ok(Some(3)));
}

#[test]
fn app1_is_found_whole() {
    let seg = app1(false, Some(6), Some(DATE));
    let j = jpeg(true, Some(seg.clone()));
    assert_eq!(get_app1(&j), Ok(Some(&seg[..])));
}

#[test]
fn app1_running_past_the_end_is_truncated() {
    let seg = app1(true, Some(6), Some(DATE));
    let mut j = vec![0xFF, 0xD8];
    j.extend_from_slice(&seg[..seg.len() - 3]);
    assert_eq!(get_app1(&j), Err(ExifError::Truncated));
    assert_eq!(get_orientation(&j), Err(ExifError::Truncated));
    assert_eq!(get_date_time_original(&j), Err(ExifError::Truncated));
    assert_eq!(clear_orientation(&j), Err(ExifError::Truncated));
}

#[test]
fn ifd_running_past_the_end_is_truncated() {
    let mut seg = app1(true, Some(6), None);
    // An IFD offset far beyond the segment.
    seg[14..18].copy_from_slice(&0x1000u32.to_be_bytes());
    assert_eq!(orientation_in_app1(&seg), Err(ExifError::Truncated));
    let j = jpeg(false, Some(seg));
    assert_eq!(get_orientation(&j), Err(ExifError::Truncated));
}

#[test]
fn byte_order_and_ifd0() {
    let be = app1(true, Some(1), None);
    let le = app1(false, Some(1), None);
    assert_eq!(detect_byte_order(&be), ByteOrder::BigEndian);
    assert_eq!(detect_byte_order(&le), ByteOrder::LittleEndian);
    assert_eq!(ifd0_offset(&be, ByteOrder::BigEndian), 8);
    assert_eq!(ifd0_offset(&le, ByteOrder::LittleEndian), 8);
    let mut odd = be.clone();
    odd[10] = 0x41;
    odd[11] = 0x41;
    assert_eq!(detect_byte_order(&odd), ByteOrder::LittleEndian);
}

#[test]
fn date_time_original_is_read() {
    for be in [true, false] {
        let j = jpeg(true, Some(app1(be, Some(1), Some(DATE))));
        assert_eq!(get_date_time_original(&j), Ok(Some(*b"2015:09:27 11:43:11")));
    }
}

#[test]
fn short_date_time_is_absent() {
    let j = jpeg(true, Some(app1(true, Some(1), Some(b"2015:09:27\0"))));
    assert_eq!(get_date_time_original(&j), Ok(None));
}

#[test]
fn orientation_values() {
    for be in [true, false] {
        for (stored, expected) in [(0u16, None), (9, None), (3, Some(3u16)), (1, Some(1)), (8, Some(8))] {
            let j = jpeg(true, Some(app1(be, Some(stored), None)));
            assert_eq!(get_orientation(&j), Ok(expected));
        }
        let j = jpeg(true, Some(app1(be, None, Some(DATE))));
        assert_eq!(get_orientation(&j), Ok(None));
    }
}

#[test]
fn orientation_zero_and_nine_are_absent() {
    let j = jpeg(true, Some(app1(true, Some(0), None)));
    assert_eq!(get_orientation(&j), Ok(None));
    let j = jpeg(true, Some(app1(true, Some(9), None)));
    assert_eq!(get_orientation(&j), Ok(None));
    let j = jpeg(true, Some(app1(true, Some(3), None)));
    assert_eq!(get_orientation(&j), Ok(Some(3)));
}

#[test]
fn both_byte_orders_decode_alike() {
    let be = jpeg(true, Some(app1(true, Some(6), Some(DATE))));
    let le = jpeg(true, Some(app1(false, Some(6), Some(DATE))));
    assert_ne!(be, le);
    assert_eq!(get_orientation(&be), get_orientation(&le));
    assert_eq!(get_orientation(&be), Ok(Some(6)));
    assert_eq!(get_date_time_original(&be), get_date_time_original(&le));
}

#[test]
fn clear_orientation_round_trip() {
    for be in [true, false] {
        let seg = app1(be, Some(6), Some(DATE));
        let j = jpeg(true, Some(seg.clone()));
        assert_eq!(get_orientation(&j), Ok(Some(6)));
        let cleared = clear_orientation(&j).unwrap().unwrap();
        assert_eq!(orientation_in_app1(&cleared), Ok(Some(1)));
        assert_eq!(date_time_in_app1(&cleared), Ok(Some(*b"2015:09:27 11:43:11")));
        assert_eq!(cleared.len(), seg.len());
        // The Orientation value stands in the second entry of the 0th IFD.
        let p = 10 + 8 + 2 + 12 + 8;
        let changed: Vec<usize> = (0..seg.len()).filter(|&i| seg[i] != cleared[i]).collect();
        assert!(changed.iter().all(|&i| i == p || i == p + 1));
        assert!(!changed.is_empty());
        // The original buffer is untouched.
        assert_eq!(get_orientation(&j), Ok(Some(6)));
    }
}

#[test]
fn clear_orientation_without_orientation_copies() {
    let seg = app1(false, None, Some(DATE));
    let j = jpeg(true, Some(seg.clone()));
    assert_eq!(clear_orientation(&j), Ok(Some(seg)));
}

#[test]
fn splice_restores_app1() {
    for with_app0 in [true, false] {
        let w = jpeg(with_app0, None);
        let seg = clear_orientation(&jpeg(true, Some(app1(true, Some(8), Some(DATE))))).unwrap().unwrap();
        let out = splice_app1(&w, &seg).unwrap();
        assert_eq!(out.len(), w.len() + seg.len());
        assert_eq!(get_app1(&out), Ok(Some(&seg[..])));
        assert_eq!(get_orientation(&out), Ok(Some(1)));
        assert_eq!(get_date_time_original(&out), Ok(Some(*b"2015:09:27 11:43:11")));
        let k = next_app0_index(&w).unwrap();
        assert_eq!(&out[..k], &w[..k]);
        assert_eq!(&out[k..k + seg.len()], &seg[..]);
        assert_eq!(&out[k + seg.len()..], &w[k..]);
    }
}

#[test]
fn splice_position_after_app0() {
    let w = jpeg(true, None);
    let seg = app1(true, None, None);
    let out = splice_app1(&w, &seg).unwrap();
    assert_eq!(&out[20..20 + seg.len()], &seg[..]);
    let w = jpeg(false, None);
    let out = splice_app1(&w, &seg).unwrap();
    assert_eq!(&out[2..2 + seg.len()], &seg[..]);
}

/// An APP1 segment with one entry of the given tag, type and count whose
/// value bytes, if they do not fit in the entry, follow the IFD.
fn one_entry(be: bool, typ: u16, count: u32, inline: [u8; 4], data: &[u8]) -> Vec<u8> {
    let mut seg = vec![0xFF, 0xE1, 0x00, 0x00];
    seg.extend_from_slice(b"Exif\0\0");
    seg.extend_from_slice(if be { b"MM" } else { b"II" });
    put16(&mut seg, 0x2A, be);
    put32(&mut seg, 8, be);
    put16(&mut seg, 1, be);
    let data_offset: u32 = 8 + 2 + 12 + 4;
    let value = if data.is_empty() { inline } else { long_value(data_offset, be) };
    entry(&mut seg, 0x010E, typ, count, value, be);
    put32(&mut seg, 0, be);
    seg.extend_from_slice(data);
    let len = (seg.len() - 2) as u16;
    seg[2..4].copy_from_slice(&len.to_be_bytes());
    seg
}

#[test]
fn four_bytes_inline_five_bytes_indirect() {
    for be in [true, false] {
        let order = if be { ByteOrder::BigEndian } else { ByteOrder::LittleEndian };
        let seg = one_entry(be, 2, 4, *b"abc\0", &[]);
        let entry_pos = 10 + 8 + 2;
        assert_eq!(read_tag(&seg, 8, 0x010E, order), Ok(Some((entry_pos + 8, 4, 2))));
        let seg = one_entry(be, 2, 5, [0; 4], b"abcd\0");
        let data = 10 + 8 + 2 + 12 + 4;
        assert_eq!(read_tag(&seg, 8, 0x010E, order), Ok(Some((data, 5, 2))));
        assert_eq!(&seg[data..data + 5], b"abcd\0");
        // Two LONGs are eight bytes, and stand elsewhere too.
        let seg = one_entry(be, 4, 2, [0; 4], &[1, 2, 3, 4, 5, 6, 7, 8]);
        assert_eq!(read_tag(&seg, 8, 0x010E, order), Ok(Some((data, 8, 4))));
        // Two SHORTs fill the entry exactly.
        let seg = one_entry(be, 3, 2, [1, 2, 3, 4], &[]);
        assert_eq!(read_tag(&seg, 8, 0x010E, order), Ok(Some((entry_pos + 8, 4, 3))));
    }
}

#[test]
fn missing_tag_is_absent() {
    let seg = one_entry(true, 2, 4, *b"abc\0", &[]);
    assert_eq!(read_tag(&seg, 8, 0x0112, ByteOrder::BigEndian), Ok(None));
}

#[test]
fn unsupported_value_type() {
    // RATIONAL (5) is not decoded.
    let seg = one_entry(true, 5, 1, [0; 4], &[0; 8]);
    assert_eq!(read_tag(&seg, 8, 0x010E, ByteOrder::BigEndian), Err(ExifError::UnsupportedValueType));
    let mut seg = app1(true, Some(6), None);
    // Turn the Orientation entry's type into RATIONAL.
    let type_pos = 10 + 8 + 2 + 12 + 2;
    seg[type_pos..type_pos + 2].copy_from_slice(&5u16.to_be_bytes());
    let j = jpeg(true, Some(seg.clone()));
    assert_eq!(get_orientation(&j), Ok(None));
    assert_eq!(clear_orientation(&j), Ok(Some(seg)));
}

#[test]
fn indirect_value_past_the_end_is_truncated() {
    let mut seg = one_entry(true, 2, 5, [0; 4], b"abcd\0");
    seg.truncate(seg.len() - 1);
    assert_eq!(read_tag(&seg, 8, 0x010E, ByteOrder::BigEndian), Err(ExifError::Truncated));
}

#[test]
fn duplicate_tag_last_entry_counts() {
    let be = true;
    let mut seg = vec![0xFF, 0xE1, 0x00, 0x00];
    seg.extend_from_slice(b"Exif\0\0MM");
    put16(&mut seg, 0x2A, be);
    put32(&mut seg, 8, be);
    put16(&mut seg, 2, be);
    entry(&mut seg, 0x0112, 3, 1, short_value(3, be), be);
    entry(&mut seg, 0x0112, 3, 1, short_value(8, be), be);
    put32(&mut seg, 0, be);
    let len = (seg.len() - 2) as u16;
    seg[2..4].copy_from_slice(&len.to_be_bytes());
    assert_eq!(orientation_in_app1(&seg), Ok(Some(8)));
}

#[test]
fn segment_too_short_for_its_identifier_is_skipped() {
    let mut j = vec![0xFF, 0xD8, 0xFF, 0xE1, 0x00, 0x02];
    j.extend_from_slice(b"Exif\0");
    assert_eq!(get_app1(&j), Ok(None));
    assert_eq!(get_orientation(&j), Ok(None));
    // A short one is passed over for a whole one further in.
    let mut j = vec![0xFF, 0xD8, 0xFF, 0xE1, 0x00, 0x02];
    j.extend_from_slice(b"Exif\0");
    let seg = app1(true, Some(3), None);
    j.extend_from_slice(&seg);
    assert_eq!(get_app1(&j), Ok(Some(&seg[..])));
    assert_eq!(get_orientation(&j), Ok(Some(3)));
}

#[test]
fn orientation_of_another_type_is_absent() {
    let mut seg = app1(true, Some(6), None);
    // Turn the Orientation entry's type into ASCII: still two bytes, not a SHORT.
    let type_pos = 10 + 8 + 2 + 12 + 2;
    seg[type_pos..type_pos + 2].copy_from_slice(&2u16.to_be_bytes());
    seg[type_pos + 2..type_pos + 6].copy_from_slice(&2u32.to_be_bytes());
    assert_eq!(orientation_in_app1(&seg), Ok(None));
    let j = jpeg(true, Some(seg.clone()));
    assert_eq!(clear_orientation(&j), Ok(Some(seg)));
}

#[test]
fn ifd0_offset_in_the_order_given() {
    let be = app1(true, Some(1), None);
    assert_eq!(ifd0_offset(&be, ByteOrder::LittleEndian), 0x0800_0000);
}

#[test]
fn short_app0_is_taken_at_its_length() {
    let mut j = vec![0xFF, 0xD8, 0xFF, 0xE0, 0x00, 0x05];
    j.extend_from_slice(b"JFIF\0");
    j.extend_from_slice(&[0xFF, 0xD9]);
    assert_eq!(next_app0_index(&j), Ok(9));
    let mut j = vec![0xFF, 0xD8, 0xFF, 0xE0, 0x00, 0x06];
    j.extend_from_slice(b"JFIF\0");
    assert_eq!(next_app0_index(&j), Ok(10));
}

#[test]
fn cleared_segment_reads_back_in_a_jpeg() {
    for be in [true, false] {
        let j = jpeg(true, Some(app1(be, Some(6), Some(DATE))));
        let cleared = clear_orientation(&j).unwrap().unwrap();
        let mut j2 = vec![0xFF, 0xD8];
        j2.extend_from_slice(&cleared);
        j2.extend_from_slice(&[0xFF, 0xD9]);
        assert_eq!(get_orientation(&j2), Ok(Some(1)));
        assert_eq!(get_date_time_original(&j2), Ok(Some(*b"2015:09:27 11:43:11")));
    }
}
