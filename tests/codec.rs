use hitomi_server_rs::codec::{deserialize_gallery, encode_gallery, serialize_gallery, CodecErrorKind};
use hitomi_server_rs::compress::{compress, decompress, COMPRESSION_LEVEL};
use hitomi_server_rs::dates::{parse_date, parse_rfc3339, parse_timestamp, parse_ymd, CalendarDate, Timestamp};
use hitomi_server_rs::gallery::{Artist, Character, File, Gallery, Group, Language, Parody, Tag};

fn s(x: &str) -> String {
    x.to_string()
}

fn full_gallery() -> Gallery {
    Gallery {
        gallery_id: 1234567,
        title: s("Title ～ with unicode ✓"),
        date: parse_rfc3339("2021-03-04 05:06:07.25+09:00").unwrap(),
        files: vec![
            File {
                name: s("01.jpg"),
                hash: s("abcdef0123"),
                width: 1280,
                height: -1,
                hasavif: true,
                haswebp: false,
                hasjxl: true,
                single: false,
            },
            File {
                name: s("02.png"),
                hash: s(""),
                width: 0,
                height: 1920,
                hasavif: false,
                haswebp: true,
                hasjxl: false,
                single: true,
            },
        ],
        languages: vec![Language {
            name: s("english"),
            language_localname: s("English"),
            url: s("/index-english.html"),
            galleryid: s("7654321"),
        }],
        scene_indexes: vec![3, 1, -2],
        type_: s("manga"),
        id: s("42"),
        related: vec![s("1"), s("22"), s("333")],
        japanese_title: Some(s("タイトル")),
        language: Some(s("japanese")),
        language_localname: None,
        language_url: Some(s("/index-japanese.html")),
        video: None,
        videofilename: Some(s("")),
        artists: vec![Artist { artist: s("someone"), url: s("/artist/someone.html") }],
        groups: vec![Group { group: s("circle"), url: s("/group/circle.html") }],
        characters: vec![Character { character: s("hero"), url: s("/character/hero.html") }],
        parodies: vec![Parody { parody: s("original"), url: s("/series/original.html") }],
        tags: vec![
            Tag { tag: s("tag one"), url: s("/tag/one.html"), male: true, female: false },
            Tag { tag: s("tag two"), url: s("/tag/two.html"), male: false, female: true },
        ],
        gallery_url: Some(s("/galleries/1234567.html")),
        date_published: Some(parse_ymd("2021-03-04").unwrap()),
        blocked: true,
    }
}

fn bare_gallery() -> Gallery {
    Gallery {
        gallery_id: -5,
        title: s("t"),
        date: parse_rfc3339("2020-01-01T00:00:00Z").unwrap(),
        files: vec![],
        languages: vec![],
        scene_indexes: vec![],
        type_: s("doujinshi"),
        id: s("abc"),
        related: vec![],
        japanese_title: None,
        language: None,
        language_localname: None,
        language_url: None,
        video: None,
        videofilename: None,
        artists: vec![],
        groups: vec![],
        characters: vec![],
        parodies: vec![],
        tags: vec![],
        gallery_url: None,
        date_published: None,
        blocked: false,
    }
}

#[test]
fn round_trip_full_record() {
    let g = full_gallery();
    let bytes = serialize_gallery(&g).unwrap();
    let back = deserialize_gallery(&bytes).unwrap();
    assert_eq!(back, g);
}

#[test]
fn round_trip_record_with_absent_fields() {
    let g = bare_gallery();
    let bytes = serialize_gallery(&g).unwrap();
    let back = deserialize_gallery(&bytes).unwrap();
    assert_eq!(back, g);
    assert_eq!(back.japanese_title, None);
    assert_eq!(back.date_published, None);
}

#[test]
fn encoding_starts_with_mark_version_and_key() {
    let g = bare_gallery();
    let bytes = serialize_gallery(&g).unwrap();
    assert_eq!(&bytes[0..4], &[0x47, 0x41, 0x4c, 1]);
    assert_eq!(&bytes[4..8], &[0xfb, 0xff, 0xff, 0xff]);
}

#[test]
fn absent_and_empty_lists_decode_alike() {
    let g = bare_gallery();
    let written = encode_gallery(&g, false).unwrap();
    let omitted = encode_gallery(&g, true).unwrap();
    assert!(omitted.len() < written.len());
    let a = deserialize_gallery(&written).unwrap();
    let b = deserialize_gallery(&omitted).unwrap();
    assert_eq!(a, b);
    assert_eq!(b, g);
    assert!(b.artists.is_empty());
    assert!(b.tags.is_empty());
}

#[test]
fn omitting_empty_lists_keeps_full_lists() {
    let g = full_gallery();
    let omitted = encode_gallery(&g, true).unwrap();
    assert_eq!(omitted, encode_gallery(&g, false).unwrap());
    assert_eq!(deserialize_gallery(&omitted).unwrap(), g);
}

#[test]
fn decode_rejects_unknown_format() {
    let e = deserialize_gallery(&[]).unwrap_err();
    assert_eq!(e.kind, CodecErrorKind::UnsupportedFormat);
    assert_eq!(e.gallery_id, None);
    let e = deserialize_gallery(&[0x47, 0x41, 0x4d, 1, 0, 0, 0, 0]).unwrap_err();
    assert_eq!(e.kind, CodecErrorKind::UnsupportedFormat);
}

#[test]
fn decode_rejects_truncated_buffer_naming_key() {
    let g = full_gallery();
    let bytes = serialize_gallery(&g).unwrap();
    let e = deserialize_gallery(&bytes[..bytes.len() - 1]).unwrap_err();
    assert_eq!(e.kind, CodecErrorKind::Malformed);
    assert_eq!(e.gallery_id, Some(1234567));
    let e = deserialize_gallery(&bytes[..6]).unwrap_err();
    assert_eq!(e.kind, CodecErrorKind::Malformed);
    assert_eq!(e.gallery_id, None);
}

#[test]
fn decode_rejects_trailing_bytes() {
    let g = bare_gallery();
    let mut bytes = serialize_gallery(&g).unwrap();
    bytes.push(0);
    let e = deserialize_gallery(&bytes).unwrap_err();
    assert_eq!(e.kind, CodecErrorKind::Malformed);
    assert_eq!(e.gallery_id, Some(-5));
}

#[test]
fn decode_rejects_bad_flag_byte() {
    let g = bare_gallery();
    let mut bytes = serialize_gallery(&g).unwrap();
    let last = bytes.len() - 1;
    bytes[last] = 2;
    assert_eq!(deserialize_gallery(&bytes).unwrap_err().kind, CodecErrorKind::Malformed);
}

#[test]
fn encode_rejects_bad_timestamp() {
    let mut g = bare_gallery();
    g.date.date.month = 13;
    let e = serialize_gallery(&g).unwrap_err();
    assert_eq!(e.kind, CodecErrorKind::InvalidTimestamp);
    assert_eq!(e.gallery_id, Some(-5));
}

#[test]
fn encode_rejects_bad_publication_date() {
    let mut g = bare_gallery();
    g.date_published = Some(CalendarDate { year: 2021, month: 2, day: 30 });
    let e = serialize_gallery(&g).unwrap_err();
    assert_eq!(e.kind, CodecErrorKind::InvalidDate);
}

#[test]
fn dates_are_stored_as_normalized_text() {
    let g = full_gallery();
    let bytes = serialize_gallery(&g).unwrap();
    let text = "2021-03-04T05:06:07.250+09:00".as_bytes();
    assert!(bytes.windows(text.len()).any(|w| w == text));
    assert!(!bytes.windows(19).any(|w| w == "2021-03-04 05:06:07".as_bytes()));
    let published = "2021-03-04".as_bytes();
    assert!(bytes.windows(published.len()).any(|w| w == published));
}

#[test]
fn decode_rejects_bad_timestamp_in_bytes() {
    let g = bare_gallery();
    let good = serialize_gallery(&g).unwrap();
    // The date text "2020-01-01T00:00:00+00:00" follows the key and the title.
    let mut bytes = good.clone();
    let at = 4 + 4 + 4 + 1 + 4;
    assert_eq!(bytes[at], b'2');
    bytes[at] = b'x';
    let e = deserialize_gallery(&bytes).unwrap_err();
    assert_eq!(e.kind, CodecErrorKind::Malformed);
    assert_eq!(e.gallery_id, Some(-5));
}

#[test]
fn later_versions_may_append_fields() {
    let g = bare_gallery();
    let mut bytes = serialize_gallery(&g).unwrap();
    bytes.extend_from_slice(&[9, 9, 9]);
    assert_eq!(deserialize_gallery(&bytes).unwrap_err().kind, CodecErrorKind::Malformed);
    bytes[3] = 2;
    assert_eq!(deserialize_gallery(&bytes).unwrap(), g);
    bytes[3] = 0;
    assert_eq!(deserialize_gallery(&bytes).unwrap_err().kind, CodecErrorKind::UnsupportedFormat);
}

#[test]
fn timestamp_text_round_trip() {
    let t = parse_rfc3339("2021-03-04 05:06:07+09:00").unwrap();
    assert_eq!(t.to_text(), "2021-03-04T05:06:07+09:00");
    assert_eq!(parse_timestamp(&t.to_text()), Some(t));
    let u = parse_rfc3339("1999-12-31T23:59:59.000123-05:30").unwrap();
    assert_eq!(u.nanosecond, 123000);
    assert_eq!(u.offset_minutes, -330);
    assert_eq!(u.to_text(), "1999-12-31T23:59:59.000123-05:30");
    let z = parse_rfc3339("2020-01-01T00:00:00Z").unwrap();
    assert_eq!(z.to_text(), "2020-01-01T00:00:00+00:00");
    let n = Timestamp { nanosecond: 1, ..z };
    assert_eq!(n.to_text(), "2020-01-01T00:00:00.000000001+00:00");
    assert_eq!(parse_rfc3339("yesterday"), None);
    assert_eq!(parse_timestamp("2020-01-01 00:00:00+00:00"), None);
}

#[test]
fn date_text_round_trip() {
    let d = parse_ymd("2024-02-29").unwrap();
    assert_eq!(d, CalendarDate { year: 2024, month: 2, day: 29 });
    assert_eq!(d.to_text(), "2024-02-29");
    assert_eq!(parse_date("2024-02-29"), Some(d));
    assert_eq!(parse_ymd("2023-02-29"), None);
    assert_eq!(parse_date("2023-02-29"), None);
    assert_eq!(parse_date("2023-2-28"), None);
}

#[test]
fn compression_round_trip() {
    let g = full_gallery();
    let bytes = serialize_gallery(&g).unwrap();
    let packed = compress(&bytes, COMPRESSION_LEVEL).unwrap();
    assert_ne!(packed, bytes);
    let unpacked = decompress(&packed).unwrap();
    assert_eq!(unpacked, bytes);
    assert_eq!(deserialize_gallery(&unpacked).unwrap(), g);
}

#[test]
fn decompress_rejects_garbage() {
    assert!(decompress(&[1, 2, 3, 4, 5]).is_err());
}
