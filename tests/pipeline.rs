use hitomi_server_rs::codec::{serialize_gallery, CodecErrorKind};
use hitomi_server_rs::compress::{decompress, COMPRESSION_LEVEL};
use hitomi_server_rs::dates::parse_rfc3339;
use hitomi_server_rs::gallery::Gallery;
use hitomi_server_rs::pipeline::{insert_statement, is_blank_line, prepare_row, BlobRow, Producer, SqlParam};

fn gallery(id: i32) -> Gallery {
    Gallery {
        gallery_id: id,
        title: format!("title {}", id),
        date: parse_rfc3339("2020-01-01T00:00:00+00:00").unwrap(),
        files: vec![],
        languages: vec![],
        scene_indexes: vec![],
        type_: "manga".to_string(),
        id: id.to_string(),
        related: vec![],
        japanese_title: None,
        language: None,
        language_localname: None,
        language_url: None,
        video: None,
        videofilename: None,
        artists: vec![],
        groups: vec![],
        characters: vec![],
        parodies: vec![],
        tags: vec![],
        gallery_url: None,
        date_published: None,
        blocked: false,
    }
}

fn row(id: i32) -> BlobRow {
    BlobRow { gallery_id: id, data: vec![id as u8], compress_type: 7 }
}

fn run(ids: &[i32], batch_size: usize) -> Vec<Vec<BlobRow>> {
    let mut p = Producer::new(batch_size);
    let mut out = Vec::new();
    for &id in ids {
        if let Some(b) = p.push(row(id)) {
            out.push(b);
        }
    }
    if let Some(b) = p.finish() {
        out.push(b);
    }
    out
}

#[test]
fn blank_lines() {
    assert!(is_blank_line(""));
    assert!(is_blank_line("  \t \r\n"));
    assert!(is_blank_line("\u{3000}\u{a0}"));
    assert!(!is_blank_line("  {}  "));
}

#[test]
fn partial_batch_is_flushed() {
    let batches = run(&[1, 2, 3, 4, 5], 2);
    let sizes: Vec<usize> = batches.iter().map(|b| b.len()).collect();
    assert_eq!(sizes, vec![2, 2, 1]);
    let ids: Vec<i32> = batches.iter().flatten().map(|r| r.gallery_id).collect();
    assert_eq!(ids, vec![1, 2, 3, 4, 5]);
}

#[test]
fn exact_multiple_has_no_empty_batch() {
    let batches = run(&[1, 2, 3, 4], 2);
    assert_eq!(batches.len(), 2);
    assert!(run(&[], 3).is_empty());
}

#[test]
fn batches_never_exceed_batch_size() {
    let ids: Vec<i32> = (0..1000).collect();
    let batches = run(&ids, 7);
    assert!(batches.iter().all(|b| !b.is_empty() && b.len() <= 7));
    assert_eq!(batches.iter().map(|b| b.len()).sum::<usize>(), 1000);
    assert_eq!(batches.len(), 143);
}

#[test]
fn same_source_gives_same_batches() {
    let a = run(&[5, 6, 7], 2);
    let b = run(&[5, 6, 7], 2);
    assert_eq!(a, b);
    let g = gallery(9);
    assert_eq!(prepare_row(&g, 1, COMPRESSION_LEVEL).unwrap(), prepare_row(&g, 1, COMPRESSION_LEVEL).unwrap());
}

#[test]
fn prepared_row_holds_compressed_record() {
    let g = gallery(77);
    let r = prepare_row(&g, 3, COMPRESSION_LEVEL).unwrap();
    assert_eq!(r.gallery_id, 77);
    assert_eq!(r.compress_type, 3);
    let plain = serialize_gallery(&g).unwrap();
    assert_ne!(r.data, plain);
    assert_eq!(decompress(&r.data).unwrap(), plain);
}

#[test]
fn unencodable_record_is_rejected() {
    let mut g = gallery(8);
    g.date.hour = 24;
    let e = prepare_row(&g, 1, COMPRESSION_LEVEL).unwrap_err();
    assert_eq!(e.kind, CodecErrorKind::InvalidTimestamp);
    assert_eq!(e.gallery_id, Some(8));
}

#[test]
fn insert_statement_for_batch() {
    let st = insert_statement(&vec![row(10), row(11)]).unwrap();
    assert_eq!(
        st.sql,
        "INSERT INTO fbs_galleries (gallery_id, data, compress_type) VALUES ($1, $2, $3), ($4, $5, $6) ON CONFLICT (gallery_id) DO NOTHING"
    );
    assert_eq!(
        st.params,
        vec![
            SqlParam::Int(10),
            SqlParam::Bytes(vec![10]),
            SqlParam::Int(7),
            SqlParam::Int(11),
            SqlParam::Bytes(vec![11]),
            SqlParam::Int(7),
        ]
    );
}

#[test]
fn insert_statement_numbers_many_rows() {
    let rows: Vec<BlobRow> = (0..4).map(row).collect();
    let st = insert_statement(&rows).unwrap();
    assert!(st.sql.contains("($10, $11, $12) ON CONFLICT"));
    assert_eq!(st.params.len(), 12);
}

#[test]
fn empty_batch_needs_no_statement() {
    assert!(insert_statement(&vec![]).is_none());
}
