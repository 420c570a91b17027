use hitomi_server_rs::dto::{default_batch_size, default_limit, default_offset, SQLRequest};
use hitomi_server_rs::gateway::{
    encode_id_batch, encode_id_stream, is_only_gallery_id_returned, projects_only_gallery_id,
    validate_request, QueryRejection,
};

fn request(q: &str) -> SQLRequest {
    SQLRequest {
        query: q.to_string(),
        offset: default_offset(),
        limit: default_limit(),
        batch_size: default_batch_size(),
    }
}

#[test]
fn defaults_of_a_request() {
    assert_eq!(default_offset(), 0);
    assert_eq!(default_limit(), u32::MAX);
    assert_eq!(default_batch_size(), 1000);
}

#[test]
fn paginated_query_appends_limit_and_offset() {
    let r = SQLRequest { query: "SELECT gallery_id FROM t".to_string(), offset: 20, limit: 10, batch_size: 5 };
    assert_eq!(r.build_paginated_query().unwrap(), "SELECT gallery_id FROM t LIMIT 10 OFFSET 20");
    let d = request("SELECT gallery_id FROM t");
    assert_eq!(d.build_paginated_query().unwrap(), "SELECT gallery_id FROM t LIMIT 4294967295 OFFSET 0");
}

#[test]
fn paginated_query_refuses_embedded_pagination() {
    for q in ["SELECT gallery_id FROM t LIMIT 10", "select gallery_id from t offset 3", "SELECT gallery_id FROM t Limit 1"] {
        let r = request(q);
        assert!(r.contains_pagination_keywords());
        assert_eq!(
            r.build_paginated_query().unwrap_err(),
            "The SQL query should not contain LIMIT or OFFSET clauses."
        );
    }
    assert!(!request("SELECT gallery_id FROM t").contains_pagination_keywords());
}

#[test]
fn gateway_rejects_two_columns() {
    let e = validate_request(&request("SELECT id, name FROM t")).unwrap_err();
    assert_eq!(e, QueryRejection::NotOnlyGalleryId);
    assert_eq!(e.status(), 400);
    assert_eq!(e.message(), "SQL must return only 'gallery_id' column.");
}

#[test]
fn gateway_accepts_matching_alias() {
    let sql = validate_request(&request("SELECT name AS gallery_id FROM t")).unwrap();
    assert_eq!(sql, "SELECT name AS gallery_id FROM t LIMIT 4294967295 OFFSET 0");
}

#[test]
fn gateway_rejects_embedded_pagination() {
    let e = validate_request(&request("SELECT gallery_id FROM t LIMIT 10")).unwrap_err();
    assert_eq!(e, QueryRejection::PaginationInQuery);
    assert_eq!(e.status(), 400);
}

#[test]
fn gateway_output_name_check() {
    assert!(is_only_gallery_id_returned("SELECT gallery_id FROM t"));
    assert!(is_only_gallery_id_returned("SELECT GALLERY_ID FROM t WHERE x = 1"));
    assert!(is_only_gallery_id_returned("SELECT g.id AS Gallery_Id FROM galleries g"));
    assert!(!is_only_gallery_id_returned("SELECT * FROM t"));
    assert!(!is_only_gallery_id_returned("SELECT id FROM t"));
    assert!(!is_only_gallery_id_returned("SELECT gallery_id + 1 FROM t"));
    assert!(!is_only_gallery_id_returned("SELEC gallery_id FROM t"));
    assert!(!is_only_gallery_id_returned(""));
    assert!(!is_only_gallery_id_returned("SELECT gallery_id FROM t; SELECT gallery_id FROM u"));
    assert!(!is_only_gallery_id_returned("DELETE FROM t"));
}

#[test]
fn output_name_decision_on_parsed_shapes() {
    let one = Some(vec![Some(vec![Some("Gallery_ID".to_string())])]);
    assert!(projects_only_gallery_id(&one));
    assert!(!projects_only_gallery_id(&None));
    assert!(!projects_only_gallery_id(&Some(vec![None])));
    assert!(!projects_only_gallery_id(&Some(vec![Some(vec![None])])));
    let two = Some(vec![Some(vec![Some("gallery_id".to_string()), Some("x".to_string())])]);
    assert!(!projects_only_gallery_id(&two));
}

#[test]
fn stream_chunks_per_batch() {
    let (chunks, complete) = encode_id_stream(&vec![Some(1), Some(2), Some(3)], 2);
    assert!(complete);
    assert_eq!(chunks, vec![vec![1, 0, 0, 0, 2, 0, 0, 0], vec![3, 0, 0, 0]]);
}

#[test]
fn stream_stops_at_unreadable_row() {
    let (chunks, complete) = encode_id_stream(&vec![Some(1), Some(2), Some(3), None, Some(5)], 2);
    assert!(!complete);
    assert_eq!(chunks, vec![vec![1, 0, 0, 0, 2, 0, 0, 0]]);
    let (chunks, complete) = encode_id_stream(&vec![None, Some(1)], 2);
    assert!(!complete);
    assert!(chunks.is_empty());
}

#[test]
fn stream_of_no_rows_is_empty() {
    let (chunks, complete) = encode_id_stream(&vec![], 1000);
    assert!(complete);
    assert!(chunks.is_empty());
}

#[test]
fn id_batch_is_little_endian() {
    assert_eq!(encode_id_batch(&[0x01020304, -1, 256]), vec![4, 3, 2, 1, 255, 255, 255, 255, 0, 1, 0, 0]);
    assert_eq!(encode_id_batch(&[]), Vec::<u8>::new());
}
