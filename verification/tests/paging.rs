use msv_supervisor::paging::{
    decode_page_key, encode_page_key, log_tail_limit, observability_limit, page_limit,
    request_operation_id, run_list_limit, truncate_listing, ForceQuery, PageQuery, RequestError,
};

fn message(error: RequestError) -> String {
    match error {
        RequestError::InvalidRequest(m) => m,
    }
}

#[test]
fn page_limits_default_and_bounds() {
    assert_eq!(page_limit(None).ok(), Some(50));
    assert_eq!(page_limit(Some(200)).ok(), Some(200));
    assert_eq!(message(page_limit(Some(0)).unwrap_err()), "limit must be between 1 and 200");
    assert_eq!(message(page_limit(Some(201)).unwrap_err()), "limit must be between 1 and 200");
    assert_eq!(observability_limit(None).ok(), Some(100));
    assert_eq!(message(observability_limit(Some(501)).unwrap_err()), "limit must be between 1 and 500");
    assert_eq!(run_list_limit(None), 50);
    assert_eq!(run_list_limit(Some(9000)), 500);
    assert_eq!(log_tail_limit(None), 100);
    assert_eq!(log_tail_limit(Some(20_000)), 10_000);
}

#[test]
fn page_keys_round_trip_and_reject_garbage() {
    let cursor = encode_page_key("wörker-1");
    assert_eq!(cursor, "77c3b6726b65722d31");
    assert_eq!(decode_page_key(Some(&cursor)).unwrap(), Some("wörker-1".to_string()));
    assert_eq!(decode_page_key(None).unwrap(), None);
    assert_eq!(message(decode_page_key(Some("abc")).unwrap_err()), "invalid page cursor");
    assert_eq!(message(decode_page_key(Some("zz")).unwrap_err()), "invalid page cursor");
    assert_eq!(message(decode_page_key(Some("ff")).unwrap_err()), "invalid page cursor");
}

#[test]
fn listings_are_truncated_to_the_limit() {
    let (rows, truncated) = truncate_listing(vec![1, 2, 3], 2);
    assert_eq!(rows, vec![1, 2]);
    assert!(truncated);
    let (rows, truncated) = truncate_listing(vec![1, 2], 2);
    assert_eq!(rows, vec![1, 2]);
    assert!(!truncated);
}

#[test]
fn operation_ids_come_from_header_or_body_and_must_agree() {
    let id = "67e55044-10b1-426f-9247-bb680e5fe0c8";
    let value = 0x67e5504410b1426f9247bb680e5fe0c8u128;
    assert_eq!(request_operation_id(Some(id), None).unwrap(), Some(value));
    assert_eq!(request_operation_id(None, Some(7)).unwrap(), Some(7));
    assert_eq!(request_operation_id(None, None).unwrap(), None);
    assert_eq!(request_operation_id(Some(id), Some(value)).unwrap(), Some(value));
    assert_eq!(
        message(request_operation_id(Some("not-a-uuid"), None).unwrap_err()),
        "Idempotency-Key must be a UUID"
    );
    assert_eq!(
        message(request_operation_id(Some(id), Some(1)).unwrap_err()),
        "operation_id and Idempotency-Key must match"
    );
}

#[test]
fn queries_default_to_nothing() {
    assert_eq!(ForceQuery::default().force, None);
    let q = PageQuery::default();
    assert!(q.limit.is_none() && q.cursor.is_none() && q.high_watermark.is_none());
}
