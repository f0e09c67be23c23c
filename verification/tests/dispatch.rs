use d4_server::dispatch::{
    catalog_response, dispatch, low_word, range_response, respond, ContentType, DispatchError,
    Response, StoreReply, StoreRequest, PARTITION_SIZE,
};
use d4_server::encode::{decode, encode};
use d4_server::query::{classify, QueryFields, QueryMode, RangeQuery};
use d4_server::window::{plan, Coverage};

fn fields(class: &str, chr: &str, start: i64, end: i64) -> QueryFields {
    QueryFields { class: class.to_string(), chr: chr.to_string(), start, end }
}

fn names(list: &[&str]) -> Vec<String> {
    list.iter().map(|s| s.to_string()).collect()
}

#[test]
fn header_class_selects_metadata() {
    assert_eq!(classify(&"header".to_string()), QueryMode::Metadata);
}

#[test]
fn every_other_class_selects_an_aggregate() {
    for class in ["", "Header", "HEADER", "header ", " header", "heade", "headers", "range"] {
        assert_eq!(classify(&class.to_string()), QueryMode::Aggregate);
    }
}

#[test]
fn missing_fields_default_to_empty_and_zero() {
    let d = QueryFields::default();
    assert_eq!(d, fields("", "", 0, 0));
    let query = RangeQuery::from_fields(d);
    assert_eq!(query.mode, QueryMode::Aggregate);
    assert_eq!(query.chromosome, "");
    assert_eq!((query.start, query.end), (0, 0));
}

#[test]
fn classification_keeps_chromosome_and_interval() {
    let query = RangeQuery::from_fields(fields("header", "chr2", -3, 9));
    assert_eq!(
        query,
        RangeQuery { mode: QueryMode::Metadata, chromosome: "chr2".to_string(), start: -3, end: 9 }
    );
}

#[test]
fn metadata_query_returns_the_catalog_as_json() {
    let catalog = names(&["chr1", "chr2", "chrX"]);
    for (chr, start, end) in [("", 0, 0), ("chr1", 0, 2500), ("nowhere", 77, -5)] {
        for coverage in [Coverage::Sample, Coverage::Stride] {
            let query = RangeQuery::from_fields(fields("header", chr, start, end));
            let request = dispatch(&query, coverage);
            assert_eq!(request, StoreRequest::Catalog);
            let response = respond(&request, &StoreReply::Catalog(catalog.clone())).unwrap();
            assert_eq!(response.content_type, ContentType::Json);
            assert_eq!(response.body, br#"["chr1","chr2","chrX"]"#.to_vec());
        }
    }
}

#[test]
fn catalog_names_are_escaped_as_json_strings() {
    let catalog = names(&["a\"b", "tab\there", "back\\slash", "", "é"]);
    let response = respond(&StoreRequest::Catalog, &StoreReply::Catalog(catalog.clone())).unwrap();
    assert_eq!(response.body, serde_json::to_vec(&catalog).unwrap());
    let back: Vec<String> = serde_json::from_slice(&response.body).unwrap();
    assert_eq!(back, catalog);
}

#[test]
fn empty_catalog_is_an_empty_array() {
    let response = respond(&StoreRequest::Catalog, &StoreReply::Catalog(vec![])).unwrap();
    assert_eq!(response.body, b"[]".to_vec());
}

#[test]
fn range_query_asks_for_means_over_its_windows() {
    let query = RangeQuery::from_fields(fields("", "chr1", 0, 2500));
    match dispatch(&query, Coverage::Stride) {
        StoreRequest::Means { start, step, partition_size, windows } => {
            assert_eq!(start, 0);
            assert_eq!(step, 3);
            assert_eq!(partition_size, 10_000_000);
            assert_eq!(partition_size, PARTITION_SIZE);
            assert_eq!(windows, plan("chr1", 0, 2500, Coverage::Stride));
            assert_eq!(windows.len(), 834);
        }
        other => panic!("{:?}", other),
    }
}

#[test]
fn range_query_is_answered_with_the_encoded_values() {
    let query = RangeQuery::from_fields(fields("", "chr1", 0, 2500));
    let request = dispatch(&query, Coverage::Sample);
    let values: Vec<u32> = (0..834).map(|i| (i as f32 * 0.5).to_bits()).collect();
    let response = respond(&request, &StoreReply::Means(values.clone())).unwrap();
    assert_eq!(response.content_type, ContentType::OctetStream);
    assert_eq!(&response.body[..12], &[0, 0, 0, 0, 3, 0, 0, 0, 0x42, 0x03, 0, 0]);
    assert_eq!(response.body, encode(0, 3, &values));
    let frame = decode(&response.body).unwrap();
    assert_eq!((frame.start, frame.step), (0, 3));
    assert_eq!(frame.values, values);
}

#[test]
fn inverted_range_is_answered_with_a_bare_header() {
    let query = RangeQuery::from_fields(fields("", "chr1", 9, 4));
    let request = dispatch(&query, Coverage::Stride);
    match &request {
        StoreRequest::Means { start, step, windows, .. } => {
            assert_eq!((*start, *step), (9, 1));
            assert!(windows.is_empty());
        }
        other => panic!("{:?}", other),
    }
    let response = respond(&request, &StoreReply::Means(vec![])).unwrap();
    assert_eq!(response.body, vec![9, 0, 0, 0, 1, 0, 0, 0, 0, 0, 0, 0]);
    assert_eq!(response.body.len(), 12);
}

#[test]
fn default_query_is_answered_with_a_bare_header() {
    let query = RangeQuery::from_fields(QueryFields::default());
    let request = dispatch(&query, Coverage::Sample);
    let response = respond(&request, &StoreReply::Means(vec![])).unwrap();
    assert_eq!(response.content_type, ContentType::OctetStream);
    assert_eq!(response.body, vec![0, 0, 0, 0, 1, 0, 0, 0, 0, 0, 0, 0]);
}

#[test]
fn header_words_keep_the_low_bits_of_positions_out_of_range() {
    assert_eq!(low_word(0), 0);
    assert_eq!(low_word(4_294_967_295), 4_294_967_295);
    assert_eq!(low_word(4_294_967_296), 0);
    assert_eq!(low_word(4_294_967_301), 5);
    assert_eq!(low_word(-1), 4_294_967_295);
    assert_eq!(low_word(-5), 4_294_967_291);
    assert_eq!(low_word(i64::MIN), 0);
    assert_eq!(low_word(i64::MAX), 4_294_967_295);
    let query = RangeQuery::from_fields(fields("", "chr1", -5, 10));
    match dispatch(&query, Coverage::Sample) {
        StoreRequest::Means { start, step, windows, .. } => {
            assert_eq!((start, step), (4_294_967_291, 1));
            assert!(windows.is_empty());
        }
        other => panic!("{:?}", other),
    }
}

#[test]
fn same_query_twice_gives_identical_buffers() {
    let values: Vec<u32> = (0..1000).map(|i| (i as f32).sqrt().to_bits()).collect();
    let mut bodies = Vec::new();
    for _ in 0..2 {
        let query = RangeQuery::from_fields(fields("", "chr3", 1_000, 1_000_000));
        let request = dispatch(&query, Coverage::Sample);
        bodies.push(respond(&request, &StoreReply::Means(values.clone())).unwrap().body);
    }
    assert_eq!(bodies[0], bodies[1]);
    let mut catalogs = Vec::new();
    for _ in 0..2 {
        let query = RangeQuery::from_fields(fields("header", "chr3", 1_000, 1_000_000));
        let request = dispatch(&query, Coverage::Sample);
        let reply = StoreReply::Catalog(names(&["chr1", "chr2"]));
        catalogs.push(respond(&request, &reply).unwrap().body);
    }
    assert_eq!(catalogs[0], catalogs[1]);
}

#[test]
fn store_that_cannot_be_opened_fails_the_query() {
    let range = dispatch(&RangeQuery::from_fields(fields("", "chr1", 0, 10)), Coverage::Sample);
    assert_eq!(respond(&range, &StoreReply::Unavailable), Err(DispatchError::StoreUnavailable));
    assert_eq!(
        respond(&StoreRequest::Catalog, &StoreReply::Unavailable),
        Err(DispatchError::StoreUnavailable)
    );
}

#[test]
fn store_that_fails_fails_the_query() {
    let range = dispatch(&RangeQuery::from_fields(fields("", "chr1", 0, 10)), Coverage::Sample);
    assert_eq!(respond(&range, &StoreReply::Failed), Err(DispatchError::StoreFailed));
    assert_eq!(respond(&StoreRequest::Catalog, &StoreReply::Failed), Err(DispatchError::StoreFailed));
}

#[test]
fn reply_of_the_other_kind_is_unexpected() {
    let range = dispatch(&RangeQuery::from_fields(fields("", "chr1", 0, 10)), Coverage::Sample);
    assert_eq!(
        respond(&range, &StoreReply::Catalog(names(&["chr1"]))),
        Err(DispatchError::UnexpectedReply)
    );
    assert_eq!(
        respond(&StoreRequest::Catalog, &StoreReply::Means(vec![])),
        Err(DispatchError::UnexpectedReply)
    );
}

#[test]
fn reply_without_one_value_per_window_is_unexpected() {
    let range = dispatch(&RangeQuery::from_fields(fields("", "chr1", 0, 10)), Coverage::Sample);
    assert_eq!(respond(&range, &StoreReply::Means(vec![0; 9])), Err(DispatchError::UnexpectedReply));
    assert_eq!(respond(&range, &StoreReply::Means(vec![0; 11])), Err(DispatchError::UnexpectedReply));
    assert!(respond(&range, &StoreReply::Means(vec![0; 10])).is_ok());
}

#[test]
fn json_text_is_wrapped_unchanged() {
    let body = b"[\"chr1\"]".to_vec();
    assert_eq!(
        catalog_response(Ok(body.clone())),
        Ok(Response { content_type: ContentType::Json, body })
    );
}

#[test]
fn json_error_becomes_a_serialization_error() {
    let error = serde_json::from_str::<u32>("not a number").unwrap_err();
    assert_eq!(catalog_response(Err(error)), Err(DispatchError::Serialization));
}

#[test]
fn range_response_is_an_octet_stream() {
    let response = range_response(5, 2, &[1, 2]);
    assert_eq!(response.content_type, ContentType::OctetStream);
    assert_eq!(response.body, encode(5, 2, &[1, 2]));
}

#[test]
fn content_types_name_their_media_types() {
    assert_eq!(ContentType::Json.as_str(), "application/json");
    assert_eq!(ContentType::OctetStream.as_str(), "application/octet-stream");
}
