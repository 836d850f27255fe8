use pantheon::airtable::{
    build_list_records_uri, list_all_records, ListRecordsOptions, ListRecordsResponse, PageFetch,
    Record,
};
use pantheon::errors::PipelineError;

fn page_record(i: usize) -> Record<String> {
    Record {
        id: format!("rec{}", i),
        fields: format!("{{\"n\":{}}}", i),
        created_time: "2024-01-01T00:00:00.000Z".to_string(),
    }
}

fn paginate(n: usize, page_size: usize) -> Vec<ListRecordsResponse<String>> {
    let mut pages = Vec::new();
    let mut start = 0;
    while start < n {
        let end = if start + page_size < n { start + page_size } else { n };
        let records: Vec<Record<String>> = (start..end).map(page_record).collect();
        let offset = if end < n { Some(format!("itr{}", end)) } else { None };
        pages.push(ListRecordsResponse { records, offset });
        start = end;
    }
    if pages.is_empty() {
        pages.push(ListRecordsResponse { records: Vec::new(), offset: None });
    }
    pages
}

#[test]
fn pagination_returns_all_records_in_order() {
    // 250 records at page size 100: three requests, records in original
    // order.
    let pages = paginate(250, 100);
    assert_eq!(pages.len(), 3);
    let (records, used) = list_all_records(pages).unwrap();
    assert_eq!(used, 3);
    assert_eq!(records.len(), 250);
    for (i, r) in records.iter().enumerate() {
        assert_eq!(r.id, format!("rec{}", i));
    }
}

#[test]
fn pagination_exact_multiple_uses_ceiling_requests() {
    // 200 records at page size 100: exactly two requests under
    // cursor-driven termination, with a full final page.
    let pages = paginate(200, 100);
    assert_eq!(pages.len(), 2);
    assert!(pages[1].offset.is_none());
    let (records, used) = list_all_records(pages).unwrap();
    assert_eq!(used, 2);
    assert_eq!(records.len(), 200);
}

#[test]
fn pagination_single_short_page() {
    let pages = paginate(7, 100);
    let (records, used) = list_all_records(pages).unwrap();
    assert_eq!(used, 1);
    assert_eq!(records.len(), 7);
}

#[test]
fn pagination_empty_source_issues_one_request() {
    let pages = paginate(0, 100);
    let (records, used) = list_all_records(pages).unwrap();
    assert_eq!(used, 1);
    assert!(records.is_empty());
}

#[test]
fn pagination_fails_when_cursor_never_ends() {
    let pages = vec![
        ListRecordsResponse { records: vec![page_record(0)], offset: Some("itr1".to_string()) },
        ListRecordsResponse { records: vec![page_record(1)], offset: Some("itr2".to_string()) },
    ];
    assert_eq!(list_all_records(pages).err(), Some(PipelineError::Validation));
}

#[test]
fn page_fetch_accumulates_and_stops_on_missing_cursor() {
    let mut fetch: PageFetch<String> = PageFetch::new();
    fetch.absorb_page(ListRecordsResponse {
        records: vec![page_record(0), page_record(1)],
        offset: Some("itr2".to_string()),
    });
    assert!(!fetch.done);
    assert_eq!(fetch.next_offset.as_deref(), Some("itr2"));
    fetch.absorb_page(ListRecordsResponse { records: vec![page_record(2)], offset: None });
    assert!(fetch.done);
    assert_eq!(fetch.requests, 2);
    assert_eq!(fetch.records.len(), 3);
    assert_eq!(fetch.records[2].id, "rec2");
}

#[test]
fn list_records_uri_includes_fields_view_and_offset() {
    let opts = ListRecordsOptions {
        fields: Some(vec!["FirstName".to_string(), "Email".to_string()]),
        view: Some("viwAll".to_string()),
        offset: Some("itr100".to_string()),
    };
    let uri = build_list_records_uri("appBase", "tblUsers", &opts);
    assert_eq!(
        uri,
        "https://api.airtable.com/v0/appBase/tblUsers?\
         &fields%5B%5D=FirstName&fields%5B%5D=Email&view=viwAll&offset=itr100"
    );
}

#[test]
fn list_records_uri_without_options() {
    let opts = ListRecordsOptions { fields: None, view: None, offset: None };
    let uri = build_list_records_uri("appBase", "tblUsers", &opts);
    assert_eq!(uri, "https://api.airtable.com/v0/appBase/tblUsers?");
}
