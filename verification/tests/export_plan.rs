use indexmap::IndexMap;
use vtiger_client::export::{check_response, record_count, ExportError};
use vtiger_client::types::FieldValue;
use vtiger_client::{ApiError, ExportFormat, Vtiger, VtigerQueryResponse};

fn client() -> Vtiger {
    Vtiger::new("https://demo.vtiger.com/", "admin", "key")
}

fn counts(items: &[(&str, i32)]) -> Vec<(String, i32)> {
    items.iter().map(|(f, c)| (f.to_string(), *c)).collect()
}

fn response_with(value: Option<FieldValue>) -> VtigerQueryResponse {
    let mut record = IndexMap::new();
    record.insert("other".to_string(), FieldValue::String("5".to_string()));
    if let Some(v) = value {
        record.insert("count".to_string(), v);
    }
    VtigerQueryResponse { success: true, result: Some(vec![record]), error: None }
}

#[test]
fn job_keeps_its_settings() {
    let job = client().export(
        "Leads",
        Some(("location", vec!["Chicago".to_string(), "Seattle".to_string()])),
        200,
        3,
        vec![ExportFormat::Json, ExportFormat::CSV],
    );
    assert_eq!(job.filters(), &vec!["Chicago".to_string(), "Seattle".to_string()]);
    assert_eq!(job.batch_size(), 200);
    assert_eq!(job.concurrency(), 3);
    assert_eq!(job.formats(), &vec![ExportFormat::Json, ExportFormat::CSV]);
}

#[test]
fn count_query_matches_hyphenated_prefix() {
    let job = client().export("Leads", Some(("location", vec![])), 200, 3, vec![]);
    assert_eq!(
        job.count_query("Chicago"),
        "SELECT count(*) from Leads WHERE location LIKE 'Chicago-%';"
    );
}

#[test]
fn page_query_limits_by_offset_and_batch() {
    let job = client().export("Leads", Some(("location", vec![])), 200, 3, vec![]);
    assert_eq!(
        job.page_query("Chicago", 400, 200),
        "SELECT * FROM Leads WHERE location LIKE 'Chicago-%' LIMIT 400, 200;"
    );
    assert_eq!(
        job.page_query("X", 0, 5),
        "SELECT * FROM Leads WHERE location LIKE 'X-%' LIMIT 0, 5;"
    );
}

#[test]
fn no_filter_exports_the_whole_module() {
    let job = client().export("Leads", None, 5, 1, vec![ExportFormat::Json]);
    assert_eq!(job.filters(), &vec![String::new()]);
    assert_eq!(job.count_query(""), "SELECT count(*) from Leads;");
    assert_eq!(job.page_query("", 0, 5), "SELECT * FROM Leads LIMIT 0, 5;");
    assert_eq!(job.page_query("", 5, 5), "SELECT * FROM Leads LIMIT 5, 5;");
    let items = job.plan_batches(&counts(&[("", 7)]));
    assert_eq!(items, vec![(String::new(), 0, 5), (String::new(), 5, 5)]);
}

#[test]
fn count_and_page_queries_share_the_pattern() {
    let job = client().export("Leads", Some(("location", vec!["Chicago".to_string()])), 200, 3, vec![]);
    let count = job.count_query("Chicago");
    let page = job.page_query("Chicago", 0, 200);
    assert!(count.contains(" WHERE location LIKE 'Chicago-%';"));
    assert!(page.contains(" WHERE location LIKE 'Chicago-%' LIMIT "));
}

#[test]
fn batches_step_through_each_count() {
    let job = client().export("Leads", Some(("location", vec![])), 200, 3, vec![]);
    let items = job.plan_batches(&counts(&[("A", 450), ("B", 0), ("C", -3), ("D", 200), ("E", 1)]));
    let expected: Vec<(String, i32, usize)> = vec![
        ("A".to_string(), 0, 200),
        ("A".to_string(), 200, 200),
        ("A".to_string(), 400, 200),
        ("D".to_string(), 0, 200),
        ("E".to_string(), 0, 200),
    ];
    assert_eq!(items, expected);
}

#[test]
fn batches_cover_every_record_once() {
    for batch in [1usize, 3, 7, 100] {
        let job = client().export("M", Some(("c", vec![])), batch, 1, vec![]);
        for count in [0i32, 1, 2, 6, 7, 8, 99, 100, 101] {
            let items = job.plan_batches(&counts(&[("f", count)]));
            for r in 0..count {
                let covering = items
                    .iter()
                    .filter(|(_, o, b)| *o <= r && (r as i64) < *o as i64 + *b as i64)
                    .count();
                assert_eq!(covering, 1, "batch {batch} count {count} record {r}");
            }
            assert!(items.iter().all(|(_, o, _)| 0 <= *o && *o < count));
        }
    }
}

#[test]
fn huge_batch_gives_one_batch() {
    let job = client().export("M", Some(("c", vec![])), usize::MAX, 1, vec![]);
    let items = job.plan_batches(&counts(&[("f", i32::MAX)]));
    assert_eq!(items, vec![("f".to_string(), 0, usize::MAX)]);
}

#[test]
fn count_is_read_from_first_record() {
    assert!(matches!(record_count(Some(&response_with(Some(FieldValue::String("12".to_string()))))), Ok(12)));
    assert!(matches!(record_count(Some(&response_with(Some(FieldValue::String("+3".to_string()))))), Ok(3)));
}

#[test]
fn unreadable_counts_are_zero() {
    assert!(matches!(record_count(Some(&response_with(None))), Ok(0)));
    assert!(matches!(record_count(Some(&response_with(Some(FieldValue::Number("12".to_string()))))), Ok(0)));
    assert!(matches!(record_count(Some(&response_with(Some(FieldValue::String("twelve".to_string()))))), Ok(0)));
    assert!(matches!(
        record_count(Some(&response_with(Some(FieldValue::String("3000000000".to_string()))))),
        Ok(0)
    ));
    let empty = VtigerQueryResponse { success: true, result: Some(vec![]), error: None };
    assert!(matches!(record_count(Some(&empty)), Ok(0)));
    let no_result = VtigerQueryResponse { success: true, result: None, error: None };
    assert!(matches!(record_count(Some(&no_result)), Ok(0)));
}

#[test]
fn failed_count_request_is_an_error() {
    assert!(matches!(record_count(None), Err(ExportError::RequestFailed)));
}

#[test]
fn refused_count_query_is_an_error() {
    let mut first = IndexMap::new();
    first.insert("count".to_string(), FieldValue::String("4".to_string()));
    let refused = VtigerQueryResponse {
        success: false,
        result: Some(vec![first]),
        error: Some(ApiError { code: "INVALID_MODULE".to_string(), message: "no such module".to_string() }),
    };
    match record_count(Some(&refused)) {
        Err(ExportError::Rejected(Some(e))) => {
            assert_eq!(e.code, "INVALID_MODULE");
            assert_eq!(e.message, "no such module");
        }
        other => panic!("unexpected {other:?}"),
    }
    let bare = VtigerQueryResponse { success: false, result: None, error: None };
    assert!(matches!(record_count(Some(&bare)), Err(ExportError::Rejected(None))));
}

#[test]
fn count_ignores_later_records() {
    let mut first = IndexMap::new();
    first.insert("count".to_string(), FieldValue::String("4".to_string()));
    let mut second = IndexMap::new();
    second.insert("count".to_string(), FieldValue::String("9".to_string()));
    let r = VtigerQueryResponse { success: true, result: Some(vec![first, second]), error: None };
    assert!(matches!(record_count(Some(&r)), Ok(4)));
}

#[test]
fn check_response_accepts_only_successful_answers() {
    let ok = VtigerQueryResponse { success: true, result: None, error: None };
    assert!(check_response(Some(&ok)).is_ok());
    assert!(matches!(check_response(None), Err(ExportError::RequestFailed)));
    let refused = VtigerQueryResponse {
        success: false,
        result: None,
        error: Some(ApiError { code: "QUERY_SYNTAX_ERROR".to_string(), message: "bad".to_string() }),
    };
    match check_response(Some(&refused)) {
        Err(ExportError::Rejected(Some(e))) => assert_eq!(e.code, "QUERY_SYNTAX_ERROR"),
        other => panic!("unexpected {other:?}"),
    }
}
