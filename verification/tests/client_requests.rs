use vtiger_client::client::{ApiRequest, HttpMethod};
use vtiger_client::json::fields_json;
use vtiger_client::Vtiger;

fn pairs(req: &ApiRequest) -> Vec<(&str, &str)> {
    req.query.iter().map(|(k, v)| (k.as_str(), v.as_str())).collect()
}

fn check_common(req: &ApiRequest) {
    assert_eq!(req.username, "admin");
    assert_eq!(req.access_key, "secret");
    let headers: Vec<(&str, &str)> =
        req.headers.iter().map(|(k, v)| (k.as_str(), v.as_str())).collect();
    assert_eq!(
        headers,
        vec![("Content-Type", "application/json"), ("Accept", "application/json")]
    );
}

#[test]
fn me_targets_rest_endpoint_with_trailing_slash_base() {
    let v = Vtiger::new("https://example.vtiger.com/", "admin", "secret");
    let req = v.me();
    assert_eq!(req.method, HttpMethod::Get);
    assert_eq!(req.url, "https://example.vtiger.com/restapi/v1/vtiger/default/me");
    assert!(req.query.is_empty());
    check_common(&req);
}

#[test]
fn base_url_without_slash_gets_one() {
    let v = Vtiger::new("https://demo.vtiger.com", "admin", "secret");
    let req = v.me();
    assert_eq!(req.url, "https://demo.vtiger.com/restapi/v1/vtiger/default/me");
    let q = v.query("SELECT * FROM Leads LIMIT 10");
    assert_eq!(q.url, "https://demo.vtiger.com/restapi/v1/vtiger/default/query");
}

#[test]
fn list_types_passes_filters_through() {
    let v = Vtiger::new("https://demo.vtiger.com/", "admin", "secret");
    let req = v.list_types(&[("fieldTypeList[]", "picklist")]);
    assert_eq!(req.method, HttpMethod::Get);
    assert_eq!(req.url, "https://demo.vtiger.com/restapi/v1/vtiger/default/listtypes");
    assert_eq!(pairs(&req), vec![("fieldTypeList[]", "picklist")]);
    let all = v.list_types(&[]);
    assert!(all.query.is_empty());
    check_common(&all);
}

#[test]
fn describe_names_the_module() {
    let v = Vtiger::new("https://demo.vtiger.com/", "admin", "secret");
    let req = v.describe("Accounts");
    assert_eq!(req.url, "https://demo.vtiger.com/restapi/v1/vtiger/default/describe");
    assert_eq!(pairs(&req), vec![("elementType", "Accounts")]);
    check_common(&req);
}

#[test]
fn retrieve_sends_the_record_id() {
    let v = Vtiger::new("https://demo.vtiger.com/", "admin", "secret");
    let req = v.retrieve("12x34");
    assert_eq!(req.method, HttpMethod::Get);
    assert_eq!(req.url, "https://demo.vtiger.com/restapi/v1/vtiger/default/retrieve");
    assert_eq!(pairs(&req), vec![("id", "12x34")]);
}

#[test]
fn query_sends_the_query_text() {
    let v = Vtiger::new("https://demo.vtiger.com/", "admin", "secret");
    let req = v.query("SELECT * FROM Leads LIMIT 10");
    assert_eq!(req.url, "https://demo.vtiger.com/restapi/v1/vtiger/default/query");
    assert_eq!(pairs(&req), vec![("query", "SELECT * FROM Leads LIMIT 10")]);
}

#[test]
fn create_posts_fields_as_json_object() {
    let v = Vtiger::new("https://demo.vtiger.com/", "admin", "secret");
    let req = v.create("Leads", &[("lastname", "Smith"), ("firstname", "John")]);
    assert_eq!(req.method, HttpMethod::Post);
    assert_eq!(req.url, "https://demo.vtiger.com/restapi/v1/vtiger/default/create");
    assert_eq!(
        pairs(&req),
        vec![
            ("elementType", "Leads"),
            ("element", r#"{"lastname":"Smith","firstname":"John"}"#)
        ]
    );
    check_common(&req);
}

#[test]
fn update_and_revise_post_the_element() {
    let v = Vtiger::new("https://demo.vtiger.com/", "admin", "secret");
    let fields = vec![("id", "2x12345"), ("phone", "604-555-1212")];
    let up = v.update(&fields);
    assert_eq!(up.method, HttpMethod::Post);
    assert_eq!(up.url, "https://demo.vtiger.com/restapi/v1/vtiger/default/update");
    assert_eq!(
        pairs(&up),
        vec![("element", r#"{"id":"2x12345","phone":"604-555-1212"}"#)]
    );
    let rev = v.revise(&fields);
    assert_eq!(rev.method, HttpMethod::Post);
    assert_eq!(rev.url, "https://demo.vtiger.com/restapi/v1/vtiger/default/revise");
    assert_eq!(pairs(&rev), pairs(&up));
}

#[test]
fn repeated_field_keeps_first_place_and_last_value() {
    let json = fields_json(&[("a", "1"), ("b", "2"), ("a", "3")]);
    assert_eq!(json, r#"{"a":"3","b":"2"}"#);
    let parsed: serde_json::Value = serde_json::from_str(&json).unwrap();
    assert_eq!(parsed["a"], "3");
    assert_eq!(parsed["b"], "2");
}

#[test]
fn field_text_is_escaped_as_json() {
    let json = fields_json(&[("note", "say \"hi\"\n\\ok")]);
    assert_eq!(json, "{\"note\":\"say \\\"hi\\\"\\n\\\\ok\"}");
    let parsed: serde_json::Value = serde_json::from_str(&json).unwrap();
    assert_eq!(parsed["note"], "say \"hi\"\n\\ok");
}

#[test]
fn no_fields_give_an_empty_object() {
    assert_eq!(fields_json(&[]), "{}");
}

#[test]
fn control_characters_are_escaped_as_json() {
    let json = fields_json(&[("k\t", "\u{1}\u{1f}\u{8}\u{c}\r é")]);
    assert_eq!(json, "{\"k\\t\":\"\\u0001\\u001f\\b\\f\\r é\"}");
    let parsed: serde_json::Value = serde_json::from_str(&json).unwrap();
    assert_eq!(parsed["k\t"], "\u{1}\u{1f}\u{8}\u{c}\r é");
}
