use sentry_slug::json::{parse_projects, serialize_projects};
use sentry_slug::project::Project;

fn proj(id: &str, slug: &str) -> Project {
    Project { id: id.as_bytes().to_vec(), slug: slug.as_bytes().to_vec() }
}

fn same_list(a: &[Project], b: &[Project]) -> bool {
    a.len() == b.len() && a.iter().zip(b.iter()).all(|(x, y)| x.id == y.id && x.slug == y.slug)
}

#[test]
fn serialize_two_projects_exact_bytes() {
    let ps = vec![proj("123", "my-proj"), proj("7", "seven")];
    let out = serialize_projects(&ps);
    assert_eq!(
        String::from_utf8(out).unwrap(),
        r#"[{"id":"123","slug":"my-proj"},{"id":"7","slug":"seven"}]"#
    );
}

#[test]
fn serialize_empty_list() {
    let out = serialize_projects(&Vec::new());
    assert_eq!(out, b"[]".to_vec());
}

#[test]
fn serialize_escapes_quote_backslash_and_controls() {
    let ps = vec![proj("a\"b", "c\\d\ne")];
    let out = serialize_projects(&ps);
    assert_eq!(
        String::from_utf8(out).unwrap(),
        "[{\"id\":\"a\\\"b\",\"slug\":\"c\\\\d\\u000ae\"}]"
    );
}

#[test]
fn round_trip_plain() {
    let ps = vec![proj("123", "my-proj"), proj("999", "other")];
    let back = parse_projects(&serialize_projects(&ps)).unwrap();
    assert!(same_list(&ps, &back));
}

#[test]
fn round_trip_awkward_bytes() {
    let ps = vec![proj("a\"b\\c", "x\u{1}y\tz"), proj("", ""), proj("äöü", "日本")];
    let back = parse_projects(&serialize_projects(&ps)).unwrap();
    assert!(same_list(&ps, &back));
}

#[test]
fn round_trip_empty_list() {
    let back = parse_projects(&serialize_projects(&Vec::new())).unwrap();
    assert!(back.is_empty());
}

#[test]
fn parse_with_extra_fields_and_whitespace() {
    let body = br#" [ {"name": "First", "id": "123", "features": ["a", [1, 2.5e3, true], null],
        "organization": {"nested": {"deep": false}}, "slug": "my-proj"},
        {"slug": "second", "id": "456", "count": -17} ] "#;
    let ps = parse_projects(&body.to_vec()).unwrap();
    assert!(same_list(&ps, &[proj("123", "my-proj"), proj("456", "second")]));
}

#[test]
fn parse_decodes_escapes() {
    let body = br#"[{"id":"\u0031\u00322","slug":"a\/b\t\u20ac"}]"#;
    let ps = parse_projects(&body.to_vec()).unwrap();
    assert!(same_list(&ps, &[proj("122", "a/b\t\u{20ac}")]));
}

#[test]
fn parse_rejects_truncated_input() {
    assert!(parse_projects(&b"[{\"id\":\"1\",\"slug\":\"a\"}".to_vec()).is_none());
    assert!(parse_projects(&b"[{\"id\":\"1\",\"slug\":\"a".to_vec()).is_none());
    assert!(parse_projects(&b"".to_vec()).is_none());
}

#[test]
fn parse_rejects_trailing_data() {
    assert!(parse_projects(&b"[] []".to_vec()).is_none());
}

#[test]
fn parse_rejects_missing_or_repeated_members() {
    assert!(parse_projects(&b"[{\"id\":\"1\"}]".to_vec()).is_none());
    assert!(parse_projects(&b"[{\"slug\":\"a\"}]".to_vec()).is_none());
    assert!(parse_projects(&b"[{}]".to_vec()).is_none());
    assert!(parse_projects(&b"[{\"id\":\"1\",\"id\":\"2\",\"slug\":\"a\"}]".to_vec()).is_none());
}

#[test]
fn parse_rejects_non_array_and_non_string_fields() {
    assert!(parse_projects(&b"{\"id\":\"1\",\"slug\":\"a\"}".to_vec()).is_none());
    assert!(parse_projects(&b"[{\"id\":1,\"slug\":\"a\"}]".to_vec()).is_none());
    assert!(parse_projects(&b"[\"x\"]".to_vec()).is_none());
}

#[test]
fn parse_rejects_surrogate_escape() {
    assert!(parse_projects(&b"[{\"id\":\"\\ud834\",\"slug\":\"a\"}]".to_vec()).is_none());
}

#[test]
fn parse_rejects_bad_separators() {
    assert!(parse_projects(&b"[{\"id\":\"1\",\"slug\":\"a\"},]".to_vec()).is_none());
    assert!(parse_projects(&b"[{\"id\":\"1\" \"slug\":\"a\"}]".to_vec()).is_none());
}

#[test]
fn serialized_output_is_json_for_serde() {
    let ps = vec![proj("a\"b", "c\\d\ne"), proj("123", "my-proj")];
    let out = String::from_utf8(serialize_projects(&ps)).unwrap();
    let v: serde_json::Value = serde_json::from_str(&out).unwrap();
    let arr = v.as_array().unwrap();
    assert_eq!(arr.len(), 2);
    assert_eq!(arr[0]["id"].as_str().unwrap(), "a\"b");
    assert_eq!(arr[0]["slug"].as_str().unwrap(), "c\\d\ne");
    assert_eq!(arr[1]["id"].as_str().unwrap(), "123");
    assert_eq!(arr[1]["slug"].as_str().unwrap(), "my-proj");
}

#[test]
fn serde_output_parses_back() {
    let v: serde_json::Value = serde_json::from_str(
        "[{\"id\": \"123\", \"slug\": \"my-proj\", \"extra\": {\"a\": [1, 2]}},\
          {\"id\": \"x/y\", \"slug\": \"weird \u{263a} slug\"}]",
    )
    .unwrap();
    let text = serde_json::to_string(&v).unwrap();
    let ps = parse_projects(&text.into_bytes()).unwrap();
    assert!(same_list(&ps, &[proj("123", "my-proj"), proj("x/y", "weird \u{263a} slug")]));
}
