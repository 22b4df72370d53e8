use ygo_destiny::json::Json;

fn text(s: &str) -> Json {
    Json::Text(s.to_string())
}

fn number(s: &str) -> Json {
    Json::Number(s.to_string())
}

#[test]
fn lookups_tell_the_kinds_apart() {
    let doc = Json::Object(vec![
        ("n".to_string(), number("7")),
        ("s".to_string(), text("seven")),
        ("l".to_string(), Json::Array(vec![number("7")])),
        ("big".to_string(), number("9223372036854775807")),
        ("n".to_string(), number("8")),
    ]);
    assert_eq!(doc.integer_field("n"), Some(7));
    assert_eq!(doc.integer_field("s"), None);
    assert_eq!(doc.integer_field("missing"), None);
    assert_eq!(doc.integer_field("big"), Some(i64::MAX));
    assert_eq!(doc.text_field("s"), Some("seven".to_string()));
    assert_eq!(doc.text_field("n"), None);
    assert_eq!(doc.get("l").and_then(|l| l.as_elements()).map(|v| v.len()), Some(1));
    assert_eq!(doc.get("l").unwrap().as_text(), None);
    assert_eq!(doc.as_elements(), None);
    assert_eq!(Json::Null.get("n"), None);
    assert_eq!(number("-9223372036854775808").as_integer(), Some(i64::MIN));
    assert_eq!(number("-9223372036854775809").as_integer(), None);
    assert_eq!(number("9223372036854775808").as_integer(), None);
    assert_eq!(number("-").as_integer(), None);
    assert_eq!(number("").as_integer(), None);
    assert_eq!(number("1e5").as_integer(), None);
    assert_eq!(number("007").as_integer(), Some(7));
    assert_eq!(text("7").as_integer(), None);
}
