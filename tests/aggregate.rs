use rlinks::aggregate::{parse_and_aggregate, AggregateError, Json};

fn object(members: Vec<(&str, Json)>) -> Json {
    Json::Object(members.into_iter().map(|(k, v)| (k.to_string(), v)).collect())
}

fn hit(code: &str) -> Json {
    object(vec![("code", Json::Str(code.to_string())), ("ts", Json::Number(Some(1)))])
}

fn numbers(values: &[u64]) -> Json {
    Json::Array(values.iter().map(|v| Json::Number(Some(*v))).collect())
}

#[test]
fn aggregate_from_latencies_counts_len() {
    let v = object(vec![("latencies", numbers(&[1, 2, 3, 4]))]);
    let agg = parse_and_aggregate(&v, Some("ok-code".to_string())).unwrap();
    assert_eq!(agg.total(), Some(4));
    assert_eq!(agg.get("ok-code"), Some(4));
}

#[test]
fn aggregate_from_hits_array_counts_per_code() {
    let v = Json::Array(vec![hit("a"), hit("b"), hit("a")]);
    let agg = parse_and_aggregate(&v, None).unwrap();
    assert_eq!(agg.total(), Some(3));
    assert_eq!(agg.get("a"), Some(2));
    assert_eq!(agg.get("b"), Some(1));
}

#[test]
fn hits_member_is_counted_and_skips_records_without_code() {
    let v = object(vec![(
        "hits",
        Json::Array(vec![
            hit("x"),
            object(vec![("code", Json::Number(Some(3)))]),
            Json::Null,
            hit("x"),
        ]),
    )]);
    let agg = parse_and_aggregate(&v, Some("ignored".to_string())).unwrap();
    assert_eq!(agg.get("x"), Some(2));
    assert_eq!(agg.get("ignored"), None);
    assert_eq!(agg.len(), 1);
    let entries = agg.entries();
    assert_eq!(entries, vec![("x".to_string(), 2)]);
}

#[test]
fn latencies_ms_used_when_latencies_absent() {
    let v = object(vec![("count", Json::Number(Some(9))), ("latencies_ms", numbers(&[5, 6]))]);
    let agg = parse_and_aggregate(&v, Some("c".to_string())).unwrap();
    assert_eq!(agg.get("c"), Some(2));
}

#[test]
fn non_array_latencies_falls_back_to_count() {
    let v = object(vec![
        ("latencies", Json::Null),
        ("latencies_ms", numbers(&[5, 6])),
        ("count", Json::Number(Some(9))),
    ]);
    let agg = parse_and_aggregate(&v, Some("c".to_string())).unwrap();
    assert_eq!(agg.get("c"), Some(9));
}

#[test]
fn missing_code_errors() {
    let v = object(vec![("latencies", numbers(&[1]))]);
    assert!(matches!(
        parse_and_aggregate(&v, None),
        Err(AggregateError::MissingCodeForLatencies)
    ));
    let v = object(vec![("count", Json::Number(Some(20)))]);
    assert!(matches!(
        parse_and_aggregate(&v, None),
        Err(AggregateError::MissingCodeForCount)
    ));
}

#[test]
fn unrecognized_documents() {
    for v in [
        Json::Null,
        Json::Str("hits".to_string()),
        object(vec![("count", Json::Number(None))]),
        object(vec![("other", numbers(&[1]))]),
    ] {
        assert!(matches!(
            parse_and_aggregate(&v, Some("c".to_string())),
            Err(AggregateError::Unrecognized)
        ));
    }
}

#[test]
fn empty_hits_array() {
    let agg = parse_and_aggregate(&Json::Array(vec![]), None).unwrap();
    assert!(agg.is_empty());
    assert_eq!(agg.total(), Some(0));
}
