use reseda_server::query::{parse_start_query, Query};

fn kind(msg: &str) -> Option<Query> {
    parse_start_query(msg).map(|q| q.query_type)
}

#[test]
fn parses_the_three_known_queries() {
    assert_eq!(kind("{\"query_type\":\"open\"}"), Some(Query::Open));
    assert_eq!(kind("{\"query_type\":\"close\"}"), Some(Query::Close));
    assert_eq!(kind("{\"query_type\":\"resume\"}"), Some(Query::Resume));
}

#[test]
fn matches_query_types_without_regard_to_case() {
    assert_eq!(kind("{\"query_type\":\"OPEN\"}"), Some(Query::Open));
    assert_eq!(kind("{\"query_type\":\"Close\"}"), Some(Query::Close));
    assert_eq!(kind("{\"query_type\":\"rEsUmE\"}"), Some(Query::Resume));
}

#[test]
fn tolerates_whitespace() {
    assert_eq!(
        kind("  { \"query_type\" :\t\"open\" }\n"),
        Some(Query::Open)
    );
}

#[test]
fn unknown_values_are_classified_not_rejected() {
    assert_eq!(kind("{\"query_type\":\"foo\"}"), Some(Query::Unknown));
    assert_eq!(kind("{\"query_type\":\"\"}"), Some(Query::Unknown));
    assert_eq!(kind("{\"query_type\":\"open \"}"), Some(Query::Unknown));
}

#[test]
fn malformed_frames_are_rejected() {
    assert_eq!(kind(""), None);
    assert_eq!(kind("{"), None);
    assert_eq!(kind("open"), None);
    assert_eq!(kind("{\"other\":\"open\"}"), None);
    assert_eq!(kind("{\"query_type\":open}"), None);
    assert_eq!(kind("{\"query_type\":\"open\""), None);
    assert_eq!(kind("{\"query_type\":\"open\"} trailing"), None);
}
