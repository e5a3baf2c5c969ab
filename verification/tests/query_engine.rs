use winston::{LogInfo, LogQuery, Logger, LoggerTransport, MetaValue, Order};
use winston::time::entry_timestamp;

fn stamped(level: &str, message: &str, ts: &str) -> LogInfo {
    LogInfo::new(level, message).with_meta("timestamp", MetaValue::Str(ts.to_string()))
}

#[test]
fn test_query_returns_results() {
    let mut logger = Logger::new(None);
    logger.log(LogInfo::new("info", "Test message"));
    logger.flush().unwrap();
    // without a transport the record stays buffered and is queryable
    let query = LogQuery::new();
    let results = logger.query(&query);
    assert!(results.is_ok());
    assert_eq!(results.unwrap().len(), 1);
}

#[test]
fn test_query_with_level_filter() {
    let mut logger = Logger::new(None);
    logger.add_transport(LoggerTransport::new());

    logger.log(LogInfo::new("info", "a"));
    logger.log(LogInfo::new("error", "b"));
    logger.log(LogInfo::new("warn", "c"));
    logger.flush().unwrap();

    // gather what the transport received
    let mut received = Vec::new();
    for action in logger.take_actions() {
        if let winston::Action::Deliver { entry, .. } = action {
            received.push(entry);
        }
    }
    assert_eq!(received.len(), 3);

    // a transport answers a query with its matching records only
    let query = LogQuery::new().levels(vec!["error".to_string()]);
    let transport_answer: Vec<LogInfo> =
        received.into_iter().filter(|e| query.matches(e)).collect();
    let buffered = logger.query_buffered(&query);
    let results =
        winston::query::run_query(&query, buffered, vec![Ok(transport_answer)]).unwrap();
    assert_eq!(results.len(), 1);
    assert_eq!(results[0].level, "error");
    assert_eq!(results[0].message, "b");
}

#[test]
fn test_query_with_no_results() {
    let logger = Logger::new(None);
    let results = logger.query(&LogQuery::new());
    assert!(results.is_ok());
    assert!(results.unwrap().is_empty());
}

#[test]
fn test_query_propagates_transport_error() {
    let query = LogQuery::new();
    let results = winston::query::run_query(
        &query,
        Vec::new(),
        vec![
            Ok(vec![LogInfo::new("info", "fine")]),
            Err("disk failed".to_string()),
            Err("later failure".to_string()),
        ],
    );
    assert_eq!(results.unwrap_err(), "disk failed");
}

#[test]
fn test_matches_search_term() {
    let q = LogQuery::new().search_term("needle");
    assert!(q.matches(&LogInfo::new("info", "hay needle stack")));
    assert!(!q.matches(&LogInfo::new("info", "just hay")));
}

#[test]
fn test_matches_levels_and_fields() {
    let q = LogQuery::new()
        .levels(vec!["warn".to_string()])
        .fields(vec!["user".to_string()]);
    let with_field = LogInfo::new("warn", "x").with_meta("user", MetaValue::Str("a".into()));
    let without_field = LogInfo::new("warn", "x");
    let wrong_level = LogInfo::new("info", "x").with_meta("user", MetaValue::Str("a".into()));
    assert!(q.matches(&with_field));
    assert!(!q.matches(&without_field));
    assert!(!q.matches(&wrong_level));
}

#[test]
fn test_matches_timestamp_window() {
    let early = stamped("info", "early", "2024-01-01T00:00:00Z");
    let late = stamped("info", "late", "2024-06-01T00:00:00Z");
    let unstamped = LogInfo::new("info", "none");

    let from = entry_timestamp(&early).unwrap();
    let until = entry_timestamp(&late).unwrap();
    assert!(from < until);

    let q = LogQuery::new().from(from).until(until);
    assert!(q.matches(&early));
    assert!(q.matches(&late));
    // a record without a timestamp fails a set bound
    assert!(!q.matches(&unstamped));

    let q_after = LogQuery::new().from(from + 1);
    assert!(!q_after.matches(&early));
    assert!(q_after.matches(&late));
}

#[test]
fn test_timestamp_parsing_is_real() {
    let base = stamped("info", "a", "2024-01-01T00:00:00Z");
    let one_second_later = stamped("info", "b", "2024-01-01T00:00:01Z");
    let t0 = entry_timestamp(&base).unwrap();
    let t1 = entry_timestamp(&one_second_later).unwrap();
    // one second is exactly a million microseconds apart
    assert_eq!(t1 - t0, 1_000_000);
    // the Unix epoch parses to zero
    let epoch = stamped("info", "e", "1970-01-01T00:00:00Z");
    assert_eq!(entry_timestamp(&epoch), Some(0));
    // text that is not a timestamp parses to nothing
    let junk = stamped("info", "j", "not a date");
    assert_eq!(entry_timestamp(&junk), None);
}

#[test]
fn test_query_sorts_by_timestamp() {
    let a = stamped("info", "a", "2024-03-01T00:00:00Z");
    let b = stamped("info", "b", "2024-01-01T00:00:00Z");
    let c = stamped("info", "c", "2024-02-01T00:00:00Z");

    let q = LogQuery::new().order(Order::Ascending);
    let out = winston::query::run_query(&q, vec![a.clone(), b.clone(), c.clone()], Vec::new())
        .unwrap();
    let msgs: Vec<&str> = out.iter().map(|e| e.message.as_str()).collect();
    assert_eq!(msgs, vec!["b", "c", "a"]);

    let q = LogQuery::new().order(Order::Descending);
    let out = winston::query::run_query(&q, vec![a, b, c], Vec::new()).unwrap();
    let msgs: Vec<&str> = out.iter().map(|e| e.message.as_str()).collect();
    assert_eq!(msgs, vec!["a", "c", "b"]);
}

#[test]
fn test_query_start_and_limit() {
    let mut buffered = Vec::new();
    for i in 0..10 {
        buffered.push(stamped(
            "info",
            &format!("m{}", i),
            &format!("2024-01-01T00:00:0{}Z", i),
        ));
    }
    let q = LogQuery::new().order(Order::Ascending).start(2).limit(3);
    let out = winston::query::run_query(&q, buffered, Vec::new()).unwrap();
    let msgs: Vec<&str> = out.iter().map(|e| e.message.as_str()).collect();
    assert_eq!(msgs, vec!["m2", "m3", "m4"]);
}

#[test]
fn test_query_projection() {
    let record = LogInfo::new("info", "hello")
        .with_meta("user", MetaValue::Str("ada".into()))
        .with_meta("extra", MetaValue::Int(5));
    let q = LogQuery::new().fields(vec!["LEVEL".to_string(), "User".to_string()]);
    let out = winston::query::run_query(&q, vec![record], Vec::new()).unwrap();
    assert_eq!(out.len(), 1);
    // level is listed (case-insensitively) and kept; message is not
    assert_eq!(out[0].level, "info");
    assert_eq!(out[0].message, "");
    // metadata is filtered to the listed keys
    assert_eq!(out[0].meta.len(), 1);
    assert_eq!(out[0].meta[0].0, "user");
    assert_eq!(out[0].meta[0].1, MetaValue::Str("ada".into()));
}

#[test]
fn test_query_stable_for_equal_timestamps() {
    let a = stamped("info", "first", "2024-01-01T00:00:00Z");
    let b = stamped("info", "second", "2024-01-01T00:00:00Z");
    let q = LogQuery::new().order(Order::Ascending);
    let out = winston::query::run_query(&q, vec![a, b], Vec::new()).unwrap();
    let msgs: Vec<&str> = out.iter().map(|e| e.message.as_str()).collect();
    assert_eq!(msgs, vec!["first", "second"]);
}
