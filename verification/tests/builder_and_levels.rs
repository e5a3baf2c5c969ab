use winston::{BackpressureStrategy, Logger, LoggerLevels, LoggerTransport};

#[test]
fn test_builder_default_construction() {
    let logger = Logger::builder().build();
    assert!(logger.options().levels.is_some());
    assert_eq!(logger.options().level.as_deref(), Some("info"));
}

#[test]
fn test_builder_with_level() {
    let logger = Logger::builder().level("debug").build();
    assert_eq!(logger.options().level.as_deref(), Some("debug"));
}

#[test]
fn test_builder_with_channel_capacity() {
    let logger = Logger::builder().channel_capacity(2048).build();
    assert_eq!(logger.options().channel_capacity, Some(2048));
}

#[test]
fn test_builder_with_backpressure_strategy() {
    let logger = Logger::builder()
        .backpressure_strategy(BackpressureStrategy::DropOldest)
        .build();
    assert!(matches!(
        logger.options().backpressure_strategy,
        Some(BackpressureStrategy::DropOldest)
    ));
}

#[test]
fn test_builder_with_custom_levels() {
    let custom_levels = vec![("critical".to_string(), 0u8), ("normal".to_string(), 5u8)];
    let logger = Logger::builder().levels(custom_levels).build();

    let levels = logger.options().levels.as_ref().unwrap();
    assert_eq!(levels.get_severity("critical"), Some(0));
    assert_eq!(levels.get_severity("normal"), Some(5));
}

#[test]
fn test_builder_chaining() {
    let logger = Logger::builder()
        .level("warn")
        .channel_capacity(512)
        .backpressure_strategy(BackpressureStrategy::Block)
        .build();

    assert_eq!(logger.options().level.as_deref(), Some("warn"));
    assert_eq!(logger.options().channel_capacity, Some(512));
    assert!(matches!(
        logger.options().backpressure_strategy,
        Some(BackpressureStrategy::Block)
    ));
}

#[test]
fn test_builder_transports_accepts_iterable() {
    let logger = Logger::builder()
        .transports(vec![LoggerTransport::new(), LoggerTransport::new()])
        .build();
    assert_eq!(logger.options().transports.as_ref().unwrap().len(), 2);
}

#[test]
fn test_default_levels_mapping() {
    let levels = LoggerLevels::default();
    assert_eq!(levels.get_severity("error"), Some(0));
    assert_eq!(levels.get_severity("warn"), Some(1));
    assert_eq!(levels.get_severity("info"), Some(2));
    assert_eq!(levels.get_severity("debug"), Some(3));
    assert_eq!(levels.get_severity("trace"), Some(4));
    assert_eq!(levels.get_severity("absent"), None);
}

#[test]
fn test_default_levels_pairs() {
    let pairs = winston::default_levels();
    assert_eq!(pairs.len(), 5);
    assert_eq!(pairs[0], ("error".to_string(), 0u8));
    assert_eq!(pairs[4], ("trace".to_string(), 4u8));
}

#[test]
fn test_levels_last_entry_wins() {
    let levels = LoggerLevels::new(vec![
        ("alpha".to_string(), 1u8),
        ("beta".to_string(), 2u8),
        ("alpha".to_string(), 7u8),
    ]);
    assert_eq!(levels.get_severity("alpha"), Some(7));
    assert_eq!(levels.get_severity("beta"), Some(2));
    assert_eq!(levels.get_severity("gamma"), None);
}
