use winston::{
    Action, BackpressureStrategy, DiagKind, LogInfo, Logger, LoggerOptions, LoggerTransport,
};

fn messages_delivered(actions: &[Action]) -> Vec<String> {
    let mut out = Vec::new();
    for a in actions {
        if let Action::Deliver { entry, .. } = a {
            out.push(entry.message.clone());
        }
    }
    out
}

fn count_diag(actions: &[Action], kind: DiagKind) -> usize {
    actions
        .iter()
        .filter(|a| matches!(a, Action::Diagnostic(k) if *k == kind))
        .count()
}

#[test]
fn test_backpressure_drop_current_strategy() {
    let mut logger = Logger::new(Some(
        LoggerOptions::new()
            .channel_capacity(2)
            .backpressure_strategy(BackpressureStrategy::DropCurrent),
    ));
    logger.add_transport(LoggerTransport::new());

    for i in 0..5 {
        logger.log(LogInfo::new("info", &format!("m{}", i)));
    }
    logger.flush().unwrap();

    let actions = logger.take_actions();
    // the earliest records survive; the later ones are dropped
    assert_eq!(messages_delivered(&actions), vec!["m0", "m1"]);
    assert_eq!(count_diag(&actions, DiagKind::DroppedCurrent), 3);
}

#[test]
fn test_backpressure_drop_oldest_strategy() {
    let mut logger = Logger::new(Some(
        LoggerOptions::new()
            .channel_capacity(2)
            .backpressure_strategy(BackpressureStrategy::DropOldest),
    ));
    logger.add_transport(LoggerTransport::new());

    for i in 0..5 {
        logger.log(LogInfo::new("info", &format!("m{}", i)));
    }
    logger.flush().unwrap();

    let actions = logger.take_actions();
    // the most recent records survive
    assert_eq!(messages_delivered(&actions), vec!["m3", "m4"]);
    assert_eq!(count_diag(&actions, DiagKind::DroppedOldest), 3);
}

#[test]
fn test_backpressure_block_strategy() {
    let mut logger = Logger::new(Some(
        LoggerOptions::new()
            .channel_capacity(1)
            .backpressure_strategy(BackpressureStrategy::Block),
    ));
    logger.add_transport(LoggerTransport::new());

    logger.log(LogInfo::new("info", "first"));
    assert_eq!(logger.queue_len(), 1);

    // with a full capacity-1 queue, the 2nd submit completes only once
    // the 1st record has been processed: its delivery is already in the
    // action log before any flush
    logger.log(LogInfo::new("info", "second"));
    let actions = logger.take_actions();
    assert_eq!(messages_delivered(&actions), vec!["first"]);
    assert_eq!(logger.queue_len(), 1);

    logger.flush().unwrap();
    let actions = logger.take_actions();
    assert_eq!(messages_delivered(&actions), vec!["second"]);
}

#[test]
fn test_no_backpressure_with_sufficient_capacity() {
    let mut logger = Logger::new(Some(
        LoggerOptions::new()
            .channel_capacity(100)
            .backpressure_strategy(BackpressureStrategy::DropCurrent),
    ));
    logger.add_transport(LoggerTransport::new());

    for i in 0..50 {
        logger.log(LogInfo::new("info", &format!("m{}", i)));
    }
    logger.flush().unwrap();

    let actions = logger.take_actions();
    assert_eq!(messages_delivered(&actions).len(), 50);
    assert_eq!(count_diag(&actions, DiagKind::DroppedCurrent), 0);
}

#[test]
fn test_backpressure_recovers_after_flush() {
    let mut logger = Logger::new(Some(
        LoggerOptions::new()
            .channel_capacity(2)
            .backpressure_strategy(BackpressureStrategy::DropCurrent),
    ));
    logger.add_transport(LoggerTransport::new());

    logger.log(LogInfo::new("info", "a"));
    logger.log(LogInfo::new("info", "b"));
    logger.log(LogInfo::new("info", "dropped"));
    logger.flush().unwrap();

    logger.log(LogInfo::new("info", "c"));
    logger.flush().unwrap();

    let actions = logger.take_actions();
    assert_eq!(messages_delivered(&actions), vec!["a", "b", "c"]);
}

#[test]
fn test_zero_capacity_block_hands_off() {
    let mut logger = Logger::new(Some(
        LoggerOptions::new()
            .channel_capacity(0)
            .backpressure_strategy(BackpressureStrategy::Block),
    ));
    logger.add_transport(LoggerTransport::new());

    // a rendezvous queue hands the record straight to the worker
    logger.log(LogInfo::new("info", "direct"));
    let actions = logger.take_actions();
    assert_eq!(messages_delivered(&actions), vec!["direct"]);
}

#[test]
fn test_zero_capacity_drop_oldest_drops_current() {
    let mut logger = Logger::new(Some(
        LoggerOptions::new()
            .channel_capacity(0)
            .backpressure_strategy(BackpressureStrategy::DropOldest),
    ));
    logger.add_transport(LoggerTransport::new());

    logger.log(LogInfo::new("info", "lost"));
    logger.flush().unwrap();
    let actions = logger.take_actions();
    assert_eq!(messages_delivered(&actions).len(), 0);
    assert_eq!(count_diag(&actions, DiagKind::DropRetryFailed), 1);
}

#[test]
fn test_blocking_submit_always_enqueues() {
    let mut logger = Logger::new(Some(
        LoggerOptions::new()
            .channel_capacity(1)
            .backpressure_strategy(BackpressureStrategy::DropCurrent),
    ));
    logger.add_transport(LoggerTransport::new());

    logger.logi(LogInfo::new("info", "a"));
    logger.logi(LogInfo::new("info", "b"));
    logger.logi(LogInfo::new("info", "c"));
    logger.flush().unwrap();

    let actions = logger.take_actions();
    assert_eq!(messages_delivered(&actions), vec!["a", "b", "c"]);
}
