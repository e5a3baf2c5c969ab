use winston::{
    Action, DiagKind, LogInfo, Logger, LoggerOptions, LoggerTransport, TransportHandle,
};

fn deliveries(actions: &[Action]) -> Vec<(TransportHandle, LogInfo)> {
    let mut out = Vec::new();
    for a in actions {
        if let Action::Deliver { handle, entry, .. } = a {
            out.push((*handle, entry.clone()));
        }
    }
    out
}

fn diag_count(actions: &[Action], kind: DiagKind) -> usize {
    let mut n = 0;
    for a in actions {
        if let Action::Diagnostic(k) = a {
            if *k == kind {
                n += 1;
            }
        }
    }
    n
}

#[test]
fn test_logger_creation_with_default_options() {
    let logger = Logger::new(None);
    assert!(logger.options().levels.is_some());
}

#[test]
fn test_logger_creation_with_custom_options() {
    let options = LoggerOptions::new().level("debug").channel_capacity(512);
    let logger = Logger::new(Some(options));
    assert_eq!(logger.options().level.as_deref(), Some("debug"));
}

#[test]
fn test_add_transport() {
    let mut logger = Logger::new(None);
    let handle = logger.add_transport(LoggerTransport::new());
    assert_eq!(logger.options().transports.as_ref().unwrap().len(), 1);
    assert!(logger.remove_transport(handle));
}

#[test]
fn test_add_multiple_transports() {
    let mut logger = Logger::new(None);
    let handle1 = logger.add_transport(LoggerTransport::new());
    let handle2 = logger.add_transport(LoggerTransport::new());
    assert_eq!(logger.options().transports.as_ref().unwrap().len(), 2);
    assert_ne!(handle1, handle2);
}

#[test]
fn test_remove_transport() {
    let mut logger = Logger::new(None);
    let handle = logger.add_transport(LoggerTransport::new());
    assert!(logger.remove_transport(handle));
    assert!(logger.options().transports.as_ref().unwrap().is_empty());
}

#[test]
fn test_remove_nonexistent_transport() {
    let mut logger = Logger::new(None);
    let fake_handle = TransportHandle(9999);
    assert!(!logger.remove_transport(fake_handle));
}

#[test]
fn test_remove_transport_twice() {
    let mut logger = Logger::new(None);
    let handle = logger.add_transport(LoggerTransport::new());
    assert!(logger.remove_transport(handle));
    assert!(!logger.remove_transport(handle));
}

#[test]
fn test_transport_builder() {
    let mut logger = Logger::new(None);
    let handle = logger.add_transport(LoggerTransport::new().with_level("error"));

    logger.log(LogInfo::new("info", "Should be filtered"));
    logger.log(LogInfo::new("error", "Should pass"));
    logger.flush().unwrap();

    let logs = deliveries(&logger.take_actions());
    assert_eq!(logs.len(), 1);
    assert_eq!(logs[0].1.level, "error");
    assert!(logger.remove_transport(handle));
}

#[test]
fn test_level_filtering_blocks_lower_severity() {
    let mut logger = Logger::new(Some(LoggerOptions::new().level("warn")));
    logger.add_transport(LoggerTransport::new());

    logger.log(LogInfo::new("info", "m1"));
    logger.log(LogInfo::new("debug", "m2"));
    logger.log(LogInfo::new("warn", "m3"));
    logger.log(LogInfo::new("error", "m4"));
    logger.flush().unwrap();

    let logs = deliveries(&logger.take_actions());
    assert_eq!(logs.len(), 2);
    assert_eq!(logs[0].1.level, "warn");
    assert_eq!(logs[0].1.message, "m3");
    assert_eq!(logs[1].1.level, "error");
    assert_eq!(logs[1].1.message, "m4");
}

#[test]
fn test_level_filtering_with_trace() {
    let mut logger = Logger::new(Some(LoggerOptions::new().level("trace")));
    logger.add_transport(LoggerTransport::new());

    logger.log(LogInfo::new("trace", "a"));
    logger.log(LogInfo::new("debug", "b"));
    logger.log(LogInfo::new("info", "c"));
    logger.flush().unwrap();

    assert_eq!(deliveries(&logger.take_actions()).len(), 3);
}

#[test]
fn test_transport_specific_level() {
    let mut logger = Logger::new(Some(LoggerOptions::new().level("trace")));
    let _handle = logger.add_transport(LoggerTransport::new().with_level("error"));

    logger.log(LogInfo::new("info", "a"));
    logger.log(LogInfo::new("error", "b"));
    logger.flush().unwrap();

    let logs = deliveries(&logger.take_actions());
    assert_eq!(logs.len(), 1);
    assert_eq!(logs[0].1.level, "error");
    assert_eq!(logs[0].1.message, "b");
}

#[test]
fn test_empty_message_handling() {
    let mut logger = Logger::new(None);
    logger.add_transport(LoggerTransport::new());

    logger.log(LogInfo::new("info", ""));
    logger.flush().unwrap();

    assert_eq!(deliveries(&logger.take_actions()).len(), 0);
}

#[test]
fn test_configure_updates_level() {
    let mut logger = Logger::new(Some(LoggerOptions::new().level("error")));
    logger.add_transport(LoggerTransport::new());

    logger.log(LogInfo::new("warn", "Should be filtered"));
    logger.flush().unwrap();
    assert_eq!(deliveries(&logger.take_actions()).len(), 0);

    logger.configure(Some(LoggerOptions::new().level("debug")));
    logger.add_transport(LoggerTransport::new());

    logger.log(LogInfo::new("warn", "Should pass now"));
    logger.flush().unwrap();
    assert_eq!(deliveries(&logger.take_actions()).len(), 1);
}

#[test]
fn test_configure_clears_transports() {
    let mut logger = Logger::new(None);
    logger.add_transport(LoggerTransport::new());
    assert_eq!(logger.options().transports.as_ref().unwrap().len(), 1);

    logger.configure(Some(LoggerOptions::new()));
    assert!(logger.options().transports.as_ref().unwrap().is_empty());
}

#[test]
fn test_flush_returns_ok() {
    let mut logger = Logger::new(None);
    assert!(logger.flush().is_ok());
}

#[test]
fn test_flush_with_transport() {
    let mut logger = Logger::new(None);
    logger.add_transport(LoggerTransport::new());

    logger.log(LogInfo::new("info", "Test"));
    assert!(logger.flush().is_ok());
    assert_eq!(deliveries(&logger.take_actions()).len(), 1);
}

#[test]
fn test_close_flushes_logs() {
    let mut logger = Logger::new(None);
    logger.add_transport(LoggerTransport::new());

    logger.log(LogInfo::new("info", "Test"));
    logger.close();

    assert_eq!(deliveries(&logger.take_actions()).len(), 1);
    assert!(logger.is_closed());
}

#[test]
fn test_close_is_idempotent() {
    let mut logger = Logger::new(None);
    logger.add_transport(LoggerTransport::new());
    logger.log(LogInfo::new("info", "Once"));
    logger.close();
    logger.close();
    logger.close();
    assert_eq!(deliveries(&logger.take_actions()).len(), 1);
    assert!(logger.is_closed());
}

#[test]
fn test_close_then_log() {
    let mut logger = Logger::new(None);
    logger.add_transport(LoggerTransport::new());
    logger.close();
    let _ = logger.take_actions();

    logger.log(LogInfo::new("info", "after close"));
    let actions = logger.take_actions();
    assert_eq!(deliveries(&actions).len(), 0);
    assert_eq!(diag_count(&actions, DiagKind::Disconnected), 1);
}

#[test]
fn test_buffering_without_transports() {
    let mut logger = Logger::new(None);
    logger.log(LogInfo::new("info", "Buffered message"));
    logger.flush().unwrap();
    assert_eq!(logger.buffer_len(), 1);
    let actions = logger.take_actions();
    assert_eq!(deliveries(&actions).len(), 0);
    assert_eq!(diag_count(&actions, DiagKind::NoTransports), 1);
}

#[test]
fn test_buffer_processed_when_transport_added() {
    let mut logger = Logger::new(None);

    logger.log(LogInfo::new("info", "buf1"));
    logger.log(LogInfo::new("info", "buf2"));
    logger.flush().unwrap();
    assert_eq!(logger.buffer_len(), 2);
    let _ = logger.take_actions();

    logger.add_transport(LoggerTransport::new());
    logger.log(LogInfo::new("info", "direct"));
    logger.flush().unwrap();

    let logs = deliveries(&logger.take_actions());
    assert_eq!(logs.len(), 3);
    assert_eq!(logs[0].1.message, "buf1");
    assert_eq!(logs[1].1.message, "buf2");
    assert_eq!(logs[2].1.message, "direct");
    assert_eq!(logger.buffer_len(), 0);
}

#[test]
fn test_compute_min_severity() {
    let options = LoggerOptions::new().level("warn");
    let min_sev = winston::logger::compute_min_severity(&options);
    assert_eq!(min_sev, Some(1));

    let options = LoggerOptions::new()
        .level("warn")
        .transport(LoggerTransport::new().with_level("trace"));
    assert_eq!(winston::logger::compute_min_severity(&options), Some(4));
}

#[test]
fn test_multiple_handles_different_transports() {
    let mut logger = Logger::new(None);
    let handle1 = logger.add_transport(LoggerTransport::new());
    let handle2 = logger.add_transport(LoggerTransport::new());

    logger.log(LogInfo::new("info", "Test"));
    logger.flush().unwrap();

    let logs = deliveries(&logger.take_actions());
    assert_eq!(logs.iter().filter(|(h, _)| *h == handle1).count(), 1);
    assert_eq!(logs.iter().filter(|(h, _)| *h == handle2).count(), 1);

    assert!(logger.remove_transport(handle1));

    logger.log(LogInfo::new("info", "Test2"));
    logger.flush().unwrap();

    let logs = deliveries(&logger.take_actions());
    assert_eq!(logs.iter().filter(|(h, _)| *h == handle1).count(), 0);
    assert_eq!(logs.iter().filter(|(h, _)| *h == handle2).count(), 1);

    assert!(logger.remove_transport(handle2));
}

#[test]
fn test_invalid_log_level() {
    let mut logger = Logger::new(None);
    logger.add_transport(LoggerTransport::new());

    logger.log(LogInfo::new("nonexistent", "dropped"));
    logger.log(LogInfo::new("info", "kept"));
    logger.flush().unwrap();

    let logs = deliveries(&logger.take_actions());
    assert_eq!(logs.len(), 1);
    assert_eq!(logs[0].1.message, "kept");
}

#[test]
fn test_flush_barrier_delivers_all() {
    let mut logger = Logger::new(Some(LoggerOptions::new().channel_capacity(1024)));
    logger.add_transport(LoggerTransport::new());

    for i in 0..100 {
        logger.log(LogInfo::new("info", &format!("message {}", i)));
    }
    let flushed = logger.flush();
    assert!(flushed.is_ok());

    let logs = deliveries(&logger.take_actions());
    assert_eq!(logs.len(), 100);
    for (i, (_, entry)) in logs.iter().enumerate() {
        assert_eq!(entry.message, format!("message {}", i));
    }
}

#[test]
fn test_is_level_enabled_uses_cache() {
    let logger = Logger::new(Some(LoggerOptions::new().level("warn")));
    assert!(logger.is_level_enabled("error"));
    assert!(logger.is_level_enabled("warn"));
    assert!(!logger.is_level_enabled("info"));
    assert!(!logger.is_level_enabled("nonexistent"));
}

#[test]
fn test_transport_override_widens_cache() {
    let mut logger = Logger::new(Some(LoggerOptions::new().level("warn")));
    assert_eq!(logger.min_required_severity(), Some(1));
    logger.add_transport(LoggerTransport::new().with_level("debug"));
    assert_eq!(logger.min_required_severity(), Some(3));
}

#[test]
fn test_level_methods() {
    let mut logger = Logger::new(Some(LoggerOptions::new().level("trace")));
    logger.add_transport(LoggerTransport::new());
    logger.error("e");
    logger.warn("w");
    logger.info("i");
    logger.debug("d");
    logger.trace("t");
    logger.flush().unwrap();
    let logs = deliveries(&logger.take_actions());
    let levels: Vec<&str> = logs.iter().map(|(_, e)| e.level.as_str()).collect();
    assert_eq!(levels, vec!["error", "warn", "info", "debug", "trace"]);
}

#[test]
fn test_format_selection() {
    let mut logger = Logger::new(Some(LoggerOptions::new().format(7)));
    logger.add_transport(LoggerTransport::new());
    logger.add_transport(LoggerTransport::new().with_format(9));

    logger.log(LogInfo::new("info", "x"));
    logger.flush().unwrap();

    let actions = logger.take_actions();
    let mut formats = Vec::new();
    for a in &actions {
        if let Action::Deliver { format, .. } = a {
            formats.push(*format);
        }
    }
    assert_eq!(formats, vec![Some(7), Some(9)]);
}
