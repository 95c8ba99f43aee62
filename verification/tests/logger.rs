use std::sync::Arc;

use insomnilog::level::LogLevel;
use insomnilog::logger::Logger;
use insomnilog::sink::NullSink;

fn stub(level: LogLevel) -> Arc<NullSink> {
    Arc::new(NullSink::new(level))
}

#[test]
fn name_round_trips_through_construction() {
    let logger = Logger::new("app".to_owned(), Vec::<Arc<NullSink>>::new(), LogLevel::Info);
    assert_eq!(logger.name(), "app");
}

#[test]
fn level_round_trips_each_variant() {
    for level in [
        LogLevel::Trace,
        LogLevel::Debug,
        LogLevel::Info,
        LogLevel::Warning,
        LogLevel::Error,
    ] {
        let logger = Logger::new("x".to_owned(), Vec::<Arc<NullSink>>::new(), level);
        assert_eq!(logger.level(), level);
    }
}

#[test]
fn set_level_updates_level() {
    let logger = Logger::new("x".to_owned(), Vec::<Arc<NullSink>>::new(), LogLevel::Info);
    assert_eq!(logger.level(), LogLevel::Info);
    logger.set_level(LogLevel::Error);
    assert_eq!(logger.level(), LogLevel::Error);
    logger.set_level(LogLevel::Trace);
    assert_eq!(logger.level(), LogLevel::Trace);
}

#[test]
fn sinks_round_trip_through_construction() {
    let a = stub(LogLevel::Info);
    let b = stub(LogLevel::Error);
    let logger = Logger::new("two".to_owned(), vec![Arc::clone(&a), Arc::clone(&b)], LogLevel::Info);
    let stored = logger.sinks();
    assert_eq!(stored.len(), 2);
    assert!(Arc::ptr_eq(&stored[0], &a));
    assert!(Arc::ptr_eq(&stored[1], &b));
}

#[test]
fn logger_pins_sinks_until_dropped() {
    let sink = stub(LogLevel::Info);
    let weak = Arc::downgrade(&sink);
    let logger = Logger::new("pin".to_owned(), vec![sink], LogLevel::Info);
    assert!(weak.upgrade().is_some(), "logger must hold a strong ref to its sinks while alive");
    drop(logger);
    assert!(weak.upgrade().is_none(), "dropping the logger must release its sinks");
}

#[test]
fn logger_is_send_and_sync() {
    // The registry hands loggers across threads, and the worker dispatches
    // from its own.
    fn assert_send_sync<T: Send + Sync>() {}
    assert_send_sync::<Logger<Arc<NullSink>>>();
}
