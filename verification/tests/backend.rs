use std::sync::Arc;
use std::time::Duration;

use insomnilog::backend::{
    create_logger, get_logger, get_sink, register_sink, shutdown_report, BackendOptions, Registry,
};
use insomnilog::level::LogLevel;
use insomnilog::logger::Logger;
use insomnilog::sink::NullSink;

type SinkRef = Arc<NullSink>;

fn null_sink(level: LogLevel) -> SinkRef {
    Arc::new(NullSink::new(level))
}

#[test]
fn default_options_match_legacy_constants() {
    let opts = BackendOptions::default();
    assert_eq!(opts.thread_name, "insomnilog-backend");
    assert_eq!(opts.queue_capacity, 128 * 1024);
    assert_eq!(opts.idle_yield_rounds, 32);
    assert_eq!(opts.idle_sleep, Duration::from_micros(100));
    assert!(opts.wait_for_queues_to_empty_before_exit);
}

#[test]
fn custom_options_keep_the_rest_default() {
    let opts = BackendOptions {
        thread_name: "custom-backend".into(),
        idle_sleep: Duration::from_millis(1),
        ..BackendOptions::default()
    };
    assert_eq!(opts.thread_name, "custom-backend");
    assert_eq!(opts.queue_capacity, 128 * 1024);
    assert_eq!(opts.idle_sleep, Duration::from_millis(1));
}

#[test]
fn sink_registry_is_initially_empty() {
    let sinks: Registry<SinkRef> = Registry::new();
    assert!(get_sink(&sinks, "anything").is_none());
    assert_eq!(sinks.len(), 0);
}

#[test]
fn register_sink_succeeds_on_first_call() {
    let mut sinks: Registry<SinkRef> = Registry::new();
    assert!(register_sink(&mut sinks, "console", null_sink(LogLevel::Info)).is_ok());
    assert_eq!(get_sink(&sinks, "console").expect("must be retrievable").level(), LogLevel::Info);
}

#[test]
fn register_sink_returns_error_on_duplicate_name() {
    let mut sinks: Registry<SinkRef> = Registry::new();
    let first = null_sink(LogLevel::Info);
    assert!(register_sink(&mut sinks, "console", Arc::clone(&first)).is_ok());
    let err = match register_sink(&mut sinks, "console", null_sink(LogLevel::Error)) {
        Ok(()) => panic!("second registration under same name must fail"),
        Err(e) => e,
    };
    assert!(Arc::ptr_eq(&first, &err.existing), "error must carry the originally registered Arc");
    assert_eq!(err.existing.level(), LogLevel::Info, "existing sink must be unchanged");
    assert_eq!(sinks.len(), 1);
}

#[test]
fn get_sink_returns_registered_sink() {
    let mut sinks: Registry<SinkRef> = Registry::new();
    let sink = null_sink(LogLevel::Warning);
    assert!(register_sink(&mut sinks, "console", Arc::clone(&sink)).is_ok());
    let fetched = get_sink(&sinks, "console").expect("registered sink must be retrievable");
    assert!(Arc::ptr_eq(&sink, &fetched));
}

#[test]
fn distinct_names_produce_distinct_sinks() {
    let mut sinks: Registry<SinkRef> = Registry::new();
    let a = null_sink(LogLevel::Info);
    let b = null_sink(LogLevel::Error);
    assert!(register_sink(&mut sinks, "a", Arc::clone(&a)).is_ok());
    assert!(register_sink(&mut sinks, "b", Arc::clone(&b)).is_ok());
    let fa = get_sink(&sinks, "a").unwrap();
    let fb = get_sink(&sinks, "b").unwrap();
    assert!(Arc::ptr_eq(&a, &fa));
    assert!(Arc::ptr_eq(&b, &fb));
    assert_eq!(fa.level(), LogLevel::Info);
    assert_eq!(fb.level(), LogLevel::Error);
}

#[test]
fn registry_pins_sink_when_caller_drops_arc() {
    let mut sinks: Registry<SinkRef> = Registry::new();
    let initial = null_sink(LogLevel::Debug);
    assert!(register_sink(&mut sinks, "pinned", Arc::clone(&initial)).is_ok());
    assert!(Arc::strong_count(&initial) >= 2, "registry + caller must each hold a strong Arc");
    drop(initial);
    let after_drop = get_sink(&sinks, "pinned").expect("registry must still hold the sink");
    assert_eq!(after_drop.level(), LogLevel::Debug);
}

#[test]
fn logger_registry_is_initially_empty() {
    let loggers: Registry<Arc<Logger<SinkRef>>> = Registry::new();
    assert!(get_logger(&loggers, "anything").is_none());
}

#[test]
fn create_logger_registers_on_first_call() {
    let mut loggers: Registry<Arc<Logger<SinkRef>>> = Registry::new();
    let logger = match create_logger(&mut loggers, "app", vec![null_sink(LogLevel::Info)], LogLevel::Warning) {
        Ok(l) => l,
        Err(_) => panic!("first registration must succeed"),
    };
    assert_eq!(logger.name(), "app");
    assert_eq!(logger.level(), LogLevel::Warning);
    assert_eq!(logger.sinks().len(), 1);
}

#[test]
fn create_logger_returns_error_on_collision() {
    let mut loggers: Registry<Arc<Logger<SinkRef>>> = Registry::new();
    let first = match create_logger(&mut loggers, "app", vec![null_sink(LogLevel::Info)], LogLevel::Info) {
        Ok(l) => l,
        Err(_) => panic!("first registration must succeed"),
    };
    let second_sink = null_sink(LogLevel::Error);
    let weak = Arc::downgrade(&second_sink);
    let err = match create_logger(&mut loggers, "app", vec![Arc::clone(&second_sink)], LogLevel::Error) {
        Ok(_) => panic!("duplicate name must fail"),
        Err(e) => e,
    };
    drop(second_sink);
    assert!(Arc::ptr_eq(&first, &err.existing), "error must carry the originally registered Arc");
    assert_eq!(err.existing.level(), LogLevel::Info, "existing logger must be unchanged");
    assert_eq!(err.existing.sinks().len(), 1, "existing sink list must be unchanged");
    assert!(weak.upgrade().is_none(), "rejected second-call sink must not be retained anywhere");
}

#[test]
fn get_logger_returns_registered_logger() {
    let mut loggers: Registry<Arc<Logger<SinkRef>>> = Registry::new();
    let registered = match create_logger(&mut loggers, "app", Vec::new(), LogLevel::Warning) {
        Ok(l) => l,
        Err(_) => panic!("first registration must succeed"),
    };
    let fetched = get_logger(&loggers, "app").expect("registered logger must be retrievable");
    assert!(Arc::ptr_eq(&registered, &fetched));
    assert_eq!(fetched.level(), LogLevel::Warning);
}

#[test]
fn distinct_names_produce_distinct_loggers() {
    let mut loggers: Registry<Arc<Logger<SinkRef>>> = Registry::new();
    let a = create_logger(&mut loggers, "a", Vec::new(), LogLevel::Info).ok().unwrap();
    let b = create_logger(&mut loggers, "b", Vec::new(), LogLevel::Error).ok().unwrap();
    assert!(!Arc::ptr_eq(&a, &b));
    assert_eq!(a.name(), "a");
    assert_eq!(b.name(), "b");
    assert_eq!(a.level(), LogLevel::Info);
    assert_eq!(b.level(), LogLevel::Error);
}

#[test]
fn registry_pins_logger_when_caller_drops_arc() {
    let mut loggers: Registry<Arc<Logger<SinkRef>>> = Registry::new();
    let initial = create_logger(&mut loggers, "pinned", Vec::new(), LogLevel::Debug).ok().unwrap();
    assert!(Arc::strong_count(&initial) >= 2, "registry + caller must each hold a strong Arc");
    drop(initial);
    let after_drop = get_logger(&loggers, "pinned").expect("registry must still hold the logger");
    assert_eq!(after_drop.level(), LogLevel::Debug);
}

#[test]
fn registry_register_hands_back_the_rejected_value() {
    let mut reg: Registry<u32> = Registry::new();
    assert_eq!(reg.register("x", 1), Ok(()));
    assert_eq!(reg.register("x", 2), Err(2));
    assert_eq!(reg.register("y", 3), Ok(()));
    assert_eq!(reg.get("x"), Some(&1));
    assert_eq!(reg.get("y"), Some(&3));
    assert_eq!(reg.get("z"), None);
    assert_eq!(reg.len(), 2);
}

#[test]
fn shutdown_report_is_silent_without_errors() {
    assert!(shutdown_report(0, 0, 0, 0).is_empty());
}

#[test]
fn shutdown_report_lists_errors_and_drops() {
    assert_eq!(
        shutdown_report(3, 0, 1, 0),
        vec!["insomnilog: sink errors at shutdown — write_record: 3, flush: 0, panics: 1".to_owned()]
    );
    assert_eq!(
        shutdown_report(0, 2, 0, 17),
        vec![
            "insomnilog: sink errors at shutdown — write_record: 0, flush: 2, panics: 0".to_owned(),
            "insomnilog: 17 log record(s) dropped at shutdown (queue full or oversized)".to_owned(),
        ]
    );
}

#[test]
fn first_registration_under_a_name_wins_every_later_one_is_refused() {
    let mut registry: Registry<u32> = Registry::new();
    let outcomes: Vec<bool> = [("x", 1), ("y", 2), ("x", 3), ("x", 4), ("y", 5)]
        .iter()
        .map(|(name, v)| registry.register(name, *v).is_ok())
        .collect();
    assert_eq!(outcomes, vec![true, true, false, false, false]);
    assert_eq!(registry.get("x"), Some(&1));
    assert_eq!(registry.get("y"), Some(&2));
    assert_eq!(registry.len(), 2);
}
