use insomnilog::decode::LogRecord;
use insomnilog::level::LogLevel;
use insomnilog::metadata::LogMetadata;
use insomnilog::sink::{sink_accepts, NullSink};

static META: LogMetadata = LogMetadata {
    level: LogLevel::Info,
    fmt_str: "x={}",
    file: "f.rs",
    line: 1,
    module: "test",
    arg_count: 1,
};

#[test]
fn log_record_logger_name_is_accessible_from_sink() {
    let record = LogRecord {
        timestamp_ns: 0,
        logger_name: "payments".to_owned(),
        metadata: &META,
        args: vec![],
    };
    assert_eq!(record.logger_name, "payments");
}

#[test]
fn null_sink_level_round_trips_each_variant() {
    for level in [
        LogLevel::Trace,
        LogLevel::Debug,
        LogLevel::Info,
        LogLevel::Warning,
        LogLevel::Error,
    ] {
        assert_eq!(NullSink::new(level).level(), level);
    }
}

#[test]
fn sink_level_filter_skips_records_below_sink_threshold() {
    assert!(sink_accepts(LogLevel::Info, LogLevel::Info));
    assert!(sink_accepts(LogLevel::Info, LogLevel::Error));
    assert!(!sink_accepts(LogLevel::Info, LogLevel::Debug));
    assert!(sink_accepts(LogLevel::Trace, LogLevel::Trace));
    assert!(!sink_accepts(LogLevel::Error, LogLevel::Warning));
}
