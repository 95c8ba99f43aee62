use insomnilog::level::LogLevel;
use insomnilog::metadata::LogMetadata;

const FIXTURE: LogMetadata = LogMetadata {
    level: LogLevel::Info,
    fmt_str: "user {} logged in",
    file: "src/main.rs",
    line: 42,
    module: "my_crate::auth",
    arg_count: 1,
};

#[test]
fn fields_are_accessible() {
    assert_eq!(FIXTURE.level, LogLevel::Info);
    assert_eq!(FIXTURE.fmt_str, "user {} logged in");
    assert_eq!(FIXTURE.file, "src/main.rs");
    assert_eq!(FIXTURE.line, 42);
    assert_eq!(FIXTURE.module, "my_crate::auth");
    assert_eq!(FIXTURE.arg_count, 1);
}

#[test]
fn static_metadata_is_valid() {
    static META: LogMetadata = LogMetadata {
        level: LogLevel::Error,
        fmt_str: "fatal: {}",
        file: "tests/metadata.rs",
        line: 28,
        module: "metadata",
        arg_count: 1,
    };
    assert_eq!(META.level, LogLevel::Error);
    assert_eq!(META.arg_count, 1);
}

#[test]
fn is_sync() {
    fn assert_sync<T: Sync>() {}
    assert_sync::<LogMetadata>();
}
