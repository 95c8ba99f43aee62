use insomnilog::decode::{render_args, DecodedArg, LogRecord};
use insomnilog::formatter::{InvalidPatternError, PatternFormatter};
use insomnilog::level::LogLevel;
use insomnilog::metadata::LogMetadata;

static META_INFO: LogMetadata = LogMetadata {
    level: LogLevel::Info,
    fmt_str: "msg",
    file: "f.rs",
    line: 1,
    module: "m",
    arg_count: 0,
};

static META_WARN: LogMetadata = LogMetadata {
    level: LogLevel::Warning,
    fmt_str: "msg",
    file: "f.rs",
    line: 1,
    module: "m",
    arg_count: 0,
};

static FMT_TWO: LogMetadata = LogMetadata {
    level: LogLevel::Info,
    fmt_str: "hello {} world {}",
    file: "test.rs",
    line: 42,
    module: "test",
    arg_count: 2,
};

static FMT_NONE: LogMetadata = LogMetadata {
    level: LogLevel::Warning,
    fmt_str: "simple message",
    file: "lib.rs",
    line: 1,
    module: "test",
    arg_count: 0,
};

static FMT_ONE: LogMetadata = LogMetadata {
    level: LogLevel::Info,
    fmt_str: "x={}",
    file: "f.rs",
    line: 0,
    module: "test",
    arg_count: 1,
};

static FMT_LITERAL_BRACE: LogMetadata = LogMetadata {
    level: LogLevel::Info,
    fmt_str: "open {brace x={}",
    file: "f.rs",
    line: 0,
    module: "test",
    arg_count: 1,
};

static FMT_THREE_PLACEHOLDERS: LogMetadata = LogMetadata {
    level: LogLevel::Info,
    fmt_str: "{} {} {}",
    file: "f.rs",
    line: 0,
    module: "test",
    arg_count: 3,
};

fn record(meta: &'static LogMetadata, ts_ns: u64, args: Vec<DecodedArg>) -> LogRecord {
    LogRecord { timestamp_ns: ts_ns, logger_name: "test".to_owned(), metadata: meta, args }
}

fn bare(meta: &'static LogMetadata) -> LogRecord {
    record(meta, 0, vec![])
}

fn with_ts(meta: &'static LogMetadata, ts_ns: u64) -> LogRecord {
    record(meta, ts_ns, vec![])
}

fn float_text(a: &DecodedArg) -> String {
    match a {
        DecodedArg::F32(bits) => f32::from_bits(*bits).to_string(),
        DecodedArg::F64(bits) => f64::from_bits(*bits).to_string(),
        _ => String::new(),
    }
}

fn format_into(f: &PatternFormatter, r: &LogRecord, out: &mut String) {
    let texts = render_args(&r.args, &float_text);
    f.format(r, &texts, out);
}

fn fmt(pattern: &str, r: &LogRecord) -> String {
    let f = PatternFormatter::new(pattern).expect("valid pattern");
    let mut out = String::new();
    format_into(&f, r, &mut out);
    out
}

fn default_fmt(r: &LogRecord) -> String {
    let mut out = String::new();
    format_into(&PatternFormatter::default(), r, &mut out);
    out
}

#[test]
fn spec_empty_is_valid() {
    PatternFormatter::new("{level:}").unwrap();
}

#[test]
fn spec_just_width_is_valid() {
    PatternFormatter::new("{level:10}").unwrap();
}

#[test]
fn spec_left_align_is_valid() {
    PatternFormatter::new("{level:<10}").unwrap();
}

#[test]
fn spec_right_align_is_valid() {
    PatternFormatter::new("{level:>10}").unwrap();
}

#[test]
fn spec_center_align_is_valid() {
    PatternFormatter::new("{level:^10}").unwrap();
}

#[test]
fn spec_fill_and_align_is_valid() {
    PatternFormatter::new("{level:*>10}").unwrap();
}

#[test]
fn spec_zero_pad_is_valid() {
    PatternFormatter::new("{millis:03}").unwrap();
}

#[test]
fn spec_zero_pad_no_width_is_valid() {
    PatternFormatter::new("{millis:0}").unwrap();
}

#[test]
fn spec_invalid_non_numeric_width() {
    assert!(matches!(
        PatternFormatter::new("{level:abc}"),
        Err(InvalidPatternError::InvalidFormatSpec(_)),
    ));
}

#[test]
fn spec_invalid_align_then_non_numeric_width() {
    assert!(matches!(
        PatternFormatter::new("{level:>abc}"),
        Err(InvalidPatternError::InvalidFormatSpec(_)),
    ));
}

#[test]
fn spec_invalid_lone_fill_without_align() {
    assert!(matches!(
        PatternFormatter::new("{level:*}"),
        Err(InvalidPatternError::InvalidFormatSpec(_)),
    ));
}

#[test]
fn spec_right_align_pads_left_with_spaces() {
    assert_eq!(fmt("{level:>8}", &bare(&META_INFO)), "    INFO");
}

#[test]
fn spec_left_align_pads_right_with_spaces() {
    assert_eq!(fmt("{level:<8}", &bare(&META_INFO)), "INFO    ");
}

#[test]
fn spec_center_align_even_padding() {
    assert_eq!(fmt("{level:^8}", &bare(&META_INFO)), "  INFO  ");
}

#[test]
fn spec_center_align_odd_padding_goes_right() {
    assert_eq!(fmt("{level:^9}", &bare(&META_INFO)), "  INFO   ");
}

#[test]
fn spec_custom_fill_char() {
    assert_eq!(fmt("{level:*>8}", &bare(&META_INFO)), "****INFO");
}

#[test]
fn spec_custom_fill_left() {
    assert_eq!(fmt("{level:.<8}", &bare(&META_INFO)), "INFO....");
}

#[test]
fn spec_custom_fill_middle() {
    assert_eq!(fmt("{level:.^12}", &bare(&META_INFO)), "....INFO....");
}

#[test]
fn spec_zero_pad_pads_left_with_zeros() {
    assert_eq!(fmt("{millis:03}", &with_ts(&META_INFO, 7_000_000)), "007");
}

#[test]
fn spec_zero_pad_wider_value_not_truncated() {
    assert_eq!(fmt("{millis:03}", &with_ts(&META_INFO, 1_234_000_000)), "234");
}

#[test]
fn spec_value_wider_than_width_is_not_truncated() {
    assert_eq!(fmt("{level:>2}", &bare(&META_INFO)), "INFO");
}

#[test]
fn spec_numeric_field_defaults_to_right_align() {
    assert_eq!(fmt("{line:5}", &bare(&META_INFO)), "    1");
}

#[test]
fn spec_string_field_defaults_to_left_align() {
    assert_eq!(fmt("{level:8}", &bare(&META_INFO)), "INFO    ");
}

#[test]
fn spec_empty_is_no_op() {
    assert_eq!(fmt("{level:}", &bare(&META_INFO)), "INFO");
}

#[test]
fn new_rejects_unknown_field() {
    assert!(matches!(
        PatternFormatter::new("{typo}"),
        Err(InvalidPatternError::UnknownField(ref s)) if s == "typo"
    ));
}

#[test]
fn new_rejects_unclosed_brace() {
    assert!(matches!(
        PatternFormatter::new("hello {level"),
        Err(InvalidPatternError::UnclosedBrace),
    ));
}

#[test]
fn new_rejects_empty_field_name() {
    assert!(matches!(
        PatternFormatter::new("{}"),
        Err(InvalidPatternError::UnknownField(ref s)) if s.is_empty()
    ));
}

#[test]
fn default_pattern_is_valid() {
    assert!(PatternFormatter::new(PatternFormatter::DEFAULT_PATTERN).is_ok());
}

#[test]
fn pattern_format_basic_with_args() {
    let r = record(
        &FMT_TWO,
        1_700_000_000_123_000_000,
        vec![DecodedArg::Str("alice".to_owned()), DecodedArg::U64(99)],
    );
    assert_eq!(default_fmt(&r), "[INFO 1700000000.123] test.rs:42 hello alice world 99");
}

#[test]
fn pattern_format_no_args() {
    let r = bare(&FMT_NONE);
    assert_eq!(default_fmt(&r), "[WARNING 0.000] lib.rs:1 simple message");
}

#[test]
fn pattern_format_pads_millis_to_three_digits() {
    let out = default_fmt(&with_ts(&FMT_NONE, 5_007_000_000));
    assert!(out.contains("5.007"), "out={out:?}");
}

#[test]
fn pattern_format_renders_seconds_and_millis_from_full_timestamp() {
    let out = default_fmt(&with_ts(&FMT_NONE, 1_700_000_000_456_000_000));
    assert!(out.contains("1700000000.456"), "out={out:?}");
}

#[test]
fn pattern_format_extra_placeholders_left_as_is() {
    let out = default_fmt(&record(&FMT_THREE_PLACEHOLDERS, 0, vec![DecodedArg::U32(7)]));
    assert!(out.ends_with("7 {} {}"), "out={out:?}");
}

#[test]
fn pattern_format_extra_args_ignored() {
    let out = default_fmt(&record(
        &FMT_ONE,
        0,
        vec![
            DecodedArg::U32(7),
            DecodedArg::Str("ignored".to_owned()),
            DecodedArg::Bool(true),
        ],
    ));
    assert!(out.ends_with("x=7"), "out={out:?}");
    assert!(!out.contains("ignored"), "out={out:?}");
}

#[test]
fn pattern_format_brace_without_close_is_literal() {
    let out = default_fmt(&record(&FMT_LITERAL_BRACE, 0, vec![DecodedArg::U32(3)]));
    assert!(out.contains("open {brace x=3"), "out={out:?}");
}

#[test]
fn pattern_format_appends_to_existing_buffer() {
    let r = bare(&FMT_NONE);
    let mut out = String::from("PREFIX|");
    format_into(&PatternFormatter::default(), &r, &mut out);
    assert!(out.starts_with("PREFIX|"), "out={out:?}");
    assert!(out.contains("simple message"), "out={out:?}");
}

#[test]
fn pattern_format_renders_various_arg_types() {
    static META: LogMetadata = LogMetadata {
        level: LogLevel::Debug,
        fmt_str: "i={} u={} f={} b={} s={} c={}",
        file: "f.rs",
        line: 0,
        module: "test",
        arg_count: 6,
    };
    let out = default_fmt(&record(
        &META,
        0,
        vec![
            DecodedArg::I64(-42),
            DecodedArg::U32(7),
            DecodedArg::F64(1.5f64.to_bits()),
            DecodedArg::Bool(true),
            DecodedArg::Str("hi".to_owned()),
            DecodedArg::Custom("rgb(1, 2, 3)".to_owned()),
        ],
    ));
    assert!(out.contains("i=-42 u=7 f=1.5 b=true s=hi c=rgb(1, 2, 3)"), "out={out:?}");
}

#[test]
fn pattern_format_custom_pattern_all_fields() {
    let f = PatternFormatter::new("{level}|{secs}|{millis}|{file}|{line}|{module}|{message}")
        .unwrap();
    let r = record(&FMT_ONE, 2_001_000_000, vec![DecodedArg::U32(42)]);
    let mut out = String::new();
    format_into(&f, &r, &mut out);
    assert_eq!(out, "INFO|2|1|f.rs|0|test|x=42");
}

#[test]
fn pattern_format_custom_pattern_literal_text() {
    let f = PatternFormatter::new("level={level} msg={message}").unwrap();
    let mut out = String::new();
    format_into(&f, &bare(&FMT_NONE), &mut out);
    assert_eq!(out, "level=WARNING msg=simple message");
}

#[test]
fn pattern_format_warning_level() {
    assert_eq!(fmt("{level}", &bare(&META_WARN)), "WARNING");
}

#[test]
fn logger_field_renders_logger_name() {
    let mut r = bare(&META_INFO);
    r.logger_name = "payments".to_owned();
    assert_eq!(fmt("{logger:->12}|{logger}", &r), "----payments|payments");
}

#[test]
fn new_rejects_width_beyond_usize() {
    assert!(matches!(
        PatternFormatter::new("{level:99999999999999999999999}"),
        Err(InvalidPatternError::InvalidFormatSpec(ref s)) if s == "99999999999999999999999"
    ));
}

#[test]
fn new_accepts_plus_sign_before_width() {
    assert_eq!(fmt("{line:+4}", &bare(&META_INFO)), "   1");
}

#[test]
fn zero_pad_overrides_fill_and_alignment() {
    assert_eq!(fmt("{level:*<08}", &bare(&META_INFO)), "0000INFO");
}

#[test]
fn first_fault_from_the_left_is_reported() {
    assert!(matches!(
        PatternFormatter::new("{bogus:abc} {level"),
        Err(InvalidPatternError::UnknownField(ref s)) if s == "bogus"
    ));
    assert!(matches!(
        PatternFormatter::new("{level:abc} {bogus}"),
        Err(InvalidPatternError::InvalidFormatSpec(ref s)) if s == "abc"
    ));
}

#[test]
fn unclosed_brace_swallows_later_placeholders() {
    assert!(matches!(
        PatternFormatter::new("a {level b"),
        Err(InvalidPatternError::UnclosedBrace)
    ));
}

#[test]
fn message_with_braces_and_no_args() {
    let r = bare(&FMT_THREE_PLACEHOLDERS);
    assert_eq!(fmt("{message}", &r), "{} {} {}");
}

#[test]
fn pattern_formatter_is_send_and_sync() {
    fn assert_send_sync<T: Send + Sync>() {}
    assert_send_sync::<PatternFormatter>();
}
