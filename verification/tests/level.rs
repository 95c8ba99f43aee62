use insomnilog::level::LogLevel;

const ALL: [LogLevel; 5] = [
    LogLevel::Trace,
    LogLevel::Debug,
    LogLevel::Info,
    LogLevel::Warning,
    LogLevel::Error,
];

#[test]
fn try_from_u8_roundtrip() {
    for level in ALL {
        assert_eq!(LogLevel::try_from(level.to_u8()), Ok(level));
    }
}

#[test]
fn try_from_u8_rejects_invalid_discriminants() {
    for bad in [0u8, 5, 15, 25, 35, 45, 51, 255] {
        assert_eq!(LogLevel::try_from(bad), Err(bad));
    }
}

#[test]
fn ordering_least_to_most_severe() {
    assert!(LogLevel::Trace < LogLevel::Debug);
    assert!(LogLevel::Debug < LogLevel::Info);
    assert!(LogLevel::Info < LogLevel::Warning);
    assert!(LogLevel::Warning < LogLevel::Error);
}

#[test]
fn display_labels() {
    assert_eq!(LogLevel::Trace.label(), "TRACE");
    assert_eq!(LogLevel::Debug.label(), "DEBUG");
    assert_eq!(LogLevel::Info.label(), "INFO");
    assert_eq!(LogLevel::Warning.label(), "WARNING");
    assert_eq!(LogLevel::Error.label(), "ERROR");
}

#[test]
fn wire_bytes_are_spaced_by_ten() {
    let bytes: Vec<u8> = ALL.iter().map(|l| l.to_u8()).collect();
    assert_eq!(bytes, vec![10, 20, 30, 40, 50]);
}

#[test]
fn at_least_follows_severity_order() {
    for (i, a) in ALL.iter().enumerate() {
        for (j, b) in ALL.iter().enumerate() {
            assert_eq!(a.at_least(*b), i >= j, "{a:?} vs {b:?}");
            assert_eq!(a.at_least(*b), a >= b);
        }
    }
}
