use filter_pipeline::log_level::LogLevel;

#[test]
fn log_level_is_written_like_its_variant() {
    assert_eq!(LogLevel::Debug.to_string(), "Debug");
    assert_eq!(LogLevel::Info.to_string(), "Info");
    assert_eq!(LogLevel::Warn.to_string(), "Warn");
    assert_eq!(LogLevel::Error.to_string(), "Error");
}

#[test]
fn log_levels_are_ordered_by_severity() {
    assert!(LogLevel::Debug < LogLevel::Info);
    assert!(LogLevel::Info < LogLevel::Warn);
    assert!(LogLevel::Warn < LogLevel::Error);
    assert_eq!(LogLevel::Warn, LogLevel::Warn);
}
