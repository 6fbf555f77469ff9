use dqcsim::log::{LogRecord, Loglevel, LoglevelFilter};

#[test]
fn log_record_debug_getters() {
    let record = LogRecord::new("", "", Loglevel::Debug, "path", "file", 1234u32, 1u32, 1u64);
    assert_eq!(record.source_module(), Some("path"));
    assert_eq!(record.file(), Some("file"));
    assert_eq!(record.line(), Some(1234u32));
}

#[test]
fn display_record() {
    let record = LogRecord::new(
        "logger",
        "message",
        Loglevel::Trace,
        "path",
        "file",
        1234u32,
        1u32,
        1u64,
    );
    assert_eq!(
        &record.to_string().unwrap().as_str()[24..],
        "  Trace     1:1  logger                  message"
    );
}

#[test]
fn record_line_layout() {
    let record = LogRecord::new("front", "hello", Loglevel::Warn, "m", "f.rs", 3, 12345, 678);
    assert_eq!(
        record.format_line("2020-01-01T00:00:00Z", 1234567),
        "2020-01-01T00:00:00Z+1234567ms Warn 12345:678 front                  hello"
    );
    assert_eq!(
        record.format_line("T", 7),
        "T+7ms   Warn 12345:678 front                  hello"
    );
}

#[test]
fn record_getters_and_copies() {
    let record = LogRecord::new("lg", "pl", Loglevel::Note, "m", "f", 9, 2, 3);
    let copy = record.clone();
    assert_eq!(copy.payload(), "pl");
    assert_eq!(copy.logger(), "lg");
    assert_eq!(copy.level(), Loglevel::Note);
    assert_eq!(copy.process(), 2);
    assert_eq!(copy.thread(), 3);
    assert_eq!(copy.timestamp(), record.timestamp());
    assert_eq!(Loglevel::Fatal.name(), "Fatal");
    let line = record.to_string().unwrap();
    assert!(line.ends_with(" Note     2:3  lg                      pl"));
    assert_eq!(line.as_bytes()[10], b'T');
    assert_eq!(line.as_bytes()[19], b'Z');
}

#[test]
fn stderr_line_layout() {
    let record = LogRecord::new("front", "hello", Loglevel::Info, "m", "f.rs", 3, 12345, 678);
    assert_eq!(record.stderr_line("T", 5, LoglevelFilter::Warn), None);
    assert_eq!(
        record.stderr_line("T", 5, LoglevelFilter::Info).unwrap(),
        "T  Info front                     hello\n"
    );
    assert_eq!(
        record.stderr_line("T", 5, LoglevelFilter::Debug).unwrap(),
        "T +5ms   Info front                     hello\n"
    );
    assert_eq!(
        record.stderr_line("T", 5, LoglevelFilter::Trace).unwrap(),
        "T +5ms   Info 12345:678 front                  hello\n"
    );
}
