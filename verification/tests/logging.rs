use sssd_oidc::logging::{
    parse_level, priority, Level, LevelFilter, MessageVisitor, FACILITY_AUTHPRIV, FACILITY_DAEMON,
};

#[test]
fn levels_are_parsed_in_any_case() {
    assert_eq!(parse_level(Some("error")), LevelFilter::Error);
    assert_eq!(parse_level(Some("WARN")), LevelFilter::Warn);
    assert_eq!(parse_level(Some("Info")), LevelFilter::Info);
    assert_eq!(parse_level(Some("DEBUG")), LevelFilter::Debug);
    assert_eq!(parse_level(Some("trace")), LevelFilter::Trace);
    assert_eq!(parse_level(Some("oFF")), LevelFilter::Off);
    assert_eq!(parse_level(Some("verbose")), LevelFilter::Warn);
    assert_eq!(parse_level(Some("")), LevelFilter::Warn);
    assert_eq!(parse_level(None), LevelFilter::Warn);
}

#[test]
fn priorities_and_facilities_are_those_of_syslog() {
    assert_eq!(priority(Level::Error), libc::LOG_ERR);
    assert_eq!(priority(Level::Warn), libc::LOG_WARNING);
    assert_eq!(priority(Level::Info), libc::LOG_INFO);
    assert_eq!(priority(Level::Debug), libc::LOG_DEBUG);
    assert_eq!(priority(Level::Trace), libc::LOG_DEBUG);
    assert_eq!(FACILITY_AUTHPRIV, libc::LOG_AUTHPRIV);
    assert_eq!(FACILITY_DAEMON, libc::LOG_DAEMON);
}

#[test]
fn events_are_written_with_module_message_and_fields() {
    let mut visitor = MessageVisitor::new();
    assert_eq!(visitor.format(Some("a::b")), "[a::b] (event)");
    visitor.record("uid", "7");
    assert_eq!(visitor.format(Some("a::b")), "[a::b] uid=7");
    visitor.record("name", "alice");
    visitor.record("message", "found");
    assert_eq!(visitor.format(None), "[sssd_oidc] found uid=7 name=alice");
    let mut plain = MessageVisitor::new();
    plain.record("message", "hello");
    assert_eq!(plain.format(Some("m")), "[m] hello");
}
