use bulletin_board::error::{ArchiveError, BulletinError};
use bulletin_board::logging;
use bulletin_board::options::is_tcp_address;
use bulletin_board::text::{decimal_text, join2};

#[test]
fn decimal_text_writes_numbers() {
    assert_eq!(decimal_text(0), "0");
    assert_eq!(decimal_text(7), "7");
    assert_eq!(decimal_text(1234), "1234");
    assert_eq!(decimal_text(u64::MAX), "18446744073709551615");
    assert_eq!(join2("ab", "cd"), "abcd");
}

#[test]
fn log_lines_follow_the_level() {
    assert_eq!(logging::error(1, "boom"), Some("[ERROR] boom".to_string()));
    assert_eq!(logging::error(0, "boom"), None);
    assert_eq!(logging::warn(2, "w"), Some("[WARN] w".to_string()));
    assert_eq!(logging::warn(1, "w"), None);
    assert_eq!(logging::notice(3, "n"), Some("[NOTICE] n".to_string()));
    assert_eq!(logging::notice(2, "n"), None);
    assert_eq!(logging::info(4, "i"), Some("[INFO] i".to_string()));
    assert_eq!(logging::info(3, "i"), None);
    assert_eq!(logging::debug(5, "d"), Some("[DEBUG] d".to_string()));
    assert_eq!(logging::debug(4, "d"), None);
}

#[test]
fn error_texts() {
    let e = BulletinError::new("read", "Not found.".to_string(), "x".to_string(), "t".to_string(), Some(3));
    assert_eq!(e.describe(), "message: \"Not found.\", operation: read, title: x, tag: t, revision: 3.");
    let e = BulletinError::new("read", "Not found.".to_string(), "x".to_string(), "NA".to_string(), None);
    assert_eq!(e.describe(), "message: \"Not found.\", operation: read, title: x, tag: NA.");
    let a = ArchiveError::new("load", "Wrong archive name.".to_string(), "".to_string());
    assert_eq!(a.describe(), "message: \"Wrong archive name.\", operation: load, archive: .");
}

#[test]
fn tcp_addresses_end_in_a_port() {
    assert!(is_tcp_address("127.0.0.1:7578"));
    assert!(is_tcp_address("localhost:80"));
    assert!(!is_tcp_address("/tmp/bb.sock"));
    assert!(!is_tcp_address("host:port"));
    assert!(!is_tcp_address("host:"));
}
