use tower_allowed_hosts::authority::{is_valid_authority, normalize};
use tower_allowed_hosts::Error;

fn valid(s: &str) -> bool {
    let chars: Vec<char> = s.chars().collect();
    is_valid_authority(&chars)
}

#[test]
fn names_and_addresses_are_authorities() {
    for s in [
        "example.com",
        "EXAMPLE.com",
        "localhost",
        "127.0.0.1",
        "a",
        "a-b_c~d.e",
        "example.com:80",
        "example.com:",
        "example.com:65535000",
        "[::1]",
        "[2001:db8::1]:8443",
        "[::ffff:192.0.2.1]",
        "ex%41mple.com",
        "a!$&'()*+,;=b",
    ] {
        assert!(valid(s), "{s}");
    }
}

#[test]
fn other_texts_are_no_authorities() {
    for s in [
        "",
        ":80",
        "http://example.com",
        "//example.com",
        "example.com/",
        "example.com/path",
        "example.com?x",
        "example.com#x",
        "user@example.com",
        "example.com:80:90",
        "example.com:8o",
        "exam ple.com",
        "example.com ",
        "\"example.com\"",
        "ex%4",
        "ex%zzample",
        "%",
        "[::1",
        "[]",
        "[::1]x",
        "[::g]",
        "::1",
        "exämple.com",
        "a\tb",
        "[::1]:80:90",
    ] {
        assert!(!valid(s), "{s}");
    }
}

#[test]
fn normalize_lowercases_valid_authorities() {
    assert_eq!(normalize("Example.COM:8080").unwrap(), "example.com:8080");
    assert_eq!(normalize("[2001:DB8::A]").unwrap(), "[2001:db8::a]");
    assert_eq!(normalize("ex%4Fmple").unwrap(), "ex%4fmple");
    assert!(matches!(normalize("user@example.com"), Err(Error::InvalidHost)));
    assert!(matches!(normalize(""), Err(Error::InvalidHost)));
}

#[test]
fn normalize_is_a_no_op_on_normal_authorities() {
    for s in ["example.com", "127.0.0.1:8080", "[::1]:443", "a-b.example"] {
        assert_eq!(normalize(s).unwrap(), s);
    }
}

#[test]
fn normalize_twice_is_normalize_once() {
    for s in ["Example.COM", "LOCALHOST:80", "[FE80::1]"] {
        let once = normalize(s).unwrap();
        let twice = normalize(&once).unwrap();
        assert_eq!(once, twice);
    }
}
