use tower_allowed_hosts::host::{collect_hosts, extract_from_host, extract_listed};
use tower_allowed_hosts::Error;

fn values<'a>(lines: &'a [&'a str]) -> Vec<&'a [u8]> {
    lines.iter().map(|l| l.as_bytes()).collect()
}

#[test]
fn hosts_are_split_trimmed_and_unquoted() {
    let hosts = collect_hosts(&values(&[" a.example , \"b.example\"", "c.example"])).unwrap();
    assert_eq!(hosts, vec!["a.example", "b.example", "c.example"]);
    assert_eq!(collect_hosts(&values(&[""])).unwrap(), vec![""]);
    assert_eq!(collect_hosts(&values(&["a,"])).unwrap(), vec!["a", ""]);
    assert!(collect_hosts(&[]).unwrap().is_empty());
}

#[test]
fn hosts_must_be_visible_ascii() {
    let bad: Vec<&[u8]> = vec![b"a.example", &[b'b', 0x80]];
    assert!(matches!(collect_hosts(&bad), Err(Error::InvalidHost)));
    let newline: Vec<&[u8]> = vec![b"a\nb"];
    assert!(matches!(collect_hosts(&newline), Err(Error::InvalidHost)));
    let tab: Vec<&[u8]> = vec![b"\ta.example\t"];
    assert_eq!(collect_hosts(&tab).unwrap(), vec!["a.example"]);
}

#[test]
fn host_header_is_required() {
    assert!(matches!(extract_from_host(&[], true), Err(Error::MissingHost)));
    assert!(matches!(extract_from_host(&[], false), Err(Error::MissingHost)));
    assert!(matches!(extract_listed(&[], true), Ok(None)));
}

#[test]
fn host_header_multiplicity() {
    assert_eq!(extract_from_host(&values(&["a.example"]), true).unwrap(), "a.example");
    assert!(matches!(
        extract_from_host(&values(&["a.example", "b.example"]), true),
        Err(Error::MultipleHostHeader)
    ));
    assert!(matches!(
        extract_from_host(&values(&["a.example,b.example"]), true),
        Err(Error::MultipleHostHeader)
    ));
    assert!(matches!(
        extract_from_host(&values(&["a.example", "a.example"]), true),
        Err(Error::MultipleHostHeader)
    ));
    assert_eq!(
        extract_from_host(&values(&["a.example", "b.example"]), false).unwrap(),
        "a.example"
    );
}

#[test]
fn host_header_is_not_validated_here() {
    assert_eq!(extract_from_host(&values(&["not a host"]), true).unwrap(), "not a host");
}
