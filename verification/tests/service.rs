use regex::Regex;
use tower_allowed_hosts::matcher::Any;
use tower_allowed_hosts::pattern::Wildcard;
use tower_allowed_hosts::request::{HttpVersion, RequestHead};
use tower_allowed_hosts::service::{
    get_host, AllowedHost, AllowedHostFuture, Decision, Policy, Step,
};
use tower_allowed_hosts::{AllowedHostLayer, Error, Host};

fn request(version: HttpVersion, authority: Option<&str>, headers: &[(&str, &str)]) -> RequestHead {
    let mut head = RequestHead::new(version, authority.map(|a| a.to_string()));
    for (name, value) in headers {
        head.push_header((*name).to_string(), value.as_bytes().to_vec());
    }
    head
}

fn http11(headers: &[(&str, &str)]) -> RequestHead {
    request(HttpVersion::Http11, None, headers)
}

fn allowed(decision: &Decision) -> Option<String> {
    match decision {
        Decision::Allowed(Host(host)) => Some(host.clone()),
        _ => None,
    }
}

const STRICT: Policy =
    Policy { use_forwarded: false, use_x_forwarded_host: false, reject_multiple_hosts: true };

#[test]
fn normal() {
    let layer = AllowedHostLayer::new("127.0.0.1".to_string())
        .with_forwarded_matcher(("signature", "random_value"));

    let empty_res = layer.check(&http11(&[]));
    assert!(allowed(&empty_res).is_none());
    assert!(matches!(empty_res, Decision::Unresolvable(Error::MissingHost)));

    let valid_host_header_res = layer.check(&http11(&[("HOST", "127.0.0.1")]));
    assert_eq!(allowed(&valid_host_header_res), Some("127.0.0.1".to_string()));

    let invalid_host_header_res = layer.check(&http11(&[("HOST", "127.0.0.2")]));
    assert!(matches!(invalid_host_header_res, Decision::Blocked(Host(ref h)) if h == "127.0.0.2"));

    let valid_forwarded_header_res = layer.check(&http11(&[
        ("FORWARDED", "host=example.com"),
        (
            "FORWARDED",
            "for=10.0.10.11;by=10.1.12.11;host=127.0.0.1;signature=random_value,for=10.0.\
             10.11;by=10.1.12.11;host=127.0.0.3",
        ),
    ]));
    assert_eq!(allowed(&valid_forwarded_header_res), Some("127.0.0.1".to_string()));

    let invalid_forwarded_header_res = layer.check(&http11(&[
        ("FORWARDED", "for=10.0.10.11;by=10.1.12.11;host=127.0.0.2;signature=random_value"),
        (
            "FORWARDED",
            "for=10.0.10.11;by=10.1.12.11;host=127.0.0.1,for=10.0.10.11;by=10.1.12.11;\
             host=example.com",
        ),
    ]));
    assert!(
        matches!(invalid_forwarded_header_res, Decision::Blocked(Host(ref h)) if h == "127.0.0.2")
    );
}

#[test]
fn wildcard() {
    let layer = AllowedHostLayer::new(Wildcard::new("127.0.0.?"));

    assert!(allowed(&layer.check(&http11(&[]))).is_none());
    assert!(allowed(&layer.check(&http11(&[("HOST", "127.0.0.1")]))).is_some());
    assert!(allowed(&layer.check(&http11(&[("HOST", "127.0.0.2")]))).is_some());
    assert!(allowed(&layer.check(&http11(&[("HOST", "127.0.0.20")]))).is_none());
}

#[test]
fn regex() {
    let layer = AllowedHostLayer::new(Regex::new("^[a-z]+.example.com$").unwrap());

    assert!(allowed(&layer.check(&http11(&[]))).is_none());
    assert!(allowed(&layer.check(&http11(&[("HOST", "ab.example.com")]))).is_some());
    assert!(allowed(&layer.check(&http11(&[("HOST", "test.example.com")]))).is_some());
    assert!(allowed(&layer.check(&http11(&[("HOST", "ab1.example.com")]))).is_none());
    assert!(allowed(&layer.check(&http11(&[("HOST", "a.example.com.np")]))).is_none());
    assert!(allowed(&layer.check(&http11(&[("HOST", "a.example.org")]))).is_none());
}

#[test]
fn any() {
    let layer = AllowedHostLayer::new(Any).with_forwarded_matcher(("by", Any));

    assert!(allowed(&layer.check(&http11(&[]))).is_none());
    assert!(allowed(&layer.check(&http11(&[("HOST", "127.0.0.1")]))).is_some());
    assert!(allowed(&layer.check(&http11(&[("HOST", "any_value")]))).is_some());
}

#[test]
fn host_on_the_allow_list_is_allowed() {
    let layer = AllowedHostLayer::new(vec!["127.0.0.1".to_string()]);
    let decision = layer.check(&http11(&[("Host", "127.0.0.1")]));
    assert!(matches!(decision, Decision::Allowed(Host(ref h)) if h == "127.0.0.1"));
}

#[test]
fn host_off_the_allow_list_is_blocked() {
    let layer = AllowedHostLayer::new(vec!["127.0.0.1".to_string()]);
    let decision = layer.check(&http11(&[("Host", "127.0.0.2")]));
    assert!(matches!(decision, Decision::Blocked(Host(ref h)) if h == "127.0.0.2"));
}

#[test]
fn request_without_headers_is_missing_host() {
    let layer = AllowedHostLayer::new(vec!["127.0.0.1".to_string()]);
    let decision = layer.check(&http11(&[]));
    assert!(matches!(decision, Decision::Unresolvable(Error::MissingHost)));
    assert!(matches!(get_host(&http11(&[]), &STRICT, &None::<()>), Err(Error::MissingHost)));
}

#[test]
fn trusted_forwarded_entry_names_the_host() {
    let head = http11(&[(
        "Forwarded",
        "for=1.2.3.4;by=1.2.3.5;host=127.0.0.1;signature=random_value",
    )]);
    let policy = Policy { use_forwarded: true, ..STRICT };
    let host = get_host(&head, &policy, &Some(("signature", "random_value")));
    assert_eq!(host.unwrap(), "127.0.0.1");
}

#[test]
fn http2_authority_and_host_mismatch() {
    let head = request(HttpVersion::Http2, Some("example.com"), &[("Host", "example.org")]);
    assert!(matches!(get_host(&head, &STRICT, &None::<()>), Err(Error::MismatchAuthorityHost)));
    let layer = AllowedHostLayer::new(Any);
    assert!(matches!(layer.check(&head), Decision::Unresolvable(Error::MismatchAuthorityHost)));
}

#[test]
fn wildcard_allow_list() {
    let layer = AllowedHostLayer::new(Wildcard::new("*.example.com"));
    let api = layer.check(&http11(&[("Host", "api.example.com")]));
    assert!(matches!(api, Decision::Allowed(Host(ref h)) if h == "api.example.com"));
    let bare = layer.check(&http11(&[("Host", "example.com")]));
    assert!(matches!(bare, Decision::Blocked(Host(ref h)) if h == "example.com"));
}

#[test]
fn no_source_is_never_allowed() {
    let layer = AllowedHostLayer::new(Any)
        .with_forwarded_matcher(Any)
        .use_x_forwarded_host(true);
    for version in [HttpVersion::Http09, HttpVersion::Http10, HttpVersion::Http11] {
        let decision = layer.check(&request(version, None, &[("Accept", "*/*")]));
        assert!(matches!(decision, Decision::Unresolvable(Error::MissingHost)));
    }
    for version in [HttpVersion::Http2, HttpVersion::Http3] {
        let decision = layer.check(&request(version, None, &[]));
        assert!(matches!(decision, Decision::Unresolvable(Error::MissingAuthority)));
    }
    let decision = layer.check(&request(HttpVersion::Other, None, &[]));
    assert!(matches!(decision, Decision::Unresolvable(Error::UnsupportedHttpVersion)));
}

#[test]
fn unknown_version_is_unsupported_even_with_host() {
    let head = request(HttpVersion::Other, Some("example.com"), &[("Host", "example.com")]);
    assert!(matches!(get_host(&head, &STRICT, &None::<()>), Err(Error::UnsupportedHttpVersion)));
}

#[test]
fn forwarded_wins_over_host() {
    let layer = AllowedHostLayer::new(Any).with_forwarded_matcher(("by", "proxy"));
    for host in ["other.example", "", "not a host", "a.example,b.example"] {
        let decision = layer
            .check(&http11(&[("Host", host), ("Forwarded", "by=proxy;host=Front.Example")]));
        assert_eq!(allowed(&decision), Some("front.example".to_string()));
    }
    let h2 = request(
        HttpVersion::Http2,
        Some("example.com"),
        &[("host", "example.org"), ("forwarded", "host=front.example;by=proxy")],
    );
    assert_eq!(allowed(&layer.check(&h2)), Some("front.example".to_string()));
    let unknown =
        request(HttpVersion::Other, None, &[("forwarded", "host=front.example;by=proxy")]);
    assert_eq!(allowed(&layer.check(&unknown)), Some("front.example".to_string()));
}

#[test]
fn untrusted_forwarded_falls_back_to_host() {
    let layer = AllowedHostLayer::new(Any).with_forwarded_matcher(("by", "proxy"));
    let decision =
        layer.check(&http11(&[("Host", "real.example"), ("Forwarded", "by=stranger;host=evil")]));
    assert_eq!(allowed(&decision), Some("real.example".to_string()));
}

#[test]
fn forwarded_is_ignored_unless_enabled() {
    let layer = AllowedHostLayer::new(Any);
    let head = http11(&[("Host", "real.example"), ("Forwarded", "host=front.example")]);
    assert_eq!(allowed(&layer.check(&head)), Some("real.example".to_string()));
    let malformed = http11(&[("Host", "real.example"), ("Forwarded", "nonsense")]);
    assert_eq!(allowed(&layer.check(&malformed)), Some("real.example".to_string()));
}

#[test]
fn forwarded_without_matcher_believes_first_host_only() {
    let layer = AllowedHostLayer::new(Any).use_forwarded(true);
    let head = http11(&[
        ("Host", "real.example"),
        ("Forwarded", "for=1.2.3.4, host=first.example, host=second.example"),
        ("Forwarded", "host=third.example"),
    ]);
    assert_eq!(allowed(&layer.check(&head)), Some("first.example".to_string()));
}

#[test]
fn forwarded_with_matcher_and_several_trusted_hosts() {
    let strict = AllowedHostLayer::new(Any).with_forwarded_matcher(("by", "proxy"));
    let head = http11(&[
        ("Forwarded", "by=proxy;host=first.example"),
        ("Forwarded", "by=proxy;host=second.example"),
    ]);
    assert!(matches!(strict.check(&head), Decision::Unresolvable(Error::MultipleHostHeader)));
    let lenient = AllowedHostLayer::new(Any)
        .with_forwarded_matcher(("by", "proxy"))
        .reject_multiple_hosts(false);
    assert_eq!(allowed(&lenient.check(&head)), Some("first.example".to_string()));
}

#[test]
fn malformed_forwarded_is_an_error_when_enabled() {
    let layer = AllowedHostLayer::new(Any).with_forwarded_matcher(Any);
    let head = http11(&[("Host", "real.example"), ("Forwarded", "host=a.example, nonsense")]);
    assert!(matches!(layer.check(&head), Decision::Unresolvable(Error::InvalidForwardedHeader)));
    let mut bytes = http11(&[("Host", "real.example")]);
    bytes.push_header("forwarded".to_string(), vec![b'h', b'o', b's', b't', b'=', 0xff]);
    assert!(matches!(layer.check(&bytes), Decision::Unresolvable(Error::InvalidForwardedHeader)));
}

#[test]
fn x_forwarded_host_is_used_when_enabled() {
    let off = AllowedHostLayer::new(Any);
    let on = AllowedHostLayer::new(Any).use_x_forwarded_host(true);
    let head = http11(&[("Host", "real.example"), ("X-Forwarded-Host", " Front.Example ")]);
    assert_eq!(allowed(&off.check(&head)), Some("real.example".to_string()));
    assert_eq!(allowed(&on.check(&head)), Some("front.example".to_string()));
    let two = http11(&[("Host", "real.example"), ("x-forwarded-host", "a.example, b.example")]);
    assert!(matches!(on.check(&two), Decision::Unresolvable(Error::MultipleHostHeader)));
    let lenient = AllowedHostLayer::new(Any).use_x_forwarded_host(true).reject_multiple_hosts(false);
    assert_eq!(allowed(&lenient.check(&two)), Some("a.example".to_string()));
}

#[test]
fn forwarded_comes_before_x_forwarded_host() {
    let layer = AllowedHostLayer::new(Any).with_forwarded_matcher(Any).use_x_forwarded_host(true);
    let head = http11(&[
        ("X-Forwarded-Host", "x.example"),
        ("Forwarded", "host=f.example"),
        ("Host", "h.example"),
    ]);
    assert_eq!(allowed(&layer.check(&head)), Some("f.example".to_string()));
    let without = http11(&[("X-Forwarded-Host", "x.example"), ("Forwarded", "for=1.2.3.4")]);
    assert_eq!(allowed(&layer.check(&without)), Some("x.example".to_string()));
}

#[test]
fn multiple_host_values_are_rejected() {
    let layer = AllowedHostLayer::new(Any);
    let one_line = http11(&[("Host", "a.example, b.example")]);
    assert!(matches!(layer.check(&one_line), Decision::Unresolvable(Error::MultipleHostHeader)));
    let two_lines = http11(&[("Host", "a.example"), ("Host", "b.example")]);
    assert!(matches!(layer.check(&two_lines), Decision::Unresolvable(Error::MultipleHostHeader)));
}

#[test]
fn repeated_identical_host_value_is_rejected_too() {
    let layer = AllowedHostLayer::new(Any);
    let one_line = http11(&[("Host", "a.example,a.example")]);
    assert!(matches!(layer.check(&one_line), Decision::Unresolvable(Error::MultipleHostHeader)));
    let two_lines = http11(&[("Host", "a.example"), ("host", "a.example")]);
    assert!(matches!(layer.check(&two_lines), Decision::Unresolvable(Error::MultipleHostHeader)));
}

#[test]
fn multiple_host_values_take_the_first_when_tolerated() {
    let layer = AllowedHostLayer::new(Any).reject_multiple_hosts(false);
    let one_line = http11(&[("Host", "a.example, b.example")]);
    assert_eq!(allowed(&layer.check(&one_line)), Some("a.example".to_string()));
    let two_lines = http11(&[("Host", "b.example"), ("Host", "a.example")]);
    assert_eq!(allowed(&layer.check(&two_lines)), Some("b.example".to_string()));
}

#[test]
fn empty_host_value_is_invalid_not_missing() {
    let layer = AllowedHostLayer::new(Any);
    assert!(matches!(
        layer.check(&http11(&[("Host", "")])),
        Decision::Unresolvable(Error::InvalidHost)
    ));
    assert!(matches!(
        layer.check(&http11(&[("Host", "   ")])),
        Decision::Unresolvable(Error::InvalidHost)
    ));
    let forwarded = AllowedHostLayer::new(Any).with_forwarded_matcher(Any);
    assert!(matches!(
        forwarded.check(&http11(&[("Forwarded", "host=")])),
        Decision::Unresolvable(Error::InvalidHost)
    ));
}

#[test]
fn host_that_is_no_bare_authority_is_invalid() {
    let layer = AllowedHostLayer::new(Any);
    for bad in [
        "http://example.com",
        "example.com/path",
        "example.com/",
        "example.com?q=1",
        "user@example.com",
        "user:pw@example.com:80",
        "exa mple.com",
        "example.com:80a",
        "[::1",
        "example.com#frag",
    ] {
        let decision = layer.check(&http11(&[("Host", bad)]));
        assert!(matches!(decision, Decision::Unresolvable(Error::InvalidHost)), "{bad}");
    }
}

#[test]
fn host_bytes_outside_visible_ascii_are_invalid() {
    let layer = AllowedHostLayer::new(Any);
    let mut head = http11(&[]);
    head.push_header("host".to_string(), vec![b'a', 0xc3, 0xa9, b'.', b'c']);
    assert!(matches!(layer.check(&head), Decision::Unresolvable(Error::InvalidHost)));
    let mut control = http11(&[]);
    control.push_header("host".to_string(), vec![b'a', 0x7f]);
    assert!(matches!(layer.check(&control), Decision::Unresolvable(Error::InvalidHost)));
}

#[test]
fn host_is_trimmed_unquoted_and_lowercased() {
    let layer = AllowedHostLayer::new(Any);
    let decision = layer.check(&http11(&[("Host", "\t \"Example.COM:8080\" ")]));
    assert_eq!(allowed(&decision), Some("example.com:8080".to_string()));
    let literal = layer.check(&http11(&[("Host", "[2001:DB8::1]:443")]));
    assert_eq!(allowed(&literal), Some("[2001:db8::1]:443".to_string()));
}

#[test]
fn http2_uses_authority() {
    let layer = AllowedHostLayer::new(Any);
    let no_host = request(HttpVersion::Http2, Some("Example.com"), &[]);
    assert_eq!(allowed(&layer.check(&no_host)), Some("example.com".to_string()));
    let same = request(HttpVersion::Http3, Some("example.com"), &[("host", "example.com")]);
    assert_eq!(allowed(&layer.check(&same)), Some("example.com".to_string()));
    let case_differs = request(HttpVersion::Http2, Some("example.com"), &[("host", "Example.com")]);
    assert!(matches!(
        layer.check(&case_differs),
        Decision::Unresolvable(Error::MismatchAuthorityHost)
    ));
    let missing = request(HttpVersion::Http2, None, &[("host", "example.com")]);
    assert!(matches!(layer.check(&missing), Decision::Unresolvable(Error::MissingAuthority)));
    let several = request(
        HttpVersion::Http2,
        Some("example.com"),
        &[("host", "example.com"), ("host", "example.com")],
    );
    assert!(matches!(layer.check(&several), Decision::Unresolvable(Error::MultipleHostHeader)));
    let bad_authority = request(HttpVersion::Http2, Some("user@example.com"), &[]);
    assert!(matches!(layer.check(&bad_authority), Decision::Unresolvable(Error::InvalidHost)));
}

#[test]
fn http1_ignores_target_authority() {
    let layer = AllowedHostLayer::new(Any);
    let head = request(HttpVersion::Http11, Some("target.example"), &[]);
    assert!(matches!(layer.check(&head), Decision::Unresolvable(Error::MissingHost)));
    let with_host = request(HttpVersion::Http10, Some("target.example"), &[("Host", "h.example")]);
    assert_eq!(allowed(&layer.check(&with_host)), Some("h.example".to_string()));
}

#[test]
fn layer_policy_defaults_and_builders() {
    let layer = AllowedHostLayer::new(Any);
    let policy = layer.source_policy();
    assert!(!policy.use_forwarded);
    assert!(!policy.use_x_forwarded_host);
    assert!(policy.reject_multiple_hosts);
    let changed = layer
        .with_forwarded_matcher(Any)
        .use_x_forwarded_host(true)
        .reject_multiple_hosts(false);
    let policy = changed.source_policy();
    assert!(policy.use_forwarded);
    assert!(policy.use_x_forwarded_host);
    assert!(!policy.reject_multiple_hosts);
    assert!(!changed.use_forwarded(false).source_policy().use_forwarded);
}

#[test]
fn service_checks_like_its_layer() {
    let layer = AllowedHostLayer::new("served.example");
    let service = AllowedHost::new(7u8, layer);
    assert_eq!(service.inner, 7u8);
    let ok = service.check(&http11(&[("Host", "served.example")]));
    assert!(matches!(ok, Decision::Allowed(Host(ref h)) if h == "served.example"));
    let no = service.check(&http11(&[("Host", "other.example")]));
    assert!(matches!(no, Decision::Blocked(_)));
}

#[test]
fn future_steps_follow_the_decision() {
    let allowed = AllowedHostFuture::new("pending", Decision::Allowed(Host("a.example".into())));
    assert!(matches!(allowed.step(), Step::Forward));
    assert_eq!(allowed.into_response(), "pending");

    let blocked = AllowedHostFuture::new((), Decision::Blocked(Host("b.example".into())));
    assert!(matches!(blocked.step(), Step::Reject(Error::HostNotAllowed(ref h)) if h == "b.example"));

    let failed = AllowedHostFuture::new((), Decision::Unresolvable(Error::MissingHost));
    assert!(matches!(failed.step(), Step::Reject(Error::MissingHost)));
    let failed = AllowedHostFuture::new((), Decision::Unresolvable(Error::MultipleHostHeader));
    assert!(matches!(failed.step(), Step::Reject(Error::MultipleHostHeader)));
}

#[test]
fn header_names_are_case_insensitive() {
    let head = http11(&[("hOsT", "a.example"), ("Hostx", "b.example"), ("HOST", "c.example")]);
    let values = head.values("Host");
    assert_eq!(values, vec![&b"a.example"[..], &b"c.example"[..]]);
    assert!(head.values("missing").is_empty());
}
