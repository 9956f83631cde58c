use dpcp::display::service_display;
use dpcp::ipv6::ipv6_address;
use dpcp::hostname::{hostname_warning, resolve_hostname, validate_hostname, HostnameFault};

#[test]
fn service_display_covers_scheme_and_hostname_combinations() {
    let host = Some("box.ts.net");
    let cases = [
        (Some("http"), host, "http://box.ts.net:8080/"),
        (Some("https"), host, "https://box.ts.net:8080/"),
        (Some("http"), None, "http://127.0.0.1:8080/"),
        (None, host, "box.ts.net:8080"),
        (None, None, "8080"),
    ];
    for (scheme, hostname, expected) in cases {
        assert_eq!(service_display(8080, scheme, hostname), expected);
    }
}

#[test]
fn schemes_other_than_http_show_no_url() {
    assert_eq!(service_display(5432, Some("postgres"), None), "5432");
    assert_eq!(service_display(5432, Some("HTTP"), Some("h")), "h:5432");
    assert_eq!(service_display(0, Some(""), None), "0");
    assert_eq!(service_display(65535, Some("https"), None), "https://127.0.0.1:65535/");
}

#[test]
fn validate_hostname_accepts_bare_hosts_and_bracketed_ipv6() {
    assert!(validate_hostname("foo.ts.net").is_ok());
    assert!(validate_hostname("my-box").is_ok());
    assert!(validate_hostname("[::1]").is_ok());
    assert!(validate_hostname("[fd7a:115c:a1e0::1]").is_ok());
}

#[test]
fn validate_hostname_rejects_anything_that_would_corrupt_a_url() {
    for bad in [
        "http://foo", // scheme
        "foo:3001",   // port
        "foo/bar",    // path
        "foo?x",      // query, which would linkify as host `foo` on port 80
        "foo#y",      // fragment
        "my box",     // whitespace
        "[]",         // empty IPv6 literal
        "[nope]",     // not hex
    ] {
        assert!(validate_hostname(bad).is_err(), "{bad} should be rejected");
    }
}

#[test]
fn each_hostname_fault_is_told() {
    let cases = [
        ("http://foo", HostnameFault::Url, "hostname must be a bare host, not a URL: http://foo"),
        ("[://]", HostnameFault::Url, "hostname must be a bare host, not a URL: [://]"),
        ("[nope]", HostnameFault::Ipv6, "hostname is not a valid bracketed IPv6 literal: [nope]"),
        ("[]", HostnameFault::Ipv6, "hostname is not a valid bracketed IPv6 literal: []"),
        ("foo:1", HostnameFault::Port, "hostname must not include a port (bracket IPv6 as [::1]): foo:1"),
        ("::1", HostnameFault::Port, "hostname must not include a port (bracket IPv6 as [::1]): ::1"),
        ("a b", HostnameFault::Character, "hostname may only contain letters, digits, '.', '-' and '_': a b"),
        ("[", HostnameFault::Character, "hostname may only contain letters, digits, '.', '-' and '_': ["),
        ("é", HostnameFault::Character, "hostname may only contain letters, digits, '.', '-' and '_': é"),
        ("0.0.0.0", HostnameFault::Unreachable, "hostname cannot be reached: 0.0.0.0"),
        ("[::]", HostnameFault::Unreachable, "hostname cannot be reached: [::]"),
    ];
    for (host, fault, message) in cases {
        let e = validate_hostname(host).unwrap_err();
        assert_eq!(e.fault, fault);
        assert_eq!(e.host, host);
        assert_eq!(e.message(), message);
    }
    assert!(validate_hostname("[::ffff:1.2.3.4]").is_ok());
}

#[test]
fn hosts_that_nothing_reaches_are_refused() {
    for bad in [
        "0.0.0.0", "[::]", "[:]", "-foo.ts.net", "foo-.ts.net", "foo.-ts.net", "foo.net-", "-foo", "foo..net",
        ".foo", "foo.", "-", "_", ".", "",
    ] {
        assert_eq!(validate_hostname(bad).unwrap_err().fault, HostnameFault::Unreachable, "{bad}");
    }
    for good in ["my_box", "_a", "a-b.c-d", "10.0.0.0", "0.0.0.1", "[::1]", "x", "a--b"] {
        assert!(validate_hostname(good).is_ok(), "{good}");
    }
}

#[test]
fn resolve_hostname_treats_empty_flag_as_unset() {
    assert_eq!(resolve_hostname(Some(String::new()), None).unwrap(), None);
    assert_eq!(resolve_hostname(Some("   ".to_string()), None).unwrap(), None);
    assert_eq!(
        resolve_hostname(Some(" foo.ts.net ".to_string()), None).unwrap(),
        Some("foo.ts.net".to_string())
    );
}

#[test]
fn flag_comes_before_environment() {
    let env = Some("env.net".to_string());
    assert_eq!(
        resolve_hostname(Some("flag.net".to_string()), env.clone()).unwrap(),
        Some("flag.net".to_string())
    );
    assert_eq!(resolve_hostname(None, env.clone()).unwrap(), Some("env.net".to_string()));
    assert_eq!(resolve_hostname(Some(" \u{3000}\t".to_string()), env).unwrap(), None);
    assert_eq!(resolve_hostname(None, None).unwrap(), None);
}

#[test]
fn bad_hostname_is_warned_of_and_left_out() {
    for (bad, fault) in [
        ("http://foo", HostnameFault::Url),
        (" foo:3001 ", HostnameFault::Port),
        ("[nope]", HostnameFault::Ipv6),
        ("a b", HostnameFault::Character),
        ("0.0.0.0", HostnameFault::Unreachable),
    ] {
        assert_eq!(resolve_hostname(Some(bad.to_string()), Some("env.net".to_string())).unwrap(), None);
        let e = hostname_warning(Some(bad), Some("env.net")).unwrap();
        assert_eq!(e.fault, fault);
        assert_eq!(e.host, bad.trim());
    }
    assert!(hostname_warning(Some("ok.net"), Some("a b")).is_none());
    assert!(hostname_warning(Some(""), Some("a b")).is_none());
    assert!(hostname_warning(None, None).is_none());
    assert_eq!(hostname_warning(None, Some("a b")).unwrap().host, "a b");
}

#[test]
fn bare_ipv6_address_gets_its_brackets() {
    assert_eq!(
        resolve_hostname(Some("fd7a:115c:a1e0::1\n".to_string()), None).unwrap(),
        Some("[fd7a:115c:a1e0::1]".to_string())
    );
    assert_eq!(resolve_hostname(None, Some("::1".to_string())).unwrap(), Some("[::1]".to_string()));
    assert_eq!(resolve_hostname(Some("[::1]".to_string()), None).unwrap(), Some("[::1]".to_string()));
    assert_eq!(resolve_hostname(Some("::".to_string()), None).unwrap(), None);
    assert_eq!(hostname_warning(Some("::"), None).unwrap().host, "[::]");
    assert_eq!(resolve_hostname(Some("a:1".to_string()), None).unwrap(), None);
    assert_eq!(validate_hostname("::1").unwrap_err().fault, HostnameFault::Port);
}

#[test]
fn printed_url_splits_into_host_and_port() {
    for host in ["foo.ts.net", "[fd7a:115c:a1e0::1]", "my-box"] {
        assert!(validate_hostname(host).is_ok());
        let url = service_display(3001, Some("http"), Some(host));
        let authority = url.split("://").nth(1).unwrap().split('/').next().unwrap();
        let colon = authority.rfind(':').unwrap();
        assert_eq!(&authority[..colon], host);
        assert_eq!(authority[colon + 1..].parse::<u16>().unwrap(), 3001);
    }
}

#[test]
fn ipv6_addresses_are_told_from_other_texts() {
    for good in [
        "::", "::1", "1::", "fd7a:115c:a1e0::1", "1:2:3:4:5:6:7:8", "A:b:C:d:E:f:0:0000", "1:2:3:4:5:6:7::",
        "::2:3:4:5:6:7:8", "::ffff:1.2.3.4", "1:2:3:4:5:6:255.0.10.199", "1::0.0.0.0",
    ] {
        assert!(ipv6_address(good), "{good}");
    }
    for bad in [
        "", ":", ":::", "1", "10:20:30", "1:2:3:4:5:6:7", "1:2:3:4:5:6:7:8:9", "1:2:3:4::5:6:7:8", "1::2::3",
        "12345::", "g::", "::1:", ":1::", "1.2.3.4", "1.2.3.4::", "::1.2.3", "::1.2.3.4.5", "::256.1.1.1",
        "::01.2.3.4", "1:2:3:4:5:6:7:1.2.3.4", "::1.2.3.4:5", "[::1]", "::1 ", "::1%lo", "::1.2..4",
    ] {
        assert!(!ipv6_address(bad), "{bad}");
    }
}

#[test]
fn texts_with_colons_that_are_no_address_are_left_out() {
    for bad in ["10:20:30", "1:2:3:4:5:6:7", "a:b:c", "1::2::3", ":::"] {
        assert_eq!(resolve_hostname(Some(bad.to_string()), None).unwrap(), None, "{bad}");
        let e = hostname_warning(Some(bad), None).unwrap();
        assert_eq!(e.fault, HostnameFault::Port);
        assert_eq!(e.host, bad);
    }
}
