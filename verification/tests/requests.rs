use dpcp::request::{
    parse_specs, requests_from_ports, with_underscores, PortConfig, ServiceRequest, SpecError,
};

fn request(name: &str, env_name: Option<&str>) -> ServiceRequest {
    ServiceRequest {
        name: name.to_string(),
        default_port: 1,
        scheme: None,
        env_name: env_name.map(str::to_string),
    }
}

#[test]
fn services_read_from_the_command_line() {
    let r = ServiceRequest::from_spec("postgres:5432").unwrap();
    assert_eq!(r.name, "postgres");
    assert_eq!(r.default_port, 5432);
    assert_eq!(r.scheme, None);
    assert_eq!(r.env_name, None);
    let r = ServiceRequest::from_spec("web:3000:http").unwrap();
    assert_eq!(r.name, "web");
    assert_eq!(r.default_port, 3000);
    assert_eq!(r.scheme, Some("http".to_string()));
}

#[test]
fn scheme_is_all_that_follows_the_port() {
    let r = ServiceRequest::from_spec(":+7:a:b").unwrap();
    assert_eq!(r.name, "");
    assert_eq!(r.default_port, 7);
    assert_eq!(r.scheme, Some("a:b".to_string()));
    let r = ServiceRequest::from_spec("é:1:").unwrap();
    assert_eq!(r.name, "é");
    assert_eq!(r.scheme, Some(String::new()));
}

#[test]
fn services_that_cannot_be_read_are_told() {
    let e = ServiceRequest::from_spec("web").unwrap_err();
    assert!(matches!(e, SpecError::Shape { .. }));
    assert_eq!(e.message(), "expected service:port[:scheme], got 'web'");
    for (spec, text) in [("web:", ""), ("web:x:http", "x"), ("web:65536", "65536"), ("::", "")] {
        let e = ServiceRequest::from_spec(spec).unwrap_err();
        assert_eq!(e.message(), format!("invalid port in '{spec}'"));
        match e {
            SpecError::Port { spec: s, port } => {
                assert_eq!(s, spec);
                assert_eq!(port, text);
            }
            other => panic!("{:?}", other),
        }
    }
}

#[test]
fn written_services_read_back() {
    for port in [0u16, 1, 80, 9999, 65535] {
        for scheme in [None, Some("http"), Some(""), Some("a:b")] {
            let mut spec = format!("my-svc:{port}");
            if let Some(s) = scheme {
                spec = format!("{spec}:{s}");
            }
            let r = ServiceRequest::from_spec(&spec).unwrap();
            assert_eq!(r.name, "my-svc");
            assert_eq!(r.default_port, port);
            assert_eq!(r.scheme.as_deref(), scheme);
        }
    }
}

#[test]
fn first_bad_service_decides() {
    let good = vec!["a:1".to_string(), "b:2:http".to_string()];
    let names: Vec<String> = parse_specs(&good).unwrap().into_iter().map(|r| r.name).collect();
    assert_eq!(names, ["a", "b"]);
    let bad = vec!["a:1".to_string(), "b:x".to_string(), "c".to_string()];
    assert_eq!(parse_specs(&bad).unwrap_err().message(), "invalid port in 'b:x'");
    assert_eq!(parse_specs(&vec![]).unwrap().len(), 0);
}

#[test]
fn prefixes_are_uppercase_with_underscores() {
    assert_eq!(request("web-app", None).env_prefix(), "WEB_APP");
    assert_eq!(request("web", Some("my-svc")).env_prefix(), "MY_SVC");
    assert_eq!(request("straße-é", None).env_prefix(), "STRASSE_É");
    assert_eq!(request("--", None).env_prefix(), "__");
    assert_eq!(request("a", Some("")).env_prefix(), "");
}

#[test]
fn dashes_become_underscores() {
    for s in ["", "-", "a-b-", "a_b", "é-ü", "abc"] {
        assert_eq!(with_underscores(s), s.replace('-', "_"));
        assert!(!with_underscores(s).contains('-'));
    }
}

#[test]
fn configured_services_come_in_name_order() {
    let names = ["web", "db", "Api", "é", "db-2", "cache"];
    let entry = |n: &str| {
        (
            n.to_string(),
            PortConfig {
                default_port: n.len() as u16,
                protocol: Some(format!("p-{n}")),
                env_name: if n == "db" { Some("DATA".to_string()) } else { None },
            },
        )
    };
    let forward: Vec<(String, PortConfig)> = names.iter().map(|n| entry(n)).collect();
    let backward: Vec<(String, PortConfig)> = names.iter().rev().map(|n| entry(n)).collect();
    let mut sorted: Vec<&str> = names.to_vec();
    sorted.sort();
    for ports in [forward, backward] {
        let requests = requests_from_ports(ports);
        assert_eq!(requests.len(), sorted.len());
        for (r, n) in requests.iter().zip(&sorted) {
            assert_eq!(r.name, *n);
            assert_eq!(r.default_port, n.len() as u16);
            assert_eq!(r.scheme, Some(format!("p-{n}")));
            assert_eq!(r.env_name.is_some(), *n == "db");
        }
    }
}
