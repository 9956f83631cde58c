use std::collections::{BTreeMap, BTreeSet};

use dpcp::allocate::{Action, Allocator, Reply};
use dpcp::envfile::{all_have_ports, env_file_place, render_env_file, EnvFilePlace};
use dpcp::listing::report_lines;
use dpcp::probe::{next_probe, BindOutcome, ProbeStep};
use dpcp::request::ServiceRequest;
use dpcp::strmap::StrMap;

type Rows = BTreeMap<(String, String), (u16, Option<String>)>;

fn requests(specs: &[&str]) -> Vec<ServiceRequest> {
    specs.iter().map(|s| ServiceRequest::from_spec(s).unwrap()).collect()
}

/// Runs an allocation against a table in memory; false when ports ran out.
fn run(rows: &mut Rows, bound: &BTreeSet<u16>, dir: &str, specs: &[&str]) -> (Allocator, bool) {
    let mut a = Allocator::new(requests(specs));
    loop {
        let reply = match a.action() {
            Action::FindAllocation { service } => Reply::Allocation {
                port: rows.get(&(dir.to_string(), service)).map(|r| r.0),
            },
            Action::SetScheme { service, scheme } => {
                rows.get_mut(&(dir.to_string(), service)).unwrap().1 = scheme;
                Reply::SchemeSet
            }
            Action::FindPort { port } => Reply::PortTaken {
                taken: rows.values().any(|r| r.0 == port),
            },
            Action::ProbePort { port } => Reply::PortBound { bound: bound.contains(&port) },
            Action::AddAllocation { service, port, scheme } => {
                assert!(rows.values().all(|r| r.0 != port));
                assert!(!bound.contains(&port));
                let before = rows.insert((dir.to_string(), service), (port, scheme));
                assert!(before.is_none());
                Reply::Added
            }
            Action::Finished => return (a, true),
            Action::PortsExhausted => return (a, false),
        };
        assert!(a.advance(reply));
    }
}

fn port(a: &Allocator, name: &str) -> u16 {
    *a.assignments().get(name).unwrap()
}

#[test]
fn services_get_the_lowest_free_port() {
    let mut rows = Rows::new();
    let bound: BTreeSet<u16> = [3000, 3002].into_iter().collect();
    let (a, done) = run(&mut rows, &bound, "/a", &["web:3000:http", "api:3000", "db:5432"]);
    assert!(done);
    assert_eq!(port(&a, "web"), 3001);
    assert_eq!(port(&a, "api"), 3003);
    assert_eq!(port(&a, "db"), 5432);
    let (b, done) = run(&mut rows, &bound, "/b", &["web:3000:http"]);
    assert!(done);
    assert_eq!(port(&b, "web"), 3004);
    assert_eq!(rows.len(), 4);
}

#[test]
fn allocated_services_keep_their_ports() {
    let mut rows = Rows::new();
    run(&mut rows, &BTreeSet::new(), "/a", &["web:3000", "db:5432"]);
    let bound: BTreeSet<u16> = [3000, 5432].into_iter().collect();
    let (a, done) = run(&mut rows, &bound, "/a", &["db:1", "web:3000:https"]);
    assert!(done);
    assert_eq!(port(&a, "web"), 3000);
    assert_eq!(port(&a, "db"), 5432);
    assert_eq!(rows.len(), 2);
    assert_eq!(
        rows[&("/a".to_string(), "web".to_string())],
        (3000, Some("https".to_string()))
    );
}

#[test]
fn one_service_asked_for_twice_has_one_port() {
    let mut rows = Rows::new();
    let (a, done) = run(&mut rows, &BTreeSet::new(), "/a", &["web:3000", "web:4000:http"]);
    assert!(done);
    assert_eq!(port(&a, "web"), 3000);
    assert_eq!(rows.len(), 1);
}

#[test]
fn released_ports_can_be_given_again() {
    let mut rows = Rows::new();
    run(&mut rows, &BTreeSet::new(), "/a", &["web:3000"]);
    run(&mut rows, &BTreeSet::new(), "/b", &["web:3000"]);
    rows.retain(|key, _| key.0 != "/a");
    let (c, done) = run(&mut rows, &BTreeSet::new(), "/c", &["web:3000"]);
    assert!(done);
    assert_eq!(port(&c, "web"), 3000);
    assert_eq!(rows[&("/b".to_string(), "web".to_string())].0, 3001);
}

#[test]
fn ports_can_run_out() {
    let mut rows = Rows::new();
    let bound: BTreeSet<u16> = [65534].into_iter().collect();
    let (a, done) = run(&mut rows, &bound, "/a", &["x:65534", "y:65535", "z:1"]);
    assert!(!done);
    assert_eq!(port(&a, "x"), 65535);
    assert_eq!(a.assignments().len(), 1);
    assert_eq!(rows.len(), 1);
    assert!(!all_have_ports(a.requests(), a.assignments()));
}

#[test]
fn answers_to_other_questions_are_not_taken() {
    let mut a = Allocator::new(requests(&["web:3000"]));
    assert!(!a.advance(Reply::Added));
    assert!(!a.advance(Reply::PortTaken { taken: false }));
    assert!(matches!(a.action(), Action::FindAllocation { .. }));
    assert!(a.advance(Reply::Allocation { port: None }));
    assert!(matches!(a.action(), Action::FindPort { port: 3000 }));
    assert!(a.advance(Reply::PortTaken { taken: false }));
    assert!(matches!(a.action(), Action::ProbePort { port: 3000 }));
    assert!(a.advance(Reply::PortBound { bound: true }));
    assert!(matches!(a.action(), Action::FindPort { port: 3001 }));
}

#[test]
fn nothing_asked_for_is_finished() {
    let mut a = Allocator::new(vec![]);
    assert!(matches!(a.action(), Action::Finished));
    assert!(!a.advance(Reply::Allocation { port: None }));
}

#[test]
fn environment_file_is_written_in_full() {
    let mut ports: StrMap<u16> = StrMap::new();
    ports.insert("web-app".to_string(), 3001);
    ports.insert("db".to_string(), 5432);
    let mut custom: StrMap<String> = StrMap::new();
    custom.insert("Z".to_string(), "plain".to_string());
    custom.insert("API".to_string(), "${WEB_APP_URL}/api:${DB_PORT}".to_string());
    let r = requests(&["web-app:3000:http", "db:5432"]);
    assert!(all_have_ports(&r, &ports));
    assert_eq!(
        render_env_file("/w", &r, &ports, &custom).unwrap(),
        "# Generated by dpcp — do not edit by hand\n\
         # Working directory: /w\n\
         WEB_APP_PORT=3001\n\
         # ^ web-app default 3000, allocated 3001\n\
         WEB_APP_URL=http://127.0.0.1:3001\n\
         DB_PORT=5432\n\
         \n\
         # Custom environment variables\n\
         API=http://127.0.0.1:3001/api:5432\n\
         Z=plain\n"
    );
    assert_eq!(
        render_env_file("/w", &requests(&["db:5432"]), &ports, &StrMap::new()).unwrap(),
        "# Generated by dpcp — do not edit by hand\n# Working directory: /w\nDB_PORT=5432\n"
    );
}

#[test]
fn later_service_with_a_prefix_counts() {
    let mut ports: StrMap<u16> = StrMap::new();
    ports.insert("a-b".to_string(), 1);
    ports.insert("a_b".to_string(), 2);
    let mut custom: StrMap<String> = StrMap::new();
    custom.insert("X".to_string(), "${A_B_PORT}".to_string());
    let text = render_env_file("/w", &requests(&["a-b:1", "a_b:2"]), &ports, &custom).unwrap();
    assert!(text.contains("A_B_PORT=1\n"));
    assert!(text.contains("A_B_PORT=2\n"));
    assert!(text.ends_with("X=2\n"));
}

#[test]
fn configured_name_is_the_port_variable() {
    let mut ports: StrMap<u16> = StrMap::new();
    ports.insert("svc".to_string(), 8081);
    let mut custom: StrMap<String> = StrMap::new();
    custom.insert("X".to_string(), "${MY_SVC_PORT}".to_string());
    let request = ServiceRequest {
        name: "svc".to_string(),
        default_port: 8081,
        scheme: Some("http".to_string()),
        env_name: Some("my-svc_PORT".to_string()),
    };
    assert_eq!(
        render_env_file("/w", &vec![request], &ports, &custom).unwrap(),
        "# Generated by dpcp — do not edit by hand\n\
         # Working directory: /w\n\
         MY_SVC_PORT=8081\n\
         MY_SVC_PORT_URL=http://127.0.0.1:8081\n\
         \n\
         # Custom environment variables\n\
         X=8081\n"
    );
}

#[test]
fn custom_variable_that_fails_is_told() {
    let mut custom: StrMap<String> = StrMap::new();
    custom.insert("B".to_string(), "${NO}".to_string());
    custom.insert("C".to_string(), "${".to_string());
    custom.insert("A".to_string(), "ok".to_string());
    let e = render_env_file("/w", &vec![], &StrMap::new(), &custom).unwrap_err();
    assert_eq!(e.key, "B");
    assert_eq!(e.message(), "failed to interpolate custom env var \"B\"");
    assert_eq!(
        e.error.message(),
        "custom env value references unknown variable \"${NO}\": ${NO}"
    );
}

#[test]
fn run_is_reported_service_by_service() {
    let mut ports: StrMap<u16> = StrMap::new();
    ports.insert("web".to_string(), 3001);
    ports.insert("db".to_string(), 5432);
    let r = requests(&["web:3000:http", "db:5432"]);
    assert_eq!(
        report_lines("/w", &r, &ports, None),
        ["/w", "  web: http://127.0.0.1:3001/", "  db: 5432"]
    );
    assert_eq!(
        report_lines("/w", &r, &ports, Some("h")),
        ["/w", "  web: http://h:3001/", "  db: h:5432"]
    );
}

#[test]
fn environment_file_goes_where_it_is_asked() {
    assert!(matches!(env_file_place(Some(1), Some(2), false), EnvFilePlace::AsGiven(1)));
    assert!(matches!(env_file_place(None, Some(2), true), EnvFilePlace::AsGiven(2)));
    assert!(matches!(env_file_place(None, Some(2), false), EnvFilePlace::BesideConfig(2)));
    assert!(matches!(env_file_place::<i32>(None, None, true), EnvFilePlace::Default));
}

#[test]
fn port_is_probed_on_every_address() {
    let mut outcomes = vec![];
    for expected in ["0.0.0.0", "127.0.0.1", "::", "::1"] {
        match next_probe(&outcomes) {
            ProbeStep::Bind(address) => assert_eq!(address, expected),
            other => panic!("{:?}", other),
        }
        let mut used = outcomes.clone();
        used.push(BindOutcome::AddrInUse);
        assert!(matches!(next_probe(&used), ProbeStep::Verdict(true)));
        outcomes.push(if expected == "::" { BindOutcome::OtherError } else { BindOutcome::Bound });
    }
    assert!(matches!(next_probe(&outcomes), ProbeStep::Verdict(false)));
}
