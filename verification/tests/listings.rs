use dpcp::collect::{removal_line, CollectAction, CollectReply, Collector};
use dpcp::listing::{list_filter, list_lines, Allocation, ListFilter};
use dpcp::release::{release_line, release_target};

fn row(workdir: &str, service: &str, port: u16, scheme: Option<&str>) -> Allocation {
    Allocation {
        workdir: workdir.to_string(),
        service: service.to_string(),
        port,
        scheme: scheme.map(str::to_string),
    }
}

fn rows() -> Vec<Allocation> {
    vec![
        row("/a", "db", 5432, None),
        row("/a", "web", 3000, Some("http")),
        row("/b/dpcp", "web", 3001, Some("https")),
    ]
}

#[test]
fn directories_stand_above_their_services() {
    assert_eq!(
        list_lines(&rows(), None, None),
        ["/a", "  db: 5432", "  web: http://127.0.0.1:3000/", "/b/dpcp", "  web: https://127.0.0.1:3001/"]
    );
    assert_eq!(
        list_lines(&rows(), Some("*dpcp*"), Some("h.net")),
        ["/b/dpcp", "  web: https://h.net:3001/"]
    );
    assert_eq!(list_lines(&rows(), Some("/a"), Some("h")), ["/a", "  db: h:5432", "  web: http://h:3000/"]);
}

#[test]
fn nothing_listed_is_said() {
    assert_eq!(list_lines(&rows(), Some("/c*"), None), ["No allocations."]);
    assert_eq!(list_lines(&vec![], None, None), ["No allocations."]);
}

#[test]
fn directory_is_named_anew_where_it_changes() {
    let r = vec![row("", "x", 1, None), row("/a", "y", 2, None), row("", "z", 3, None)];
    assert_eq!(list_lines(&r, None, None), ["  x: 1", "/a", "  y: 2", "", "  z: 3"]);
}

#[test]
fn dot_lists_the_current_directory() {
    assert!(matches!(list_filter(None), ListFilter::All));
    assert!(matches!(list_filter(Some(".".to_string())), ListFilter::CurrentDirectory));
    match list_filter(Some("./x*".to_string())) {
        ListFilter::Pattern(p) => assert_eq!(p, "./x*"),
        other => panic!("{:?}", other),
    }
}

#[test]
fn release_falls_back_to_the_given_path() {
    assert_eq!(release_target(Some("/real".to_string()), "link".to_string()), "/real");
    assert_eq!(release_target(None, "gone".to_string()), "gone");
    assert_eq!(release_line(2, "/a"), "Released 2 allocation(s) for /a");
}

#[test]
fn only_missing_directories_are_collected() {
    let mut c = Collector::new(vec!["/a".to_string(), "/gone".to_string(), "/b".to_string()]);
    let mut deleted = vec![];
    loop {
        let reply = match c.action() {
            CollectAction::CheckDirectory { dir } => CollectReply::Directory { exists: dir != "/gone" },
            CollectAction::DeleteRows { dir } => {
                deleted.push(dir);
                CollectReply::Deleted { rows: 3 }
            }
            CollectAction::Finished => break,
        };
        assert!(c.advance(reply));
    }
    assert_eq!(deleted, ["/gone"]);
    assert_eq!(c.freed(), 3);
    assert_eq!(c.summary(), "Freed 3 total allocation(s).");
    assert_eq!(
        removal_line(3, "/gone"),
        "GC: removed 3 allocation(s) for missing working directory /gone"
    );
}

#[test]
fn collection_without_missing_directories_frees_nothing() {
    let mut c = Collector::new(vec!["/a".to_string()]);
    assert!(!c.advance(CollectReply::Deleted { rows: 1 }));
    assert!(c.advance(CollectReply::Directory { exists: true }));
    assert!(matches!(c.action(), CollectAction::Finished));
    assert!(!c.advance(CollectReply::Directory { exists: false }));
    assert_eq!(c.summary(), "Nothing to collect.");
}
