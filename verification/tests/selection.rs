use docker_compose_test::select::{resolve_wait_set, synthesize_overlay};
use docker_compose_test::services::{extract_services, Service};
use docker_compose_test::yaml::{MapEntry, Node};

fn to_node(y: minimal_yaml::Yaml) -> Node {
    match y {
        minimal_yaml::Yaml::Scalar(s) => Node::Scalar(s.to_owned()),
        minimal_yaml::Yaml::Sequence(els) => {
            Node::Sequence(els.into_iter().map(to_node).collect())
        }
        minimal_yaml::Yaml::Mapping(es) => Node::Mapping(
            es.into_iter()
                .map(|e| MapEntry { key: to_node(e.key), value: to_node(e.value) })
                .collect(),
        ),
    }
}

fn read(name: &str, text: &str) -> Vec<Service> {
    extract_services(name, to_node(minimal_yaml::parse(text).unwrap())).unwrap()
}

fn service(name: &str, command: &str) -> Service {
    Service {
        name: name.to_owned(),
        definition: Node::Mapping(vec![MapEntry {
            key: Node::Scalar("command".to_owned()),
            value: Node::Scalar(command.to_owned()),
        }]),
    }
}

#[test]
fn empty_request_waits_on_every_test_service_in_order() {
    let tbl = vec![service("hello_1", "echo 1"), service("hello_2", "echo 2")];
    let waits = resolve_wait_set(&Vec::new(), &tbl);
    assert_eq!(waits, vec!["hello_1".to_owned(), "hello_2".to_owned()]);
}

#[test]
fn empty_request_on_empty_table_waits_on_nothing() {
    let waits = resolve_wait_set(&Vec::new(), &Vec::new());
    assert!(waits.is_empty());
}

#[test]
fn explicit_request_is_returned_unchanged() {
    let tbl = vec![service("hello_1", "echo 1"), service("hello_2", "echo 2")];
    let req = vec!["hello_2".to_owned(), "no_such_service".to_owned()];
    let waits = resolve_wait_set(&req, &tbl);
    assert_eq!(waits, req);
}

#[test]
fn overlay_keeps_selected_and_disables_the_rest() {
    let tbl = vec![service("hello_1", "echo \"hello 1\""), service("hello_2", "echo \"hello 2\"")];
    let req = vec!["hello_1".to_owned()];
    let mut others = vec!["db".to_owned(), "hello_1".to_owned(), "hello_2".to_owned()];
    let overlay = synthesize_overlay(&req, &tbl, &mut others);
    assert_eq!(
        overlay,
        "services:\n  hello_1:\n    command : echo \"hello 1\"\n\n  hello_2:\n    command: echo \"disabled hello_2\"\n"
    );
    assert_eq!(others, vec!["db".to_owned(), "hello_1".to_owned()]);
}

#[test]
fn overlay_disabled_service_always_echoes_and_exits_zero() {
    let tbl = vec![service("a", "false"), service("b", "true")];
    let req = vec!["b".to_owned()];
    let mut others: Vec<String> = Vec::new();
    let overlay = synthesize_overlay(&req, &tbl, &mut others);
    assert!(overlay.contains("  a:\n    command: echo \"disabled a\"\n"));
    assert!(!overlay.contains("command : false"));
    assert!(overlay.contains("  b:\n    command : true\n"));
}

#[test]
fn overlay_round_trips_through_the_parser() {
    let text = "services:\n  hello_1:\n    command: echo \"hello 1\"\n  hello_2:\n    command: echo \"hello 2\"\n";
    let tbl = read("tests.yml", text);
    let req = vec!["no_such_service".to_owned()];
    let mut others: Vec<String> = Vec::new();
    let overlay = synthesize_overlay(&req, &tbl, &mut others);
    let again = read("overlay.yml", &overlay);
    assert_eq!(again.len(), 2);
    assert_eq!(again[0].name, "hello_1");
    assert_eq!(again[1].name, "hello_2");
}

#[test]
fn overlay_leaves_other_documents_services_alone() {
    let tbl = vec![service("hello_1", "echo 1")];
    let req = vec!["hello_1".to_owned()];
    let mut others = vec!["db".to_owned()];
    synthesize_overlay(&req, &tbl, &mut others);
    assert_eq!(others, vec!["db".to_owned()]);
}
