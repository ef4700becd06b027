use docker_compose_test::services::{extract_services, Service};
use docker_compose_test::yaml::{serialize_node, MapEntry, Node};
use docker_compose_test::Error;

fn to_node(y: minimal_yaml::Yaml) -> Node {
    match y {
        minimal_yaml::Yaml::Scalar(s) => Node::Scalar(s.to_owned()),
        minimal_yaml::Yaml::Sequence(els) => {
            Node::Sequence(els.into_iter().map(to_node).collect())
        }
        minimal_yaml::Yaml::Mapping(es) => Node::Mapping(
            es.into_iter()
                .map(|e| MapEntry { key: to_node(e.key), value: to_node(e.value) })
                .collect(),
        ),
    }
}

fn read(name: &str, text: &str) -> Vec<Service> {
    extract_services(name, to_node(minimal_yaml::parse(text).unwrap())).unwrap()
}

fn scalar(s: &str) -> Node {
    Node::Scalar(s.to_owned())
}

fn entry(k: Node, v: Node) -> MapEntry {
    MapEntry { key: k, value: v }
}

#[test]
fn document_without_services_gives_empty_table() {
    let doc = Node::Mapping(vec![entry(scalar("version"), scalar("3"))]);
    let tbl = extract_services("base.yml", doc).unwrap();
    assert_eq!(tbl.len(), 0);
}

#[test]
fn empty_mapping_document_gives_empty_table() {
    let doc = Node::Mapping(vec![]);
    let tbl = extract_services("base.yml", doc).unwrap();
    assert_eq!(tbl.len(), 0);
}

#[test]
fn services_not_a_mapping_fails_naming_the_file() {
    let doc = Node::Mapping(vec![entry(scalar("services"), scalar("oops"))]);
    let err = extract_services("broken.yml", doc).unwrap_err();
    assert!(matches!(err, Error::Custom(_)));
    assert_eq!(err.message(), "failed to parse file broken.yml");
}

#[test]
fn top_level_not_a_mapping_fails_naming_the_file() {
    let doc = scalar("just text");
    let err = extract_services("flat.yml", doc).unwrap_err();
    assert_eq!(err.message(), "failed to parse file flat.yml");
}

#[test]
fn non_scalar_service_key_fails_naming_the_file() {
    let svcs = Node::Mapping(vec![entry(Node::Sequence(vec![scalar("a")]), scalar("x"))]);
    let doc = Node::Mapping(vec![entry(scalar("services"), svcs)]);
    let err = extract_services("odd.yml", doc).unwrap_err();
    assert_eq!(err.message(), "failed to parse file odd.yml");
}

#[test]
fn extraction_preserves_declaration_order() {
    let svcs = Node::Mapping(vec![
        entry(scalar("zeta"), scalar("one")),
        entry(scalar("alpha"), scalar("two")),
        entry(scalar("mid"), scalar("three")),
    ]);
    let doc = Node::Mapping(vec![entry(scalar("services"), svcs)]);
    let tbl = extract_services("t.yml", doc).unwrap();
    let names: Vec<&str> = tbl.iter().map(|s: &Service| s.name.as_str()).collect();
    assert_eq!(names, vec!["zeta", "alpha", "mid"]);
}

#[test]
fn extraction_from_parsed_real_text() {
    let text = "services:\n  hello_1:\n    command: echo \"hello 1\"\n  hello_2:\n    command: echo \"hello 2\"\n";
    let tbl = read("tests.yml", text);
    assert_eq!(tbl.len(), 2);
    assert_eq!(tbl[0].name, "hello_1");
    assert_eq!(tbl[1].name, "hello_2");
    let def = serialize_node(&tbl[0].definition);
    assert!(def.contains("hello 1"));
}

#[test]
fn parsed_document_without_services_entry() {
    let text = "volumes:\n  data:\n    driver: local\n";
    let tbl = read("base.yml", text);
    assert_eq!(tbl.len(), 0);
}

#[test]
fn parse_error_kind_carries_its_message() {
    let e = Error::Yaml("failed to parse file bad.yml: unexpected token".to_owned());
    assert_eq!(e.message(), "failed to parse file bad.yml: unexpected token");
}

#[test]
fn serializer_reproduces_scalars_with_quotes() {
    let n = scalar("echo \"hello 1\"");
    assert_eq!(serialize_node(&n), "echo \"hello 1\"");
}

#[test]
fn serializer_prints_block_mappings() {
    let n = Node::Mapping(vec![
        entry(scalar("image"), scalar("docker.io/alpine:3.13.2")),
        entry(scalar("command"), scalar("sleep 10000")),
    ]);
    assert_eq!(serialize_node(&n), "image : docker.io/alpine:3.13.2\ncommand : sleep 10000\n");
}

#[test]
fn serializer_prints_block_sequences_and_nesting() {
    let n = Node::Mapping(vec![entry(
        scalar("ports"),
        Node::Sequence(vec![scalar("80:80"), scalar("443:443")]),
    )]);
    assert_eq!(serialize_node(&n), "ports :\n  - 80:80\n  - 443:443\n");
}
