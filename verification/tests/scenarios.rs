//! End-to-end scenarios checked at the decision level: the containers
//! themselves are outside the library, so each scenario feeds its
//! documents through extraction, selection, overlay synthesis and the
//! wait/log plan, and checks the decisions the run would act on.

use docker_compose_test::orchestrate::{add_service_names, wait_and_log, Args};
use docker_compose_test::select::{resolve_wait_set, synthesize_overlay};
use docker_compose_test::services::{extract_services, Service};
use docker_compose_test::yaml::{MapEntry, Node};

fn to_node(y: minimal_yaml::Yaml) -> Node {
    match y {
        minimal_yaml::Yaml::Scalar(s) => Node::Scalar(s.to_owned()),
        minimal_yaml::Yaml::Sequence(els) => {
            Node::Sequence(els.into_iter().map(to_node).collect())
        }
        minimal_yaml::Yaml::Mapping(es) => Node::Mapping(
            es.into_iter()
                .map(|e| MapEntry { key: to_node(e.key), value: to_node(e.value) })
                .collect(),
        ),
    }
}

fn read(name: &str, text: &str) -> Vec<Service> {
    extract_services(name, to_node(minimal_yaml::parse(text).unwrap())).unwrap()
}

const BASE: &str = "services:\n  db:\n    image: docker.io/alpine:3.13.2\n    command: sleep 10000\n  hello_1:\n    image: docker.io/alpine:3.13.2\n  hello_2:\n    image: docker.io/alpine:3.13.2\n";

const TESTS: &str = "services:\n  hello_1:\n    command: echo \"hello 1\"\n  hello_2:\n    command: echo \"hello 2\"\n";

fn args(verbose: bool) -> Args {
    Args {
        project_name: "docker-compose-test".to_owned(),
        verbose,
        files: vec!["docker-compose.yml".to_owned(), "tests.yml".to_owned()],
        service_names: Vec::new(),
        docker: "docker".to_owned(),
        docker_compose: "docker-compose".to_owned(),
    }
}

#[test]
fn unrestricted_run_waits_on_and_logs_every_test_service() {
    let base = read("docker-compose.yml", BASE);
    let tests = read("tests.yml", TESTS);
    let mut others: Vec<String> = Vec::new();
    add_service_names(&mut others, &base);
    let waits = resolve_wait_set(&Vec::new(), &tests);
    assert_eq!(waits, vec!["hello_1".to_owned(), "hello_2".to_owned()]);
    let (status, logs) = wait_and_log(&args(false), &waits, &vec![0, 0], &others);
    assert_eq!(status, 0);
    assert!(logs.contains(&"hello_1".to_owned()));
    assert!(logs.contains(&"hello_2".to_owned()));
    assert!(!logs.contains(&"db".to_owned()));
}

#[test]
fn restricted_run_only_touches_the_requested_service() {
    let base = read("docker-compose.yml", BASE);
    let tests = read("tests.yml", TESTS);
    let mut others: Vec<String> = Vec::new();
    add_service_names(&mut others, &base);
    let req = vec!["hello_1".to_owned()];
    let waits = resolve_wait_set(&req, &tests);
    let overlay = synthesize_overlay(&req, &tests, &mut others);
    assert!(overlay.contains("hello 1"));
    assert!(overlay.contains("command: echo \"disabled hello_2\""));
    assert!(!overlay.contains("hello 2"));
    let (status, logs) = wait_and_log(&args(false), &waits, &vec![0], &others);
    assert_eq!(status, 0);
    assert_eq!(logs, vec!["hello_1".to_owned()]);
}

#[test]
fn failing_test_service_fails_the_run_but_still_logs_the_rest() {
    let tests_text = "services:\n  hello_1:\n    command: \"false\"\n  hello_2:\n    command: echo \"hello 2\"\n";
    let base = read("docker-compose.yml", BASE);
    let tests = read("tests.yml", tests_text);
    let mut others: Vec<String> = Vec::new();
    add_service_names(&mut others, &base);
    let waits = resolve_wait_set(&Vec::new(), &tests);
    let (status, logs) = wait_and_log(&args(true), &waits, &vec![1, 0], &others);
    assert_ne!(status, 0);
    assert!(logs.contains(&"hello_2".to_owned()));
}

#[test]
fn verbose_run_also_logs_services_of_other_documents() {
    let base_text = "services:\n  hello_1:\n    image: docker.io/alpine:3.13.2\n  hello_2:\n    image: docker.io/alpine:3.13.2\n  hello_3:\n    image: docker.io/alpine:3.13.2\n    command: echo \"hello 3\"\n";
    let base = read("docker-compose.yml", base_text);
    let tests = read("tests.yml", TESTS);
    let mut others: Vec<String> = Vec::new();
    add_service_names(&mut others, &base);
    let waits = resolve_wait_set(&Vec::new(), &tests);
    let (status, logs) = wait_and_log(&args(true), &waits, &vec![0, 0], &others);
    assert_eq!(status, 0);
    assert!(logs.contains(&"hello_1".to_owned()));
    assert!(logs.contains(&"hello_2".to_owned()));
    assert!(logs.contains(&"hello_3".to_owned()));
}
