use slate::compose::{
    arrange, process_compose, rename_question, ComposeError, ComposeFile, ServiceReplies,
};
use slate::env::Environment;
use slate::formats::{Duplicate, StrMap};
use slate::service::{image_to_qualify, prepare_service, Site};
use slate::substitution::{questions_in, substitute};
use slate::tree::Tree;

fn text(s: &str) -> Tree {
    Tree::Text(s.to_string())
}

fn list(items: &[&str]) -> Tree {
    Tree::Sequence(items.iter().map(|s| text(s)).collect())
}

fn mapping(pairs: Vec<(&str, Tree)>) -> Tree {
    Tree::Mapping(pairs.into_iter().map(|(k, v)| (text(k), v)).collect())
}

fn tagged(tag: &str, value: Tree) -> Tree {
    Tree::Tagged(tag.to_string(), Box::new(value))
}

fn compose(services: Vec<(&str, Tree)>, other: Vec<(&str, Tree)>) -> ComposeFile {
    let mut file = ComposeFile { services: StrMap::new(), other: StrMap::new() };
    for (name, value) in services {
        file.services.insert(name.to_string(), value);
    }
    for (name, value) in other {
        file.other.insert(name.to_string(), value);
    }
    file
}

fn environment(vars: &[(&str, &str)]) -> Environment {
    let mut r = Environment::new();
    for (name, value) in vars {
        r.put(name, value);
    }
    r
}

fn no_replies(n: usize) -> Vec<ServiceReplies> {
    (0..n).map(|_| ServiceReplies { confirmed: vec![], qualified: None }).collect()
}

fn names(file: &ComposeFile) -> Vec<String> {
    (0..file.services.len()).map(|i| file.services.name_at(i).clone()).collect()
}

#[test]
fn a_file_without_services_is_refused() {
    let file = compose(vec![], vec![("name", text("x"))]);
    assert!(rename_question(&file).is_none());
    let env = Environment::new();
    match process_compose(file, None, "/work", true, &env, &vec![]) {
        Err(e) => {
            assert_eq!(e, ComposeError::NoServices);
            assert_eq!(e.message(), "No services found!");
        }
        Ok(_) => panic!("a file without services was prepared"),
    }
}

#[test]
fn the_file_is_named_after_its_first_service() {
    let file = compose(vec![("web", mapping(vec![])), ("db", mapping(vec![]))], vec![]);
    assert_eq!(
        rename_question(&file).unwrap(),
        "Do you want to rename service 'web' to 'app'?"
    );
    let env = Environment::new();
    let done =
        process_compose(file, Some("/srv/stack"), "/work", false, &env, &no_replies(2)).unwrap();
    assert_eq!(done.other.get("name"), Some(&text("web")));
    assert_eq!(names(&done), vec!["web", "db"]);
}

#[test]
fn the_file_is_named_after_its_directory_if_the_service_is_app() {
    let env = Environment::new();
    let file = compose(vec![("app", mapping(vec![]))], vec![]);
    assert!(rename_question(&file).is_none());
    let done =
        process_compose(file, Some("/srv/stack"), "/work", true, &env, &no_replies(1)).unwrap();
    assert_eq!(done.other.get("name"), Some(&text("stack")));
    assert_eq!(names(&done), vec!["app"]);

    for dir in [None, Some("."), Some("..")] {
        let file = compose(vec![("app", mapping(vec![]))], vec![]);
        let done = process_compose(file, dir, "/work", false, &env, &no_replies(1)).unwrap();
        assert_eq!(done.other.get("name"), Some(&text("app")));
    }
}

#[test]
fn a_name_that_is_set_stays() {
    let file = compose(vec![("web", Tree::Null)], vec![("name", text("mine")), ("x", Tree::Null)]);
    let env = Environment::new();
    let done = process_compose(file, None, "/work", false, &env, &no_replies(1)).unwrap();
    assert_eq!(done.other.get("name"), Some(&text("mine")));
    assert_eq!(done.other.get("x"), Some(&Tree::Null));
    assert_eq!(done.other.len(), 2);
}

#[test]
fn renaming_moves_the_first_service() {
    let file = compose(
        vec![("web", text("1")), ("db", text("2")), ("cache", text("3"))],
        vec![],
    );
    let done = arrange(file, None, true);
    assert_eq!(names(&done), vec!["db", "cache", "app"]);
    assert_eq!(done.services.get("app"), Some(&text("1")));
    assert_eq!(done.services.get("db"), Some(&text("2")));
    assert_eq!(done.other.get("name"), Some(&text("web")));

    let file = compose(vec![("web", text("1")), ("app", text("2"))], vec![]);
    let done = arrange(file, None, true);
    assert_eq!(names(&done), vec!["app"]);
    assert_eq!(done.services.get("app"), Some(&text("1")));
}

#[test]
fn placeholders_are_asked_for_in_order() {
    let env = environment(&[("A", "1"), ("B_2", "two"), ("HOME", "/root")]);
    let tree = mapping(vec![
        ("${A}", text("keys are left alone")),
        ("x", text("${A} ${B_2} ${UNSET} $A ${2X} ${A}")),
        ("y", Tree::Sequence(vec![text("${HOME}/data"), tagged("!t", text("${A}"))])),
        ("z", Tree::Bool(true)),
    ]);
    assert_eq!(
        questions_in(&tree, &env),
        vec![
            "Replace '${A}' with '1'?",
            "Replace '${B_2}' with 'two'?",
            "Replace '${A}' with '1'?",
            "Replace '${HOME}' with '/root'?",
        ]
    );
    let (done, end) = substitute(&tree, &env, &vec![false, true, true, true], 0);
    assert_eq!(end, 4);
    assert_eq!(
        done,
        mapping(vec![
            ("${A}", text("keys are left alone")),
            ("x", text("1 two ${UNSET} $A ${2X} 1")),
            ("y", Tree::Sequence(vec![text("/root/data"), tagged("!t", text("${A}"))])),
            ("z", Tree::Bool(true)),
        ])
    );
    let (same, _) = substitute(&tree, &env, &vec![false; 4], 0);
    assert_eq!(same, tree);
    assert!(questions_in(&tree, &Environment::new()).is_empty());
}

#[test]
fn a_placeholder_becomes_its_value() {
    let env = environment(&[("NAME", "${OTHER}"), ("OTHER", "x")]);
    let (done, _) = substitute(&text("${NAME}"), &env, &vec![true], 0);
    assert_eq!(done, text("${OTHER}"));
    let (done, _) = substitute(&text("${NAME}${OTHER}"), &env, &vec![true, true], 0);
    assert_eq!(done, text("xx"));
}

#[test]
fn answers_start_where_they_are_said_to() {
    let env = environment(&[("A", "1")]);
    let (done, end) = substitute(&list(&["${A}", "${A}"]), &env, &vec![true, false, true], 1);
    assert_eq!(done, list(&["${A}", "1"]));
    assert_eq!(end, 3);
}

#[test]
fn short_image_names_are_qualified() {
    let site = Site { base: None, current_dir: "/work" };
    let service = |image: Tree| mapping(vec![("image", image), ("tty", Tree::Bool(true))]);
    for image in ["ubuntu", "library/ubuntu:22.04"] {
        assert_eq!(image_to_qualify(&service(text(image))), Some(image.to_string()));
    }
    assert_eq!(image_to_qualify(&service(text("docker.io/library/ubuntu"))), None);
    assert_eq!(image_to_qualify(&service(Tree::Null)), None);
    assert_eq!(image_to_qualify(&text("ubuntu")), None);
    assert_eq!(
        image_to_qualify(&tagged("!s", service(tagged("!i", text("a/b"))))),
        Some("a/b".to_string())
    );

    let full = Some("docker.io/library/ubuntu:22.04".to_string());
    assert_eq!(
        prepare_service(service(text("ubuntu")), &full, &site),
        service(text("docker.io/library/ubuntu:22.04"))
    );
    assert_eq!(prepare_service(service(text("ubuntu")), &None, &site), service(text("ubuntu")));
    assert_eq!(
        prepare_service(service(text("ghcr.io/a/b")), &full, &site),
        service(text("ghcr.io/a/b"))
    );
}

#[test]
fn volumes_are_resolved_beside_the_compose_file() {
    let site = Site { base: Some("stack/web"), current_dir: "/work" };
    let service = mapping(vec![(
        "volumes",
        Tree::Sequence(vec![
            text("./data:/data:ro"),
            text("../shared/./x:/x"),
            text("/abs/../etc:/etc"),
            text(".hidden:/h"),
            text("named:/var/lib"),
            text("no-colon/at-all"),
            tagged("!t", text("a/b:/c")),
            Tree::Null,
        ]),
    )]);
    assert_eq!(
        prepare_service(service, &None, &site),
        mapping(vec![(
            "volumes",
            Tree::Sequence(vec![
                text("/work/stack/web/data:/data:ro"),
                text("/work/stack/shared/x:/x"),
                text("/etc:/etc"),
                text("/work/stack/web/.hidden:/h"),
                text("named:/var/lib"),
                text("no-colon/at-all"),
                text("/work/stack/web/a/b:/c"),
                Tree::Null,
            ]),
        )])
    );
}

#[test]
fn volumes_behind_tags_are_resolved() {
    let site = Site { base: None, current_dir: "/work" };
    let service = |volume: &str| {
        tagged("!s", mapping(vec![("volumes", tagged("!v", list(&[volume])))]))
    };
    assert_eq!(prepare_service(service("./a:/a"), &None, &site), service("/work/a:/a"));
}

#[test]
fn environment_files_are_resolved() {
    let site = Site { base: Some("/srv"), current_dir: "/work" };
    let service = |value: Tree| mapping(vec![("env_file", value)]);
    assert_eq!(
        prepare_service(service(text("./a.env")), &None, &site),
        service(text("/srv/a.env"))
    );
    assert_eq!(
        prepare_service(service(text("plain")), &None, &site),
        service(text("plain"))
    );
    assert_eq!(
        prepare_service(service(list(&[".env", "x/y.env", "plain"])), &None, &site),
        service(list(&["/srv/.env", "/srv/x/y.env", "plain"]))
    );
    assert_eq!(
        prepare_service(service(tagged("!t", text("./a"))), &None, &site),
        service(tagged("!t", text("./a")))
    );
}

#[test]
fn preparing_a_service_again_changes_nothing() {
    let site = Site { base: Some("stack"), current_dir: "/work" };
    let service = mapping(vec![
        ("volumes", list(&["./data:/data", "db:/db"])),
        ("env_file", list(&["../x.env"])),
        ("command", text("./run")),
    ]);
    let once = prepare_service(service, &None, &site);
    let again = once.copy();
    assert_eq!(prepare_service(again, &None, &site), once);
}

#[test]
fn a_whole_file_is_prepared() {
    let file = compose(
        vec![
            (
                "web",
                mapping(vec![
                    ("image", text("${IMG}")),
                    ("volumes", list(&["${DIR}/data:/data"])),
                ]),
            ),
            ("db", mapping(vec![("image", text("docker.io/library/postgres"))])),
        ],
        vec![("volumes", mapping(vec![("${IMG}", Tree::Null)]))],
    );
    let env = environment(&[("IMG", "nginx"), ("DIR", "./here")]);
    let replies = vec![
        ServiceReplies { confirmed: vec![], qualified: Some("unused".to_string()) },
        ServiceReplies {
            confirmed: vec![true, true],
            qualified: Some("docker.io/library/nginx".to_string()),
        },
    ];
    let done = process_compose(file, Some("."), "/work/stack", true, &env, &replies).unwrap();
    assert_eq!(names(&done), vec!["db", "app"]);
    assert_eq!(
        done.services.get("app"),
        Some(&mapping(vec![
            ("image", text("docker.io/library/nginx")),
            ("volumes", list(&["/work/stack/here/data:/data"])),
        ]))
    );
    assert_eq!(
        done.services.get("db"),
        Some(&mapping(vec![("image", text("docker.io/library/postgres"))]))
    );
    assert_eq!(done.other.get("name"), Some(&text("web")));
    assert_eq!(done.other.get("volumes"), Some(&mapping(vec![("${IMG}", Tree::Null)])));
}
