use slate::formats::{Duplicate, IniFiles};
use slate::outside::JsonOutline;
use slate::quadlet::{
    ini_with, parse_qualified_name, parse_raw_quadlets, podlet_outcome, process_quadlets,
    qualified_name_in, quadlet_blocks, quadlet_questions, NameError, PodletError,
    QUADLET_DELIMITER,
};

const PODLET_OUTPUT: &str = r#"
# bookstack-app.container
[Unit]
Requires=bookstack-db.service
After=bookstack-db.service

[Container]
Image=lscr.io/linuxserver/bookstack
Pod=bookstack.pod

[Service]
Restart=always

---

# bookstack-db.container
[Container]
Image=lscr.io/linuxserver/mariadb
Pod=bookstack.pod

[Service]
Restart=always

---

# bookstack.pod
[Pod]
PublishPort=127.0.0.1:11004:80
"#;

fn setup_quadlets() -> IniFiles {
    parse_raw_quadlets(PODLET_OUTPUT.trim()).unwrap()
}

fn sections(files: &IniFiles, name: &str) -> Vec<(String, Vec<(String, String)>)> {
    let ini = files.get(name).unwrap();
    let mut r: Vec<(String, Vec<(String, String)>)> = (0..ini.0.len())
        .map(|i| {
            let section = ini.0.value_at(i);
            let mut lines: Vec<(String, String)> = (0..section.len())
                .map(|k| (section.name_at(k).clone(), section.value_at(k).clone()))
                .collect();
            lines.sort();
            (ini.0.name_at(i).clone(), lines)
        })
        .collect();
    r.sort();
    r
}

fn owned(list: &[(&str, &[(&str, &str)])]) -> Vec<(String, Vec<(String, String)>)> {
    list.iter()
        .map(|(name, lines)| {
            (
                name.to_string(),
                lines.iter().map(|(k, v)| (k.to_string(), v.to_string())).collect(),
            )
        })
        .collect()
}

#[test]
fn test_parse_raw_quadlets() {
    let result = setup_quadlets();

    let app_container = result.get("bookstack-app.container").unwrap();
    assert_eq!(
        app_container.get("Unit").unwrap().get("Requires"),
        Some(&"bookstack-db.service".to_string())
    );
    assert_eq!(
        app_container.get("Container").unwrap().get("Image"),
        Some(&"lscr.io/linuxserver/bookstack".to_string())
    );

    let db_container = result.get("bookstack-db.container").unwrap();
    assert_eq!(
        db_container.get("Container").unwrap().get("Image"),
        Some(&"lscr.io/linuxserver/mariadb".to_string())
    );

    let pod = result.get("bookstack.pod").unwrap();
    assert_eq!(
        pod.get("Pod").unwrap().get("PublishPort"),
        Some(&"127.0.0.1:11004:80".to_string())
    );
}

#[test]
fn test_process_quadlets() {
    let quadlets = setup_quadlets();
    let dir = "/tmp/slater";

    let questions = quadlet_questions(&quadlets, Some(dir), dir, true);
    assert_eq!(
        questions,
        vec![
            "Add After=local-fs.target network-online.target \
             systemd-networkd-wait-online.service to 'bookstack-app.container'?",
            "Add EnvironmentFile=/tmp/slater/.env to 'bookstack-app.container'?",
            "Add AutoUpdate=registry to 'bookstack-app.container'?",
            "Add After=local-fs.target network-online.target \
             systemd-networkd-wait-online.service to 'bookstack-db.container'?",
            "Add EnvironmentFile=/tmp/slater/.env to 'bookstack-db.container'?",
            "Add AutoUpdate=registry to 'bookstack-db.container'?",
            "Add WantedBy=default.target to 'bookstack.pod'?",
        ]
    );
    let answers = vec![true; questions.len()];
    let processed_quadlets = process_quadlets(quadlets, Some(dir), dir, true, &answers);

    assert_eq!(processed_quadlets.0.len(), 3);
    assert_eq!(
        sections(&processed_quadlets, "bookstack-app.container"),
        owned(&[
            (
                "Container",
                &[
                    ("AutoUpdate", "registry"),
                    ("Image", "lscr.io/linuxserver/bookstack"),
                    ("Pod", "bookstack.pod"),
                ],
            ),
            (
                "Service",
                &[("EnvironmentFile", "/tmp/slater/.env"), ("Restart", "always")],
            ),
            (
                "Unit",
                &[
                    (
                        "After",
                        "local-fs.target network-online.target \
                         systemd-networkd-wait-online.service",
                    ),
                    ("Requires", "bookstack-db.service"),
                ],
            ),
        ])
    );
    assert_eq!(
        sections(&processed_quadlets, "bookstack-db.container"),
        owned(&[
            (
                "Container",
                &[
                    ("AutoUpdate", "registry"),
                    ("Image", "lscr.io/linuxserver/mariadb"),
                    ("Pod", "bookstack.pod"),
                ],
            ),
            (
                "Service",
                &[("EnvironmentFile", "/tmp/slater/.env"), ("Restart", "always")],
            ),
            (
                "Unit",
                &[(
                    "After",
                    "local-fs.target network-online.target systemd-networkd-wait-online.service",
                )],
            ),
        ])
    );
    assert_eq!(
        sections(&processed_quadlets, "bookstack.pod"),
        owned(&[
            ("Install", &[("WantedBy", "default.target")]),
            ("Pod", &[("PublishPort", "127.0.0.1:11004:80")]),
        ])
    );
}

#[test]
fn test_parse_qualified_name() {
    let input = r#"[
        {
            "Ref": "docker.io/library/ubuntu:22.04@sha256:6f63292a7444f9346bf6ec6816dd93029dae021ee00cabb564c440417519680c"
        }
    ]"#;
    let expected = "docker.io/library/ubuntu:22.04";
    let result = parse_qualified_name(input.as_bytes()).unwrap();
    assert_eq!(result, expected);
}

#[test]
fn manifests_without_a_name_are_refused() {
    assert!(matches!(parse_qualified_name(b"not json"), Err(NameError::NotJson(_))));
    for input in ["{}", "[]", "[1]", "[{}]", r#"[{"Ref": 3}]"#, r#"[{"ref": "a@b"}]"#] {
        assert!(matches!(parse_qualified_name(input.as_bytes()), Err(NameError::NoRef)));
    }
    match parse_qualified_name(br#"[{"Ref": "plain"}, {"Ref": "a@b"}]"#) {
        Err(NameError::NoDigest(reference)) => assert_eq!(reference, "plain"),
        other => panic!("{other:?}"),
    }
    assert_eq!(
        parse_qualified_name(b"").unwrap_err().message(),
        "Could not parse qualified image name"
    );
}

#[test]
fn names_are_taken_from_outlines() {
    let member = |name: &str, value: Option<&str>| (name.to_string(), value.map(str::to_string));
    let outline: JsonOutline = Some(vec![Some(vec![
        member("Other", None),
        member("Ref", Some("a/b:1@sha256:0@x")),
    ])]);
    assert_eq!(qualified_name_in(&outline).unwrap(), "a/b:1");
    let empty: JsonOutline = None;
    assert!(matches!(qualified_name_in(&empty), Err(NameError::NoRef)));
    let no_object: JsonOutline = Some(vec![None]);
    assert!(matches!(qualified_name_in(&no_object), Err(NameError::NoRef)));
}

#[test]
fn blocks_without_a_name_are_skipped() {
    let output = ["# a.pod \n[Pod]\nX=1\n", "no newline", "plain\n[Pod]", "#b\nx", "# c\n"]
        .join(QUADLET_DELIMITER);
    assert_eq!(
        quadlet_blocks(&output),
        vec![
            ("a.pod".to_string(), "[Pod]\nX=1\n".to_string()),
            ("c".to_string(), String::new()),
        ]
    );
    let files = parse_raw_quadlets(&output).unwrap();
    assert_eq!(files.0.len(), 2);
    assert_eq!(files.get("c").unwrap().0.len(), 0);
}

#[test]
fn the_last_unit_under_a_name_counts() {
    let files = parse_raw_quadlets("# a\n[S]\nk=1\n\n---\n\n# a\n[S]\nk=2").unwrap();
    assert_eq!(files.0.len(), 1);
    assert_eq!(files.get("a").unwrap().get("S").unwrap().get("k"), Some(&"2".to_string()));
}

#[test]
fn an_unreadable_unit_is_an_error() {
    assert!(parse_raw_quadlets("# a\n[S]\nk=1\n\n---\n\n# b\n[S\nk").is_err());
}

#[test]
fn documents_keep_the_last_value() {
    let pair = |k: &str, v: &str| (k.to_string(), v.to_string());
    let ini = ini_with(&vec![
        ("A".to_string(), vec![pair("x", "1")]),
        ("B".to_string(), vec![pair("y", "1"), pair("y", "2")]),
        ("A".to_string(), vec![pair("z", "3")]),
    ]);
    assert_eq!(ini.0.len(), 2);
    assert!(ini.get("A").unwrap().get("x").is_none());
    assert_eq!(ini.get("A").unwrap().get("z"), Some(&"3".to_string()));
    assert_eq!(ini.get("B").unwrap().get("y"), Some(&"2".to_string()));
}

#[test]
fn declining_everything_adds_only_empty_sections() {
    let quadlets = setup_quadlets();
    let before = quadlets.0.copy();
    let n = quadlet_questions(&quadlets, Some("compose"), "/work", false).len();
    assert_eq!(n, 5);
    let after = process_quadlets(quadlets, Some("compose"), "/work", false, &vec![false; n]);
    assert_eq!(sections(&after, "bookstack.pod"), sections(&IniFiles(before), "bookstack.pod"));
    assert_eq!(
        sections(&after, "bookstack-db.container"),
        owned(&[
            (
                "Container",
                &[("Image", "lscr.io/linuxserver/mariadb"), ("Pod", "bookstack.pod")],
            ),
            ("Service", &[("Restart", "always")]),
            ("Unit", &[]),
        ])
    );
}

#[test]
fn each_unit_gets_its_own_answers() {
    let quadlets = setup_quadlets();
    let answers = vec![true, false, false, true, false];
    let after = process_quadlets(quadlets, None, "/work", true, &answers);
    let app = after.get("bookstack-app.container").unwrap();
    let db = after.get("bookstack-db.container").unwrap();
    assert!(app.get("Unit").unwrap().get("After").unwrap().starts_with("local-fs.target"));
    assert!(app.get("Container").unwrap().get("AutoUpdate").is_none());
    assert!(db.get("Unit").unwrap().get("After").is_none());
    assert_eq!(db.get("Container").unwrap().get("AutoUpdate"), Some(&"registry".to_string()));
    assert!(after.get("bookstack.pod").unwrap().get("Install").is_none());
}

#[test]
fn local_images_are_updated_locally_and_other_units_stay() {
    let output = "# a.container\n[Container]\nImage=ubuntu\n\n---\n\n# v.volume\n[Volume]\nk=v";
    let quadlets = parse_raw_quadlets(output).unwrap();
    assert_eq!(
        quadlet_questions(&quadlets, Some(""), "/work", true),
        vec![
            "Add After=local-fs.target network-online.target \
             systemd-networkd-wait-online.service to 'a.container'?",
            "Add EnvironmentFile=/work/.env to 'a.container'?",
            "Add Restart=always to 'a.container'?",
            "Add AutoUpdate=local to 'a.container'?",
        ]
    );
    let answers = vec![true, true, false, true];
    let after = process_quadlets(quadlets, Some(""), "/work", true, &answers);
    assert!(after.get("a.container").unwrap().get("Service").unwrap().get("Restart").is_none());
    assert_eq!(
        after.get("a.container").unwrap().get("Container").unwrap().get("AutoUpdate"),
        Some(&"local".to_string())
    );
    assert_eq!(sections(&after, "v.volume"), owned(&[("Volume", &[("k", "v")])]));
}

#[test]
fn containers_without_a_restart_policy_get_one() {
    let output = "# db.container\n[Container]\nImage=docker.io/library/mariadb";
    let quadlets = parse_raw_quadlets(output).unwrap();
    let questions = quadlet_questions(&quadlets, None, "/work", false);
    assert_eq!(questions[1], "Add Restart=always to 'db.container'?");
    assert_eq!(questions.len(), 3);
    let after = process_quadlets(quadlets, None, "/work", false, &vec![true; 3]);
    assert_eq!(
        sections(&after, "db.container"),
        owned(&[
            (
                "Container",
                &[("AutoUpdate", "registry"), ("Image", "docker.io/library/mariadb")],
            ),
            ("Service", &[("Restart", "always")]),
            (
                "Unit",
                &[(
                    "After",
                    "local-fs.target network-online.target systemd-networkd-wait-online.service",
                )],
            ),
        ])
    );
}

#[test]
fn a_restart_policy_that_is_named_stays() {
    let quadlets = parse_raw_quadlets("# a.container\n[Service]\nRestart=no").unwrap();
    assert_eq!(quadlet_questions(&quadlets, None, "/work", false).len(), 2);
    let after = process_quadlets(quadlets, None, "/work", false, &vec![true, true]);
    assert_eq!(
        after.get("a.container").unwrap().get("Service").unwrap().get("Restart"),
        Some(&"no".to_string())
    );
}

#[test]
fn a_failed_conversion_is_reported() {
    match podlet_outcome(false, PODLET_OUTPUT.trim(), "no such file") {
        Err(PodletError::Failed(message)) => {
            assert_eq!(message, "podlet conversion failed: no such file")
        }
        _ => panic!("the run failed"),
    }
    let files = podlet_outcome(true, PODLET_OUTPUT.trim(), "warning").unwrap();
    assert_eq!(files.0.len(), parse_raw_quadlets(PODLET_OUTPUT.trim()).unwrap().0.len());
    assert!(matches!(
        podlet_outcome(true, "# a.pod\n[Pod", ""),
        Err(PodletError::Unreadable(_))
    ));
}
