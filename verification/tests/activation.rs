use slate::activation::{
    activate_quadlets, activate_units, activation_prompt, after_verification, dry_run_outcome,
    failed_files, generator_cmd, link_paths, link_question, pod_service, quadlet_dir, unit_action,
    verification_commands, AfterVerification, NoHome,
};

fn owned(list: &[&str]) -> Vec<String> {
    list.iter().map(|s| s.to_string()).collect()
}

#[test]
fn failed_files_are_listed() {
    let files = owned(&["a", "b", "c"]);
    assert_eq!(failed_files(&files, &vec![false, true, false]), vec!["a", "c"]);
    assert!(failed_files(&files, &vec![true; 3]).is_empty());
}

#[test]
fn each_written_unit_is_verified() {
    assert_eq!(
        verification_commands(&owned(&["d/a.service", "d/a.timer"])),
        vec![
            owned(&["systemd-analyze", "verify", "d/a.service"]),
            owned(&["systemd-analyze", "verify", "d/a.timer"]),
        ]
    );
    assert!(verification_commands(&owned(&[])).is_empty());
}

#[test]
fn units_are_activated_only_if_all_of_them_passed() {
    let files = owned(&["a", "b"]);
    for interactive in [true, false] {
        assert_eq!(
            after_verification(&files, &vec![true, false], interactive),
            AfterVerification::Skip { failed: owned(&["b"]) }
        );
    }
    let passed = vec![true; 2];
    assert_eq!(after_verification(&files, &passed, true), AfterVerification::Activate);
    assert_eq!(after_verification(&files, &passed, false), AfterVerification::Finish);
}

#[test]
fn a_failed_dry_run_is_reported() {
    assert_eq!(dry_run_outcome(true, "warning"), Ok(()));
    assert_eq!(
        dry_run_outcome(false, "no such image"),
        Err("Validation command failed: no such image".to_string())
    );
}

#[test]
fn the_prompt_depends_on_the_directory() {
    for dir in ["/home/u/.config/systemd/user", "/etc/systemd/system/"] {
        let (prompt, default) = activation_prompt(&owned(&[&format!("{dir}/a.service"), "x/b"]));
        assert_eq!(prompt, "Reload systemd daemon and activate/start the new unit files?");
        assert!(default);
    }
    let (prompt, default) = activation_prompt(&owned(&["out/a.service"]));
    assert_eq!(
        prompt,
        "Files were written to 'out' (outside systemd search path). \
         Reload daemon and attempt to activate anyway?"
    );
    assert!(!default);
    let (prompt, default) = activation_prompt(&vec![]);
    assert_eq!(
        prompt,
        "Files were written to '' (outside systemd search path). \
         Reload daemon and attempt to activate anyway?"
    );
    assert!(!default);
}

#[test]
fn units_are_enabled_or_started() {
    let files = owned(&["d/a.service", "d/a.timer", "d/b.service", "d/c.service", "d/x.txt"]);
    let contents = vec![
        Some("[Install]".to_string()),
        None,
        Some("[Service]\r\n[Install]\r\nWantedBy=x".to_string()),
        Some("[Service]".to_string()),
        Some("[Install]".to_string()),
    ];
    assert_eq!(
        activate_units(&files, &contents, false),
        vec![
            owned(&["systemctl", "--user", "daemon-reload"]),
            owned(&["systemctl", "--user", "enable", "--now", "a.timer"]),
            owned(&["systemctl", "--user", "enable", "--now", "b.service"]),
            owned(&["systemctl", "--user", "start", "c.service"]),
        ]
    );
    assert_eq!(
        activate_units(&owned(&["s.service"]), &vec![None], true),
        vec![owned(&["systemctl", "daemon-reload"]), owned(&["systemctl", "start", "s.service"])]
    );
}

#[test]
fn a_service_is_left_to_its_timer() {
    let files = owned(&["d/a.service", "e/a.timer"]);
    assert_eq!(unit_action(&files, "d/a.service", Some("[Install]")), None);
    assert_eq!(
        unit_action(&files, "e/a.timer", None),
        Some(owned(&["enable", "--now", "a.timer"]))
    );
    assert_eq!(
        unit_action(&owned(&["d/a.service"]), "d/a.service", Some("[Install]")),
        Some(owned(&["enable", "--now", "a.service"]))
    );
    assert_eq!(unit_action(&files, "..", None), None);
}

#[test]
fn quadlets_have_their_directory() {
    assert_eq!(quadlet_dir(true, None), Ok("/etc/containers/systemd".to_string()));
    assert_eq!(
        quadlet_dir(false, Some("/home/u")),
        Ok("/home/u/.config/containers/systemd".to_string())
    );
    assert_eq!(quadlet_dir(false, None), Err(NoHome));
    assert_eq!(NoHome.message(), "HOME environment variable not set");
}

#[test]
fn the_generator_is_tried_out() {
    let program = "/usr/lib/systemd/system-generators/podman-system-generator";
    assert_eq!(generator_cmd(true), vec![program, "--dryrun"]);
    assert_eq!(generator_cmd(false), vec![program, "--dryrun", "--user"]);
}

#[test]
fn links_are_made_elsewhere() {
    assert_eq!(
        link_question("/work", "/etc/containers/systemd").unwrap(),
        "Create symlinks in '/etc/containers/systemd'?"
    );
    assert_eq!(link_question("/etc/containers/systemd", "/etc/containers/systemd"), None);
    assert_eq!(link_question("/etc//containers/./systemd/", "/etc/containers/systemd"), None);
    assert_eq!(
        link_paths("out/a.pod", "/work", "/t"),
        Some(("/work/a.pod".to_string(), "/t/a.pod".to_string()))
    );
    assert_eq!(link_paths("out/..", "/work", "/t"), None);
}

#[test]
fn pods_are_restarted() {
    assert_eq!(pod_service("out/books.pod"), Some("books-pod.service".to_string()));
    assert_eq!(pod_service("out/books.container"), None);
    assert_eq!(pod_service(".pod"), None);
    assert_eq!(
        activate_quadlets(&owned(&["o/a.container", "o/b.pod", "o/c.x.pod"]), false),
        vec![
            owned(&["systemctl", "--user", "daemon-reload"]),
            owned(&["systemctl", "--user", "restart", "b-pod.service"]),
            owned(&["systemctl", "--user", "restart", "c.x-pod.service"]),
        ]
    );
}
