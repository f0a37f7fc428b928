use slate::utils::{
    ask_confirm, command_candidates, dialog_answer, dialog_labels, has_permission, is_interactive,
    systemctl_cmd, which, Asking,
};

#[test]
fn permissions_are_bits_of_the_mode() {
    assert!(has_permission(Some(0o755), 0o111));
    assert!(!has_permission(Some(0o644), 0o111));
    assert!(!has_permission(None, 0o777));
    assert!(is_interactive(Some(0o20666)));
    assert!(is_interactive(Some(0o200)));
    assert!(!is_interactive(Some(0o555)));
    assert!(!is_interactive(None));
}

#[test]
fn automatic_answers_come_first() {
    for yes in ["true", "TRUE", "True", "1"] {
        assert_eq!(ask_confirm(Some(yes), true, false), Asking::Answered(true));
        assert_eq!(ask_confirm(Some(yes), false, false), Asking::Answered(true));
    }
    for no in ["false", "FALSE", "fAlse", "0"] {
        assert_eq!(ask_confirm(Some(no), true, true), Asking::Answered(false));
        assert_eq!(ask_confirm(Some(no), false, true), Asking::Answered(false));
    }
}

#[test]
fn other_settings_decide_nothing() {
    for setting in [None, Some(""), Some("yes"), Some("10"), Some("truE "), Some("İ")] {
        assert_eq!(ask_confirm(setting, true, true), Asking::Dialog);
        assert_eq!(ask_confirm(setting, false, true), Asking::Answered(true));
        assert_eq!(ask_confirm(setting, false, false), Asking::Answered(false));
    }
}

#[test]
fn the_first_choice_is_the_default() {
    assert_eq!(dialog_labels(true), ("Yes", "No"));
    assert_eq!(dialog_labels(false), ("No", "Yes"));
    for default in [true, false] {
        for first in [true, false] {
            let (one, other) = dialog_labels(default);
            let chosen = if first { one } else { other };
            assert_eq!(dialog_answer(default, first), chosen == "Yes");
        }
        assert_eq!(dialog_answer(default, true), default);
    }
}

#[test]
fn users_have_their_own_systemd() {
    assert_eq!(systemctl_cmd(true), vec!["systemctl"]);
    assert_eq!(systemctl_cmd(false), vec!["systemctl", "--user"]);
}

#[test]
fn commands_are_looked_for_in_the_search_path() {
    assert_eq!(
        command_candidates("podlet", Some("/usr/bin:/opt/x/::rel")),
        vec!["/usr/bin/podlet", "/opt/x/podlet", "podlet", "rel/podlet"]
    );
    assert_eq!(command_candidates("./podlet", Some("/usr/bin")), vec!["./podlet"]);
    assert!(command_candidates("podlet", None).is_empty());
}

#[test]
fn the_first_executable_is_taken() {
    let places = command_candidates("c", Some("/a:/b:/d"));
    assert_eq!(
        which(&places, &vec![None, Some(0o644), Some(0o100755)]),
        Some("/d/c".to_string())
    );
    assert_eq!(
        which(&places, &vec![None, Some(0o001), Some(0o755)]),
        Some("/b/c".to_string())
    );
    assert_eq!(which(&places, &vec![None, Some(0o666), None]), None);
}
