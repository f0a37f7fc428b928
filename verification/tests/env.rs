use slate::env::{
    fill, find_placeholders, parse_env_line, questions_of, settle_line, source_line, EnvLine,
    Environment,
};

fn pair(key: &str, value: &str) -> Option<(String, String)> {
    Some((key.to_string(), value.to_string()))
}

#[test]
fn lines_assign_values() {
    assert_eq!(parse_env_line("A=1"), pair("A", "1"));
    assert_eq!(parse_env_line("  A = some value  "), pair("A", "some value"));
    assert_eq!(parse_env_line("A=x=y"), pair("A", "x=y"));
    assert_eq!(parse_env_line("A="), pair("A", ""));
    assert_eq!(parse_env_line("=1"), pair("", "1"));
}

#[test]
fn quotes_and_comments_are_taken_off() {
    assert_eq!(parse_env_line("A=\"a # b\""), pair("A", "a # b"));
    assert_eq!(parse_env_line("A='a # b'"), pair("A", "a # b"));
    assert_eq!(parse_env_line("A=a # b"), pair("A", "a"));
    assert_eq!(parse_env_line("A='a' # b"), pair("A", "'a'"));
    assert_eq!(parse_env_line("A=\""), pair("A", "\""));
    assert_eq!(parse_env_line("A=\"\""), pair("A", ""));
    assert_eq!(parse_env_line("A=\"x'"), pair("A", "\"x'"));
}

#[test]
fn other_lines_are_ignored() {
    assert_eq!(parse_env_line(""), None);
    assert_eq!(parse_env_line(" \t"), None);
    assert_eq!(parse_env_line("  # A=1"), None);
    assert_eq!(parse_env_line("export A"), None);
}

#[test]
fn set_variables_are_overwritten_only_on_confirmation() {
    let mut env = Environment::new();
    env.put("A", "old");

    assert_eq!(source_line(&env, "# nothing"), EnvLine::Ignore);
    let fresh = source_line(&env, "B=new");
    assert_eq!(fresh, EnvLine::Assign { key: "B".to_string(), value: "new".to_string() });
    let taken = || source_line(&env, "A=new");
    assert_eq!(
        taken(),
        EnvLine::Ask {
            key: "A".to_string(),
            value: "new".to_string(),
            question: "Environment variable 'A' is already set to 'old'. \
                       Overwrite with 'new' for variable substitution?"
                .to_string(),
        }
    );
    let (first, second) = (taken(), taken());

    settle_line(&mut env, EnvLine::Ignore, true);
    assert_eq!(env.len(), 1);
    settle_line(&mut env, fresh, false);
    assert_eq!(env.get("B"), Some(&"new".to_string()));
    settle_line(&mut env, first, false);
    assert_eq!(env.get("A"), Some(&"old".to_string()));
    settle_line(&mut env, second, true);
    assert_eq!(env.get("A"), Some(&"new".to_string()));
}

#[test]
fn placeholders_are_found() {
    assert_eq!(
        find_placeholders("${A}-${_b9} ${9} ${} ${A B} $${C} ${${D}} ${E"),
        vec!["${A}", "${_b9}", "${C}", "${D}"]
    );
    assert!(find_placeholders("none").is_empty());
    assert_eq!(find_placeholders("ä${ö}${O}"), vec!["${O}"]);
}

#[test]
fn confirmed_placeholders_are_filled() {
    let mut env = Environment::new();
    env.put("A", "1");
    env.put("B", "2");
    let text = "${A}${B}${C}${A}";
    assert_eq!(
        questions_of(text, &env),
        vec![
            "Replace '${A}' with '1'?",
            "Replace '${B}' with '2'?",
            "Replace '${A}' with '1'?",
        ]
    );
    assert_eq!(fill(text, &env, &vec![true, false, false], 0), "1${B}${C}1");
    assert_eq!(fill(text, &env, &vec![true, false, true, false], 1), "${A}2${C}${A}");
}
