use slate::formats::{Ini, IniFiles, Section};
use slate::systemd::process_systemd;

fn section(entries: &[(&str, &str)]) -> Section {
    let mut r = Section::new();
    for (key, value) in entries {
        r.insert(key.to_string(), value.to_string());
    }
    r
}

fn entries(section: &Section) -> Vec<(String, String)> {
    let mut r: Vec<(String, String)> = (0..section.len())
        .map(|i| (section.name_at(i).clone(), section.value_at(i).clone()))
        .collect();
    r.sort();
    r
}

fn owned(pairs: &[(&str, &str)]) -> Vec<(String, String)> {
    pairs.iter().map(|(k, v)| (k.to_string(), v.to_string())).collect()
}

#[test]
fn service_with_timer() {
    let mut units = IniFiles::new();
    let mut unit_content = Ini::new();

    let mut unit_section = Section::new();
    unit_section.insert("Description".to_string(), "A test service".to_string());
    unit_content.insert("Unit".to_string(), unit_section);

    let mut service_section = Section::new();
    service_section.insert("ExecStart".to_string(), "/bin/echo 'Hello'".to_string());
    unit_content.insert("Service".to_string(), service_section);

    let mut timer_section = Section::new();
    timer_section.insert("OnCalendar".to_string(), "daily".to_string());
    unit_content.insert("Timer".to_string(), timer_section);

    units.insert("test".to_string(), unit_content);

    let result = process_systemd(units);

    let service = result.get("test.service").unwrap();
    let timer = result.get("test.timer").unwrap();

    assert_eq!(result.0.len(), 2);
    assert_eq!(service.0.len(), 2);
    assert_eq!(
        entries(service.get("Unit").unwrap()),
        owned(&[("Description", "A test service")])
    );
    assert_eq!(
        entries(service.get("Service").unwrap()),
        owned(&[
            ("ExecStart", "/bin/echo 'Hello'"),
            ("StandardError", "journal"),
            ("StandardOutput", "journal"),
            ("Type", "oneshot"),
        ])
    );
    assert_eq!(timer.0.len(), 3);
    assert_eq!(
        entries(timer.get("Unit").unwrap()),
        owned(&[("Description", "Timer for test")])
    );
    assert_eq!(
        entries(timer.get("Timer").unwrap()),
        owned(&[("OnCalendar", "daily"), ("Unit", "test.service")])
    );
    assert_eq!(
        entries(timer.get("Install").unwrap()),
        owned(&[("WantedBy", "timers.target")])
    );
}

#[test]
fn service_without_timer_keeps_its_type() {
    let mut unit = Ini::new();
    unit.insert("Service".to_string(), section(&[("Type", "exec"), ("StandardOutput", "null")]));
    unit.insert("Install".to_string(), section(&[("WantedBy", "default.target")]));
    let mut units = IniFiles::new();
    units.insert("startup_server".to_string(), unit);

    let result = process_systemd(units);
    assert_eq!(result.0.len(), 1);
    let service = result.get("startup_server.service").unwrap();
    assert_eq!(
        entries(service.get("Service").unwrap()),
        owned(&[("StandardError", "journal"), ("StandardOutput", "journal"), ("Type", "exec")])
    );
    assert_eq!(
        entries(service.get("Install").unwrap()),
        owned(&[("WantedBy", "default.target")])
    );
}

#[test]
fn timed_service_keeps_a_type_of_its_own() {
    let mut unit = Ini::new();
    unit.insert("Service".to_string(), section(&[("Type", "simple")]));
    unit.insert("Timer".to_string(), section(&[]));
    let mut units = IniFiles::new();
    units.insert("a".to_string(), unit);
    let result = process_systemd(units);
    let service = result.get("a.service").unwrap();
    assert_eq!(service.get("Service").unwrap().get("Type"), Some(&"simple".to_string()));
    assert!(service.get("Timer").is_none());
}

#[test]
fn timer_description_moves_to_the_unit_section() {
    let mut unit = Ini::new();
    unit.insert(
        "Timer".to_string(),
        section(&[("Description", "Now and then"), ("Unit", "other.service")]),
    );
    let mut units = IniFiles::new();
    units.insert("b".to_string(), unit);
    let result = process_systemd(units);
    let timer = result.get("b.timer").unwrap();
    assert_eq!(
        entries(timer.get("Unit").unwrap()),
        owned(&[("Description", "Now and then")])
    );
    assert_eq!(entries(timer.get("Timer").unwrap()), owned(&[("Unit", "b.service")]));
    assert_eq!(
        entries(result.get("b.service").unwrap().get("Service").unwrap()),
        owned(&[
            ("StandardError", "journal"),
            ("StandardOutput", "journal"),
            ("Type", "oneshot"),
        ])
    );
}

#[test]
fn every_declaration_gives_its_units() {
    let mut units = IniFiles::new();
    for name in ["x", "y.timer", "z.service"] {
        let mut unit = Ini::new();
        unit.insert("Timer".to_string(), section(&[("OnBootSec", "5min")]));
        units.insert(name.to_string(), unit);
    }
    let result = process_systemd(units);
    assert_eq!(result.0.len(), 6);
    for name in ["x", "y.timer", "z.service"] {
        assert!(result.get(&format!("{name}.service")).is_some());
        assert_eq!(
            result.get(&format!("{name}.timer")).unwrap().get("Timer").unwrap().get("Unit"),
            Some(&format!("{name}.service"))
        );
    }
}

#[test]
fn nothing_comes_of_nothing() {
    assert_eq!(process_systemd(IniFiles::new()).0.len(), 0);
}
