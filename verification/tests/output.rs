use slate::formats::{Duplicate, Ini, IniFiles, Section, StrMap};
use slate::output::{print_files, write_files};
use slate::quadlet::{parse_raw_quadlets, quadlet_blocks};
use slate::text::{
    count, ends_with, join, replace, rfind, same, split, split_once, starts_with, trim,
};

fn ini(sections: &[(&str, &[(&str, &str)])]) -> Ini {
    let mut r = Ini::new();
    for (name, lines) in sections {
        let mut section = Section::new();
        for (key, value) in *lines {
            section.put(key, value);
        }
        r.insert(name.to_string(), section);
    }
    r
}

fn files() -> IniFiles {
    let mut r = IniFiles::new();
    r.insert("a.pod".to_string(), ini(&[("Pod", &[("k", "v"), ("x", "= y")]), ("Install", &[])]));
    r.insert("b.container".to_string(), ini(&[("Container", &[("Image", "---")])]));
    r
}

#[test]
fn documents_become_text() {
    assert_eq!(Ini::new().to_text(), "");
    assert_eq!(
        ini(&[("B", &[("z", "1"), ("a", "two words")]), ("A", &[])]).to_text(),
        "[B]\r\nz=1\r\na=two words\r\n[A]\r\n"
    );
}

#[test]
fn files_are_printed_one_after_the_other() {
    assert_eq!(
        print_files(&files()),
        "# a.pod\n[Pod]\r\nk=v\r\nx== y\r\n[Install]\r\n\n\n---\n\n\
         # b.container\n[Container]\r\nImage=---\r\n\n"
    );
    assert_eq!(print_files(&IniFiles::new()), "");
}

#[test]
fn printed_files_are_found_again() {
    let text = print_files(&files());
    assert_eq!(
        quadlet_blocks(&text),
        vec![
            ("a.pod".to_string(), "[Pod]\r\nk=v\r\nx== y\r\n[Install]\r\n\n".to_string()),
            ("b.container".to_string(), "[Container]\r\nImage=---\r\n\n".to_string()),
        ]
    );
    let back = parse_raw_quadlets(&text).unwrap();
    assert_eq!(back.0.len(), 2);
    assert_eq!(
        back.get("a.pod").unwrap().get("Pod").unwrap().get("k"),
        Some(&"v".to_string())
    );
    assert_eq!(
        back.get("b.container").unwrap().get("Container").unwrap().get("Image"),
        Some(&"---".to_string())
    );
}

#[test]
fn nothing_is_found_in_nothing() {
    assert!(quadlet_blocks("").is_empty());
    assert_eq!(parse_raw_quadlets(&print_files(&IniFiles::new())).unwrap().0.len(), 0);
}

#[test]
fn files_are_written_to_a_directory() {
    assert_eq!(
        write_files(&files(), "out/"),
        vec![
            (
                "out/a.pod".to_string(),
                "[Pod]\r\nk=v\r\nx== y\r\n[Install]\r\n".to_string()
            ),
            ("out/b.container".to_string(), "[Container]\r\nImage=---\r\n".to_string()),
        ]
    );
}

#[test]
fn maps_remember_their_order() {
    let mut map: StrMap<String> = StrMap::new();
    for (key, value) in [("b", "1"), ("a", "2"), ("c", "3"), ("b", "4")] {
        map.put(key, value);
    }
    let list = |m: &StrMap<String>| -> Vec<(String, String)> {
        (0..m.len()).map(|i| (m.name_at(i).clone(), m.value_at(i).clone())).collect()
    };
    let pair = |k: &str, v: &str| (k.to_string(), v.to_string());
    assert_eq!(list(&map), vec![pair("b", "4"), pair("a", "2"), pair("c", "3")]);
    assert_eq!(map.remove("a"), Some("2".to_string()));
    assert_eq!(map.remove("a"), None);
    let copy = map.copy();
    assert_eq!(list(&copy), vec![pair("b", "4"), pair("c", "3")]);
    assert!(copy.contains_key("c"));
    assert!(!copy.contains_key("a"));
}

#[test]
fn sections_are_added_where_they_are_missing() {
    let mut document = ini(&[("A", &[("k", "v")])]);
    document.ensure_section("A");
    document.ensure_section("B");
    document.put("A", "k2", "v2");
    document.put("C", "x", "y");
    assert_eq!(document.to_text(), "[A]\r\nk=v\r\nk2=v2\r\n[B]\r\n[C]\r\nx=y\r\n");
    assert_eq!(document.copy().to_text(), document.to_text());
}

#[test]
fn text_functions_follow_the_standard_library() {
    for s in ["", "a", "aba", "abab", " x y\t", "\u{a0}ä\u{2003}", "---", "a--b---c"] {
        for p in ["a", "b", "ab", "--", "ä", " "] {
            assert_eq!(split(s, p), s.split(p).collect::<Vec<_>>());
            assert_eq!(split_once(s, p), s.split_once(p));
            assert_eq!(starts_with(s, p), s.starts_with(p));
            assert_eq!(ends_with(s, p), s.ends_with(p));
            assert_eq!(slate::text::contains(s, p), s.contains(p));
            assert_eq!(replace(s, p, "<>"), s.replace(p, "<>"));
            assert_eq!(same(s, p), s == p);
            assert_eq!(join(&split(s, p), p), s);
        }
        assert_eq!(trim(s), s.trim());
        assert_eq!(count(s, 'a'), s.matches('a').count());
        assert_eq!(rfind(s, 'a'), s.chars().collect::<Vec<_>>().iter().rposition(|c| *c == 'a'));
    }
}
