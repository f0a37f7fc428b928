use slate::paths::{
    absolute, extension, file_name, file_stem, inner_extension, join_path, normalize_path,
    normalize_path_with_base, parent, same_path,
};

#[test]
fn test_normalize_path() {
    let current_dir = "/home/user/project";
    let parent_dir = "/home/user";

    assert_eq!(normalize_path("/a/b/c", current_dir), "/a/b/c");
    assert_eq!(normalize_path("/a/b/../c", current_dir), "/a/c");
    assert_eq!(normalize_path("a/b/c", current_dir), format!("{}/a/b/c", current_dir));
    assert_eq!(normalize_path("a/../b/c", current_dir), format!("{}/b/c", current_dir));
    let up = format!("{parent_dir}/a/b/c");
    assert_eq!(normalize_path("../a/b/c", current_dir), up);
}

#[test]
fn normalizing_follows_the_standard_library() {
    for path in [
        "", "/", "//", ".", "..", "a", "./a/", "a//b", "/..", "/../../a", "a/..", "a/../..",
        "a/../../b", "/a/./b/.././c//", "../..", "x/.../y", ".a/..b",
    ] {
        let mut expected = std::path::PathBuf::new();
        let whole = std::path::Path::new("/one/two").join(path);
        for component in whole.components() {
            match component {
                std::path::Component::ParentDir => {
                    expected.pop();
                }
                std::path::Component::CurDir => {}
                other => expected.push(other.as_os_str()),
            }
        }
        assert_eq!(normalize_path(path, "/one/two"), expected.to_str().unwrap(), "{path}");
    }
    assert_eq!(normalize_path("a/../../b", ""), "b");
    assert_eq!(normalize_path("", ""), "");
}

#[test]
fn a_base_stands_in_the_current_directory() {
    assert_eq!(normalize_path_with_base(Some("x/y"), "../z", "/c"), "/c/x/z");
    assert_eq!(normalize_path_with_base(Some("/x/y"), "z", "/c"), "/x/y/z");
    assert_eq!(normalize_path_with_base(Some("/x"), "/z", "/c"), "/z");
    assert_eq!(normalize_path_with_base(Some(""), "z", "/c"), "/c/z");
    assert_eq!(normalize_path_with_base(None, "z", "/c"), "/c/z");
}

#[test]
fn normalizing_again_changes_nothing() {
    for path in ["/a/b/../c", "a/../b", "../x", "/", "./q/./r"] {
        let once = normalize_path(path, "/work/dir");
        assert_eq!(normalize_path(&once, "/elsewhere"), once);
        assert!(absolute(&once));
    }
    assert_eq!(normalize_path("/a/b/name/..", "/"), normalize_path("/a/b", "/"));
}

#[test]
fn normal_paths_have_plain_parts() {
    for path in ["/a//b/../c/", "/..//x", "x/./y/", "/a/../b//c/./d"] {
        let normal = normalize_path(path, "/w");
        assert!(normal.starts_with('/') && !normal.ends_with('/'));
        assert!(normal[1..].split('/').all(|part| !["", ".", ".."].contains(&part)));
    }
    assert_eq!(normalize_path("/a/..", "/w"), "/");
}

#[test]
fn names_and_extensions_follow_the_standard_library() {
    for path in [
        "", "/", ".", "..", "a", "a.b", "a.b.c", ".a", ".a.b", "a.", "/x/y.z", "x/y.z/", "x/y.z/.",
        "x/..", "x/y.z//", "...", "..a", "a/./b.c", "x/y.json.tera", ".tera", "x/.tera", "a.tera",
        "..tera", "x/..tera",
    ] {
        let p = std::path::Path::new(path);
        assert_eq!(file_name(path).map(str::to_string), p.file_name().map(|s| s.to_str().unwrap().to_string()), "{path}");
        assert_eq!(extension(path).map(str::to_string), p.extension().map(|s| s.to_str().unwrap().to_string()), "{path}");
        if let Some(name) = file_name(path) {
            assert_eq!(Some(file_stem(name).to_string()), p.file_stem().map(|s| s.to_str().unwrap().to_string()), "{path}");
        }
        assert_eq!(
            parent(path).map(str::to_string),
            p.parent().map(|d| d.to_str().unwrap().to_string()),
            "{path}"
        );
        let mut stripped = p.to_path_buf();
        stripped.set_extension("");
        assert_eq!(
            inner_extension(path).map(str::to_string),
            stripped.extension().map(|s| s.to_str().unwrap().to_string()),
            "{path}"
        );
    }
}

#[test]
fn parents_follow_the_standard_library() {
    for path in ["/a", "//a", "/a//b", "a/b/./c", "./a", "a/./", "/.", "/./a", "a//.//b", "./."] {
        let p = std::path::Path::new(path);
        assert_eq!(
            parent(path).map(str::to_string),
            p.parent().map(|d| d.to_str().unwrap().to_string()),
            "{path}"
        );
    }
}

#[test]
fn joining_and_comparing_follow_the_standard_library() {
    let all = ["", "/", "a", "a/", "/a", "./a", "a/.", "a//b", "a/b", "../a", ".", "a/../a"];
    for a in all {
        for b in all {
            let (p, q) = (std::path::Path::new(a), std::path::Path::new(b));
            assert_eq!(join_path(a, b), p.join(q).to_str().unwrap(), "{a} {b}");
            assert_eq!(same_path(a, b), p == q, "{a} {b}");
        }
    }
}
