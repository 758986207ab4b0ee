use unfold_core::naming::{candidate_name, decimal_string, file_name, join_path, split_name};

fn name(p: &str) -> Option<String> {
    file_name(p)
}

#[test]
fn file_name_of_plain_paths() {
    assert_eq!(name("a/b.txt"), Some("b.txt".to_string()));
    assert_eq!(name("b.txt"), Some("b.txt".to_string()));
    assert_eq!(name("./x"), Some("x".to_string()));
    assert_eq!(name("/abs/dir/file"), Some("file".to_string()));
}

#[test]
fn file_name_ignores_trailing_separators_and_dots() {
    assert_eq!(name("a/b/"), Some("b".to_string()));
    assert_eq!(name("a/b//"), Some("b".to_string()));
    assert_eq!(name("a/."), Some("a".to_string()));
    assert_eq!(name("a/./"), Some("a".to_string()));
}

#[test]
fn file_name_missing() {
    assert_eq!(name("a/.."), None);
    assert_eq!(name(".."), None);
    assert_eq!(name("/"), None);
    assert_eq!(name(""), None);
    assert_eq!(name("."), None);
    assert_eq!(name("./"), None);
}

#[test]
fn file_name_agrees_with_std_on_examples() {
    for p in ["a/b.txt", "a/b/", "a/.", "a/..", "/", "", ".", "x/./y", "..", "a//b", "./.", "/a/."] {
        let expected = std::path::Path::new(p)
            .file_name()
            .map(|s| s.to_str().unwrap().to_string());
        assert_eq!(name(p), expected, "path {:?}", p);
    }
}

#[test]
fn join_path_cases() {
    assert_eq!(join_path("dest", "a.txt"), "dest/a.txt");
    assert_eq!(join_path("dest/", "a.txt"), "dest/a.txt");
    assert_eq!(join_path("", "a.txt"), "a.txt");
    assert_eq!(join_path("dest", "/abs"), "/abs");
}

#[test]
fn join_path_agrees_with_std_on_examples() {
    for (d, n) in [("dest", "a"), ("dest/", "a"), ("", "a"), ("/", "a"), ("d", "/x"), ("a/b", "c.d")] {
        let expected = std::path::Path::new(d).join(n).to_str().unwrap().to_string();
        assert_eq!(join_path(d, n), expected);
    }
}

#[test]
fn split_name_cases() {
    assert_eq!(split_name("a.tar.gz"), ("a.tar".to_string(), ".gz".to_string()));
    assert_eq!(split_name("noext"), ("noext".to_string(), "".to_string()));
    assert_eq!(split_name(".bashrc"), ("".to_string(), ".bashrc".to_string()));
    assert_eq!(split_name("trailing."), ("trailing".to_string(), ".".to_string()));
    assert_eq!(split_name(""), ("".to_string(), "".to_string()));
}

#[test]
fn split_name_roundtrip() {
    for n in ["a.tar.gz", "noext", ".bashrc", "x.", "日本.文字"] {
        let (s, e) = split_name(n);
        assert_eq!(format!("{}{}", s, e), n);
    }
}

#[test]
fn decimal_string_values() {
    assert_eq!(decimal_string(0), "0");
    assert_eq!(decimal_string(7), "7");
    assert_eq!(decimal_string(10), "10");
    assert_eq!(decimal_string(9999), "9999");
    assert_eq!(decimal_string(u32::MAX), u32::MAX.to_string());
}

#[test]
fn candidate_name_format() {
    assert_eq!(candidate_name("file.txt", 1), "file_1.txt");
    assert_eq!(candidate_name("photo.jpg", 1), "photo_1.jpg");
    assert_eq!(candidate_name("README", 12), "README_12");
    assert_eq!(candidate_name(".bashrc", 2), "_2.bashrc");
    assert_eq!(candidate_name("a.tar.gz", 9999), "a.tar_9999.gz");
}

#[test]
fn candidates_are_distinct_and_differ_from_name() {
    let n = "report.pdf";
    let mut seen = std::collections::HashSet::new();
    for k in 1..=200 {
        let c = candidate_name(n, k);
        assert_ne!(c, n);
        assert!(seen.insert(c));
    }
}
