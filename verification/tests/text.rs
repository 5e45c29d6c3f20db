use unrot::path::{components_of, file_name, join, parent, same_path};
use unrot::text::{chars_of, contains, decimal_string, edit_distance_of, trim_bounds};

fn comps(s: &str) -> Vec<String> {
    components_of(s).into_iter().map(|c| c.into_iter().collect()).collect()
}

fn name(s: &str) -> Option<String> {
    file_name(s).map(|c| c.into_iter().collect())
}

#[test]
fn decimal_rendering() {
    assert_eq!(decimal_string(0), "0");
    assert_eq!(decimal_string(7), "7");
    assert_eq!(decimal_string(10), "10");
    assert_eq!(decimal_string(1234567890), "1234567890");
    assert_eq!(decimal_string(u64::MAX), u64::MAX.to_string());
}

#[test]
fn substring_search() {
    let hay = chars_of("config.yml.bak");
    assert!(contains(&hay, &chars_of("config.yml")));
    assert!(contains(&hay, &chars_of("")));
    assert!(contains(&hay, &chars_of("bak")));
    assert!(!contains(&hay, &chars_of("yml.baks")));
    assert!(!contains(&chars_of("a"), &chars_of("ab")));
}

#[test]
fn trimming_bounds() {
    let cs = chars_of(" \u{85}é x\t");
    assert_eq!(trim_bounds(&cs), (2, 5));
    assert_eq!(trim_bounds(&chars_of("   ")), (3, 3));
}

#[test]
fn path_components() {
    assert_eq!(comps("/a//b/./c/"), vec!["/", "a", "b", "c"]);
    assert_eq!(comps("./a/../b"), vec![".", "a", "..", "b"]);
    assert_eq!(comps("a/."), vec!["a"]);
    assert_eq!(comps(""), Vec::<String>::new());
    assert_eq!(comps("."), vec!["."]);
    assert_eq!(comps(".hidden/x"), vec![".hidden", "x"]);
}

#[test]
fn file_names() {
    assert_eq!(name("/usr/bin/"), Some("bin".to_string()));
    assert_eq!(name("tmp/foo.txt"), Some("foo.txt".to_string()));
    assert_eq!(name("foo.txt/."), Some("foo.txt".to_string()));
    assert_eq!(name("foo.txt/.//"), Some("foo.txt".to_string()));
    assert_eq!(name("foo.txt/.."), None);
    assert_eq!(name("/"), None);
    assert_eq!(name(""), None);
}

#[test]
fn parents_and_joins() {
    assert_eq!(parent("/foo/bar"), Some("/foo".to_string()));
    assert_eq!(parent("/foo"), Some("/".to_string()));
    assert_eq!(parent("/"), None);
    assert_eq!(parent("foo"), Some("".to_string()));
    assert_eq!(parent(""), None);
    assert_eq!(parent("./a"), Some(".".to_string()));
    assert_eq!(join("/tmp", "etc"), "/tmp/etc");
    assert_eq!(join("/tmp/", "etc"), "/tmp/etc");
    assert_eq!(join("/tmp", "/etc"), "/etc");
    assert_eq!(join("", "etc"), "etc");
}

#[test]
fn path_equality_by_components() {
    assert!(same_path("/a/b", "/a//b/"));
    assert!(same_path("a/./b", "a/b"));
    assert!(!same_path("./a", "a"));
    assert!(!same_path("/a", "a"));
    assert!(!same_path("a/../b", "b"));
}

#[test]
fn edit_distances() {
    let d = |a: &str, b: &str| edit_distance_of(&chars_of(a), &chars_of(b));
    assert_eq!(d("kitten", "sitting"), 3);
    assert_eq!(d("flaw", "lawn"), 2);
    assert_eq!(d("", "abc"), 3);
    assert_eq!(d("abc", ""), 3);
    assert_eq!(d("same", "same"), 0);
    assert_eq!(d("config.yml", "config.yml.bak"), 4);
}
