use chippytea::paths::{file_name, is_above, is_same_place, is_under, join, parent};

fn name(path: &str) -> Option<String> {
    file_name(path.as_bytes()).map(|name| String::from_utf8(name.to_vec()).unwrap())
}

fn above(path: &str) -> Option<String> {
    parent(path.as_bytes()).map(|found| String::from_utf8(found.to_vec()).unwrap())
}

#[test]
fn paths_are_compared_by_component() {
    let under = |path: &str, base: &str| is_under(path.as_bytes(), base.as_bytes());
    for base in ["/r/a", "/r/a/", "//r//a", "/r/./a/.", "/r/a//"] {
        assert!(under("/r/a", base), "{base}");
        assert!(under("/r/a/b", base), "{base}");
        assert!(under("/r//a/./b/", base), "{base}");
        assert!(!under("/r/ab", base), "{base}");
        assert!(!under("/r", base), "{base}");
        assert!(!under("r/a", base), "{base}");
    }
    assert!(under("/r", "/"));
    assert!(under("/r", ""));
    assert!(under("a/b", "a"));
    assert!(!under("./a/b", "a"));
    assert!(under("./a/b", "./a"));
    assert!(!under("/r/../a", "/a"));
    let same = |a: &str, b: &str| is_same_place(a.as_bytes(), b.as_bytes());
    assert!(same("/r/a/", "//r/./a"));
    assert!(!same("/r/a", "/r/a/b"));
    assert!(!same("./a", "a"));
}

#[test]
fn parents_and_names_leave_out_what_adds_no_component() {
    assert_eq!(above("/r/a").as_deref(), Some("/r"));
    assert_eq!(above("/r//a/").as_deref(), Some("/r"));
    assert_eq!(above("/r/./a/.").as_deref(), Some("/r"));
    assert_eq!(above("/r").as_deref(), Some("/"));
    assert_eq!(above("//r").as_deref(), Some("/"));
    assert_eq!(above("r").as_deref(), Some(""));
    assert_eq!(above("./r").as_deref(), Some("."));
    assert_eq!(above("/"), None);
    assert_eq!(above("/."), None);
    assert_eq!(above(""), None);
    assert_eq!(name("/r/a/").as_deref(), Some("a"));
    assert_eq!(name("/r/a/.").as_deref(), Some("a"));
    assert_eq!(name("/r/a/.."), None);
    assert_eq!(name("/"), None);
    assert_eq!(name("."), None);
    assert_eq!(name(""), None);
}

#[test]
fn entries_are_joined_with_one_separator() {
    assert_eq!(join(b"/r", b"a").as_slice(), b"/r/a");
    assert_eq!(join(b"/r/", b"a").as_slice(), b"/r/a");
    assert_eq!(join(b"/", b"a").as_slice(), b"/a");
    assert_eq!(join(b"", b"a").as_slice(), b"a");
}

#[test]
fn folders_above_a_path_are_told_by_their_texts() {
    let above = |text: &str, path: &str| is_above(text.as_bytes(), path.as_bytes());
    assert!(above("/r/a/", "/r/a/"));
    assert!(!above("/r/a", "/r/a/"));
    assert!(above("/r", "/r/a/"));
    assert!(above("/r//a", "/r//a/b"));
    assert!(!above("/r/a", "/r//a/b"));
    assert!(above("/", "/r//a/b"));
}
