use lud::path::{normalize, safe_join, same_text, Component};

fn name(text: &str) -> Component {
    Component::Normal(text.to_string())
}

fn names(texts: &[&str]) -> Option<Vec<String>> {
    Some(texts.iter().map(|text| text.to_string()).collect())
}

#[test]
fn empty_and_dot_give_the_base() {
    assert_eq!(safe_join("/tmp/s", ""), Some("/tmp/s".to_string()));
    assert_eq!(safe_join("/tmp/s", "."), Some("/tmp/s".to_string()));
    assert_eq!(safe_join("/tmp/s", "./"), Some("/tmp/s".to_string()));
    assert_eq!(safe_join("storage/", "."), Some("storage/".to_string()));
}

#[test]
fn names_are_joined_onto_the_base() {
    assert_eq!(safe_join("/tmp/s", "a.bin"), Some("/tmp/s/a.bin".to_string()));
    assert_eq!(safe_join("/tmp/s", "sub/a.bin"), Some("/tmp/s/sub/a.bin".to_string()));
    assert_eq!(safe_join("/tmp/s/", "sub/a.bin"), Some("/tmp/s/sub/a.bin".to_string()));
    assert_eq!(safe_join("./storage", "x/y/z"), Some("./storage/x/y/z".to_string()));
}

#[test]
fn dots_and_repeated_separators_are_dropped() {
    assert_eq!(safe_join("/r", "./a"), Some("/r/a".to_string()));
    assert_eq!(safe_join("/r", "a/./b"), Some("/r/a/b".to_string()));
    assert_eq!(safe_join("/r", "a//b"), Some("/r/a/b".to_string()));
    assert_eq!(safe_join("/r", "a/b/"), Some("/r/a/b".to_string()));
    assert_eq!(safe_join("/r", "././."), Some("/r/".to_string()));
}

#[test]
fn parent_steps_back_within_the_base() {
    assert_eq!(safe_join("/r", "a/../b"), Some("/r/b".to_string()));
    assert_eq!(safe_join("/r", "a/b/../../c"), Some("/r/c".to_string()));
    assert_eq!(safe_join("/r", "a/.."), Some("/r/".to_string()));
}

#[test]
fn escapes_are_rejected() {
    assert_eq!(safe_join("/tmp/s", ".."), None);
    assert_eq!(safe_join("/tmp/s", "../x"), None);
    assert_eq!(safe_join("/tmp/s", "../../etc/passwd"), None);
    assert_eq!(safe_join("/tmp/s", "a/../../x"), None);
    assert_eq!(safe_join("/tmp/s", "a/b/../../../x"), None);
    assert_eq!(safe_join("/tmp/s", "./../x"), None);
    assert_eq!(safe_join("/tmp/s", "a/../.."), None);
}

#[test]
fn absolute_paths_are_rejected() {
    assert_eq!(safe_join("/tmp/s", "/etc/passwd"), None);
    assert_eq!(safe_join("/tmp/s", "/"), None);
    assert_eq!(safe_join("/tmp/s", "//x"), None);
    assert_eq!(safe_join("/tmp/s", "/tmp/s/x"), None);
}

#[test]
fn results_lie_within_the_base() {
    let base = "/srv/files";
    for relative in ["", ".", "a", "a/b", "a/../b", "x/./y", "../a", "/abs", "a/../../b"] {
        if let Some(joined) = safe_join(base, relative) {
            assert!(camino::Utf8Path::new(&joined).starts_with(base));
        }
    }
}

#[test]
fn normalize_keeps_names() {
    assert_eq!(normalize(&vec![]), names(&[]));
    assert_eq!(normalize(&vec![name("a"), name("b")]), names(&["a", "b"]));
    assert_eq!(normalize(&vec![Component::CurDir, name("a"), Component::CurDir]), names(&["a"]));
}

#[test]
fn normalize_steps_back() {
    assert_eq!(normalize(&vec![name("a"), Component::ParentDir]), names(&[]));
    assert_eq!(normalize(&vec![name("a"), Component::ParentDir, name("b")]), names(&["b"]));
    assert_eq!(
        normalize(&vec![name("a"), name("b"), Component::ParentDir, name("c")]),
        names(&["a", "c"])
    );
}

#[test]
fn normalize_rejects_what_would_leave() {
    assert_eq!(normalize(&vec![Component::ParentDir]), None);
    assert_eq!(normalize(&vec![name("a"), Component::ParentDir, Component::ParentDir]), None);
    assert_eq!(normalize(&vec![Component::CurDir, Component::ParentDir, name("a")]), None);
}

#[test]
fn normalize_rejects_root_prefix_and_empty_names() {
    assert_eq!(normalize(&vec![Component::RootDir, name("a")]), None);
    assert_eq!(normalize(&vec![name("a"), Component::RootDir]), None);
    assert_eq!(normalize(&vec![Component::Prefix, name("a")]), None);
    assert_eq!(normalize(&vec![name("a"), name("")]), None);
}

#[test]
fn same_text_compares_strings() {
    assert!(same_text("", ""));
    assert!(same_text("./", "./"));
    assert!(same_text("päth", "päth"));
    assert!(!same_text(".", "./"));
    assert!(!same_text("a", "b"));
    assert!(!same_text("ab", "a"));
}
