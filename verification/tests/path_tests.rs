use image_drift_tracker::path::FsPath;

fn p(s: &str) -> FsPath {
    FsPath::parse(s)
}

#[test]
fn parse_drops_empty_and_dot_pieces() {
    assert_eq!(p("/etc//./ssh/").to_string(), "/etc/ssh");
    assert_eq!(p("a/./b").to_string(), "a/b");
    assert_eq!(p("./a").to_string(), "a");
    assert_eq!(p("/a/../b").to_string(), "/a/../b");
}

#[test]
fn parse_root_and_empty() {
    assert_eq!(p("/").to_string(), "/");
    assert_eq!(p("///").to_string(), "/");
    assert_eq!(p("").to_string(), "");
    assert!(p("/x").is_absolute());
    assert!(!p("x").is_absolute());
    assert!(!p("").is_absolute());
}

#[test]
fn parse_render_round_trip() {
    for s in ["/", "/etc", "/usr/local/bin", "a", "a/b/c", ""] {
        let q = p(s);
        assert!(p(&q.to_string()).same_as(&q));
        assert_eq!(q.to_string(), s);
    }
}

#[test]
fn join_appends_relative_and_replaces_with_absolute() {
    assert_eq!(p("/a").join(&p("b/c")).to_string(), "/a/b/c");
    assert_eq!(p("/a").join(&p("/b")).to_string(), "/b");
    assert_eq!(p("").join(&p("x")).to_string(), "x");
    assert_eq!(p("/a").join(&p("")).to_string(), "/a");
}

#[test]
fn starts_with_compares_components() {
    assert!(p("/usr/local").starts_with(&p("/usr")));
    assert!(!p("/usrx").starts_with(&p("/usr")));
    assert!(p("/usr").starts_with(&p("/usr")));
    assert!(p("/usr").starts_with(&p("/")));
    assert!(!p("usr").starts_with(&p("/")));
    assert!(p("/anything").starts_with(&p("")));
}

#[test]
fn strip_prefix_leaves_the_rest() {
    assert_eq!(p("/a/b/c").strip_prefix(&p("/a")).unwrap().to_string(), "b/c");
    assert_eq!(p("/a").strip_prefix(&p("/a")).unwrap().to_string(), "");
    assert!(p("/a/b").strip_prefix(&p("/x")).is_none());
    assert_eq!(p("/a").strip_prefix(&p("")).unwrap().to_string(), "/a");
}

#[test]
fn paths_order_by_components() {
    assert_eq!(p("/a").compare(&p("/a/b")), -1);
    assert_eq!(p("/a/b").compare(&p("/b")), -1);
    assert_eq!(p("/b").compare(&p("/a/b")), 1);
    assert_eq!(p("/a/b").compare(&p("/a-b")), -1);
    assert_eq!(p("/x/y").compare(&p("/x//y/")), 0);
    assert_eq!(p("/z").compare(&p("a")), -1);
    assert!(p("/x/y").same_as(&p("/x/./y")));
    assert!(!p("/x/y").same_as(&p("/x/z")));
}

#[test]
fn parent_component_sorts_before_names() {
    assert_eq!(p("/a/..").compare(&p("/a/-x")), -1);
    assert_eq!(p("/a/+y").compare(&p("/a/..")), 1);
    assert_eq!(p("/a/..").compare(&p("/a/...")), -1);
    assert_eq!(p("/a/..").compare(&p("/a/..")), 0);
    assert_eq!(p("/..").compare(&p("/")), 1);
    assert_eq!(p("..").compare(&p("/")), 1);
    assert_eq!(p("/a/../b").compare(&p("/a/.x")), -1);
}

#[test]
fn root_is_slash() {
    assert_eq!(FsPath::root().to_string(), "/");
    assert!(FsPath::root().is_absolute());
}

#[test]
fn clone_keeps_components() {
    let a = p("/one/two");
    assert!(a.clone().same_as(&a));
}
