use simple_rust_backup::path::{counterpart, TreePath};

fn p(parts: &[&str]) -> TreePath {
    TreePath::new(parts.iter().map(|s| s.to_string()).collect())
}

#[test]
fn new_keeps_components() {
    let path = p(&["a", "b.txt"]);
    assert_eq!(path.parts, vec!["a".to_string(), "b.txt".to_string()]);
    assert_eq!(path.depth(), 2);
    assert_eq!(p(&[]).depth(), 0);
}

#[test]
fn duplicate_is_equal() {
    let path = p(&["x", "y", "z"]);
    let copy = path.duplicate();
    assert_eq!(copy, path);
    assert!(copy.same_as(&path));
}

#[test]
fn same_as_tells_paths_apart() {
    assert!(p(&["a", "b"]).same_as(&p(&["a", "b"])));
    assert!(!p(&["a", "b"]).same_as(&p(&["a", "c"])));
    assert!(!p(&["a", "b"]).same_as(&p(&["a"])));
    assert!(!p(&["a"]).same_as(&p(&["a", "b"])));
    assert!(p(&[]).same_as(&p(&[])));
}

#[test]
fn starts_with_is_by_whole_components() {
    assert!(p(&["src", "a", "b.txt"]).starts_with(&p(&["src"])));
    assert!(p(&["src", "a"]).starts_with(&p(&["src", "a"])));
    assert!(p(&["src"]).starts_with(&p(&[])));
    assert!(!p(&["src"]).starts_with(&p(&["src", "a"])));
    assert!(!p(&["srcx", "a"]).starts_with(&p(&["src"])));
    assert!(!p(&["other", "a"]).starts_with(&p(&["src"])));
}

#[test]
fn strip_prefix_gives_the_rest() {
    let rel = p(&["src", "a", "b.txt"]).strip_prefix(&p(&["src"]));
    assert_eq!(rel, Some(p(&["a", "b.txt"])));
}

#[test]
fn strip_prefix_of_the_root_itself_is_empty() {
    let rel = p(&["src"]).strip_prefix(&p(&["src"]));
    assert_eq!(rel, Some(p(&[])));
}

#[test]
fn strip_prefix_fails_outside_the_root() {
    assert_eq!(p(&["elsewhere", "a"]).strip_prefix(&p(&["src"])), None);
    assert_eq!(p(&["src"]).strip_prefix(&p(&["src", "a"])), None);
    assert_eq!(p(&["src", "b"]).strip_prefix(&p(&["src", "a"])), None);
}

#[test]
fn join_appends_components() {
    assert_eq!(p(&["dst"]).join(&p(&["a", "b.txt"])), p(&["dst", "a", "b.txt"]));
    assert_eq!(p(&["dst"]).join(&p(&[])), p(&["dst"]));
    assert_eq!(p(&[]).join(&p(&["a"])), p(&["a"]));
}

#[test]
fn join_then_strip_gives_the_relative_path_back() {
    let root = p(&["mnt", "backup"]);
    let rel = p(&["a", "b", "c.txt"]);
    assert_eq!(root.join(&rel).strip_prefix(&root), Some(rel));
}

#[test]
fn parent_drops_the_last_component() {
    assert_eq!(p(&["dst", "a", "b.txt"]).parent(), Some(p(&["dst", "a"])));
    assert_eq!(p(&["dst"]).parent(), Some(p(&[])));
    assert_eq!(p(&[]).parent(), None);
}

#[test]
fn counterpart_moves_a_path_to_the_other_root() {
    let c = counterpart(&p(&["src"]), &p(&["dst"]), &p(&["src", "a", "b.txt"])).unwrap();
    assert_eq!(c.rel, p(&["a", "b.txt"]));
    assert_eq!(c.path, p(&["dst", "a", "b.txt"]));
}

#[test]
fn counterpart_is_none_outside_the_root() {
    assert_eq!(counterpart(&p(&["src"]), &p(&["dst"]), &p(&["tmp", "a"])), None);
}
