use dozer_app::sftp::{remote_join, RemoteEntry, RemoteTree};

fn entry(path: &str, name: &str, is_dir: bool) -> RemoteEntry {
    RemoteEntry {
        path: path.to_string(),
        name: name.to_string(),
        is_dir,
    }
}

#[test]
fn toggle_expands_and_requests_on_first_open() {
    let mut tree = RemoteTree::new("/root");
    assert_eq!(tree.toggle("/root"), Some("/root".to_string()));
}

#[test]
fn set_root_migrates_expanded_state_to_new_root() {
    let mut tree = RemoteTree::new("");
    tree.toggle("");
    assert_eq!(tree.root(), "");
    tree.set_root("/home/alice".to_string());
    assert_eq!(tree.root(), "/home/alice");
    assert_eq!(tree.toggle("/home/alice"), None);
}

#[test]
fn set_root_on_unexpanded_placeholder_does_not_force_expand() {
    let mut tree = RemoteTree::new("");
    tree.set_root("/home/alice".to_string());
    assert_eq!(tree.root(), "/home/alice");
    assert_eq!(tree.toggle("/home/alice"), Some("/home/alice".to_string()));
}

#[test]
fn toggle_collapses_without_requesting() {
    let mut tree = RemoteTree::new("/root");
    tree.toggle("/root");
    assert_eq!(tree.toggle("/root"), None);
}

#[test]
fn toggle_reopen_with_cache_does_not_request() {
    let mut tree = RemoteTree::new("/root");
    tree.toggle("/root");
    tree.set_children("/root", Ok(vec![entry("/root/a", "a", false)]));
    tree.toggle("/root");
    assert_eq!(tree.toggle("/root"), None);
}

#[test]
fn set_children_sorts_dirs_before_files_then_by_name() {
    let mut tree = RemoteTree::new("/root");
    tree.toggle("/root");
    tree.set_children(
        "/root",
        Ok(vec![
            entry("/root/z.txt", "z.txt", false),
            entry("/root/bdir", "bdir", true),
            entry("/root/a.txt", "a.txt", false),
            entry("/root/adir", "adir", true),
        ]),
    );
    let rows = tree.visible_rows();
    let names: Vec<&str> = rows.iter().map(|r| r.name.as_str()).collect();
    assert_eq!(names, vec!["adir", "bdir", "a.txt", "z.txt"]);
}

#[test]
fn set_children_err_recorded_and_does_not_panic_on_visible_rows() {
    let mut tree = RemoteTree::new("/root");
    tree.toggle("/root");
    tree.set_children("/root", Err("权限拒绝".to_string()));
    assert_eq!(tree.error_for("/root"), Some("权限拒绝"));
    assert!(tree.visible_rows().is_empty());
}

#[test]
fn nested_expansion_shows_grandchildren() {
    let mut tree = RemoteTree::new("/root");
    tree.toggle("/root");
    tree.set_children("/root", Ok(vec![entry("/root/sub", "sub", true)]));
    tree.toggle("/root/sub");
    tree.set_children("/root/sub", Ok(vec![entry("/root/sub/f", "f", false)]));
    let rows = tree.visible_rows();
    assert_eq!(rows.len(), 2);
    assert_eq!(rows[0].name, "sub");
    assert_eq!(rows[0].depth, 0);
    assert_eq!(rows[1].name, "f");
    assert_eq!(rows[1].depth, 1);
}

#[test]
fn collapsed_dir_hides_its_children_from_visible_rows() {
    let mut tree = RemoteTree::new("/root");
    tree.toggle("/root");
    tree.set_children("/root", Ok(vec![entry("/root/sub", "sub", true)]));
    tree.toggle("/root/sub");
    tree.set_children("/root/sub", Ok(vec![entry("/root/sub/f", "f", false)]));
    tree.toggle("/root/sub");
    let rows = tree.visible_rows();
    assert_eq!(rows.len(), 1);
    assert_eq!(rows[0].name, "sub");
}

#[test]
fn remote_join_no_trailing_slash() {
    assert_eq!(remote_join("/home/user", "file.txt"), "/home/user/file.txt");
}

#[test]
fn remote_join_trailing_slash() {
    assert_eq!(remote_join("/home/user/", "file.txt"), "/home/user/file.txt");
}

#[test]
fn remote_join_name_with_spaces() {
    assert_eq!(remote_join("/root", "my file.txt"), "/root/my file.txt");
}

#[test]
fn deep_expansion_shows_every_level() {
    let mut t = RemoteTree::new("/r");
    t.toggle("/r");
    t.set_children("/r", Ok(vec![entry("/r/a", "a", true), entry("/r/z", "z", false)]));
    t.toggle("/r/a");
    t.set_children("/r/a", Ok(vec![entry("/r/a/b", "b", true)]));
    t.toggle("/r/a/b");
    t.set_children("/r/a/b", Ok(vec![entry("/r/a/b/c", "c", true)]));
    t.toggle("/r/a/b/c");
    t.set_children("/r/a/b/c", Ok(vec![entry("/r/a/b/c/f", "f", false)]));
    let rows = t.visible_rows();
    let got: Vec<(&str, usize)> = rows.iter().map(|r| (r.name.as_str(), r.depth)).collect();
    assert_eq!(got, vec![("a", 0), ("b", 1), ("c", 2), ("f", 3), ("z", 0)]);
}
