use dotling::walk::{sort_paths, walk_dir};

fn strings(v: &[&str]) -> Vec<String> {
    v.iter().map(|s| s.to_string()).collect()
}

#[test]
fn hidden_files_are_left_out_unless_asked_for() {
    let rels = strings(&["a/file1.txt", "a/b/file2.txt", "a/.hidden", ".git/config"]);
    assert_eq!(walk_dir("/d", &rels, false), strings(&["/d/a/b/file2.txt", "/d/a/file1.txt"]));
    assert_eq!(walk_dir("/d", &rels, true).len(), 4);
}

#[test]
fn paths_sort_component_by_component() {
    let sorted = sort_paths(&strings(&["a-c", "a/b", "a", "b"]));
    assert_eq!(sorted, strings(&["a", "a/b", "a-c", "b"]));
}
