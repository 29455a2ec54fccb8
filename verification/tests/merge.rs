use dotling::diff::{compute_diff, edit_line, group_into_hunks, DiffEdit};
use dotling::merge::three_way_merge;

#[test]
fn identical_files_no_conflict() {
    let r = three_way_merge("a\nb\nc\n", "a\nb\nc\n", "a\nb\nc\n", "repo", "actual");
    assert!(!r.has_conflicts);
    assert_eq!(r.conflict_count, 0);
}

#[test]
fn only_ours_changed() {
    let r = three_way_merge("a\nb\nc\n", "a\nB\nc\n", "a\nb\nc\n", "repo", "actual");
    assert!(!r.has_conflicts);
    assert!(r.content.contains('B'));
    assert!(!r.content.contains('b'));
}

#[test]
fn only_theirs_changed() {
    let r = three_way_merge("a\nb\nc\n", "a\nb\nc\n", "a\nB\nc\n", "repo", "actual");
    assert!(!r.has_conflicts);
    assert!(r.content.contains('B'));
}

#[test]
fn non_overlapping_changes_auto_merged() {
    let base = "a\nb\nc\nd\n";
    let ours = "A\nb\nc\nd\n";
    let theirs = "a\nb\nc\nD\n";
    let r = three_way_merge(base, ours, theirs, "repo", "actual");
    assert!(!r.has_conflicts, "no overlap — should auto-merge");
    assert!(r.content.contains('A'));
    assert!(r.content.contains('D'));
}

#[test]
fn overlapping_changes_produce_conflict() {
    let base = "a\nb\nc\n";
    let ours = "a\nX\nc\n";
    let theirs = "a\nY\nc\n";
    let r = three_way_merge(base, ours, theirs, "repo", "actual");
    assert!(r.has_conflicts);
    assert_eq!(r.conflict_count, 1);
    assert!(r.content.contains("<<<<<<< repo"));
    assert!(r.content.contains(">>>>>>> actual"));
    assert!(r.content.contains('X'));
    assert!(r.content.contains('Y'));
}

#[test]
fn both_add_same_line_no_conflict() {
    let base = "a\n";
    let ours = "a\nnew\n";
    let theirs = "a\nnew\n";
    let r = three_way_merge(base, ours, theirs, "repo", "actual");
    assert!(r.content.contains("new"));
}

#[test]
fn conflict_block_is_laid_out_exactly() {
    let r = three_way_merge("a\nb\nc\n", "a\nX\nc\n", "a\nY\nc\n", "repo", "actual");
    assert_eq!(r.content, "a\n<<<<<<< repo\nX\n=======\nY\n>>>>>>> actual\nc\n");
}

#[test]
fn unchanged_side_takes_the_other() {
    let r = three_way_merge("x\ny\n", "x\ny\n", "x\ny\nz\n", "repo", "actual");
    assert_eq!(r.content, "x\ny\nz\n");
    assert!(!r.has_conflicts);
}

fn lines(s: &[&str]) -> Vec<Vec<char>> {
    s.iter().map(|l| l.chars().collect()).collect()
}

#[test]
fn diff_marks_removed_and_added_lines() {
    let edits = compute_diff(&lines(&["a", "b", "c"]), &lines(&["a", "x", "c"]));
    let shown: Vec<String> = edits.iter().map(edit_line).collect();
    assert_eq!(shown, vec![" a", "-b", "+x", " c"]);
    let hunks = group_into_hunks(&edits, 0);
    assert_eq!(hunks.len(), 1);
    assert!(matches!(hunks[0][0], DiffEdit::Delete(_)));
}

#[test]
fn unchanged_side_takes_the_other_even_without_final_newline() {
    let r = three_way_merge("a\nb", "a\nb", "a\nc\n", "repo", "actual");
    assert_eq!(r.content, "a\nc\n");
    assert!(!r.has_conflicts);
    let r = three_way_merge("a\nb", "x\nb\n", "a\nb", "repo", "actual");
    assert_eq!(r.content, "x\nb\n");
    assert_eq!(r.conflict_count, 0);
}
