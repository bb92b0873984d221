use rmprog::plan::PlanStep;
use rmprog::run::prepare;
use rmprog::run::DeleteError;
use rmprog::tree::ChildList;
use rmprog::tree::EntryKind;
use rmprog::tree::FsTree;

/// Builds a directory node from named children, keeping their order.
fn dir(children: Vec<(&str, FsTree)>) -> FsTree {
    let mut list = ChildList::Nil;
    for (name, node) in children.into_iter().rev() {
        list = ChildList::Cons {
            name: name.to_string(),
            node: Box::new(node),
            rest: Box::new(list),
        };
    }
    FsTree::Dir { children: list }
}

/// The example tree: root/a.txt, root/sub/b.txt.
fn example_tree() -> FsTree {
    dir(vec![
        ("a.txt", FsTree::File),
        ("sub", dir(vec![("b.txt", FsTree::File)])),
    ])
}

fn segs(parts: &[&str]) -> Vec<String> {
    parts.iter().map(|p| p.to_string()).collect()
}

fn step_tuples(steps: &[PlanStep]) -> Vec<(Vec<String>, EntryKind)> {
    steps.iter().map(|s| (s.path.clone(), s.kind)).collect()
}

#[test]
fn counts_example_tree() {
    // 2 files + 1 subdirectory + the root = 4 entries.
    assert_eq!(example_tree().count_entries(), 4);
}

#[test]
fn counts_leaves_and_empty_dir() {
    assert_eq!(FsTree::File.count_entries(), 1);
    assert_eq!(FsTree::Symlink.count_entries(), 1);
    assert_eq!(dir(vec![]).count_entries(), 1);
}

#[test]
fn plan_order_example_tree() {
    // Contents first: a.txt, then b.txt, then sub, then the root.
    let steps = example_tree().build_plan();
    assert_eq!(
        step_tuples(&steps),
        vec![
            (segs(&["a.txt"]), EntryKind::File),
            (segs(&["sub", "b.txt"]), EntryKind::File),
            (segs(&["sub"]), EntryKind::Dir),
            (segs(&[]), EntryKind::Dir),
        ]
    );
}

#[test]
fn plan_of_nested_chain_is_leaf_first() {
    let tree = dir(vec![("a", dir(vec![("b", dir(vec![("c.txt", FsTree::File)]))]))]);
    let steps = tree.build_plan();
    assert_eq!(
        step_tuples(&steps),
        vec![
            (segs(&["a", "b", "c.txt"]), EntryKind::File),
            (segs(&["a", "b"]), EntryKind::Dir),
            (segs(&["a"]), EntryKind::Dir),
            (segs(&[]), EntryKind::Dir),
        ]
    );
}

#[test]
fn empty_dir_single_step() {
    let steps = dir(vec![]).build_plan();
    assert_eq!(step_tuples(&steps), vec![(segs(&[]), EntryKind::Dir)]);
}

#[test]
fn single_file_runs_once() {
    // A plain file is removed directly, with exactly one progress advance.
    let tree = FsTree::File;
    let mut run = prepare(Some(&tree)).unwrap();
    assert_eq!(run.total_count(), 1);
    assert_eq!(run.completed_count(), 0);
    assert!(run.is_active());
    assert_eq!(run.next_kind(), EntryKind::File);
    assert!(run.next_path().is_empty());
    run.record_success();
    assert_eq!(run.completed_count(), 1);
    assert!(!run.is_active());
}

#[test]
fn missing_target_reports_path_not_found() {
    let r = prepare(None);
    assert_eq!(r.err(), Some(DeleteError::PathNotFound));
}

#[test]
fn symlink_removed_as_link() {
    // One step for the link itself, never a directory removal and never a
    // step for anything the link points to.
    let tree = FsTree::Symlink;
    let steps = tree.build_plan();
    assert_eq!(step_tuples(&steps), vec![(segs(&[]), EntryKind::Symlink)]);
    assert!(!steps[0].is_dir_removal());

    let mut run = prepare(Some(&tree)).unwrap();
    assert_eq!(run.total_count(), 1);
    assert_eq!(run.next_kind(), EntryKind::Symlink);
    run.record_success();
    assert!(!run.is_active());
}

#[test]
fn failure_halts_run() {
    // After two successes a removal is rejected: the run halts, the count
    // freezes, and no later entry is handed out.
    let tree = example_tree();
    let mut run = prepare(Some(&tree)).unwrap();
    run.record_success();
    run.record_success();
    assert_eq!(run.completed_count(), 2);
    run.record_failure();
    assert!(!run.is_active());
    assert_eq!(run.completed_count(), 2);
    assert_eq!(run.failure(), DeleteError::EntryRemovalFailed);
}

#[test]
fn resume_after_abort_continues() {
    // After a.txt and sub/b.txt were removed and the run aborted, what is
    // left on disk is root/sub (now empty) and root. Running again plans
    // exactly the unfinished suffix: sub, then the root.
    let full_plan = step_tuples(&example_tree().build_plan());
    let leftover = dir(vec![("sub", dir(vec![]))]);
    let steps = leftover.build_plan();
    assert_eq!(step_tuples(&steps), full_plan[2..].to_vec());
}

#[test]
fn progress_never_exceeds_total() {
    let tree = example_tree();
    let mut run = prepare(Some(&tree)).unwrap();
    let total = run.total_count();
    assert_eq!(total, tree.count_entries());
    let mut advances: usize = 0;
    while run.is_active() {
        run.record_success();
        advances += 1;
        assert!(run.completed_count() <= total);
    }
    // The progress callback fired exactly once per entry.
    assert_eq!(advances, 4);
    assert_eq!(run.completed_count(), total);
}

#[test]
fn describe_kinds() {
    assert_eq!(EntryKind::File.describe(), "file");
    assert_eq!(EntryKind::Dir.describe(), "directory");
    assert_eq!(EntryKind::Symlink.describe(), "symlink");
}
