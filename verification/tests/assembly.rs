use rmprog::snapshot::{assemble, WalkRecord};
use rmprog::tree::EntryKind;

fn rec(depth: usize, name: &str, kind: EntryKind) -> WalkRecord {
    WalkRecord { depth, name: name.to_string(), kind }
}

/// The paths and kinds of the assembled tree's plan, for easy comparison.
fn plan_of(records: Vec<WalkRecord>) -> Vec<(Vec<String>, EntryKind)> {
    let tree = assemble(records).expect("a walk with records yields a tree");
    tree.build_plan()
        .iter()
        .map(|s| (s.path.clone(), s.kind))
        .collect()
}

fn segs(parts: &[&str]) -> Vec<String> {
    parts.iter().map(|p| p.to_string()).collect()
}

#[test]
fn assembles_nothing_from_an_empty_walk() {
    assert!(assemble(Vec::new()).is_none());
}

#[test]
fn assembles_a_single_file() {
    let plan = plan_of(vec![rec(0, "a.txt", EntryKind::File)]);
    assert_eq!(plan, vec![(segs(&[]), EntryKind::File)]);
}

#[test]
fn assembles_the_example_walk() {
    // The walk reports root, a.txt, sub, sub/b.txt; the plan removes
    // a.txt, then b.txt, then sub, then the root.
    let plan = plan_of(vec![
        rec(0, "root", EntryKind::Dir),
        rec(1, "a.txt", EntryKind::File),
        rec(1, "sub", EntryKind::Dir),
        rec(2, "b.txt", EntryKind::File),
    ]);
    assert_eq!(
        plan,
        vec![
            (segs(&["a.txt"]), EntryKind::File),
            (segs(&["sub", "b.txt"]), EntryKind::File),
            (segs(&["sub"]), EntryKind::Dir),
            (segs(&[]), EntryKind::Dir),
        ]
    );
}

#[test]
fn assembles_siblings_after_a_nested_branch() {
    // A sibling at a shallower depth closes the deeper directory first.
    let plan = plan_of(vec![
        rec(0, "root", EntryKind::Dir),
        rec(1, "deep", EntryKind::Dir),
        rec(2, "x.txt", EntryKind::File),
        rec(1, "link", EntryKind::Symlink),
    ]);
    assert_eq!(
        plan,
        vec![
            (segs(&["deep", "x.txt"]), EntryKind::File),
            (segs(&["deep"]), EntryKind::Dir),
            (segs(&["link"]), EntryKind::Symlink),
            (segs(&[]), EntryKind::Dir),
        ]
    );
}

#[test]
fn assembles_an_empty_directory() {
    let plan = plan_of(vec![rec(0, "root", EntryKind::Dir)]);
    assert_eq!(plan, vec![(segs(&[]), EntryKind::Dir)]);
}
