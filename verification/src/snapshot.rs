//! Assembly of a snapshot from the flat record of a walk. A read-only walk
//! of the target reports each entry once, parents before their contents,
//! with the depth below the target root; folding those records left to
//! right rebuilds the tree the deletion plan is laid out over.

use vstd::prelude::*;

use crate::tree::ChildList;
use crate::tree::EntryKind;
use crate::tree::FsTree;

verus! {

/// One entry as a walk reports it: how deep below the target root it lies
/// (the root itself has depth zero), its name, and its kind.
pub struct WalkRecord {
    pub depth: usize,
    pub name: String,
    pub kind: EntryKind,
}

/// The assembly state: the directories whose contents are still being
/// gathered, innermost last, each with the children seen so far; and the
/// finished tree, once the root has been closed.
type FoldState = (Seq<(String, Seq<(String, FsTree)>)>, Option<FsTree>);

/// A child list holding exactly the given children, in order.
pub open spec fn list_of(children: Seq<(String, FsTree)>) -> ChildList
    decreases children.len(),
{
    if children.len() == 0 {
        ChildList::Nil
    } else {
        ChildList::Cons {
            name: children[0].0,
            node: Box::new(children[0].1),
            rest: Box::new(list_of(children.drop_first())),
        }
    }
}

/// Hands a finished subtree to the innermost open directory, or, when none
/// is open, makes it the finished tree.
pub open spec fn attach_spec(state: FoldState, name: String, node: FsTree) -> FoldState {
    let (stack, root) = state;
    if stack.len() > 0 {
        let top = stack.last();
        (stack.update(stack.len() - 1, (top.0, top.1.push((name, node)))), root)
    } else {
        (stack, Some(node))
    }
}

/// Closes the innermost open directory: all of its contents have been seen,
/// so it becomes a subtree of the directory above it.
pub open spec fn close_spec(state: FoldState) -> FoldState {
    let (stack, root) = state;
    if stack.len() == 0 {
        state
    } else {
        let top = stack.last();
        attach_spec((stack.drop_last(), root), top.0, FsTree::Dir { children: list_of(top.1) })
    }
}

/// Closes open directories until at most `depth` remain: a record at depth
/// `d` ends every directory deeper than `d - 1`.
pub open spec fn close_to_spec(state: FoldState, depth: nat) -> FoldState
    decreases state.0.len(),
{
    if state.0.len() > depth {
        close_to_spec(close_spec(state), depth)
    } else {
        state
    }
}

/// Folds one walk record into the state: directories deeper than the record
/// are closed first; a directory record opens a new gathering, any other
/// record is a finished leaf.
pub open spec fn fold_record_spec(state: FoldState, rec: WalkRecord) -> FoldState {
    let closed = close_to_spec(state, rec.depth as nat);
    if rec.kind == EntryKind::Dir {
        (closed.0.push((rec.name, Seq::empty())), closed.1)
    } else if rec.kind == EntryKind::Symlink {
        attach_spec(closed, rec.name, FsTree::Symlink)
    } else {
        attach_spec(closed, rec.name, FsTree::File)
    }
}

/// The state after folding the first `j` records.
pub open spec fn fold_records_spec(records: Seq<WalkRecord>, j: int) -> FoldState
    decreases j,
{
    if j <= 0 {
        (Seq::empty(), None)
    } else {
        fold_record_spec(fold_records_spec(records, j - 1), records[j - 1])
    }
}

/// The snapshot a whole walk describes: every record folded in, then every
/// directory still open closed. A walk that reported nothing — the target
/// was not there — yields no tree.
pub open spec fn snapshot_spec(records: Seq<WalkRecord>) -> Option<FsTree> {
    close_to_spec(fold_records_spec(records, records.len() as int), 0).1
}

/// The records a faithful walk of the subtree `t` reports: the node itself
/// (named `name`, at `depth`) first, then the contents of each child in
/// list order.
pub open spec fn trace(t: FsTree, name: String, depth: nat) -> Seq<WalkRecord>
    decreases t,
{
    match t {
        FsTree::File => seq![WalkRecord { depth: depth as usize, name, kind: EntryKind::File }],
        FsTree::Symlink => seq![
            WalkRecord { depth: depth as usize, name, kind: EntryKind::Symlink },
        ],
        FsTree::Dir { children } => seq![
            WalkRecord { depth: depth as usize, name, kind: EntryKind::Dir },
        ] + trace_list(children, depth + 1),
    }
}

/// The records a faithful walk reports for every subtree of a child list.
pub open spec fn trace_list(l: ChildList, depth: nat) -> Seq<WalkRecord>
    decreases l,
{
    match l {
        ChildList::Nil => Seq::empty(),
        ChildList::Cons { name, node, rest } => trace(*node, name, depth) + trace_list(
            *rest,
            depth,
        ),
    }
}

/// The children of a list as name and subtree pairs, in order.
spec fn pairs_of(l: ChildList) -> Seq<(String, FsTree)>
    decreases l,
{
    match l {
        ChildList::Nil => Seq::empty(),
        ChildList::Cons { name, node, rest } => seq![(name, *node)] + pairs_of(*rest),
    }
}

/// Attaches every subtree of a child list, in order.
spec fn attach_children(state: FoldState, l: ChildList) -> FoldState
    decreases l,
{
    match l {
        ChildList::Nil => state,
        ChildList::Cons { name, node, rest } => attach_children(
            attach_spec(state, name, *node),
            *rest,
        ),
    }
}

/// Folding a record sequence, one record after the other.
spec fn fold_seq(state: FoldState, recs: Seq<WalkRecord>) -> FoldState
    decreases recs.len(),
{
    if recs.len() == 0 {
        state
    } else {
        fold_record_spec(fold_seq(state, recs.drop_last()), recs.last())
    }
}

/// Folding the first `j` records is folding the `j`-record prefix.
proof fn lemma_fold_records_take(recs: Seq<WalkRecord>, j: int)
    requires
        0 <= j <= recs.len(),
    ensures
        fold_records_spec(recs, j) == fold_seq((Seq::empty(), None), recs.take(j)),
    decreases j,
{
    if j == 0 {
    } else {
        lemma_fold_records_take(recs, j - 1);
        assert(recs.take(j).drop_last() =~= recs.take(j - 1));
        assert(recs.take(j).last() == recs[j - 1]);
    }
}

/// Folding a concatenation is folding one part after the other.
proof fn lemma_fold_seq_concat(state: FoldState, a: Seq<WalkRecord>, b: Seq<WalkRecord>)
    ensures
        fold_seq(state, a + b) == fold_seq(fold_seq(state, a), b),
    decreases b.len(),
{
    if b.len() == 0 {
        assert(a + b =~= a);
    } else {
        lemma_fold_seq_concat(state, a, b.drop_last());
        assert((a + b).drop_last() =~= a + b.drop_last());
        assert((a + b).last() == b.last());
    }
}

/// Closing down to `depth` leaves exactly `depth` open directories, when at
/// least that many were open.
proof fn lemma_close_to_len(s: FoldState, depth: nat)
    requires
        s.0.len() >= depth,
    ensures
        close_to_spec(s, depth).0.len() == depth,
    decreases s.0.len(),
{
    if s.0.len() > depth {
        lemma_close_to_len(close_spec(s), depth);
    }
}

/// Closing down to `a` can go through `b` first.
proof fn lemma_close_to_compose(s: FoldState, a: nat, b: nat)
    requires
        a <= b,
    ensures
        close_to_spec(s, a) == close_to_spec(close_to_spec(s, b), a),
    decreases s.0.len(),
{
    if s.0.len() > b {
        lemma_close_to_compose(close_spec(s), a, b);
    }
}

/// Attaching a list of children appends exactly their pairs to the
/// innermost open directory.
proof fn lemma_attach_children_top(state: FoldState, l: ChildList)
    requires
        state.0.len() > 0,
    ensures
        attach_children(state, l) == (
            state.0.update(
                state.0.len() - 1,
                (state.0.last().0, state.0.last().1 + pairs_of(l)),
            ),
            state.1,
        ),
    decreases l,
{
    let top = state.0.last();
    match l {
        ChildList::Nil => {
            assert(top.1 + pairs_of(l) =~= top.1);
            assert(state.0.update(state.0.len() - 1, (top.0, top.1)) =~= state.0);
        },
        ChildList::Cons { name, node, rest } => {
            let mid = attach_spec(state, name, *node);
            lemma_attach_children_top(mid, *rest);
            assert(mid.0.last() == (top.0, top.1.push((name, *node))));
            assert(top.1.push((name, *node)) + pairs_of(*rest) =~= top.1 + pairs_of(l));
            assert(mid.0.update(mid.0.len() - 1, (top.0, top.1.push((name, *node)) + pairs_of(
                *rest,
            ))) =~= state.0.update(state.0.len() - 1, (top.0, top.1 + pairs_of(l))));
        },
    }
}

/// Rebuilding a child list from its pairs gives the list back.
proof fn lemma_list_of_pairs(l: ChildList)
    ensures
        list_of(pairs_of(l)) == l,
    decreases l,
{
    match l {
        ChildList::Nil => {},
        ChildList::Cons { name, node, rest } => {
            lemma_list_of_pairs(*rest);
            assert(pairs_of(l).drop_first() =~= pairs_of(*rest));
        },
    }
}

/// Folding the trace of one subtree attaches exactly that subtree: whatever
/// was open above it is untouched, and closing back to the subtree's depth
/// shows it attached where a leaf would have been.
proof fn lemma_fold_trace(t: FsTree, name: String, d: nat, s: FoldState)
    requires
        s.0.len() >= d,
        d + crate::tree::count(t) <= usize::MAX,
    ensures
        close_to_spec(fold_seq(s, trace(t, name, d)), d) == attach_spec(
            close_to_spec(s, d),
            name,
            t,
        ),
        fold_seq(s, trace(t, name, d)).0.len() >= d,
    decreases t,
{
    lemma_close_to_len(s, d);
    let c = close_to_spec(s, d);
    match t {
        FsTree::File => {
            let tr = trace(t, name, d);
            reveal_with_fuel(fold_seq, 2);
            assert(tr.drop_last() =~= Seq::<WalkRecord>::empty());
            assert(fold_seq(s, tr) == fold_record_spec(s, tr.last()));
        },
        FsTree::Symlink => {
            let tr = trace(t, name, d);
            reveal_with_fuel(fold_seq, 2);
            assert(tr.drop_last() =~= Seq::<WalkRecord>::empty());
            assert(fold_seq(s, tr) == fold_record_spec(s, tr.last()));
        },
        FsTree::Dir { children } => {
            let tr = trace(t, name, d);
            let r = WalkRecord { depth: d as usize, name, kind: EntryKind::Dir };
            let tl = trace_list(children, d + 1);
            lemma_fold_seq_concat(s, seq![r], tl);
            reveal_with_fuel(fold_seq, 2);
            assert(seq![r].drop_last() =~= Seq::<WalkRecord>::empty());
            let s1 = fold_seq(s, seq![r]);
            assert(s1 == fold_record_spec(s, r));
            assert(s1 == (c.0.push((name, Seq::<(String, FsTree)>::empty())), c.1));
            lemma_fold_trace_list(children, d + 1, s1);
            let f = fold_seq(s1, tl);
            assert(fold_seq(s, tr) == f);
            assert(close_to_spec(s1, d + 1) == s1);
            lemma_attach_children_top(s1, children);
            let p = pairs_of(children);
            let s2 = close_to_spec(f, d + 1);
            assert(s2.0 =~= c.0.push((name, p)));
            lemma_close_to_compose(f, d, d + 1);
            assert(close_to_spec(f, d) == close_to_spec(s2, d));
            assert(s2.0.drop_last() =~= c.0);
            lemma_list_of_pairs(children);
            assert(close_spec(s2) == attach_spec(c, name, t));
            assert(close_to_spec(s2, d) == close_to_spec(close_spec(s2), d));
            assert(close_to_spec(close_spec(s2), d) == close_spec(s2));
        },
    }
}

/// Folding the traces of a child list attaches exactly those children, in
/// order.
proof fn lemma_fold_trace_list(l: ChildList, d: nat, s: FoldState)
    requires
        s.0.len() >= d,
        d + crate::tree::count_list(l) <= usize::MAX,
    ensures
        close_to_spec(fold_seq(s, trace_list(l, d)), d) == attach_children(
            close_to_spec(s, d),
            l,
        ),
        fold_seq(s, trace_list(l, d)).0.len() >= d,
    decreases l,
{
    match l {
        ChildList::Nil => {},
        ChildList::Cons { name, node, rest } => {
            lemma_fold_seq_concat(s, trace(*node, name, d), trace_list(*rest, d));
            let f1 = fold_seq(s, trace(*node, name, d));
            lemma_fold_trace(*node, name, d, s);
            lemma_fold_trace_list(*rest, d, f1);
        },
    }
}

/// The round trip: assembling the records that a faithful walk of a tree
/// reports — the tree the deletion was asked for — yields exactly that
/// tree, whatever the root was called.
pub proof fn lemma_walk_round_trip(t: FsTree, name: String)
    requires
        crate::tree::count(t) <= usize::MAX,
    ensures
        snapshot_spec(trace(t, name, 0)) == Some(t),
{
    let recs = trace(t, name, 0);
    lemma_fold_records_take(recs, recs.len() as int);
    assert(recs.take(recs.len() as int) =~= recs);
    lemma_fold_trace(t, name, 0, (Seq::empty(), None));
}

/// The assembly state an executable stack stands for.
spec fn spec_stack_of(stack: Seq<(String, Vec<(String, FsTree)>)>) -> Seq<
    (String, Seq<(String, FsTree)>),
> {
    stack.map(|i: int, e: (String, Vec<(String, FsTree)>)| (e.0, e.1@))
}

/// Assembles the snapshot that a walk's records describe: exactly
/// `snapshot_spec` of them. The caller walks the target once, parents
/// before contents, skipping entries it cannot read, and hands the records
/// over in the order they were met.
pub fn assemble(records: Vec<WalkRecord>) -> (r: Option<FsTree>)
    ensures
        r == snapshot_spec(records@),
{
    let ghost all = records@;
    let mut stack: Vec<(String, Vec<(String, FsTree)>)> = Vec::new();
    let mut root: Option<FsTree> = None;
    let mut j: usize = 0;
    let n = records.len();
    proof {
        assert(spec_stack_of(stack@) =~= fold_records_spec(all, 0).0);
    }
    while j < n
        invariant
            n == all.len(),
            j <= n,
            records@ == all,
            spec_stack_of(stack@) == fold_records_spec(all, j as int).0,
            root == fold_records_spec(all, j as int).1,
        decreases n - j,
    {
        let ghost pre_state = fold_records_spec(all, j as int);
        let depth = records[j].depth;
        while stack.len() > depth
            invariant
                close_to_spec(pre_state, depth as nat) == close_to_spec(
                    (spec_stack_of(stack@), root),
                    depth as nat,
                ),
            decreases stack.len(),
        {
            close_top(&mut stack, &mut root);
        }
        let ghost closed = close_to_spec(pre_state, depth as nat);
        proof {
            assert(spec_stack_of(stack@) == closed.0 && root == closed.1);
        }
        let name = records[j].name.clone();
        match records[j].kind {
            EntryKind::Dir => {
                stack.push((name, Vec::new()));
                proof {
                    assert(spec_stack_of(stack@) =~= closed.0.push((all[j as int].name, Seq::empty())));
                }
            },
            EntryKind::Symlink => {
                attach(&mut stack, &mut root, name, FsTree::Symlink);
            },
            EntryKind::File => {
                attach(&mut stack, &mut root, name, FsTree::File);
            },
        }
        j = j + 1;
    }
    while stack.len() > 0
        invariant
            close_to_spec(fold_records_spec(all, all.len() as int), 0) == close_to_spec(
                (spec_stack_of(stack@), root),
                0,
            ),
        decreases stack.len(),
    {
        close_top(&mut stack, &mut root);
    }
    root
}

/// Builds the child list of a closed directory from the children gathered
/// for it, keeping their order.
fn build_list(children: Vec<(String, FsTree)>) -> (r: ChildList)
    ensures
        r == list_of(children@),
    decreases children@.len(),
{
    let ghost orig = children@;
    let mut rest = children;
    if rest.len() == 0 {
        ChildList::Nil
    } else {
        let first = rest.remove(0);
        proof {
            assert(rest@ =~= orig.drop_first());
        }
        ChildList::Cons {
            name: first.0,
            node: Box::new(first.1),
            rest: Box::new(build_list(rest)),
        }
    }
}

/// Hands a finished subtree to the innermost open directory, or makes it
/// the finished tree: exactly `attach_spec`.
fn attach(
    stack: &mut Vec<(String, Vec<(String, FsTree)>)>,
    root: &mut Option<FsTree>,
    name: String,
    node: FsTree,
)
    ensures
        spec_stack_of(final(stack)@) == attach_spec(
            (spec_stack_of(old(stack)@), *old(root)),
            name,
            node,
        ).0,
        *final(root) == attach_spec((spec_stack_of(old(stack)@), *old(root)), name, node).1,
{
    let ghost pre = (spec_stack_of(stack@), *root);
    if stack.len() > 0 {
        let mut top = stack.pop().unwrap();
        top.1.push((name, node));
        stack.push(top);
        proof {
            assert(spec_stack_of(stack@) =~= attach_spec(pre, name, node).0);
        }
    } else {
        *root = Some(node);
    }
}

/// Closes the innermost open directory: exactly `close_spec`.
fn close_top(stack: &mut Vec<(String, Vec<(String, FsTree)>)>, root: &mut Option<FsTree>)
    requires
        old(stack)@.len() > 0,
    ensures
        spec_stack_of(final(stack)@) == close_spec((spec_stack_of(old(stack)@), *old(root))).0,
        *final(root) == close_spec((spec_stack_of(old(stack)@), *old(root))).1,
        final(stack)@.len() == old(stack)@.len() - 1,
{
    let ghost pre = (spec_stack_of(stack@), *root);
    let top = stack.pop().unwrap();
    proof {
        assert(spec_stack_of(stack@) =~= pre.0.drop_last());
        assert(pre.0.last() == (top.0, top.1@));
    }
    let children = build_list(top.1);
    attach(stack, root, top.0, FsTree::Dir { children });
    proof {
        let x = (spec_stack_of(old(stack)@), *old(root));
        assert(close_spec(x).0.len() == x.0.len() - 1);
        assert(spec_stack_of(stack@).len() == stack@.len());
    }
}

} // verus!
