//! Laws of the neighbor search: statements that hold for every tree and every
//! list of targets.

use crate::algorithm::{EdgeMode, Kind, Target};
use crate::geometry::{is_nearest, lemma_no_candidates, lies_past, nearer, separation};
use crate::scan::lemma_first_index;
use crate::search::{
    entry_index, focus_path, is_geometric, leaf_below, lemma_ordinal_step, local_neighbor,
    local_neighbor_index, matched_target, neighbor_of, search_upward,
};
use crate::tree::{focused_index, has_id, NodeModel};
use vstd::prelude::*;

verus! {

/// Whether the search goes past the ancestor `n` to the next one outward: no
/// target applies to it, or the one that does finds no neighbor and does not
/// stop.
pub open spec fn is_passed(n: NodeModel, targets: Seq<Target>) -> bool {
    match matched_target(n, targets) {
        None => true,
        Some(target) => local_neighbor(n, target) is None && target.edge_mode != EdgeMode::Stop,
    }
}

/// The index next to the focused child of `n` in the direction of the target
/// matched at `n`: one more going forward, one less going backward.
pub open spec fn adjacent_index(n: NodeModel, targets: Seq<Target>) -> int {
    focused_index(n).unwrap() + if matched_target(n, targets).unwrap().backward {
        -1int
    } else {
        1int
    }
}

/// `d` is `n` or a node of the subtree below `n`.
pub open spec fn within(n: NodeModel, d: NodeModel) -> bool
    decreases n,
{
    n == d || exists|i: int| 0 <= i < n.children.len() && within(#[trigger] n.children[i], d)
}

/// The remembered focus of a node is one of its children.
pub proof fn lemma_focus_is_a_child(n: NodeModel)
    ensures
        match focused_index(n) {
            Some(i) => 0 <= i < n.children.len(),
            None => true,
        },
{
    if n.focus_order.len() > 0 {
        lemma_first_index(n.children, has_id(n.focus_order[0]));
    }
}

/// A local neighbor is a child of the node it is searched under.
pub proof fn lemma_local_neighbor_is_a_child(n: NodeModel, target: Target)
    ensures
        match local_neighbor_index(n, target) {
            Some(i) => 0 <= i < n.children.len(),
            None => true,
        },
{
    lemma_focus_is_a_child(n);
    match focused_index(n) {
        Some(f) => {
            if !is_geometric(target.kind) {
                lemma_ordinal_step(
                    n.children.len() as int,
                    f,
                    target.backward,
                    target.edge_mode == EdgeMode::Wrap,
                );
            }
        },
        None => {},
    }
}

/// The descent leaves a node through one of its children.
pub proof fn lemma_entry_is_a_child(n: NodeModel, targets: Seq<Target>)
    ensures
        match entry_index(n, targets) {
            Some(i) => 0 <= i < n.children.len(),
            None => true,
        },
{
    lemma_focus_is_a_child(n);
}

/// Ancestors that are passed do not change what the search finds.
pub proof fn lemma_search_passes(path: Seq<NodeModel>, targets: Seq<Target>, k: int, m: int)
    requires
        0 <= k <= m <= path.len(),
        forall|j: int| k <= j < m ==> is_passed(#[trigger] path[j], targets),
    ensures
        search_upward(path, targets, m) == search_upward(path, targets, k),
    decreases m - k,
{
    if k < m {
        lemma_search_passes(path, targets, k, m - 1);
    }
}

/// With no targets there is never a neighbor.
pub proof fn lemma_no_targets_no_neighbor(t: NodeModel)
    ensures
        neighbor_of(t, Seq::<Target>::empty()) is None,
{
    let path = focus_path(t);
    lemma_search_passes(path, Seq::<Target>::empty(), 0, path.len() as int);
}

/// A target that goes by position moves to the child next to the focused
/// one, whatever its edge mode: the search ends in a leaf of the following
/// child going forward, and of the preceding child going backward.
pub proof fn lemma_moves_to_the_adjacent_child(t: NodeModel, targets: Seq<Target>, k: int)
    requires
        0 <= k < focus_path(t).len(),
        forall|j: int|
            k < j < focus_path(t).len() ==> is_passed(#[trigger] focus_path(t)[j], targets),
        matched_target(focus_path(t)[k], targets) is Some,
        !is_geometric(matched_target(focus_path(t)[k], targets).unwrap().kind),
        focused_index(focus_path(t)[k]) is Some,
        0 <= adjacent_index(focus_path(t)[k], targets) < focus_path(t)[k].children.len(),
    ensures
        neighbor_of(t, targets) == Some(
            leaf_below(
                focus_path(t)[k].children[adjacent_index(focus_path(t)[k], targets)],
                targets,
            ),
        ),
        within(
            focus_path(t)[k].children[adjacent_index(focus_path(t)[k], targets)],
            neighbor_of(t, targets).unwrap(),
        ),
{
    let path = focus_path(t);
    let parent = path[k];
    let target = matched_target(parent, targets).unwrap();
    lemma_search_passes(path, targets, k + 1, path.len() as int);
    lemma_focus_is_a_child(parent);
    lemma_ordinal_step(
        parent.children.len() as int,
        focused_index(parent).unwrap(),
        target.backward,
        target.edge_mode == EdgeMode::Wrap,
    );
    lemma_leaf_within(parent.children[adjacent_index(parent, targets)], targets);
}

/// A target that stops ends the search where it finds no neighbor.
///
/// If the ancestor `path[k]` is the innermost one that is not passed, its
/// target stops, and there is no neighbor under it, the search has no
/// result, whatever the ancestors further out would offer.
pub proof fn lemma_stop_ends_search(t: NodeModel, targets: Seq<Target>, k: int)
    requires
        0 <= k < focus_path(t).len(),
        forall|j: int|
            k < j < focus_path(t).len() ==> is_passed(#[trigger] focus_path(t)[j], targets),
        matched_target(focus_path(t)[k], targets) is Some,
        matched_target(focus_path(t)[k], targets).unwrap().edge_mode == EdgeMode::Stop,
        local_neighbor(focus_path(t)[k], matched_target(focus_path(t)[k], targets).unwrap())
            is None,
    ensures
        neighbor_of(t, targets) is None,
{
    let path = focus_path(t);
    lemma_search_passes(path, targets, k + 1, path.len() as int);
}

/// Moving forward from the last child of a list under a target that stops
/// finds nothing, and the search does not go on to an outer ancestor.
pub proof fn lemma_forward_stop_at_last_child(t: NodeModel, targets: Seq<Target>, k: int)
    requires
        0 <= k < focus_path(t).len(),
        forall|j: int|
            k < j < focus_path(t).len() ==> is_passed(#[trigger] focus_path(t)[j], targets),
        matched_target(focus_path(t)[k], targets) is Some,
        matched_target(focus_path(t)[k], targets).unwrap().edge_mode == EdgeMode::Stop,
        !is_geometric(matched_target(focus_path(t)[k], targets).unwrap().kind),
        !matched_target(focus_path(t)[k], targets).unwrap().backward,
        focused_index(focus_path(t)[k]) == Some(focus_path(t)[k].children.len() - 1),
    ensures
        neighbor_of(t, targets) is None,
{
    lemma_stop_ends_search(t, targets, k);
}

/// Moving forward from the last child of a list under a target that wraps
/// ends in a leaf of the first child.
pub proof fn lemma_forward_wrap_at_last_child(t: NodeModel, targets: Seq<Target>, k: int)
    requires
        0 <= k < focus_path(t).len(),
        forall|j: int|
            k < j < focus_path(t).len() ==> is_passed(#[trigger] focus_path(t)[j], targets),
        matched_target(focus_path(t)[k], targets) is Some,
        matched_target(focus_path(t)[k], targets).unwrap().edge_mode == EdgeMode::Wrap,
        !is_geometric(matched_target(focus_path(t)[k], targets).unwrap().kind),
        !matched_target(focus_path(t)[k], targets).unwrap().backward,
        focused_index(focus_path(t)[k]) == Some(focus_path(t)[k].children.len() - 1),
    ensures
        neighbor_of(t, targets) == Some(leaf_below(focus_path(t)[k].children[0], targets)),
        within(focus_path(t)[k].children[0], neighbor_of(t, targets).unwrap()),
{
    let path = focus_path(t);
    let parent = path[k];
    let len = parent.children.len() as int;
    lemma_search_passes(path, targets, k + 1, path.len() as int);
    lemma_first_index(parent.children, has_id(parent.focus_order[0]));
    lemma_ordinal_step(len, len - 1, false, true);
    lemma_leaf_within(parent.children[0], targets);
}

/// No two of the siblings have the same id.
pub open spec fn has_distinct_ids(s: Seq<NodeModel>) -> bool {
    forall|i: int, j: int| 0 <= i < j < s.len() ==> (#[trigger] s[i]).id != (#[trigger] s[j]).id
}

/// Moving among floating windows can be undone: if the window at `i` is the
/// neighbor of the one at `f` in one direction, the window at `f` is the
/// neighbor of the one at `i` in the other direction.
pub proof fn lemma_float_step_is_reversible(
    s: Seq<NodeModel>,
    f: int,
    vertical: bool,
    reversed: bool,
    i: int,
)
    requires
        has_distinct_ids(s),
        0 <= f < s.len(),
        is_nearest(s, f, Kind::Float, vertical, reversed, i),
    ensures
        is_nearest(s, i, Kind::Float, vertical, !reversed, f),
{
    reveal(separation);
    let kind = Kind::Float;
    let back = !reversed;
    assert forall|j: int|
        0 <= j < s.len() && lies_past(kind, vertical, back, s[i], #[trigger] s[j]) implies if j
        < f {
        nearer(kind, vertical, back, s[i], s[f], s[j])
    } else {
        !nearer(kind, vertical, back, s[i], s[j], s[f])
    } by {
        if j != f && lies_past(kind, vertical, reversed, s[f], s[j]) {
            // `j` would lie between `f` and `i`, nearer to `f` than `i` is.
            if j < i {
                assert(nearer(kind, vertical, reversed, s[f], s[i], s[j]));
            } else {
                assert(!nearer(kind, vertical, reversed, s[f], s[j], s[i]));
            }
        }
    }
}

/// A target that wraps by geometry always has a result where the focus
/// resolves: if nothing lies ahead and nothing behind, it is the focused
/// child itself.
pub proof fn lemma_geometric_wrap_finds(n: NodeModel, target: Target)
    requires
        is_geometric(target.kind),
        target.edge_mode == EdgeMode::Wrap,
        focused_index(n) is Some,
    ensures
        local_neighbor(n, target) is Some,
{
}

/// An only child is its own neighbor under a target that wraps by geometry:
/// with a single output, the search for the next output arrives at the
/// focused one.
pub proof fn lemma_only_child_wraps_to_itself(n: NodeModel, target: Target)
    requires
        is_geometric(target.kind),
        target.edge_mode == EdgeMode::Wrap,
        n.children.len() == 1,
        focused_index(n) is Some,
    ensures
        local_neighbor(n, target) == Some(n.children[0]),
{
    let s = n.children;
    lemma_first_index(s, has_id(n.focus_order[0]));
    let f = focused_index(n).unwrap();
    lemma_no_candidates(s, f, target.kind, target.vertical, target.backward);
    lemma_no_candidates(s, f, target.kind, target.vertical, !target.backward);
}

/// Under a traversing target a split container is entered at its first child
/// moving forward and at its last child moving backward, whatever focus it
/// remembers.
pub proof fn lemma_traverse_enters_split_at_end(n: NodeModel, targets: Seq<Target>)
    requires
        matched_target(n, targets) is Some,
        matched_target(n, targets).unwrap().kind == Kind::Split,
        matched_target(n, targets).unwrap().edge_mode == EdgeMode::Traverse,
        n.children.len() > 0,
    ensures
        leaf_below(n, targets) == leaf_below(
            if matched_target(n, targets).unwrap().backward {
                n.children.last()
            } else {
                n.children.first()
            },
            targets,
        ),
{
}

/// The descent from a node ends inside that node's subtree.
pub proof fn lemma_leaf_within(n: NodeModel, targets: Seq<Target>)
    ensures
        within(n, leaf_below(n, targets)),
    decreases n,
{
    match entry_index(n, targets) {
        Some(i) => {
            if 0 <= i < n.children.len() {
                lemma_leaf_within(n.children[i], targets);
            }
        },
        None => {},
    }
}

/// The descent ends where it cannot go on: the leaf it arrives at offers no
/// child to enter.
pub proof fn lemma_descent_ends(n: NodeModel, targets: Seq<Target>)
    ensures
        entry_index(leaf_below(n, targets), targets) is None,
    decreases n,
{
    lemma_entry_is_a_child(n, targets);
    match entry_index(n, targets) {
        Some(i) => {
            lemma_descent_ends(n.children[i], targets);
        },
        None => {},
    }
}

/// What lies within a node that lies within another lies within the other.
pub proof fn lemma_within_transitive(a: NodeModel, b: NodeModel, c: NodeModel)
    requires
        within(a, b),
        within(b, c),
    ensures
        within(a, c),
    decreases a,
{
    if a != b {
        let i = choose|i: int| 0 <= i < a.children.len() && within(#[trigger] a.children[i], b);
        lemma_within_transitive(a.children[i], b, c);
    }
}

/// Every node of the focus path lies within the tree.
pub proof fn lemma_path_within(t: NodeModel, j: int)
    requires
        0 <= j < focus_path(t).len(),
    ensures
        within(t, focus_path(t)[j]),
    decreases t,
{
    lemma_focus_is_a_child(t);
    if j > 0 {
        let i = focused_index(t).unwrap();
        lemma_path_within(t.children[i], j - 1);
    }
}

/// What the search upward finds is a child of one of the ancestors it looked
/// at.
pub proof fn lemma_search_finds_a_child(path: Seq<NodeModel>, targets: Seq<Target>, k: int)
    requires
        0 <= k <= path.len(),
    ensures
        match search_upward(path, targets, k) {
            Some(n) => exists|j: int, i: int|
                0 <= j < k && 0 <= i < path[j].children.len() && (#[trigger] path[j].children[i])
                    == n,
            None => true,
        },
    decreases k,
{
    if k > 0 {
        let parent = path[k - 1];
        match matched_target(parent, targets) {
            Some(target) => {
                lemma_local_neighbor_is_a_child(parent, target);
                match local_neighbor_index(parent, target) {
                    Some(i) => {
                        assert(Some(parent.children[i]) == search_upward(path, targets, k));
                    },
                    None => {
                        lemma_search_finds_a_child(path, targets, k - 1);
                    },
                }
            },
            None => {
                lemma_search_finds_a_child(path, targets, k - 1);
            },
        }
    }
}

/// The neighbor that the search finds is a node of the tree, and the descent
/// cannot go on from it.
pub proof fn lemma_neighbor_is_a_leaf_of_the_tree(t: NodeModel, targets: Seq<Target>)
    ensures
        match neighbor_of(t, targets) {
            Some(n) => within(t, n) && entry_index(n, targets) is None,
            None => true,
        },
{
    let path = focus_path(t);
    lemma_search_finds_a_child(path, targets, path.len() as int);
    match search_upward(path, targets, path.len() as int) {
        Some(n) => {
            let (j, i) = choose|j: int, i: int|
                0 <= j < path.len() && 0 <= i < path[j].children.len() && (
                #[trigger] path[j].children[i]) == n;
            lemma_path_within(t, j);
            assert(within(path[j].children[i], n));
            lemma_leaf_within(n, targets);
            lemma_within_transitive(path[j], n, leaf_below(n, targets));
            lemma_within_transitive(t, path[j], leaf_below(n, targets));
            lemma_descent_ends(n, targets);
        },
        None => {},
    }
}

} // verus!
