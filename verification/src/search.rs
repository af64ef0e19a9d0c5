//! What the neighbor search finds.
//!
//! The definitions follow the search step by step: the path from the root to
//! the focused leaf, the target that applies at an ancestor, the neighbor
//! among the children of that ancestor, and the descent from the neighbor to
//! a leaf. [`crate::algorithm::neighbor`] computes [`neighbor_of`].

use crate::algorithm::{EdgeMode, Kind, Target};
use crate::geometry::{float_entry, geometric_choice};
use crate::scan::first_index;
use crate::tree::{focused_index, ContainerType, Layout, NodeModel};
use vstd::arithmetic::div_mod::lemma_fundamental_div_mod_converse;
use vstd::prelude::*;

verus! {

/// Whether `target` addresses the children of `n`.
pub open spec fn applies(target: Target, n: NodeModel) -> bool {
    match target.kind {
        Kind::Output => n.layout == Layout::Outputs,
        Kind::Workspace => n.container_type == ContainerType::Output,
        Kind::Split => n.layout == if target.vertical {
            Layout::SplitVertical
        } else {
            Layout::SplitHorizontal
        },
        Kind::Group => n.layout == if target.vertical {
            Layout::Stacked
        } else {
            Layout::Tabbed
        },
        Kind::Float => n.layout == Layout::Floats,
    }
}

/// The predicate "applies to `n`", on targets.
pub open spec fn applies_to(n: NodeModel) -> spec_fn(Target) -> bool {
    |target: Target| applies(target, n)
}

/// The target to use at `n`: the first of `targets`, in priority order, that
/// applies to it.
pub open spec fn matched_target(n: NodeModel, targets: Seq<Target>) -> Option<Target> {
    match first_index(targets, applies_to(n)) {
        Some(i) => Some(targets[i]),
        None => None,
    }
}

/// The ancestors of the focused leaf below `t`, from `t` downward: `t` and
/// every node reached by following the remembered focus, up to but without
/// the first node that is itself focused. The walk also ends at a node whose
/// remembered focus names no child; that node is the last of the path.
///
/// The focused index always names a child; the definition asks so that it
/// stands on its own.
pub open spec fn focus_path(t: NodeModel) -> Seq<NodeModel>
    decreases t,
{
    if t.is_focused {
        Seq::empty()
    } else {
        match focused_index(t) {
            Some(i) => if 0 <= i < t.children.len() {
                seq![t] + focus_path(t.children[i])
            } else {
                seq![t]
            },
            None => seq![t],
        }
    }
}

/// The neighbor by position in a list of `len` children of which the one at
/// `focus` is focused.
///
/// The candidate is `focus + len - 1` going backward and `focus + len + 1`
/// going forward. With `wrap` it is taken modulo `len`. Without, it counts
/// only if it lies in `[len, 2 * len)`, and `len` is subtracted.
pub open spec fn ordinal_step(len: int, focus: int, backward: bool, wrap: bool) -> Option<int> {
    let raw = focus + len + if backward {
        -1int
    } else {
        1int
    };
    if wrap {
        Some(raw % len)
    } else if len <= raw < 2 * len {
        Some(raw - len)
    } else {
        None
    }
}

/// The neighbor by position is the next child going forward and the previous
/// one going backward. Past the last child it is the first, and before the
/// first the last, if the target wraps; otherwise there is none.
pub proof fn lemma_ordinal_step(len: int, focus: int, backward: bool, wrap: bool)
    requires
        0 <= focus < len,
    ensures
        ordinal_step(len, focus, backward, wrap) == if backward {
            if focus > 0 {
                Some(focus - 1)
            } else if wrap {
                Some(len - 1)
            } else {
                None
            }
        } else {
            if focus + 1 < len {
                Some(focus + 1)
            } else if wrap {
                Some(0int)
            } else {
                None
            }
        },
{
    if backward {
        if focus > 0 {
            lemma_fundamental_div_mod_converse(focus + len - 1, len, 1, focus - 1);
        } else {
            lemma_fundamental_div_mod_converse(focus + len - 1, len, 0, len - 1);
        }
    } else {
        if focus + 1 < len {
            lemma_fundamental_div_mod_converse(focus + len + 1, len, 1, focus + 1);
        } else {
            lemma_fundamental_div_mod_converse(focus + len + 1, len, 2, 0);
        }
    }
}

/// Whether siblings are chosen by geometry for this kind of target.
pub open spec fn is_geometric(kind: Kind) -> bool {
    kind == Kind::Float || kind == Kind::Output
}

/// The index of the neighbor of the focused child of `n` under `target`.
/// There is none when `n` has no resolvable focused child.
pub open spec fn local_neighbor_index(n: NodeModel, target: Target) -> Option<int> {
    match focused_index(n) {
        None => None,
        Some(f) => if is_geometric(target.kind) {
            geometric_choice(n.children, f, target)
        } else {
            ordinal_step(
                n.children.len() as int,
                f,
                target.backward,
                target.edge_mode == EdgeMode::Wrap,
            )
        },
    }
}

/// The neighbor of the focused child of `n` under `target`.
pub open spec fn local_neighbor(n: NodeModel, target: Target) -> Option<NodeModel> {
    match local_neighbor_index(n, target) {
        Some(i) => Some(n.children[i]),
        None => None,
    }
}

/// The neighbor found among the first `k` nodes of `path`, looking at the
/// last of them first.
///
/// An ancestor to which no target applies is passed over. At the first one
/// with a target, the local neighbor is the result if there is one. If there
/// is none, a target that stops ends the search without a result, and any
/// other lets it go on with the next ancestor outward.
pub open spec fn search_upward(path: Seq<NodeModel>, targets: Seq<Target>, k: int) -> Option<
    NodeModel,
>
    decreases k,
{
    if k <= 0 {
        None
    } else {
        let parent = path[k - 1];
        match matched_target(parent, targets) {
            None => search_upward(path, targets, k - 1),
            Some(target) => match local_neighbor(parent, target) {
                Some(n) => Some(n),
                None => if target.edge_mode == EdgeMode::Stop {
                    None
                } else {
                    search_upward(path, targets, k - 1)
                },
            },
        }
    }
}

/// The target under which `n` is entered at a fixed end instead of at its
/// remembered focus: the matched target, if it traverses. A container of
/// outputs is never entered that way.
pub open spec fn traversal_target(n: NodeModel, targets: Seq<Target>) -> Option<Target> {
    match matched_target(n, targets) {
        Some(target) => if target.edge_mode == EdgeMode::Traverse && target.kind != Kind::Output {
            Some(target)
        } else {
            None
        },
        None => None,
    }
}

/// The index of the child through which the descent to a leaf leaves `n`.
///
/// Under a traversing target it is the end of `n` that faces the direction
/// the search came from: for floating windows by position on the axis, for
/// everything else the first child moving forward and the last moving
/// backward. Otherwise it is the remembered focus of `n`. There is none when
/// `n` has no child to offer.
pub open spec fn entry_index(n: NodeModel, targets: Seq<Target>) -> Option<int> {
    match traversal_target(n, targets) {
        Some(target) => if target.kind == Kind::Float {
            float_entry(n.children, target.vertical, target.backward)
        } else if n.children.len() == 0 {
            None
        } else if target.backward {
            Some(n.children.len() - 1)
        } else {
            Some(0)
        },
        None => focused_index(n),
    }
}

/// The leaf that the descent from `n` ends in.
///
/// The entry index always names a child; the definition asks so that it
/// stands on its own.
pub open spec fn leaf_below(n: NodeModel, targets: Seq<Target>) -> NodeModel
    decreases n,
{
    match entry_index(n, targets) {
        Some(i) => if 0 <= i < n.children.len() {
            leaf_below(n.children[i], targets)
        } else {
            n
        },
        None => n,
    }
}

/// The leaf to focus next in the tree `t` for the given targets, if any.
pub open spec fn neighbor_of(t: NodeModel, targets: Seq<Target>) -> Option<NodeModel> {
    let path = focus_path(t);
    match search_upward(path, targets, path.len() as int) {
        Some(n) => Some(leaf_below(n, targets)),
        None => None,
    }
}

} // verus!
