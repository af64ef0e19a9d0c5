//! Neighbor-finding algorithm.
//!
//! The search walks from the root along the remembered focus to the focused
//! leaf and looks at the ancestors of that leaf from the innermost outward.
//! At the first ancestor that a target applies to, a sibling of the focused
//! child is chosen, by position in the list or by geometry, and the search
//! descends from that sibling to a leaf.

use crate::geometry::{
    float_entry, floats_before, is_farthest, is_nearest, lemma_farthest_index, lemma_float_entry,
    lemma_nearest_index, lemma_no_candidates, lies_past, midpoint, nearer, none_past, separation,
};
use crate::scan::{lemma_first_index_none, lemma_first_index_some};
use crate::search::{
    applies, applies_to, focus_path, leaf_below, lemma_ordinal_step, local_neighbor,
    local_neighbor_index, matched_target, neighbor_of, ordinal_step, search_upward,
};
use crate::tree::{
    focus_idx, lemma_children_model, lemma_node_models, nearest_coordinate, node_models,
    ContainerType, Layout, Node, NodeModel, Rect,
};
use vstd::prelude::*;

verus! {

/// A target with which to search for a neighbor.
#[derive(Debug, Clone, Copy, PartialEq, Eq, Structural)]
pub struct Target {
    /// The kind of neighbor to find.
    pub kind: Kind,
    /// Whether to find the succeeding or preceding neighbor.
    pub backward: bool,
    /// Whether to switch horizontally or vertically.
    pub vertical: bool,
    /// Moving-into-edge handling.
    pub edge_mode: EdgeMode,
}

/// The kind of container whose children a target moves among.
#[derive(Debug, Clone, Copy, PartialEq, Eq, Structural)]
pub enum Kind {
    /// Children laid out side by side, or one above the other.
    Split,
    /// Children shown one at a time, as tabs or as a stack.
    Group,
    /// The floating windows of a workspace.
    Float,
    /// The workspaces of an output.
    Workspace,
    /// The outputs.
    Output,
}

/// Describes what to do when attempting to move past the last or first child of a container.
#[derive(Debug, Clone, Copy, PartialEq, Eq, Structural)]
pub enum EdgeMode {
    /// Do nothing, don't change focus.
    Stop,
    /// Wrap around and focus the first or last child.
    Wrap,
    /// Spill over, focus the closest node in new parent.
    Traverse,
    /// Spill over to the next ancestor; a container entered on the way down
    /// is entered at its remembered focus, as with `Stop` and `Wrap`.
    Inactive,
}

/// Executable form of [`applies`].
fn target_applies(target: &Target, node: &Node) -> (r: bool)
    ensures
        r == applies(*target, node@),
{
    match target.kind {
        Kind::Output => node.layout == Layout::Outputs,
        Kind::Workspace => node.container_type == ContainerType::Output,
        Kind::Split => if target.vertical {
            node.layout == Layout::SplitVertical
        } else {
            node.layout == Layout::SplitHorizontal
        },
        Kind::Group => if target.vertical {
            node.layout == Layout::Stacked
        } else {
            node.layout == Layout::Tabbed
        },
        Kind::Float => node.layout == Layout::Floats,
    }
}

/// Finds the first of `targets` that applies to `node`.
pub fn match_targets(node: &Node, targets: &[Target]) -> (r: Option<Target>)
    ensures
        r == matched_target(node@, targets@),
{
    let mut i: usize = 0;
    while i < targets.len()
        invariant
            i <= targets.len(),
            forall|j: int| 0 <= j < i ==> !applies_to(node@)(#[trigger] targets@[j]),
        decreases targets.len() - i,
    {
        if target_applies(&targets[i], node) {
            proof {
                lemma_first_index_some(targets@, applies_to(node@), i as int);
            }
            return Some(targets[i]);
        }
        i += 1;
    }
    proof {
        lemma_first_index_none(targets@, applies_to(node@));
    }
    None
}

/// Executable form of [`ordinal_step`], without the offset by `len`.
fn ordinal_neighbor(len: usize, focus: usize, backward: bool, wrap: bool) -> (r: Option<usize>)
    requires
        focus < len,
    ensures
        match r {
            Some(i) => i < len && ordinal_step(len as int, focus as int, backward, wrap) == Some(
                i as int,
            ),
            None => ordinal_step(len as int, focus as int, backward, wrap) is None,
        },
{
    proof {
        lemma_ordinal_step(len as int, focus as int, backward, wrap);
    }
    if backward {
        if focus > 0 {
            Some(focus - 1)
        } else if wrap {
            Some(len - 1)
        } else {
            None
        }
    } else {
        if focus + 1 < len {
            Some(focus + 1)
        } else if wrap {
            Some(0)
        } else {
            None
        }
    }
}

/// Executable form of [`midpoint`].
fn midpoint_of(r: &Rect, vertical: bool) -> (m: i64)
    ensures
        m == midpoint(*r, vertical),
{
    if vertical {
        r.pos.y as i64 + (r.dim.y as i64) / 2
    } else {
        r.pos.x as i64 + (r.dim.x as i64) / 2
    }
}

/// The square of a difference of two coordinates.
fn squared_gap(a: i64, b: i64) -> (r: i128)
    requires
        -0x2_0000_0000 <= a <= 0x2_0000_0000,
        -0x2_0000_0000 <= b <= 0x2_0000_0000,
    ensures
        r == (a - b) * (a - b),
        0 <= r <= 0x4_0000_0000 * 0x4_0000_0000,
{
    let d: i128 = a as i128 - b as i128;
    assert(0 <= d * d <= 0x4_0000_0000 * 0x4_0000_0000) by (nonlinear_arith)
        requires
            -0x4_0000_0000 <= d <= 0x4_0000_0000,
    ;
    d * d
}

/// Executable form of [`separation`].
fn separation_of(kind: Kind, vertical: bool, f: &Rect, c: &Rect) -> (d: i128)
    ensures
        d == separation(kind, vertical, *f, *c),
{
    proof {
        reveal(separation);
    }
    match kind {
        Kind::Float => {
            let d: i64 = midpoint_of(c, vertical) - midpoint_of(f, vertical);
            if d < 0 {
                -(d as i128)
            } else {
                d as i128
            }
        },
        _ => {
            let cx: i64 = f.pos.x as i64 + (f.dim.x as i64) / 2;
            let cy: i64 = f.pos.y as i64 + (f.dim.y as i64) / 2;
            let px: i64 = nearest_coordinate(cx, c.pos.x, c.dim.x);
            let py: i64 = nearest_coordinate(cy, c.pos.y, c.dim.y);
            squared_gap(cx, px) + squared_gap(cy, py)
        },
    }
}

/// Executable form of [`lies_past`].
fn lies_past_of(kind: Kind, vertical: bool, reversed: bool, f: &Node, c: &Node) -> (r: bool)
    ensures
        r == lies_past(kind, vertical, reversed, f@, c@),
{
    if c.id == f.id {
        return false;
    }
    let (a, b) = if reversed {
        (&c.rect, &f.rect)
    } else {
        (&f.rect, &c.rect)
    };
    match kind {
        Kind::Float => {
            let ma: i64 = midpoint_of(a, vertical);
            let mb: i64 = midpoint_of(b, vertical);
            ma < mb || (ma == mb && (reversed == (f.id < c.id)))
        },
        _ => {
            if vertical {
                a.pos.y as i64 + a.dim.y as i64 <= b.pos.y as i64
            } else {
                a.pos.x as i64 + a.dim.x as i64 <= b.pos.x as i64
            }
        },
    }
}

/// Executable form of [`nearer`].
fn nearer_of(kind: Kind, vertical: bool, reversed: bool, f: &Node, a: &Node, b: &Node) -> (r:
    bool)
    ensures
        r == nearer(kind, vertical, reversed, f@, a@, b@),
{
    let sa: i128 = separation_of(kind, vertical, &f.rect, &a.rect);
    let sb: i128 = separation_of(kind, vertical, &f.rect, &b.rect);
    if sa != sb {
        sa < sb
    } else if reversed {
        a.id < b.id
    } else {
        b.id < a.id
    }
}

/// Among the siblings that lie past the focused one, finds the nearest, or
/// with `farthest` the farthest.
fn pick_by_geometry(
    siblings: &Vec<Node>,
    f: usize,
    kind: Kind,
    vertical: bool,
    reversed: bool,
    farthest: bool,
) -> (r: Option<usize>)
    requires
        f < siblings.len(),
    ensures
        match r {
            Some(i) => {
                &&& i < siblings.len()
                &&& if farthest {
                    is_farthest(
                        node_models(siblings@),
                        f as int,
                        kind,
                        vertical,
                        reversed,
                        i as int,
                    )
                } else {
                    is_nearest(
                        node_models(siblings@),
                        f as int,
                        kind,
                        vertical,
                        reversed,
                        i as int,
                    )
                }
            },
            None => none_past(node_models(siblings@), f as int, kind, vertical, reversed),
        },
{
    broadcast use lemma_node_models;

    let ghost s = node_models(siblings@);
    let ghost me = s[f as int];
    let focused = &siblings[f];
    let mut best: Option<usize> = None;
    let mut k: usize = 0;
    while k < siblings.len()
        invariant
            k <= siblings.len(),
            f < siblings.len(),
            s == node_models(siblings@),
            me == s[f as int],
            *focused == siblings@[f as int],
            match best {
                Some(b) => {
                    &&& b < k
                    &&& lies_past(kind, vertical, reversed, me, s[b as int])
                    &&& forall|j: int|
                        0 <= j < k && lies_past(kind, vertical, reversed, me, #[trigger] s[j])
                            ==> if farthest {
                            if j > b {
                                nearer(kind, vertical, reversed, me, s[j], s[b as int])
                            } else {
                                !nearer(kind, vertical, reversed, me, s[b as int], s[j])
                            }
                        } else {
                            if j < b {
                                nearer(kind, vertical, reversed, me, s[b as int], s[j])
                            } else {
                                !nearer(kind, vertical, reversed, me, s[j], s[b as int])
                            }
                        }
                },
                None => forall|j: int|
                    0 <= j < k ==> !lies_past(kind, vertical, reversed, me, #[trigger] s[j]),
            },
        decreases siblings.len() - k,
    {
        broadcast use lemma_node_models;

        let candidate = &siblings[k];
        if lies_past_of(kind, vertical, reversed, focused, candidate) {
            match best {
                None => {
                    best = Some(k);
                },
                Some(b) => {
                    let current = &siblings[b];
                    let closer = nearer_of(kind, vertical, reversed, focused, candidate, current);
                    if farthest {
                        if !closer {
                            best = Some(k);
                        }
                    } else {
                        if closer {
                            best = Some(k);
                        }
                    }
                },
            }
        }
        k += 1;
    }
    best
}

/// Tries to find a neighbor of the focused child of the top node in `tree`,
/// according to the given target.
pub fn neighbor_local<'a>(tree: &'a Node, target: &Target) -> (r: Option<&'a Node>)
    ensures
        match r {
            Some(n) => {
                &&& local_neighbor_index(tree@, *target) is Some
                &&& *n == tree.children@[local_neighbor_index(tree@, *target).unwrap()]
                &&& Some(n@) == local_neighbor(tree@, *target)
            },
            None => local_neighbor(tree@, *target) is None,
        },
{
    proof {
        lemma_children_model(*tree);
    }
    let (focus, children) = match focus_idx(tree) {
        Some(found) => found,
        None => {
            return None;
        },
    };
    let ghost s = tree@.children;
    let wrap = target.edge_mode == EdgeMode::Wrap;
    let choice: Option<usize> = if target.kind == Kind::Float || target.kind == Kind::Output {
        let ahead = pick_by_geometry(
            children,
            focus,
            target.kind,
            target.vertical,
            target.backward,
            false,
        );
        match ahead {
            Some(i) => {
                proof {
                    lemma_nearest_index(
                        s,
                        focus as int,
                        target.kind,
                        target.vertical,
                        target.backward,
                        i as int,
                    );
                }
                Some(i)
            },
            None => {
                proof {
                    lemma_no_candidates(
                        s,
                        focus as int,
                        target.kind,
                        target.vertical,
                        target.backward,
                    );
                }
                if wrap {
                    let behind = pick_by_geometry(
                        children,
                        focus,
                        target.kind,
                        target.vertical,
                        !target.backward,
                        true,
                    );
                    match behind {
                        Some(i) => {
                            proof {
                                lemma_farthest_index(
                                    s,
                                    focus as int,
                                    target.kind,
                                    target.vertical,
                                    !target.backward,
                                    i as int,
                                );
                            }
                            Some(i)
                        },
                        None => {
                            proof {
                                lemma_no_candidates(
                                    s,
                                    focus as int,
                                    target.kind,
                                    target.vertical,
                                    !target.backward,
                                );
                            }
                            Some(focus)
                        },
                    }
                } else {
                    None
                }
            },
        }
    } else {
        ordinal_neighbor(children.len(), focus, target.backward, wrap)
    };
    match choice {
        Some(i) => Some(&children[i]),
        None => None,
    }
}

/// Executable form of [`floats_before`].
fn floats_before_of(vertical: bool, a: &Node, b: &Node) -> (r: bool)
    ensures
        r == floats_before(vertical, a@, b@),
{
    let ma: i64 = midpoint_of(&a.rect, vertical);
    let mb: i64 = midpoint_of(&b.rect, vertical);
    ma < mb || (ma == mb && a.id > b.id)
}

/// Finds the window at which a container of floating windows is entered.
fn pick_float_entry(windows: &Vec<Node>, vertical: bool, backward: bool) -> (r: Option<usize>)
    ensures
        match r {
            Some(i) => i < windows.len() && float_entry(node_models(windows@), vertical, backward)
                == Some(i as int),
            None => windows.len() == 0 && float_entry(node_models(windows@), vertical, backward)
                is None,
        },
{
    broadcast use lemma_node_models;

    let ghost s = node_models(windows@);
    if windows.len() == 0 {
        return None;
    }
    let mut best: usize = 0;
    let mut k: usize = 1;
    while k < windows.len()
        invariant
            1 <= k <= windows.len(),
            best < k,
            s == node_models(windows@),
            forall|j: int|
                0 <= j < k ==> if backward {
                    if j > best {
                        floats_before(vertical, #[trigger] s[j], s[best as int])
                    } else {
                        !floats_before(vertical, s[best as int], s[j])
                    }
                } else {
                    if j < best {
                        floats_before(vertical, s[best as int], s[j])
                    } else {
                        !floats_before(vertical, s[j], s[best as int])
                    }
                },
        decreases windows.len() - k,
    {
        broadcast use lemma_node_models;

        let before = floats_before_of(vertical, &windows[k], &windows[best]);
        if backward {
            if !before {
                best = k;
            }
        } else {
            if before {
                best = k;
            }
        }
        k += 1;
    }
    proof {
        lemma_float_entry(s, vertical, backward, best as int);
    }
    Some(best)
}

/// Find a leaf in a (presumed) neighboring container, respecting target edge-modes
pub fn select_leaf<'a>(t: &'a Node, targets: &[Target]) -> (r: &'a Node)
    ensures
        r@ == leaf_below(t@, targets@),
{
    let mut cur: &'a Node = t;
    loop
        invariant
            leaf_below(cur@, targets@) == leaf_below(t@, targets@),
        ensures
            cur@ == leaf_below(t@, targets@),
        decreases cur,
    {
        proof {
            lemma_children_model(*cur);
        }
        let matched = match_targets(cur, targets);
        let traversing: Option<Target> = match matched {
            Some(target) => if target.edge_mode == EdgeMode::Traverse && target.kind
                != Kind::Output {
                Some(target)
            } else {
                None
            },
            None => None,
        };
        let entry: Option<usize> = match traversing {
            Some(target) => {
                if target.kind == Kind::Float {
                    pick_float_entry(&cur.children, target.vertical, target.backward)
                } else if cur.children.len() == 0 {
                    None
                } else if target.backward {
                    Some(cur.children.len() - 1)
                } else {
                    Some(0)
                }
            },
            None => match focus_idx(cur) {
                Some((i, _)) => Some(i),
                None => None,
            },
        };
        match entry {
            Some(i) => {
                cur = &cur.children[i];
            },
            None => {
                break ;
            },
        }
    }
    cur
}

/// Find a neighbor matching one of the `targets`.
pub fn neighbor<'a>(t: &'a Node, targets: &[Target]) -> (r: Option<&'a Node>)
    ensures
        match r {
            Some(n) => neighbor_of(t@, targets@) == Some(n@),
            None => neighbor_of(t@, targets@) is None,
        },
{
    // Go down the focus path and collect the ancestors of the focused leaf.
    let mut path: Vec<&'a Node> = Vec::new();
    let ghost mut models: Seq<NodeModel> = Seq::empty();
    let mut cur: &'a Node = t;
    while !cur.is_focused
        invariant_except_break
            focus_path(t@) == models + focus_path(cur@),
        invariant
            models.len() == path.len(),
            forall|i: int| 0 <= i < path.len() ==> (#[trigger] path@[i])@ == models[i],
        ensures
            focus_path(t@) == models,
        decreases cur,
    {
        proof {
            lemma_children_model(*cur);
        }
        path.push(cur);
        proof {
            models = models.push(cur@);
        }
        match focus_idx(cur) {
            Some((i, _)) => {
                assert(focus_path(cur@) == seq![cur@] + focus_path(cur@.children[i as int]));
                assert(models + focus_path(cur@.children[i as int]) =~= models.drop_last() + (
                seq![cur@] + focus_path(cur@.children[i as int])));
                cur = &cur.children[i];
            },
            None => {
                assert(focus_path(cur@) == seq![cur@]);
                assert(models =~= models.drop_last() + seq![cur@]);
                break ;
            },
        }
    }
    assert(focus_path(t@) =~= models);
    // Search the ancestors, nearest first, for a valid neighbor.
    let mut k: usize = path.len();
    while k > 0
        invariant
            k <= path.len(),
            focus_path(t@) == models,
            models.len() == path.len(),
            forall|i: int| 0 <= i < path.len() ==> (#[trigger] path@[i])@ == models[i],
            search_upward(models, targets@, models.len() as int) == search_upward(
                models,
                targets@,
                k as int,
            ),
        decreases k,
    {
        k -= 1;
        let parent: &'a Node = path[k];
        assert(parent@ == models[k as int]);
        match match_targets(parent, targets) {
            None => {},
            Some(target) => {
                match neighbor_local(parent, &target) {
                    Some(n) => {
                        return Some(select_leaf(n, targets));
                    },
                    None => {
                        if target.edge_mode == EdgeMode::Stop {
                            return None;
                        }
                    },
                }
            },
        }
    }
    None
}

} // verus!
