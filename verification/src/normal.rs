//! The canonical shape of a layout tree.
//!
//! A tree as a window manager reports it is irregular: some outputs are
//! internal, some hold their workspaces under an intermediate node, a
//! workspace keeps its floating windows in a list of their own, and a
//! fullscreen window hides what surrounds it. This module says what the
//! canonical tree of a reported tree is. [`crate::tree::preprocess`] computes
//! it.
//!
//! The children of the root are its outputs, and the children of an output,
//! once brought out of a wrapper, are its workspaces, whatever their
//! container types say.

use crate::scan::first_index;
use crate::tree::{focused_index, FullscreenMode, Layout, NodeModel};
use vstd::prelude::*;

verus! {

/// Whether a name is reserved for the window manager's internal nodes, such
/// as the scratchpad: it begins with `__i3`.
pub open spec fn is_reserved(name: Option<Seq<char>>) -> bool {
    match name {
        Some(s) => "__i3"@.is_prefix_of(s),
        None => false,
    }
}

/// The predicate "is kept as an output": the name is not reserved.
pub open spec fn is_kept() -> spec_fn(NodeModel) -> bool {
    |o: NodeModel| !is_reserved(o.name)
}

/// The predicate "is the wrapper of an output's workspaces": the node is
/// named `content`.
pub open spec fn is_wrapper() -> spec_fn(NodeModel) -> bool {
    |c: NodeModel| c.name == Some("content"@)
}

/// An output with its workspaces directly below it. If the output has a
/// wrapper among its children, the children and focus order of the first
/// wrapper take the place of its own.
pub open spec fn lifted(o: NodeModel) -> NodeModel {
    match first_index(o.children, is_wrapper()) {
        Some(i) => NodeModel {
            focus_order: o.children[i].focus_order,
            children: o.children[i].children,
            ..o
        },
        None => o,
    }
}

/// The predicate "is the id of one of `nodes`", on ids.
pub open spec fn names_one_of(nodes: Seq<NodeModel>) -> spec_fn(i64) -> bool {
    |id: i64| exists|i: int| 0 <= i < nodes.len() && (#[trigger] nodes[i]).id == id
}

/// The id of the node that holds the floating windows of the workspace with
/// the given id. It differs from the workspace's id, and is negative for the
/// ids that window managers hand out.
pub open spec fn floats_id(id: i64) -> i64 {
    (-1 - id) as i64
}

/// The part of a workspace that holds its tiled children: the workspace
/// itself without its floating windows, remembering the focus among its
/// tiled children only. It is not fullscreen.
pub open spec fn tiled_part(w: NodeModel) -> NodeModel {
    NodeModel {
        focus_order: w.focus_order.filter(names_one_of(w.children)),
        floating_children: Seq::empty(),
        fullscreen_mode: FullscreenMode::Off,
        ..w
    }
}

/// The part of a workspace that holds its floating windows as children,
/// remembering the focus among them. It has the name, the container type and
/// the rectangle of the workspace and an id of its own, and is neither
/// focused nor fullscreen.
pub open spec fn floating_part(w: NodeModel) -> NodeModel {
    NodeModel {
        id: floats_id(w.id),
        layout: Layout::Floats,
        is_focused: false,
        focus_order: w.focus_order.filter(names_one_of(w.floating_children)),
        children: w.floating_children,
        floating_children: Seq::empty(),
        fullscreen_mode: FullscreenMode::Off,
        ..w
    }
}

/// A workspace split in two: its only children are its tiled part and its
/// floating part, in that order, under a layout that no target matches. The
/// part remembered as focused is the tiled one if the workspace's focus
/// resolves to a tiled child, and the floating one otherwise.
pub open spec fn split(w: NodeModel) -> NodeModel {
    NodeModel {
        layout: Layout::Other,
        focus_order: if focused_index(w) is Some {
            seq![w.id, floats_id(w.id)]
        } else {
            seq![floats_id(w.id), w.id]
        },
        children: seq![tiled_part(w), floating_part(w)],
        floating_children: Seq::empty(),
        ..w
    }
}

/// Whether a workspace has the shape that [`split`] gives: two children, the
/// second of them for floating windows, and no floating children of its own.
pub open spec fn is_split(w: NodeModel) -> bool {
    &&& w.layout == Layout::Other
    &&& w.floating_children.len() == 0
    &&& w.children.len() == 2
    &&& w.children[1].layout == Layout::Floats
}

/// A workspace in split shape: itself if it has that shape already.
pub open spec fn canonical(w: NodeModel) -> NodeModel {
    if is_split(w) {
        w
    } else {
        split(w)
    }
}

/// The predicate "is fullscreen".
pub open spec fn is_fullscreen() -> spec_fn(NodeModel) -> bool {
    |n: NodeModel| n.fullscreen_mode != FullscreenMode::Off
}

/// The children of `n` followed by its floating children.
pub open spec fn all_children(n: NodeModel) -> Seq<NodeModel> {
    n.children + n.floating_children
}

/// The fullscreen node that a search below `n` finds.
///
/// The first fullscreen node among the children and floating children of `n`
/// is found before anything deeper. If none of them is fullscreen, the
/// children are searched in order, each in the same way.
pub open spec fn find_fullscreen(n: NodeModel) -> Option<NodeModel>
    decreases n, 0nat,
{
    match first_index(all_children(n), is_fullscreen()) {
        Some(i) => Some(all_children(n)[i]),
        None => find_fullscreen_from(n.children, 0),
    }
}

/// What the search finds below the nodes of `nodes` from index `from` on.
pub open spec fn find_fullscreen_from(nodes: Seq<NodeModel>, from: int) -> Option<NodeModel>
    decreases nodes, nodes.len() - from,
{
    if 0 <= from < nodes.len() {
        match find_fullscreen(nodes[from]) {
            Some(f) => Some(f),
            None => find_fullscreen_from(nodes, from + 1),
        }
    } else {
        None
    }
}

/// A fullscreen node in the place of the workspace it covers: the node with
/// the id, the container type and the name of the workspace.
pub open spec fn in_place_of(f: NodeModel, w: NodeModel) -> NodeModel {
    NodeModel { id: w.id, container_type: w.container_type, name: w.name, ..f }
}

/// A workspace of the canonical tree: the workspace in split shape, or the
/// fullscreen node found below that, in its place.
pub open spec fn settled(w: NodeModel) -> NodeModel {
    match find_fullscreen(canonical(w)) {
        Some(f) => in_place_of(f, canonical(w)),
        None => canonical(w),
    }
}

/// The node that the search below the workspace `w` finds, if it covers
/// every output.
pub open spec fn takeover(w: NodeModel) -> Option<NodeModel> {
    match find_fullscreen(canonical(w)) {
        Some(f) => if f.fullscreen_mode == FullscreenMode::Global {
            Some(f)
        } else {
            None
        },
        None => None,
    }
}

/// The predicate "the search below it finds a node that covers every
/// output", on workspaces.
pub open spec fn has_takeover() -> spec_fn(NodeModel) -> bool {
    |w: NodeModel| takeover(w) is Some
}

/// The node below the output `o` for which the tree is given up: what the
/// search finds in the first workspace of `o` where it finds a node that
/// covers every output.
pub open spec fn output_takeover(o: NodeModel) -> Option<NodeModel> {
    match first_index(lifted(o).children, has_takeover()) {
        Some(i) => takeover(lifted(o).children[i]),
        None => None,
    }
}

/// The predicate "the search below one of its workspaces finds a node that
/// covers every output", on outputs.
pub open spec fn output_has_takeover() -> spec_fn(NodeModel) -> bool {
    |o: NodeModel| output_takeover(o) is Some
}

/// The workspaces of a canonical output.
pub open spec fn settled_all(workspaces: Seq<NodeModel>) -> Seq<NodeModel> {
    Seq::new(workspaces.len(), |i: int| settled(workspaces[i]))
}

/// An output of the canonical tree: its workspaces directly below it, each
/// of them settled.
pub open spec fn normal_output(o: NodeModel) -> NodeModel {
    NodeModel { children: settled_all(lifted(o).children), ..lifted(o) }
}

/// The outputs of the canonical tree.
pub open spec fn normal_outputs(outputs: Seq<NodeModel>) -> Seq<NodeModel> {
    Seq::new(outputs.len(), |i: int| normal_output(outputs[i]))
}

/// The canonical tree of `t`.
///
/// The children of `t` with a reserved name are left out; the others are its
/// outputs. If the search below some workspace finds a node that covers
/// every output, the node found in the first such workspace of the first such
/// output is the whole result. Otherwise the result is `t` with the layout of
/// a container of outputs and with canonical outputs.
pub open spec fn canonical_tree(t: NodeModel) -> NodeModel {
    let outputs = t.children.filter(is_kept());
    match first_index(outputs, output_has_takeover()) {
        Some(i) => output_takeover(outputs[i]).unwrap(),
        None => NodeModel { layout: Layout::Outputs, children: normal_outputs(outputs), ..t },
    }
}

} // verus!
