//! Laws of the canonical shape: what bringing a tree into it keeps and what
//! it gives up.

use crate::normal::{
    all_children, canonical, canonical_tree, find_fullscreen, find_fullscreen_from, floating_part,
    has_takeover, is_fullscreen, is_kept, is_split, is_wrapper, lifted, normal_output,
    normal_outputs, output_has_takeover, output_takeover, settled, settled_all, split, takeover,
    tiled_part,
};
use crate::scan::{
    first_index, lemma_first_exists, lemma_first_index, lemma_first_index_none, none_satisfy,
};
use crate::tree::{FullscreenMode, Layout, NodeModel};
use vstd::prelude::*;

verus! {

/// Whether `t` has the canonical shape of a whole tree: the layout of a
/// container of outputs, no output with a reserved name, and every workspace
/// split.
pub open spec fn is_canonical(t: NodeModel) -> bool {
    &&& t.layout == Layout::Outputs
    &&& forall|i: int| 0 <= i < t.children.len() ==> is_kept()(#[trigger] t.children[i])
    &&& forall|i: int, j: int|
        0 <= i < t.children.len() && 0 <= j < t.children[i].children.len() ==> is_split(
            #[trigger] t.children[i].children[j],
        )
}

/// Whether no output of `t` holds its workspaces under a wrapper.
pub open spec fn has_no_wrapper(t: NodeModel) -> bool {
    forall|i: int|
        0 <= i < t.children.len() ==> none_satisfy(
            (#[trigger] t.children[i]).children,
            is_wrapper(),
        )
}

/// Whether no node below `n` is fullscreen.
pub open spec fn no_fullscreen_below(n: NodeModel) -> bool
    decreases n,
{
    &&& forall|i: int|
        0 <= i < n.children.len() ==> (#[trigger] n.children[i]).fullscreen_mode
            == FullscreenMode::Off && no_fullscreen_below(n.children[i])
    &&& forall|i: int|
        0 <= i < n.floating_children.len() ==> (#[trigger] n.floating_children[i]).fullscreen_mode
            == FullscreenMode::Off && no_fullscreen_below(n.floating_children[i])
}

/// The search finds nothing from index `from` on where nothing is
/// fullscreen.
proof fn lemma_nothing_found_from(nodes: Seq<NodeModel>, from: int)
    requires
        forall|i: int| 0 <= i < nodes.len() ==> find_fullscreen(#[trigger] nodes[i]) is None,
    ensures
        find_fullscreen_from(nodes, from) is None,
    decreases nodes.len() - from,
{
    if 0 <= from < nodes.len() {
        lemma_nothing_found_from(nodes, from + 1);
    }
}

/// The search finds nothing below a node below which nothing is fullscreen.
pub proof fn lemma_nothing_found(n: NodeModel)
    requires
        no_fullscreen_below(n),
    ensures
        find_fullscreen(n) is None,
    decreases n,
{
    let both = all_children(n);
    lemma_first_index_none(both, is_fullscreen());
    assert forall|i: int| 0 <= i < n.children.len() implies find_fullscreen(
        #[trigger] n.children[i],
    ) is None by {
        lemma_nothing_found(n.children[i]);
    }
    lemma_nothing_found_from(n.children, 0);
}

/// Filtering keeps a sequence as it is when every element passes.
proof fn lemma_filter_keeps_all<A>(s: Seq<A>, p: spec_fn(A) -> bool)
    requires
        forall|i: int| 0 <= i < s.len() ==> p(#[trigger] s[i]),
    ensures
        s.filter(p) == s,
    decreases s.len(),
{
    reveal(Seq::filter);
    if s.len() > 0 {
        lemma_filter_keeps_all(s.drop_last(), p);
    }
}

/// Bringing a tree into canonical shape changes nothing if it has that shape
/// already, holds no wrapper and no fullscreen node: doing it once more, or
/// any number of times, gives the same tree. In particular a split workspace
/// is not split again.
pub proof fn lemma_canonical_tree_is_fixed(t: NodeModel)
    requires
        is_canonical(t),
        has_no_wrapper(t),
        no_fullscreen_below(t),
    ensures
        canonical_tree(t) == t,
        canonical_tree(canonical_tree(t)) == canonical_tree(t),
{
    lemma_filter_keeps_all(t.children, is_kept());
    let outputs = t.children;
    assert forall|i: int| 0 <= i < outputs.len() implies output_takeover(#[trigger] outputs[i])
        is None && normal_output(outputs[i]) == outputs[i] by {
        let o = outputs[i];
        assert(no_fullscreen_below(t.children[i]));
        lemma_first_index_none(o.children, is_wrapper());
        let workspaces = o.children;
        assert forall|j: int| 0 <= j < workspaces.len() implies takeover(#[trigger] workspaces[j])
            is None && settled(workspaces[j]) == workspaces[j] by {
            lemma_nothing_found(workspaces[j]);
        }
        lemma_first_index_none(workspaces, has_takeover());
        assert(settled_all(workspaces) =~= workspaces);
    }
    lemma_first_index_none(outputs, output_has_takeover());
    assert(normal_outputs(outputs) =~= outputs);
}

/// Lifting the workspaces of an output brings no fullscreen node below it.
proof fn lemma_lifted_has_no_fullscreen(o: NodeModel)
    requires
        no_fullscreen_below(o),
    ensures
        no_fullscreen_below(lifted(o)),
{
    lemma_first_index(o.children, is_wrapper());
    match first_index(o.children, is_wrapper()) {
        Some(i) => {
            assert(no_fullscreen_below(o.children[i]));
        },
        None => {},
    }
}

/// Splitting a workspace brings no fullscreen node below it.
proof fn lemma_split_has_no_fullscreen(w: NodeModel)
    requires
        no_fullscreen_below(w),
    ensures
        no_fullscreen_below(canonical(w)),
        is_split(canonical(w)),
{
    if !is_split(w) {
        assert(no_fullscreen_below(tiled_part(w)));
        assert(no_fullscreen_below(floating_part(w)));
    }
}

/// The canonical tree of a tree without fullscreen nodes has the canonical
/// shape, and no fullscreen node either.
pub proof fn lemma_canonical_tree_is_canonical(t: NodeModel)
    requires
        no_fullscreen_below(t),
    ensures
        is_canonical(canonical_tree(t)),
        no_fullscreen_below(canonical_tree(t)),
{
    let outputs = t.children.filter(is_kept());
    assert forall|k: int| 0 <= k < outputs.len() implies {
        let o = #[trigger] outputs[k];
        &&& is_kept()(o)
        &&& o.fullscreen_mode == FullscreenMode::Off
        &&& no_fullscreen_below(o)
    } by {
        t.children.lemma_filter_pred(is_kept(), k);
        t.children.lemma_filter_contains_rev(is_kept(), outputs[k]);
        let i = choose|i: int| 0 <= i < t.children.len() && t.children[i] == outputs[k];
    }
    assert forall|k: int| 0 <= k < outputs.len() implies {
        let n = normal_output(#[trigger] outputs[k]);
        &&& output_takeover(outputs[k]) is None
        &&& n.name == outputs[k].name
        &&& n.fullscreen_mode == FullscreenMode::Off
        &&& no_fullscreen_below(n)
        &&& forall|j: int| 0 <= j < n.children.len() ==> is_split(#[trigger] n.children[j])
    } by {
        let o = outputs[k];
        lemma_lifted_has_no_fullscreen(o);
        let workspaces = lifted(o).children;
        assert forall|j: int| 0 <= j < workspaces.len() implies {
            let w = #[trigger] workspaces[j];
            &&& takeover(w) is None
            &&& settled(w) == canonical(w)
            &&& is_split(settled(w))
            &&& settled(w).fullscreen_mode == FullscreenMode::Off
            &&& no_fullscreen_below(settled(w))
        } by {
            lemma_split_has_no_fullscreen(workspaces[j]);
            lemma_nothing_found(canonical(workspaces[j]));
        }
        lemma_first_index_none(workspaces, has_takeover());
    }
    lemma_first_index_none(outputs, output_has_takeover());
}

/// Bringing a tree without fullscreen nodes into canonical shape twice gives
/// what doing it once gives, unless the first time leaves a wrapper behind.
pub proof fn lemma_canonical_tree_is_idempotent(t: NodeModel)
    requires
        no_fullscreen_below(t),
        has_no_wrapper(canonical_tree(t)),
    ensures
        canonical_tree(canonical_tree(t)) == canonical_tree(t),
{
    lemma_canonical_tree_is_canonical(t);
    lemma_canonical_tree_is_fixed(canonical_tree(t));
}

/// `d` is a node that the search below `n` can come upon: a child or a
/// floating child of `n`, or such a node of a child of `n`, and so on.
pub open spec fn is_searched(n: NodeModel, d: NodeModel) -> bool
    decreases n,
{
    ||| exists|i: int| 0 <= i < n.children.len() && #[trigger] n.children[i] == d
    ||| exists|i: int| 0 <= i < n.floating_children.len() && #[trigger] n.floating_children[i] == d
    ||| exists|i: int| 0 <= i < n.children.len() && is_searched(#[trigger] n.children[i], d)
}

/// What the search finds from index `from` on is fullscreen and lies below
/// one of the nodes.
proof fn lemma_found_from_is_searched(nodes: Seq<NodeModel>, from: int)
    requires
        0 <= from,
    ensures
        match find_fullscreen_from(nodes, from) {
            Some(f) => f.fullscreen_mode != FullscreenMode::Off && exists|i: int|
                0 <= i < nodes.len() && is_searched(#[trigger] nodes[i], f),
            None => true,
        },
    decreases nodes, nodes.len() - from,
{
    if 0 <= from < nodes.len() {
        if find_fullscreen(nodes[from]) is Some {
            lemma_found_is_searched(nodes[from]);
        } else {
            lemma_found_from_is_searched(nodes, from + 1);
        }
    }
}

/// What the search finds below `n` is fullscreen and is a node that the
/// search can come upon.
pub proof fn lemma_found_is_searched(n: NodeModel)
    ensures
        match find_fullscreen(n) {
            Some(f) => f.fullscreen_mode != FullscreenMode::Off && is_searched(n, f),
            None => true,
        },
    decreases n, n.children.len() + 1,
{
    let both = all_children(n);
    lemma_first_index(both, is_fullscreen());
    if first_index(both, is_fullscreen()) is None {
        lemma_found_from_is_searched(n.children, 0);
    }
}

/// The search from index `from` on finds something if it finds something
/// below one of the nodes from there on.
proof fn lemma_found_from(nodes: Seq<NodeModel>, from: int, i: int)
    requires
        0 <= from <= i < nodes.len(),
        find_fullscreen(nodes[i]) is Some,
    ensures
        find_fullscreen_from(nodes, from) is Some,
    decreases i - from,
{
    if from < i && find_fullscreen(nodes[from]) is None {
        lemma_found_from(nodes, from + 1, i);
    }
}

/// The search below `n` finds something if it can come upon a fullscreen
/// node.
pub proof fn lemma_searched_is_found(n: NodeModel, d: NodeModel)
    requires
        is_searched(n, d),
        d.fullscreen_mode != FullscreenMode::Off,
    ensures
        find_fullscreen(n) is Some,
    decreases n,
{
    let both = all_children(n);
    lemma_first_index(both, is_fullscreen());
    if first_index(both, is_fullscreen()) is None {
        if exists|i: int| 0 <= i < n.children.len() && #[trigger] n.children[i] == d {
            let i = choose|i: int| 0 <= i < n.children.len() && #[trigger] n.children[i] == d;
            assert(both[i] == d);
        } else if exists|i: int|
            0 <= i < n.floating_children.len() && #[trigger] n.floating_children[i] == d {
            let i = choose|i: int|
                0 <= i < n.floating_children.len() && #[trigger] n.floating_children[i] == d;
            assert(both[n.children.len() + i] == d);
        } else {
            let i = choose|i: int|
                0 <= i < n.children.len() && is_searched(#[trigger] n.children[i], d);
            lemma_searched_is_found(n.children[i], d);
            lemma_found_from(n.children, 0, i);
        }
    }
}

/// The workspaces of the output `o` of `t`, counting only the outputs that
/// are kept, as they lie directly below it.
pub open spec fn workspaces_of(t: NodeModel, o: int) -> Seq<NodeModel> {
    lifted(t.children.filter(is_kept())[o]).children
}

/// `(o, w)` is the place of a workspace of `t`.
pub open spec fn is_workspace_of(t: NodeModel, o: int, w: int) -> bool {
    0 <= o < t.children.filter(is_kept()).len() && 0 <= w < workspaces_of(t, o).len()
}

/// `d` is a node that the search for fullscreen nodes can come upon below
/// the workspace at `(o, w)`, once that is split.
pub open spec fn is_searched_at(t: NodeModel, o: int, w: int, d: NodeModel) -> bool {
    is_workspace_of(t, o, w) && is_searched(canonical(workspaces_of(t, o)[w]), d)
}

/// A node that covers every output makes the canonical tree one such node:
/// every output, workspace and sibling is given up for it.
///
/// This holds of a node `g` that the search can come upon below a workspace
/// in which it comes upon no node that covers the workspace only.
pub proof fn lemma_global_fullscreen_takes_over(t: NodeModel, o: int, w: int, g: NodeModel)
    requires
        is_searched_at(t, o, w, g),
        g.fullscreen_mode == FullscreenMode::Global,
        forall|d: NodeModel|
            is_searched_at(t, o, w, d) ==> d.fullscreen_mode != FullscreenMode::Local,
    ensures
        canonical_tree(t).fullscreen_mode == FullscreenMode::Global,
        exists|o1: int, w1: int| is_searched_at(t, o1, w1, canonical_tree(t)),
{
    let outputs = t.children.filter(is_kept());
    let workspaces = workspaces_of(t, o);
    lemma_searched_is_found(canonical(workspaces[w]), g);
    lemma_found_is_searched(canonical(workspaces[w]));
    assert(is_searched_at(t, o, w, find_fullscreen(canonical(workspaces[w])).unwrap()));
    lemma_first_exists(workspaces, has_takeover(), w);
    lemma_first_index(workspaces, has_takeover());
    lemma_first_exists(outputs, output_has_takeover(), o);
    lemma_first_index(outputs, output_has_takeover());
    let o1 = first_index(outputs, output_has_takeover()).unwrap();
    let spaces = workspaces_of(t, o1);
    lemma_first_index(spaces, has_takeover());
    let w1 = first_index(spaces, has_takeover()).unwrap();
    lemma_found_is_searched(canonical(spaces[w1]));
    assert(is_searched_at(t, o1, w1, canonical_tree(t)));
}

/// A node that covers every output becomes the whole canonical tree, if it
/// is the only such node.
///
/// This holds of a node `g` that the search can come upon below a workspace
/// in which it comes upon no node that covers the workspace only, provided
/// that every node covering every output that the search can come upon
/// anywhere is `g`.
pub proof fn lemma_only_global_fullscreen_is_the_tree(t: NodeModel, o: int, w: int, g: NodeModel)
    requires
        is_searched_at(t, o, w, g),
        g.fullscreen_mode == FullscreenMode::Global,
        forall|d: NodeModel|
            is_searched_at(t, o, w, d) ==> d.fullscreen_mode != FullscreenMode::Local,
        forall|o1: int, w1: int, d: NodeModel|
            is_searched_at(t, o1, w1, d) && d.fullscreen_mode == FullscreenMode::Global ==> d == g,
    ensures
        canonical_tree(t) == g,
{
    lemma_global_fullscreen_takes_over(t, o, w, g);
}

} // verus!
