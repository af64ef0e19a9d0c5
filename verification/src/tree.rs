//! The layout tree, its mathematical model, and the canonical shape that the
//! neighbor search works on.

use crate::normal::{
    all_children, canonical, canonical_tree, find_fullscreen, find_fullscreen_from, floating_part,
    has_takeover, is_fullscreen, is_kept, is_reserved, is_split, is_wrapper, lifted, names_one_of,
    normal_output, normal_outputs, output_has_takeover, output_takeover, settled, settled_all,
    split, takeover, tiled_part,
};
use crate::scan::{
    first_index, is_first, lemma_first_index_none, lemma_first_index_some, none_satisfy,
};
use crate::text::{decimal, has_prefix, push_decimal, same_text};
use vstd::prelude::*;
use vstd::string::*;

verus! {

/// A point, or an extent, in screen units.
#[derive(Debug, Clone, Copy, PartialEq, Eq, Structural)]
pub struct Vec2 {
    pub x: i32,
    pub y: i32,
}

/// An axis-aligned rectangle: the position of its top-left corner and its
/// dimensions.
#[derive(Debug, Clone, Copy, PartialEq, Eq, Structural)]
pub struct Rect {
    pub pos: Vec2,
    pub dim: Vec2,
}

/// What kind of element a node is.
#[derive(Debug, Clone, Copy, PartialEq, Eq, Structural)]
pub enum ContainerType {
    Root,
    Output,
    Workspace,
    Container,
    FloatingContainer,
    Dockarea,
}

/// How a node arranges its children.
///
/// `Floats` and `Outputs` never come from a window manager: `preprocess`
/// assigns them to the node that holds a workspace's floating windows and to
/// the root. `Other` matches no target.
#[derive(Debug, Clone, Copy, PartialEq, Eq, Structural)]
pub enum Layout {
    SplitHorizontal,
    SplitVertical,
    Tabbed,
    Stacked,
    Floats,
    Outputs,
    Other,
}

/// Whether a node covers more than its own place in the layout.
#[derive(Debug, Clone, Copy, PartialEq, Eq, Structural)]
pub enum FullscreenMode {
    /// Not fullscreen.
    Off,
    /// Covers its workspace.
    Local,
    /// Covers every output.
    Global,
}

/// An element of the layout tree. A node owns its whole subtree.
#[derive(Debug)]
pub struct Node {
    pub id: i64,
    pub name: Option<String>,
    pub container_type: ContainerType,
    pub layout: Layout,
    pub rect: Rect,
    /// True for the one leaf that holds the input focus.
    pub is_focused: bool,
    /// Ids of children, most recently focused first.
    pub focus_order: Vec<i64>,
    pub children: Vec<Node>,
    /// Floating children of a workspace. `preprocess` moves them under a
    /// child of their own, so the search never reads this list.
    pub floating_children: Vec<Node>,
    pub fullscreen_mode: FullscreenMode,
}

/// The mathematical value of a [`Node`]: the same fields, with sequences for
/// the lists and a sequence of characters for the name.
pub ghost struct NodeModel {
    pub id: i64,
    pub name: Option<Seq<char>>,
    pub container_type: ContainerType,
    pub layout: Layout,
    pub rect: Rect,
    pub is_focused: bool,
    pub focus_order: Seq<i64>,
    pub children: Seq<NodeModel>,
    pub floating_children: Seq<NodeModel>,
    pub fullscreen_mode: FullscreenMode,
}

/// The characters of an optional name.
pub open spec fn name_model(name: Option<String>) -> Option<Seq<char>> {
    match name {
        Some(s) => Some(s@),
        None => None,
    }
}

/// The models of a list of nodes, in order.
pub open spec fn node_models(nodes: Seq<Node>) -> Seq<NodeModel>
    decreases nodes,
{
    Seq::new(
        nodes.len(),
        |i: int|
            if 0 <= i < nodes.len() {
                node_model(nodes[i])
            } else {
                arbitrary()
            },
    )
}

/// The model of a node.
pub open spec fn node_model(n: Node) -> NodeModel
    decreases n,
{
    NodeModel {
        id: n.id,
        name: name_model(n.name),
        container_type: n.container_type,
        layout: n.layout,
        rect: n.rect,
        is_focused: n.is_focused,
        focus_order: n.focus_order@,
        children: node_models(n.children@),
        floating_children: node_models(n.floating_children@),
        fullscreen_mode: n.fullscreen_mode,
    }
}

/// The model of a list has one entry for each node, the node's own model.
pub broadcast proof fn lemma_node_models(nodes: Seq<Node>)
    ensures
        #[trigger] node_models(nodes).len() == nodes.len(),
        forall|i: int|
            0 <= i < nodes.len() ==> (#[trigger] node_models(nodes)[i]) == node_model(nodes[i]),
{
}

impl View for Node {
    type V = NodeModel;

    open spec fn view(&self) -> NodeModel {
        node_model(*self)
    }
}

/// The children of a node's model are the models of the node's children.
pub proof fn lemma_children_model(n: Node)
    ensures
        n@.children.len() == n.children@.len(),
        n@.floating_children.len() == n.floating_children@.len(),
        forall|i: int|
            0 <= i < n.children@.len() ==> (#[trigger] n@.children[i]) == n.children@[i]@,
        forall|i: int|
            0 <= i < n.floating_children@.len() ==> (#[trigger] n@.floating_children[i])
                == n.floating_children@[i]@,
{
    broadcast use lemma_node_models;

}

/// Whether two optional names hold the same characters.
fn same_name(a: &Option<String>, b: &Option<String>) -> (r: bool)
    ensures
        r == (name_model(*a) == name_model(*b)),
{
    match (a, b) {
        (Some(x), Some(y)) => *x == *y,
        (None, None) => true,
        _ => false,
    }
}

/// A copy of an optional name.
pub(crate) fn copy_name(a: &Option<String>) -> (r: Option<String>)
    ensures
        name_model(r) == name_model(*a),
{
    match a {
        Some(x) => Some(x.clone()),
        None => None,
    }
}

/// A copy of a list of ids.
pub(crate) fn copy_ids(ids: &Vec<i64>) -> (r: Vec<i64>)
    ensures
        r@ == ids@,
{
    let mut out: Vec<i64> = Vec::new();
    let mut i: usize = 0;
    while i < ids.len()
        invariant
            i <= ids.len(),
            out@ == ids@.take(i as int),
        decreases ids.len() - i,
    {
        out.push(ids[i]);
        i += 1;
    }
    out
}

/// Whether two lists hold the same ids in the same order.
fn same_ids(a: &Vec<i64>, b: &Vec<i64>) -> (r: bool)
    ensures
        r == (a@ == b@),
{
    if a.len() != b.len() {
        return false;
    }
    let mut i: usize = 0;
    while i < a.len()
        invariant
            i <= a.len(),
            a.len() == b.len(),
            a@.take(i as int) == b@.take(i as int),
        decreases a.len() - i,
    {
        if a[i] != b[i] {
            return false;
        }
        i += 1;
    }
    assert(a@.take(a.len() as int) =~= a@);
    assert(b@.take(b.len() as int) =~= b@);
    true
}

impl Clone for Node {
    /// A deep copy: the result has the same model as `self`.
    fn clone(&self) -> (r: Self)
        ensures
            r@ == self@,
        decreases *self,
    {
        broadcast use lemma_node_models;

        let mut children: Vec<Node> = Vec::new();
        let mut i: usize = 0;
        while i < self.children.len()
            invariant
                i <= self.children.len(),
                children.len() == i,
                forall|j: int| 0 <= j < i ==> children[j]@ == self.children[j]@,
            decreases self.children.len() - i,
        {
            children.push(self.children[i].clone());
            i += 1;
        }
        let mut floating_children: Vec<Node> = Vec::new();
        let mut i: usize = 0;
        while i < self.floating_children.len()
            invariant
                i <= self.floating_children.len(),
                floating_children.len() == i,
                forall|j: int| 0 <= j < i ==> floating_children[j]@ == self.floating_children[j]@,
            decreases self.floating_children.len() - i,
        {
            floating_children.push(self.floating_children[i].clone());
            i += 1;
        }
        let r = Node {
            id: self.id,
            name: copy_name(&self.name),
            container_type: self.container_type,
            layout: self.layout,
            rect: self.rect,
            is_focused: self.is_focused,
            focus_order: copy_ids(&self.focus_order),
            children,
            floating_children,
            fullscreen_mode: self.fullscreen_mode,
        };
        assert(r@.children =~= self@.children);
        assert(r@.floating_children =~= self@.floating_children);
        r
    }
}

impl PartialEq for Node {
    /// Two nodes are equal when their models are: every field of the two
    /// subtrees agrees.
    fn eq(&self, other: &Self) -> (r: bool)
        decreases *self,
    {
        broadcast use lemma_node_models;

        if self.id != other.id || !same_name(&self.name, &other.name) {
            return false;
        }
        if self.container_type != other.container_type || self.layout != other.layout {
            return false;
        }
        if self.rect != other.rect || self.is_focused != other.is_focused {
            return false;
        }
        if !same_ids(&self.focus_order, &other.focus_order) || self.fullscreen_mode
            != other.fullscreen_mode {
            return false;
        }
        if self.children.len() != other.children.len() || self.floating_children.len()
            != other.floating_children.len() {
            assert(self@.children.len() == self.children@.len());
            assert(self@.floating_children.len() == self.floating_children@.len());
            return false;
        }
        let mut i: usize = 0;
        while i < self.children.len()
            invariant
                i <= self.children.len(),
                self.children.len() == other.children.len(),
                forall|j: int| 0 <= j < i ==> self.children[j]@ == other.children[j]@,
            decreases self.children.len() - i,
        {
            if !self.children[i].eq(&other.children[i]) {
                assert(self@.children[i as int] != other@.children[i as int]);
                return false;
            }
            i += 1;
        }
        let mut i: usize = 0;
        while i < self.floating_children.len()
            invariant
                i <= self.floating_children.len(),
                self.floating_children.len() == other.floating_children.len(),
                forall|j: int|
                    0 <= j < i ==> self.floating_children[j]@ == other.floating_children[j]@,
            decreases self.floating_children.len() - i,
        {
            if !self.floating_children[i].eq(&other.floating_children[i]) {
                assert(self@.floating_children[i as int] != other@.floating_children[i as int]);
                return false;
            }
            i += 1;
        }
        assert(self@.children =~= other@.children);
        assert(self@.floating_children =~= other@.floating_children);
        true
    }
}

impl vstd::std_specs::cmp::PartialEqSpecImpl for Node {
    open spec fn obeys_eq_spec() -> bool {
        true
    }

    open spec fn eq_spec(&self, other: &Self) -> bool {
        self@ == other@
    }
}

/// The coordinate of the span `[start, start + extent - 1]` that lies nearest
/// to `v`. A span without any point (`extent <= 0`) counts as its start alone.
pub open spec fn nearest_in_span(v: int, start: int, extent: int) -> int {
    let last = start + extent - 1;
    if v <= start || last < start {
        start
    } else if v > last {
        last
    } else {
        v
    }
}

/// Executable form of [`nearest_in_span`] on coordinates that fit 64 bits
/// with room to spare.
pub(crate) fn nearest_coordinate(v: i64, start: i32, extent: i32) -> (r: i64)
    ensures
        r == nearest_in_span(v as int, start as int, extent as int),
{
    let first: i64 = start as i64;
    let last: i64 = first + extent as i64 - 1;
    if v <= first || last < first {
        first
    } else if v > last {
        last
    } else {
        v
    }
}

/// Closest point to `p` within `rect`.
///
/// Each coordinate is moved into the span that the rectangle covers on that
/// axis. Along an axis on which the rectangle has no extent the result is the
/// rectangle's position.
pub fn closest_point(rect: &Rect, p: &Vec2) -> (r: Vec2)
    ensures
        r.x == nearest_in_span(p.x as int, rect.pos.x as int, rect.dim.x as int),
        r.y == nearest_in_span(p.y as int, rect.pos.y as int, rect.dim.y as int),
{
    let x: i64 = nearest_coordinate(p.x as i64, rect.pos.x, rect.dim.x);
    let y: i64 = nearest_coordinate(p.y as i64, rect.pos.y, rect.dim.y);
    Vec2 { x: x as i32, y: y as i32 }
}

/// The predicate "has this id", on node models.
pub open spec fn has_id(id: i64) -> spec_fn(NodeModel) -> bool {
    |c: NodeModel| c.id == id
}

/// The index, among the children of `n`, of the child that `n` remembers as
/// focused: the first child whose id is the first entry of `focus_order`.
/// There is none when `focus_order` is empty or its first entry names no
/// child.
pub open spec fn focused_index(n: NodeModel) -> Option<int> {
    if n.focus_order.len() == 0 {
        None
    } else {
        first_index(n.children, has_id(n.focus_order[0]))
    }
}

/// The child that `n` remembers as focused, if any.
pub open spec fn focused_child(n: NodeModel) -> Option<NodeModel> {
    match focused_index(n) {
        Some(i) => Some(n.children[i]),
        None => None,
    }
}

/// Compute the index (_not_ identifier) of the focused node in the child
/// array, if any. Also returns the vector of children to index into.
pub fn focus_idx(node: &Node) -> (r: Option<(usize, &Vec<Node>)>)
    ensures
        match r {
            Some((i, children)) => {
                &&& focused_index(node@) == Some(i as int)
                &&& i < node.children.len()
                &&& *children == node.children
            },
            None => focused_index(node@) is None,
        },
{
    proof {
        lemma_children_model(*node);
    }
    if node.focus_order.len() == 0 {
        return None;
    }
    let focus: i64 = node.focus_order[0];
    let mut index: usize = 0;
    while index < node.children.len()
        invariant
            index <= node.children.len(),
            node.focus_order@.len() > 0,
            focus == node.focus_order@[0],
            forall|j: int| 0 <= j < index ==> !has_id(focus)(#[trigger] node@.children[j]),
        decreases node.children.len() - index,
    {
        proof {
            lemma_children_model(*node);
        }
        if node.children[index].id == focus {
            proof {
                lemma_first_index_some(node@.children, has_id(focus), index as int);
            }
            return Some((index, &node.children));
        }
        index += 1;
    }
    proof {
        lemma_first_index_none(node@.children, has_id(focus));
    }
    None
}

/// Return the focused child, if any.
pub fn focus_local(node: &Node) -> (r: Option<&Node>)
    ensures
        match r {
            Some(child) => {
                &&& focused_index(node@) is Some
                &&& *child == node.children@[focused_index(node@).unwrap()]
                &&& Some(child@) == focused_child(node@)
            },
            None => focused_child(node@) is None,
        },
{
    proof {
        lemma_children_model(*node);
    }
    match focus_idx(node) {
        Some((index, children)) => Some(&children[index]),
        None => None,
    }
}

/// The command that gives the focus to a node, as text. The root cannot be
/// focused, and an output or a workspace only by its name.
pub open spec fn focus_command_text(n: NodeModel) -> Option<Seq<char>> {
    match n.container_type {
        ContainerType::Root => None,
        ContainerType::Output => match n.name {
            Some(name) => Some("focus output "@ + name),
            None => None,
        },
        ContainerType::Workspace => match n.name {
            Some(name) => Some("workspace "@ + name),
            None => None,
        },
        _ => Some("[con_id="@ + decimal(n.id as int) + "] focus"@),
    }
}

/// Generate a command that will focus `node`.
pub fn focus_command(node: &Node) -> (r: Option<String>)
    ensures
        match r {
            Some(command) => focus_command_text(node@) == Some(command@),
            None => focus_command_text(node@) is None,
        },
{
    match node.container_type {
        ContainerType::Root => None,
        ContainerType::Output => match &node.name {
            Some(name) => {
                let mut command = String::from_str("focus output ");
                command.append(name.as_str());
                Some(command)
            },
            None => None,
        },
        ContainerType::Workspace => match &node.name {
            Some(name) => {
                let mut command = String::from_str("workspace ");
                command.append(name.as_str());
                Some(command)
            },
            None => None,
        },
        _ => {
            let mut command = String::from_str("[con_id=");
            push_decimal(&mut command, node.id);
            command.append("] focus");
            Some(command)
        },
    }
}

/// Executable form of [`is_reserved`].
fn is_reserved_name(name: &Option<String>) -> (r: bool)
    ensures
        r == is_reserved(name_model(*name)),
{
    match name {
        Some(s) => has_prefix(s.as_str(), "__i3"),
        None => false,
    }
}

/// Executable form of [`is_wrapper`].
fn is_wrapper_node(n: &Node) -> (r: bool)
    ensures
        r == is_wrapper()(n@),
{
    match &n.name {
        Some(s) => same_text(s.as_str(), "content"),
        None => false,
    }
}

/// Brings the workspaces of an output directly below it.
fn lift_wrapper(o: Node) -> (r: Node)
    ensures
        r@ == lifted(o@),
{
    proof {
        lemma_children_model(o);
    }
    let mut found: Option<usize> = None;
    let mut i: usize = 0;
    while i < o.children.len() && found.is_none()
        invariant
            i <= o.children.len(),
            match found {
                Some(k) => is_first(o@.children, is_wrapper(), k as int),
                None => forall|j: int| 0 <= j < i ==> !is_wrapper()(#[trigger] o@.children[j]),
            },
        decreases o.children.len() - i + if found is None { 1int } else { 0int },
    {
        proof {
            lemma_children_model(o);
        }
        if is_wrapper_node(&o.children[i]) {
            found = Some(i);
        } else {
            i += 1;
        }
    }
    match found {
        None => {
            proof {
                lemma_first_index_none(o@.children, is_wrapper());
            }
            o
        },
        Some(k) => {
            proof {
                lemma_first_index_some(o@.children, is_wrapper(), k as int);
            }
            let Node {
                id,
                name,
                container_type,
                layout,
                rect,
                is_focused,
                focus_order: _,
                children,
                floating_children,
                fullscreen_mode,
            } = o;
            let mut children = children;
            let wrapper = children.remove(k);
            Node {
                id,
                name,
                container_type,
                layout,
                rect,
                is_focused,
                focus_order: wrapper.focus_order,
                children: wrapper.children,
                floating_children,
                fullscreen_mode,
            }
        },
    }
}

/// Whether `id` is the id of one of `nodes`.
fn names_child(nodes: &Vec<Node>, id: i64) -> (r: bool)
    ensures
        r == names_one_of(node_models(nodes@))(id),
{
    broadcast use lemma_node_models;

    let mut i: usize = 0;
    while i < nodes.len()
        invariant
            i <= nodes.len(),
            forall|j: int| 0 <= j < i ==> (#[trigger] node_models(nodes@)[j]).id != id,
        decreases nodes.len() - i,
    {
        broadcast use lemma_node_models;

        if nodes[i].id == id {
            assert(node_models(nodes@)[i as int].id == id);
            return true;
        }
        i += 1;
    }
    false
}

/// The ids of `focus` that name one of `nodes`, in the same order.
fn partition_focus(focus: &Vec<i64>, nodes: &Vec<Node>) -> (r: Vec<i64>)
    ensures
        r@ == focus@.filter(names_one_of(node_models(nodes@))),
{
    let ghost keep = names_one_of(node_models(nodes@));
    let mut out: Vec<i64> = Vec::new();
    let mut i: usize = 0;
    while i < focus.len()
        invariant
            i <= focus.len(),
            keep == names_one_of(node_models(nodes@)),
            out@ == focus@.take(i as int).filter(keep),
        decreases focus.len() - i,
    {
        let id: i64 = focus[i];
        proof {
            let next = focus@.take(i + 1);
            assert(next.drop_last() =~= focus@.take(i as int));
            reveal_with_fuel(Seq::filter, 2);
        }
        if names_child(nodes, id) {
            out.push(id);
        }
        i += 1;
    }
    assert(focus@.take(focus.len() as int) =~= focus@);
    out
}

/// Splits a workspace into its tiled part and its floating part.
fn split_workspace(w: Node) -> (r: Node)
    ensures
        r@ == split(w@),
{
    proof {
        lemma_children_model(w);
    }
    let focus_is_tiled: bool = focus_idx(&w).is_some();
    let tiled_focus = partition_focus(&w.focus_order, &w.children);
    let floating_focus = partition_focus(&w.focus_order, &w.floating_children);
    let Node {
        id,
        name,
        container_type,
        layout,
        rect,
        is_focused,
        focus_order: _,
        children,
        floating_children,
        fullscreen_mode,
    } = w;
    let floats: i64 = -1 - id;
    let tiled = Node {
        id,
        name: copy_name(&name),
        container_type,
        layout,
        rect,
        is_focused,
        focus_order: tiled_focus,
        children,
        floating_children: Vec::new(),
        fullscreen_mode: FullscreenMode::Off,
    };
    let floating = Node {
        id: floats,
        name: copy_name(&name),
        container_type,
        layout: Layout::Floats,
        rect,
        is_focused: false,
        focus_order: floating_focus,
        children: floating_children,
        floating_children: Vec::new(),
        fullscreen_mode: FullscreenMode::Off,
    };
    proof {
        lemma_children_model(tiled);
        lemma_children_model(floating);
        assert(tiled@.floating_children =~= Seq::empty());
    }
    let mut order: Vec<i64> = Vec::new();
    if focus_is_tiled {
        order.push(id);
        order.push(floats);
    } else {
        order.push(floats);
        order.push(id);
    }
    let mut parts: Vec<Node> = Vec::new();
    parts.push(tiled);
    parts.push(floating);
    let r = Node {
        id,
        name,
        container_type,
        layout: Layout::Other,
        rect,
        is_focused,
        focus_order: order,
        children: parts,
        floating_children: Vec::new(),
        fullscreen_mode,
    };
    proof {
        lemma_children_model(r);
        assert(r@.children =~= seq![tiled_part(w@), floating_part(w@)]);
        assert(r@.focus_order =~= split(w@).focus_order);
    }
    r
}

/// Executable form of [`is_split`].
fn is_split_node(w: &Node) -> (r: bool)
    ensures
        r == is_split(w@),
{
    proof {
        lemma_children_model(*w);
    }
    w.layout == Layout::Other && w.floating_children.len() == 0 && w.children.len() == 2
        && w.children[1].layout == Layout::Floats
}

/// The first fullscreen node of `nodes`, by index.
fn first_fullscreen(nodes: &Vec<Node>) -> (r: Option<usize>)
    ensures
        match r {
            Some(i) => is_first(node_models(nodes@), is_fullscreen(), i as int),
            None => none_satisfy(node_models(nodes@), is_fullscreen()),
        },
{
    broadcast use lemma_node_models;

    let mut i: usize = 0;
    while i < nodes.len()
        invariant
            i <= nodes.len(),
            forall|j: int| 0 <= j < i ==> !is_fullscreen()(#[trigger] node_models(nodes@)[j]),
        decreases nodes.len() - i,
    {
        broadcast use lemma_node_models;

        match nodes[i].fullscreen_mode {
            FullscreenMode::Off => {},
            _ => {
                return Some(i);
            },
        }
        i += 1;
    }
    None
}

/// Searches below `node` for a fullscreen node.
fn locate_fullscreen(node: &Node) -> (r: Option<&Node>)
    ensures
        match r {
            Some(f) => find_fullscreen(node@) == Some(f@),
            None => find_fullscreen(node@) is None,
        },
    decreases node,
{
    broadcast use lemma_node_models;

    let ghost both = all_children(node@);
    proof {
        lemma_children_model(*node);
    }
    match first_fullscreen(&node.children) {
        Some(i) => {
            proof {
                lemma_first_index_some(both, is_fullscreen(), i as int);
            }
            return Some(&node.children[i]);
        },
        None => {},
    }
    let tiled: usize = node.children.len();
    match first_fullscreen(&node.floating_children) {
        Some(i) => {
            proof {
                lemma_first_index_some(both, is_fullscreen(), tiled + i);
            }
            return Some(&node.floating_children[i]);
        },
        None => {},
    }
    proof {
        lemma_first_index_none(both, is_fullscreen());
    }
    let mut k: usize = 0;
    while k < node.children.len()
        invariant
            k <= node.children.len(),
            find_fullscreen(node@) == find_fullscreen_from(node@.children, k as int),
        decreases node.children.len() - k,
    {
        proof {
            lemma_children_model(*node);
        }
        match locate_fullscreen(&node.children[k]) {
            Some(f) => {
                return Some(f);
            },
            None => {},
        }
        k += 1;
    }
    None
}

/// A node without its children and floating children.
pub open spec fn childless(n: NodeModel) -> NodeModel {
    NodeModel { children: Seq::empty(), floating_children: Seq::empty(), ..n }
}

/// Search the tree for a fullscreen descendant.
/// If found, the descendant is returned and `node` is left without children:
/// everything else below it is dropped as collateral.
pub fn extract_fullscreen_child(node: &mut Node) -> (r: Option<Node>)
    ensures
        match r {
            Some(f) => find_fullscreen(old(node)@) == Some(f@) && final(node)@ == childless(
                old(node)@,
            ),
            None => find_fullscreen(old(node)@) is None && final(node)@ == old(node)@,
        },
{
    let found: Option<Node> = match locate_fullscreen(node) {
        Some(f) => Some(f.clone()),
        None => None,
    };
    if found.is_some() {
        node.children = Vec::new();
        node.floating_children = Vec::new();
        proof {
            lemma_children_model(*node);
            assert(node@.children =~= Seq::empty());
        }
    }
    found
}

/// Brings a workspace into its canonical shape, unless a node below it
/// covers every output: that node is returned as the error.
fn settle_workspace(w: Node) -> (r: Result<Node, Node>)
    ensures
        match r {
            Ok(s) => takeover(w@) is None && s@ == settled(w@),
            Err(g) => takeover(w@) == Some(g@),
        },
{
    let mut s = if is_split_node(&w) {
        w
    } else {
        split_workspace(w)
    };
    match extract_fullscreen_child(&mut s) {
        None => Ok(s),
        Some(f) => {
            match f.fullscreen_mode {
                FullscreenMode::Global => Err(f),
                _ => {
                    let Node {
                        id: _,
                        name: _,
                        container_type: _,
                        layout,
                        rect,
                        is_focused,
                        focus_order,
                        children,
                        floating_children,
                        fullscreen_mode,
                    } = f;
                    let Node {
                        id,
                        name,
                        container_type,
                        layout: _,
                        rect: _,
                        is_focused: _,
                        focus_order: _,
                        children: _,
                        floating_children: _,
                        fullscreen_mode: _,
                    } = s;
                    Ok(
                        Node {
                            id,
                            name,
                            container_type,
                            layout,
                            rect,
                            is_focused,
                            focus_order,
                            children,
                            floating_children,
                            fullscreen_mode,
                        },
                    )
                },
            }
        },
    }
}

/// Brings an output into its canonical shape, unless a node below it covers
/// every output: that node is returned as the error.
fn normalize_output(o: Node) -> (r: Result<Node, Node>)
    ensures
        match r {
            Ok(n) => output_takeover(o@) is None && n@ == normal_output(o@),
            Err(g) => output_takeover(o@) == Some(g@),
        },
{
    let lifted_output = lift_wrapper(o);
    proof {
        lemma_children_model(lifted_output);
    }
    let Node {
        id,
        name,
        container_type,
        layout,
        rect,
        is_focused,
        focus_order,
        children,
        floating_children,
        fullscreen_mode,
    } = lifted_output;
    let ghost workspaces = lifted(o@).children;
    let mut done: Vec<Node> = Vec::new();
    for w in it: children
        invariant
            it.seq() == children@,
            workspaces == lifted(o@).children,
            workspaces == node_models(children@),
            done.len() == it.index(),
            forall|j: int| 0 <= j < done.len() ==> (#[trigger] done@[j])@ == settled(workspaces[j]),
            forall|j: int| 0 <= j < done.len() ==> !has_takeover()(#[trigger] workspaces[j]),
    {
        broadcast use lemma_node_models;

        let ghost k = done.len() as int;
        match settle_workspace(w) {
            Ok(s) => {
                done.push(s);
            },
            Err(g) => {
                proof {
                    lemma_first_index_some(workspaces, has_takeover(), k);
                }
                return Err(g);
            },
        }
    }
    proof {
        broadcast use lemma_node_models;

        lemma_first_index_none(workspaces, has_takeover());
    }
    let r = Node {
        id,
        name,
        container_type,
        layout,
        rect,
        is_focused,
        focus_order,
        children: done,
        floating_children,
        fullscreen_mode,
    };
    proof {
        lemma_children_model(r);
        assert(r@.children =~= settled_all(workspaces));
    }
    Ok(r)
}

/// Reform the tree to prepare for neighbor searching.
///
/// Internal outputs are removed, the workspaces of each output are brought
/// directly below it and split into a tiled and a floating part, and a
/// workspace with a fullscreen descendant is collapsed into it. A
/// descendant that covers every output becomes the whole tree.
pub fn preprocess(node: Node) -> (r: Node)
    ensures
        r@ == canonical_tree(node@),
{
    proof {
        lemma_children_model(node);
    }
    let Node {
        id,
        name,
        container_type,
        layout: _,
        rect,
        is_focused,
        focus_order,
        children,
        floating_children,
        fullscreen_mode,
    } = node;
    let ghost all = node@.children;
    let ghost outputs = all.filter(is_kept());
    let mut done: Vec<Node> = Vec::new();
    assert(all.take(0).filter(is_kept()) =~= Seq::<NodeModel>::empty());
    for o in it: children
        invariant
            it.seq() == children@,
            all == node@.children,
            all == node_models(children@),
            outputs == all.filter(is_kept()),
            done.len() == all.take(it.index() as int).filter(is_kept()).len(),
            forall|j: int|
                0 <= j < done.len() ==> (#[trigger] done@[j])@ == normal_output(
                    all.take(it.index() as int).filter(is_kept())[j],
                ),
            forall|j: int|
                0 <= j < done.len() ==> !output_has_takeover()(
                    #[trigger] all.take(it.index() as int).filter(is_kept())[j],
                ),
    {
        broadcast use lemma_node_models;

        let ghost i = it.index() as int;
        let ghost before = all.take(i).filter(is_kept());
        let ghost next = all.take(i + 1);
        proof {
            assert(o@ == all[i]);
            assert(next.drop_last() =~= all.take(i));
            assert(next.last() == all[i]);
            reveal_with_fuel(Seq::filter, 2);
            assert(all =~= next + all.skip(i + 1));
            Seq::filter_distributes_over_add(next, all.skip(i + 1), is_kept());
        }
        if !is_reserved_name(&o.name) {
            assert(is_kept()(all[i]));
            assert(next.filter(is_kept()) == before.push(all[i]));
            match normalize_output(o) {
                Ok(n) => {
                    done.push(n);
                },
                Err(g) => {
                    proof {
                        let k = before.len() as int;
                        assert(outputs[k] == all[i]);
                        assert(output_has_takeover()(outputs[k]));
                        assert forall|j: int| 0 <= j < k implies !output_has_takeover()(
                            #[trigger] outputs[j],
                        ) by {
                            assert(outputs[j] == before[j]);
                        }
                        lemma_first_index_some(outputs, output_has_takeover(), k);
                    }
                    return g;
                },
            }
        } else {
            assert(!is_kept()(all[i]));
            assert(next.filter(is_kept()) == before);
        }
    }
    proof {
        assert(all.take(all.len() as int) =~= all);
        lemma_first_index_none(outputs, output_has_takeover());
    }
    let r = Node {
        id,
        name,
        container_type,
        layout: Layout::Outputs,
        rect,
        is_focused,
        focus_order,
        children: done,
        floating_children,
        fullscreen_mode,
    };
    proof {
        lemma_children_model(r);
        assert(r@.children =~= normal_outputs(outputs));
    }
    r
}

} // verus!
