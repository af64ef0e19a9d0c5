//! The tree as a window manager reports it, and its conversion into the
//! library's [`Node`].

use crate::normal::is_reserved;
use crate::text::has_prefix;
use crate::tree::{
    copy_ids, copy_name, lemma_children_model, lemma_node_models, name_model, node_models,
    ContainerType, FullscreenMode, Layout, Node, NodeModel, Rect, Vec2,
};
use vstd::prelude::*;
use vstd::string::*;

verus! {

/// The layout keyword of a reported node.
#[derive(Debug, Clone, Copy, PartialEq, Eq, Structural)]
pub enum PLayout {
    SplitH,
    SplitV,
    Stacked,
    Tabbed,
    Dockarea,
    Output,
    NoLayout,
}

impl PLayout {
    /// The layout that a keyword stands for. Keywords that say nothing about
    /// how children are arranged give `Other`.
    pub open spec fn layout(self) -> Layout {
        match self {
            PLayout::SplitH => Layout::SplitHorizontal,
            PLayout::SplitV => Layout::SplitVertical,
            PLayout::Tabbed => Layout::Tabbed,
            PLayout::Stacked => Layout::Stacked,
            _ => Layout::Other,
        }
    }

    pub fn process(&self) -> (r: Layout)
        ensures
            r == self.layout(),
    {
        match self {
            PLayout::SplitH => Layout::SplitHorizontal,
            PLayout::SplitV => Layout::SplitVertical,
            PLayout::Tabbed => Layout::Tabbed,
            PLayout::Stacked => Layout::Stacked,
            _ => Layout::Other,
        }
    }
}

/// The type tag of a reported node.
#[derive(Debug, Clone, Copy, PartialEq, Eq, Structural)]
pub enum PType {
    Root,
    Output,
    Con,
    FloatingCon,
    Workspace,
    Dockarea,
}

impl PType {
    /// The container type that a tag stands for.
    pub open spec fn container_type(self) -> ContainerType {
        match self {
            PType::Root => ContainerType::Root,
            PType::Output => ContainerType::Output,
            PType::Con => ContainerType::Container,
            PType::FloatingCon => ContainerType::FloatingContainer,
            PType::Workspace => ContainerType::Workspace,
            PType::Dockarea => ContainerType::Dockarea,
        }
    }

    pub fn process(&self) -> (r: ContainerType)
        ensures
            r == self.container_type(),
    {
        match self {
            PType::Root => ContainerType::Root,
            PType::Output => ContainerType::Output,
            PType::Con => ContainerType::Container,
            PType::FloatingCon => ContainerType::FloatingContainer,
            PType::Workspace => ContainerType::Workspace,
            PType::Dockarea => ContainerType::Dockarea,
        }
    }
}

/// A reported rectangle.
#[derive(Debug, Clone, Copy, PartialEq, Eq, Structural)]
pub struct PRect {
    pub x: i32,
    pub y: i32,
    pub width: i32,
    pub height: i32,
}

impl PRect {
    /// The rectangle as position and dimensions.
    pub open spec fn rect(self) -> Rect {
        Rect { pos: Vec2 { x: self.x, y: self.y }, dim: Vec2 { x: self.width, y: self.height } }
    }

    pub fn process(&self) -> (r: Rect)
        ensures
            r == self.rect(),
    {
        Rect { pos: Vec2 { x: self.x, y: self.y }, dim: Vec2 { x: self.width, y: self.height } }
    }
}

/// A reported node with everything below it.
#[derive(Debug)]
pub struct PTree {
    pub id: i64,
    pub name: Option<String>,
    pub ctype: PType,
    pub layout: PLayout,
    pub rect: PRect,
    pub focused: bool,
    pub focus: Vec<i64>,
    pub nodes: Vec<PTree>,
    pub floating_nodes: Vec<PTree>,
    /// 1 for a node that covers its workspace, 2 for one that covers every
    /// output.
    pub fullscreen_mode: Option<u8>,
}

/// The mathematical value of a [`PTree`]: the same fields, with sequences for
/// the lists and a sequence of characters for the name.
pub ghost struct PTreeModel {
    pub id: i64,
    pub name: Option<Seq<char>>,
    pub ctype: PType,
    pub layout: PLayout,
    pub rect: PRect,
    pub focused: bool,
    pub focus: Seq<i64>,
    pub nodes: Seq<PTreeModel>,
    pub floating_nodes: Seq<PTreeModel>,
    pub fullscreen_mode: Option<u8>,
}

/// The models of a list of reported nodes, in order.
pub open spec fn ptree_models(nodes: Seq<PTree>) -> Seq<PTreeModel>
    decreases nodes,
{
    Seq::new(
        nodes.len(),
        |i: int|
            if 0 <= i < nodes.len() {
                ptree_model(nodes[i])
            } else {
                arbitrary()
            },
    )
}

/// The model of a reported node.
pub open spec fn ptree_model(p: PTree) -> PTreeModel
    decreases p,
{
    PTreeModel {
        id: p.id,
        name: name_model(p.name),
        ctype: p.ctype,
        layout: p.layout,
        rect: p.rect,
        focused: p.focused,
        focus: p.focus@,
        nodes: ptree_models(p.nodes@),
        floating_nodes: ptree_models(p.floating_nodes@),
        fullscreen_mode: p.fullscreen_mode,
    }
}

/// The model of a list has one entry for each node, the node's own model.
pub broadcast proof fn lemma_ptree_models(nodes: Seq<PTree>)
    ensures
        #[trigger] ptree_models(nodes).len() == nodes.len(),
        forall|i: int|
            0 <= i < nodes.len() ==> (#[trigger] ptree_models(nodes)[i]) == ptree_model(nodes[i]),
{
}

impl View for PTree {
    type V = PTreeModel;

    open spec fn view(&self) -> PTreeModel {
        ptree_model(*self)
    }
}

/// The fullscreen mode that a reported number stands for.
pub open spec fn fullscreen_mode_of(mode: Option<u8>) -> FullscreenMode {
    match mode {
        Some(m) => if m == 1 {
            FullscreenMode::Local
        } else if m == 2 {
            FullscreenMode::Global
        } else {
            FullscreenMode::Off
        },
        None => FullscreenMode::Off,
    }
}

/// The node that a reported node stands for, with everything below it.
///
/// A node with a reserved name stands for nothing, and so does everything
/// below it. The root gets the layout of a container of outputs.
pub open spec fn processed(p: PTreeModel) -> Option<NodeModel>
    decreases p, 0nat,
{
    if is_reserved(p.name) {
        None
    } else {
        Some(
            NodeModel {
                id: p.id,
                name: p.name,
                container_type: p.ctype.container_type(),
                layout: if p.ctype == PType::Root {
                    Layout::Outputs
                } else {
                    p.layout.layout()
                },
                rect: p.rect.rect(),
                is_focused: p.focused,
                focus_order: p.focus,
                children: processed_first(p.nodes, p.nodes.len() as int),
                floating_children: processed_first(
                    p.floating_nodes,
                    p.floating_nodes.len() as int,
                ),
                fullscreen_mode: fullscreen_mode_of(p.fullscreen_mode),
            },
        )
    }
}

/// The nodes that the first `k` of `nodes` stand for, in order. Those that
/// stand for nothing are left out.
pub open spec fn processed_first(nodes: Seq<PTreeModel>, k: int) -> Seq<NodeModel>
    decreases nodes, k,
{
    if 0 < k <= nodes.len() {
        match processed(nodes[k - 1]) {
            Some(n) => processed_first(nodes, k - 1).push(n),
            None => processed_first(nodes, k - 1),
        }
    } else {
        Seq::empty()
    }
}

/// Converts a list of reported nodes.
fn process_all(nodes: &Vec<PTree>) -> (r: Vec<Node>)
    ensures
        node_models(r@) == processed_first(ptree_models(nodes@), nodes@.len() as int),
    decreases nodes,
{
    broadcast use {lemma_node_models, lemma_ptree_models};

    let mut out: Vec<Node> = Vec::new();
    let mut k: usize = 0;
    while k < nodes.len()
        invariant
            k <= nodes.len(),
            node_models(out@) == processed_first(ptree_models(nodes@), k as int),
        decreases nodes.len() - k,
    {
        broadcast use {lemma_node_models, lemma_ptree_models};

        match nodes[k].process() {
            Some(n) => {
                out.push(n);
            },
            None => {},
        }
        k += 1;
    }
    out
}

impl PTree {
    /// Converts a reported tree. The result is `None` for a node with a
    /// reserved name.
    pub fn process(&self) -> (r: Option<Node>)
        ensures
            match r {
                Some(n) => processed(self@) == Some(n@),
                None => processed(self@) is None,
            },
        decreases self, 0nat,
    {
        broadcast use lemma_ptree_models;

        let reserved = match &self.name {
            Some(s) => has_prefix(s.as_str(), "__i3"),
            None => false,
        };
        if reserved {
            return None;
        }
        let children = process_all(&self.nodes);
        let floating_children = process_all(&self.floating_nodes);
        let fullscreen_mode = match self.fullscreen_mode {
            Some(m) => if m == 1 {
                FullscreenMode::Local
            } else if m == 2 {
                FullscreenMode::Global
            } else {
                FullscreenMode::Off
            },
            None => FullscreenMode::Off,
        };
        let layout = match self.ctype {
            PType::Root => Layout::Outputs,
            _ => self.layout.process(),
        };
        let r = Node {
            id: self.id,
            name: copy_name(&self.name),
            container_type: self.ctype.process(),
            layout,
            rect: self.rect.process(),
            is_focused: self.focused,
            focus_order: copy_ids(&self.focus),
            children,
            floating_children,
            fullscreen_mode,
        };
        proof {
            lemma_children_model(r);
        }
        Some(r)
    }
}

} // verus!
