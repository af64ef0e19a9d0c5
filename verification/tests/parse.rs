use overfocus::parse::{PLayout, PRect, PTree, PType};
use overfocus::tree::{ContainerType, FullscreenMode, Layout, Node, Rect, Vec2};

fn reported(id: i64, name: Option<&str>, ctype: PType, layout: PLayout) -> PTree {
    PTree {
        id,
        name: name.map(|s| s.to_string()),
        ctype,
        layout,
        rect: PRect { x: 1, y: 2, width: 3, height: 4 },
        focused: false,
        focus: vec![],
        nodes: vec![],
        floating_nodes: vec![],
        fullscreen_mode: None,
    }
}

fn converted(id: i64, name: Option<&str>, container_type: ContainerType, layout: Layout) -> Node {
    Node {
        id,
        name: name.map(|s| s.to_string()),
        container_type,
        layout,
        rect: Rect { pos: Vec2 { x: 1, y: 2 }, dim: Vec2 { x: 3, y: 4 } },
        is_focused: false,
        focus_order: vec![],
        children: vec![],
        floating_children: vec![],
        fullscreen_mode: FullscreenMode::Off,
    }
}

#[test]
fn layout_keywords() {
    assert_eq!(PLayout::SplitH.process(), Layout::SplitHorizontal);
    assert_eq!(PLayout::SplitV.process(), Layout::SplitVertical);
    assert_eq!(PLayout::Tabbed.process(), Layout::Tabbed);
    assert_eq!(PLayout::Stacked.process(), Layout::Stacked);
    assert_eq!(PLayout::Dockarea.process(), Layout::Other);
    assert_eq!(PLayout::Output.process(), Layout::Other);
    assert_eq!(PLayout::NoLayout.process(), Layout::Other);
}

#[test]
fn type_tags() {
    assert_eq!(PType::Root.process(), ContainerType::Root);
    assert_eq!(PType::Output.process(), ContainerType::Output);
    assert_eq!(PType::Con.process(), ContainerType::Container);
    assert_eq!(PType::FloatingCon.process(), ContainerType::FloatingContainer);
    assert_eq!(PType::Workspace.process(), ContainerType::Workspace);
    assert_eq!(PType::Dockarea.process(), ContainerType::Dockarea);
}

#[test]
fn rectangle_as_position_and_dimensions() {
    let r = PRect { x: -5, y: 7, width: 1920, height: 1080 };
    assert_eq!(
        r.process(),
        Rect { pos: Vec2 { x: -5, y: 7 }, dim: Vec2 { x: 1920, y: 1080 } }
    );
}

#[test]
fn process_converts_every_field() {
    let mut p = reported(12, Some("term"), PType::Con, PLayout::Stacked);
    p.focused = true;
    p.focus = vec![3, 1, 2];
    p.fullscreen_mode = Some(1);
    let mut n = converted(12, Some("term"), ContainerType::Container, Layout::Stacked);
    n.is_focused = true;
    n.focus_order = vec![3, 1, 2];
    n.fullscreen_mode = FullscreenMode::Local;
    assert_eq!(p.process(), Some(n));
}

#[test]
fn process_converts_children_in_order() {
    let mut p = reported(1, None, PType::Workspace, PLayout::SplitH);
    p.nodes = vec![
        reported(2, Some("a"), PType::Con, PLayout::NoLayout),
        reported(3, Some("b"), PType::Con, PLayout::SplitV),
    ];
    p.floating_nodes = vec![reported(4, Some("c"), PType::FloatingCon, PLayout::NoLayout)];
    p.nodes[1].nodes = vec![reported(5, None, PType::Con, PLayout::NoLayout)];
    let mut n = converted(1, None, ContainerType::Workspace, Layout::SplitHorizontal);
    n.children = vec![
        converted(2, Some("a"), ContainerType::Container, Layout::Other),
        converted(3, Some("b"), ContainerType::Container, Layout::SplitVertical),
    ];
    n.floating_children =
        vec![converted(4, Some("c"), ContainerType::FloatingContainer, Layout::Other)];
    n.children[1].children = vec![converted(5, None, ContainerType::Container, Layout::Other)];
    assert_eq!(p.process(), Some(n));
}

#[test]
fn process_gives_the_root_the_layout_of_outputs() {
    let p = reported(1, Some("root"), PType::Root, PLayout::SplitH);
    assert_eq!(
        p.process(),
        Some(converted(1, Some("root"), ContainerType::Root, Layout::Outputs))
    );
    let mut p = reported(1, None, PType::Output, PLayout::Output);
    p.nodes = vec![reported(2, None, PType::Root, PLayout::NoLayout)];
    let result = p.process().unwrap();
    assert_eq!(result.layout, Layout::Other);
    assert_eq!(result.children[0].layout, Layout::Outputs);
}

#[test]
fn process_drops_reserved_nodes() {
    assert_eq!(reported(1, Some("__i3"), PType::Output, PLayout::Output).process(), None);
    let scratch = reported(1, Some("__i3_scratch"), PType::Workspace, PLayout::SplitH);
    assert_eq!(scratch.process(), None);
    assert!(reported(1, Some("_i3"), PType::Output, PLayout::Output).process().is_some());
    assert!(reported(1, Some("__i"), PType::Output, PLayout::Output).process().is_some());
    assert!(reported(1, Some(" __i3"), PType::Output, PLayout::Output).process().is_some());
    assert!(reported(1, Some(""), PType::Output, PLayout::Output).process().is_some());
    assert!(reported(1, None, PType::Output, PLayout::Output).process().is_some());
}

#[test]
fn process_drops_reserved_nodes_below() {
    let mut p = reported(1, Some("root"), PType::Root, PLayout::SplitH);
    p.focus = vec![2, 3];
    p.nodes = vec![
        reported(2, Some("__i3"), PType::Output, PLayout::Output),
        reported(3, Some("eDP-1"), PType::Output, PLayout::Output),
        reported(4, Some("__i3x"), PType::Output, PLayout::Output),
        reported(5, Some("DP-1"), PType::Output, PLayout::Output),
    ];
    p.nodes[1].floating_nodes = vec![
        reported(6, Some("__i3_f"), PType::FloatingCon, PLayout::NoLayout),
        reported(7, Some("f"), PType::FloatingCon, PLayout::NoLayout),
    ];
    let result = p.process().unwrap();
    assert_eq!(result.focus_order, vec![2, 3]);
    let ids: Vec<i64> = result.children.iter().map(|n| n.id).collect();
    assert_eq!(ids, vec![3, 5]);
    let ids: Vec<i64> = result.children[0].floating_children.iter().map(|n| n.id).collect();
    assert_eq!(ids, vec![7]);
}

#[test]
fn fullscreen_numbers() {
    let mode = |m: Option<u8>| {
        let mut p = reported(1, None, PType::Con, PLayout::NoLayout);
        p.fullscreen_mode = m;
        p.process().unwrap().fullscreen_mode
    };
    assert_eq!(mode(None), FullscreenMode::Off);
    assert_eq!(mode(Some(0)), FullscreenMode::Off);
    assert_eq!(mode(Some(1)), FullscreenMode::Local);
    assert_eq!(mode(Some(2)), FullscreenMode::Global);
    assert_eq!(mode(Some(3)), FullscreenMode::Off);
    assert_eq!(mode(Some(255)), FullscreenMode::Off);
}
