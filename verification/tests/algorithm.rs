use overfocus::algorithm::{
    match_targets, neighbor, neighbor_local, select_leaf, EdgeMode, Kind, Target,
};
use overfocus::tree::{preprocess, ContainerType, FullscreenMode, Layout, Node, Rect, Vec2};

fn at(x: i32, y: i32, width: i32, height: i32) -> Rect {
    Rect { pos: Vec2 { x, y }, dim: Vec2 { x: width, y: height } }
}

fn make(
    id: i64,
    container_type: ContainerType,
    layout: Layout,
    focus_order: Vec<i64>,
    children: Vec<Node>,
) -> Node {
    Node {
        id,
        name: None,
        container_type,
        layout,
        rect: at(0, 0, 100, 100),
        is_focused: false,
        focus_order,
        children,
        floating_children: vec![],
        fullscreen_mode: FullscreenMode::Off,
    }
}

fn win(id: i64) -> Node {
    make(id, ContainerType::Container, Layout::Other, vec![], vec![])
}

fn active(id: i64) -> Node {
    let mut n = win(id);
    n.is_focused = true;
    n
}

fn placed(mut n: Node, rect: Rect) -> Node {
    n.rect = rect;
    n
}

fn named(mut n: Node, name: &str) -> Node {
    n.name = Some(name.to_string());
    n
}

fn con(id: i64, layout: Layout, focus: Vec<i64>, children: Vec<Node>) -> Node {
    make(id, ContainerType::Container, layout, focus, children)
}

fn target(kind: Kind, backward: bool, vertical: bool, edge_mode: EdgeMode) -> Target {
    Target { kind, backward, vertical, edge_mode }
}

fn right(kind: Kind, edge_mode: EdgeMode) -> Target {
    target(kind, false, false, edge_mode)
}

fn left(kind: Kind, edge_mode: EdgeMode) -> Target {
    target(kind, true, false, edge_mode)
}

fn down(kind: Kind, edge_mode: EdgeMode) -> Target {
    target(kind, false, true, edge_mode)
}

fn up(kind: Kind, edge_mode: EdgeMode) -> Target {
    target(kind, true, true, edge_mode)
}

fn id_of(n: Option<&Node>) -> Option<i64> {
    n.map(|n| n.id)
}

/// A horizontal split of three children, the one with id `focus` focused.
fn three(focus: i64) -> Node {
    let child = |id: i64| if id == focus { active(id) } else { win(id) };
    con(100, Layout::SplitHorizontal, vec![focus], vec![child(1), child(2), child(3)])
}

#[test]
fn no_targets_no_neighbor() {
    assert_eq!(id_of(neighbor(&three(2), &[])), None);
    assert_eq!(id_of(neighbor(&win(1), &[])), None);
    let tree = con(200, Layout::Tabbed, vec![100], vec![three(1), win(4)]);
    assert_eq!(id_of(neighbor(&tree, &[])), None);
}

#[test]
fn split_moves_to_the_next_and_the_previous_child() {
    let tree = three(2);
    assert_eq!(id_of(neighbor(&tree, &[right(Kind::Split, EdgeMode::Stop)])), Some(3));
    assert_eq!(id_of(neighbor(&tree, &[left(Kind::Split, EdgeMode::Stop)])), Some(1));
}

#[test]
fn split_resolves_to_a_leaf_inside_the_neighbor() {
    let a = con(10, Layout::Stacked, vec![12], vec![win(11), win(12)]);
    let c = con(30, Layout::Tabbed, vec![31], vec![win(31), win(32)]);
    let tree = con(100, Layout::SplitHorizontal, vec![20], vec![a, active(20), c]);
    assert_eq!(id_of(neighbor(&tree, &[right(Kind::Split, EdgeMode::Stop)])), Some(31));
    assert_eq!(id_of(neighbor(&tree, &[left(Kind::Split, EdgeMode::Stop)])), Some(12));
}

#[test]
fn split_target_must_agree_with_the_axis() {
    let tree = three(2);
    assert_eq!(id_of(neighbor(&tree, &[down(Kind::Split, EdgeMode::Wrap)])), None);
    assert_eq!(id_of(neighbor(&tree, &[up(Kind::Split, EdgeMode::Wrap)])), None);
    let mut vertical = three(2);
    vertical.layout = Layout::SplitVertical;
    assert_eq!(id_of(neighbor(&vertical, &[down(Kind::Split, EdgeMode::Stop)])), Some(3));
    assert_eq!(id_of(neighbor(&vertical, &[right(Kind::Split, EdgeMode::Stop)])), None);
}

#[test]
fn group_matches_tabbed_and_stacked() {
    let mut tabbed = three(2);
    tabbed.layout = Layout::Tabbed;
    assert_eq!(id_of(neighbor(&tabbed, &[right(Kind::Group, EdgeMode::Stop)])), Some(3));
    assert_eq!(id_of(neighbor(&tabbed, &[down(Kind::Group, EdgeMode::Stop)])), None);
    assert_eq!(id_of(neighbor(&tabbed, &[right(Kind::Split, EdgeMode::Stop)])), None);
    let mut stacked = three(2);
    stacked.layout = Layout::Stacked;
    assert_eq!(id_of(neighbor(&stacked, &[up(Kind::Group, EdgeMode::Stop)])), Some(1));
    assert_eq!(id_of(neighbor(&stacked, &[left(Kind::Group, EdgeMode::Stop)])), None);
}

#[test]
fn stop_at_the_last_child_ends_the_search() {
    let outer = con(200, Layout::SplitHorizontal, vec![100], vec![three(3), win(4)]);
    assert_eq!(id_of(neighbor(&outer, &[right(Kind::Split, EdgeMode::Stop)])), None);
    assert_eq!(id_of(neighbor(&three(3), &[right(Kind::Split, EdgeMode::Stop)])), None);
    assert_eq!(id_of(neighbor(&three(1), &[left(Kind::Split, EdgeMode::Stop)])), None);
}

#[test]
fn stop_ends_the_search_even_before_later_targets() {
    let outer = con(200, Layout::Tabbed, vec![100], vec![three(3), win(4)]);
    let targets = [right(Kind::Split, EdgeMode::Stop), right(Kind::Group, EdgeMode::Wrap)];
    assert_eq!(id_of(neighbor(&outer, &targets)), None);
    let targets = [right(Kind::Split, EdgeMode::Traverse), right(Kind::Group, EdgeMode::Wrap)];
    assert_eq!(id_of(neighbor(&outer, &targets)), Some(4));
}

#[test]
fn traverse_and_inactive_go_on_to_the_outer_container() {
    let outer = con(200, Layout::SplitHorizontal, vec![100], vec![three(3), win(4)]);
    assert_eq!(id_of(neighbor(&outer, &[right(Kind::Split, EdgeMode::Traverse)])), Some(4));
    assert_eq!(id_of(neighbor(&outer, &[right(Kind::Split, EdgeMode::Inactive)])), Some(4));
    let outer = con(200, Layout::SplitHorizontal, vec![100], vec![win(4), three(1)]);
    assert_eq!(id_of(neighbor(&outer, &[left(Kind::Split, EdgeMode::Traverse)])), Some(4));
    assert_eq!(id_of(neighbor(&outer, &[left(Kind::Split, EdgeMode::Inactive)])), Some(4));
    assert_eq!(id_of(neighbor(&outer, &[right(Kind::Split, EdgeMode::Traverse)])), Some(2));
}

#[test]
fn traverse_without_an_outer_container_finds_nothing() {
    assert_eq!(id_of(neighbor(&three(3), &[right(Kind::Split, EdgeMode::Traverse)])), None);
    assert_eq!(id_of(neighbor(&three(3), &[right(Kind::Split, EdgeMode::Inactive)])), None);
}

#[test]
fn wrap_at_the_last_child_returns_to_the_first() {
    assert_eq!(id_of(neighbor(&three(3), &[right(Kind::Split, EdgeMode::Wrap)])), Some(1));
    assert_eq!(id_of(neighbor(&three(1), &[left(Kind::Split, EdgeMode::Wrap)])), Some(3));
    assert_eq!(id_of(neighbor(&three(2), &[right(Kind::Split, EdgeMode::Wrap)])), Some(3));
    assert_eq!(id_of(neighbor(&three(2), &[left(Kind::Split, EdgeMode::Wrap)])), Some(1));
}

#[test]
fn wrap_at_the_last_child_ends_in_a_leaf_of_the_first() {
    let first = con(10, Layout::Stacked, vec![12], vec![win(11), win(12)]);
    let tree = con(100, Layout::SplitHorizontal, vec![30], vec![first, win(20), active(30)]);
    assert_eq!(id_of(neighbor(&tree, &[right(Kind::Split, EdgeMode::Wrap)])), Some(12));
}

#[test]
fn wrap_with_an_only_child_stays() {
    let tree = con(100, Layout::SplitHorizontal, vec![1], vec![active(1)]);
    assert_eq!(id_of(neighbor(&tree, &[right(Kind::Split, EdgeMode::Wrap)])), Some(1));
    assert_eq!(id_of(neighbor(&tree, &[left(Kind::Split, EdgeMode::Wrap)])), Some(1));
    assert_eq!(id_of(neighbor(&tree, &[left(Kind::Split, EdgeMode::Stop)])), None);
}

#[test]
fn traverse_enters_a_split_at_its_near_end() {
    let sibling = || con(10, Layout::SplitHorizontal, vec![12], vec![win(11), win(12), win(13)]);
    let tree = con(100, Layout::SplitHorizontal, vec![20], vec![sibling(), active(20)]);
    assert_eq!(id_of(neighbor(&tree, &[left(Kind::Split, EdgeMode::Traverse)])), Some(13));
    let tree = con(100, Layout::SplitHorizontal, vec![20], vec![active(20), sibling()]);
    assert_eq!(id_of(neighbor(&tree, &[right(Kind::Split, EdgeMode::Traverse)])), Some(11));
}

#[test]
fn other_edge_modes_enter_a_split_at_its_remembered_focus() {
    let sibling = con(10, Layout::SplitHorizontal, vec![12], vec![win(11), win(12), win(13)]);
    let tree = con(100, Layout::SplitHorizontal, vec![20], vec![sibling, active(20)]);
    assert_eq!(id_of(neighbor(&tree, &[left(Kind::Split, EdgeMode::Stop)])), Some(12));
    assert_eq!(id_of(neighbor(&tree, &[left(Kind::Split, EdgeMode::Wrap)])), Some(12));
    assert_eq!(id_of(neighbor(&tree, &[left(Kind::Split, EdgeMode::Inactive)])), Some(12));
}

#[test]
fn traverse_applies_at_every_level_of_the_descent() {
    let inner = con(14, Layout::SplitVertical, vec![16], vec![win(15), win(16)]);
    let sibling = con(10, Layout::SplitHorizontal, vec![11], vec![win(11), inner]);
    let tree = con(100, Layout::SplitHorizontal, vec![20], vec![sibling, active(20)]);
    let targets = [left(Kind::Split, EdgeMode::Traverse), down(Kind::Split, EdgeMode::Traverse)];
    assert_eq!(id_of(neighbor(&tree, &targets)), Some(15));
    let targets = [left(Kind::Split, EdgeMode::Traverse), up(Kind::Split, EdgeMode::Traverse)];
    assert_eq!(id_of(neighbor(&tree, &targets)), Some(16));
    let targets = [left(Kind::Split, EdgeMode::Traverse)];
    assert_eq!(id_of(neighbor(&tree, &targets)), Some(16));
}

#[test]
fn select_leaf_of_a_leaf_is_the_leaf() {
    let n = win(5);
    assert_eq!(select_leaf(&n, &[left(Kind::Split, EdgeMode::Traverse)]).id, 5);
    let empty = con(6, Layout::SplitHorizontal, vec![7], vec![]);
    assert_eq!(select_leaf(&empty, &[left(Kind::Split, EdgeMode::Traverse)]).id, 6);
}

#[test]
fn select_leaf_stops_at_a_dangling_focus() {
    let n = con(6, Layout::SplitHorizontal, vec![9], vec![win(7), win(8)]);
    assert_eq!(select_leaf(&n, &[]).id, 6);
    assert_eq!(select_leaf(&n, &[right(Kind::Split, EdgeMode::Traverse)]).id, 7);
}

#[test]
fn match_targets_takes_the_first_that_applies() {
    let n = con(6, Layout::Stacked, vec![], vec![]);
    let targets = [
        right(Kind::Split, EdgeMode::Stop),
        right(Kind::Group, EdgeMode::Wrap),
        down(Kind::Group, EdgeMode::Traverse),
        up(Kind::Group, EdgeMode::Inactive),
    ];
    assert_eq!(match_targets(&n, &targets), Some(down(Kind::Group, EdgeMode::Traverse)));
    assert_eq!(match_targets(&n, &targets[..2]), None);
    assert_eq!(match_targets(&n, &[]), None);
}

#[test]
fn match_targets_by_kind() {
    let mut root = make(1, ContainerType::Root, Layout::Outputs, vec![], vec![]);
    let output = make(2, ContainerType::Output, Layout::Other, vec![], vec![]);
    let floats = make(3, ContainerType::Workspace, Layout::Floats, vec![], vec![]);
    let space = make(4, ContainerType::Workspace, Layout::Other, vec![], vec![]);
    let all = [
        right(Kind::Split, EdgeMode::Stop),
        down(Kind::Split, EdgeMode::Stop),
        right(Kind::Group, EdgeMode::Stop),
        down(Kind::Group, EdgeMode::Stop),
        up(Kind::Float, EdgeMode::Stop),
        up(Kind::Workspace, EdgeMode::Stop),
        up(Kind::Output, EdgeMode::Stop),
    ];
    assert_eq!(match_targets(&root, &all), Some(up(Kind::Output, EdgeMode::Stop)));
    assert_eq!(match_targets(&output, &all), Some(up(Kind::Workspace, EdgeMode::Stop)));
    assert_eq!(match_targets(&floats, &all), Some(up(Kind::Float, EdgeMode::Stop)));
    assert_eq!(match_targets(&space, &all), None);
    root.layout = Layout::Other;
    assert_eq!(match_targets(&root, &all), None);
}

/// A container of floating windows with the given ids and rectangles.
fn floats(focus: i64, windows: Vec<(i64, Rect)>) -> Node {
    let children = windows
        .into_iter()
        .map(|(id, rect)| placed(if id == focus { active(id) } else { win(id) }, rect))
        .collect();
    make(50, ContainerType::Workspace, Layout::Floats, vec![focus], children)
}

#[test]
fn float_moves_to_the_nearest_window_by_midpoint() {
    let tree = floats(
        2,
        vec![(1, at(0, 0, 20, 20)), (2, at(40, 300, 20, 20)), (3, at(80, 0, 20, 20))],
    );
    assert_eq!(id_of(neighbor(&tree, &[right(Kind::Float, EdgeMode::Stop)])), Some(3));
    assert_eq!(id_of(neighbor(&tree, &[left(Kind::Float, EdgeMode::Stop)])), Some(1));
}

#[test]
fn float_uses_the_axis_of_the_target() {
    let tree = floats(
        2,
        vec![(1, at(0, 500, 20, 20)), (2, at(40, 300, 20, 20)), (3, at(80, 0, 20, 20))],
    );
    assert_eq!(id_of(neighbor(&tree, &[down(Kind::Float, EdgeMode::Stop)])), Some(1));
    assert_eq!(id_of(neighbor(&tree, &[up(Kind::Float, EdgeMode::Stop)])), Some(3));
}

#[test]
fn float_picks_the_nearest_of_several() {
    let tree = floats(
        1,
        vec![
            (4, at(300, 0, 20, 20)),
            (1, at(0, 0, 20, 20)),
            (3, at(90, 0, 21, 20)),
            (2, at(200, 0, 20, 20)),
        ],
    );
    assert_eq!(id_of(neighbor(&tree, &[right(Kind::Float, EdgeMode::Stop)])), Some(3));
    assert_eq!(id_of(neighbor(&tree, &[left(Kind::Float, EdgeMode::Stop)])), None);
    assert_eq!(id_of(neighbor(&tree, &[left(Kind::Float, EdgeMode::Wrap)])), Some(4));
}

#[test]
fn float_midpoint_rounds_half_the_extent_toward_zero() {
    // Midpoints: 10 + 5 / 2 = 12, 12 + 0 = 12, 13 + (-1) / 2 = 13.
    let tree = floats(
        2,
        vec![(1, at(10, 0, 5, 20)), (2, at(12, 0, 1, 20)), (3, at(13, 0, -1, 20))],
    );
    // Window 1 shares the midpoint of the focused window and has the smaller
    // id, so it follows it; window 3 lies one unit further.
    assert_eq!(id_of(neighbor(&tree, &[right(Kind::Float, EdgeMode::Stop)])), Some(1));
    assert_eq!(id_of(neighbor(&tree, &[left(Kind::Float, EdgeMode::Stop)])), None);
    assert_eq!(id_of(neighbor(&tree, &[left(Kind::Float, EdgeMode::Wrap)])), Some(3));
}

#[test]
fn float_windows_in_one_place_follow_each_other_by_descending_id() {
    let same = at(40, 40, 20, 20);
    let tree = |focus: i64| floats(focus, vec![(5, same), (7, same), (6, same)]);
    assert_eq!(id_of(neighbor(&tree(6), &[right(Kind::Float, EdgeMode::Stop)])), Some(5));
    assert_eq!(id_of(neighbor(&tree(6), &[left(Kind::Float, EdgeMode::Stop)])), Some(7));
    assert_eq!(id_of(neighbor(&tree(7), &[right(Kind::Float, EdgeMode::Stop)])), Some(6));
    assert_eq!(id_of(neighbor(&tree(7), &[left(Kind::Float, EdgeMode::Stop)])), None);
    assert_eq!(id_of(neighbor(&tree(5), &[right(Kind::Float, EdgeMode::Stop)])), None);
    assert_eq!(id_of(neighbor(&tree(5), &[left(Kind::Float, EdgeMode::Stop)])), Some(6));
    assert_eq!(id_of(neighbor(&tree(5), &[right(Kind::Float, EdgeMode::Wrap)])), Some(7));
    assert_eq!(id_of(neighbor(&tree(7), &[left(Kind::Float, EdgeMode::Wrap)])), Some(5));
}

#[test]
fn float_forward_and_backward_undo_each_other() {
    let windows = vec![
        (1, at(0, 0, 20, 20)),
        (2, at(40, 0, 20, 20)),
        (3, at(40, 0, 20, 20)),
        (4, at(90, 0, 20, 20)),
    ];
    for focus in 1..=4 {
        let tree = floats(focus, windows.clone());
        let next = id_of(neighbor(&tree, &[right(Kind::Float, EdgeMode::Wrap)])).unwrap();
        let back = floats(next, windows.clone());
        assert_eq!(id_of(neighbor(&back, &[left(Kind::Float, EdgeMode::Wrap)])), Some(focus));
    }
}

#[test]
fn float_wrap_goes_to_the_far_end() {
    let tree = floats(
        3,
        vec![(1, at(0, 0, 20, 20)), (2, at(40, 0, 20, 20)), (3, at(80, 0, 20, 20))],
    );
    assert_eq!(id_of(neighbor(&tree, &[right(Kind::Float, EdgeMode::Stop)])), None);
    assert_eq!(id_of(neighbor(&tree, &[right(Kind::Float, EdgeMode::Wrap)])), Some(1));
    assert_eq!(id_of(neighbor(&tree, &[right(Kind::Float, EdgeMode::Traverse)])), None);
}

#[test]
fn float_wrap_with_an_only_window_stays() {
    let tree = floats(1, vec![(1, at(0, 0, 20, 20))]);
    assert_eq!(id_of(neighbor(&tree, &[right(Kind::Float, EdgeMode::Wrap)])), Some(1));
    assert_eq!(id_of(neighbor(&tree, &[right(Kind::Float, EdgeMode::Stop)])), None);
}

#[test]
fn float_at_the_limits_of_the_coordinates() {
    let tree = floats(
        1,
        vec![
            (1, at(i32::MIN, 0, i32::MIN, 20)),
            (2, at(i32::MAX, 0, i32::MAX, 20)),
            (3, at(0, 0, 0, 20)),
        ],
    );
    assert_eq!(id_of(neighbor(&tree, &[right(Kind::Float, EdgeMode::Stop)])), Some(3));
    assert_eq!(id_of(neighbor(&tree, &[left(Kind::Float, EdgeMode::Wrap)])), Some(2));
}

#[test]
fn traverse_enters_floating_windows_at_the_near_end() {
    let floating = make(
        50,
        ContainerType::Workspace,
        Layout::Floats,
        vec![2],
        vec![
            placed(win(2), at(40, 300, 20, 20)),
            placed(win(1), at(0, 500, 20, 20)),
            placed(win(3), at(80, 0, 20, 20)),
        ],
    );
    assert_eq!(select_leaf(&floating, &[right(Kind::Float, EdgeMode::Traverse)]).id, 1);
    assert_eq!(select_leaf(&floating, &[left(Kind::Float, EdgeMode::Traverse)]).id, 3);
    assert_eq!(select_leaf(&floating, &[down(Kind::Float, EdgeMode::Traverse)]).id, 3);
    assert_eq!(select_leaf(&floating, &[up(Kind::Float, EdgeMode::Traverse)]).id, 1);
    assert_eq!(select_leaf(&floating, &[up(Kind::Float, EdgeMode::Wrap)]).id, 2);
    assert_eq!(select_leaf(&floating, &[up(Kind::Float, EdgeMode::Inactive)]).id, 2);
}

#[test]
fn traverse_enters_floating_windows_in_one_place_by_id() {
    let same = at(0, 0, 20, 20);
    let floating = make(
        50,
        ContainerType::Workspace,
        Layout::Floats,
        vec![],
        vec![placed(win(5), same), placed(win(7), same), placed(win(6), same)],
    );
    assert_eq!(select_leaf(&floating, &[right(Kind::Float, EdgeMode::Traverse)]).id, 7);
    assert_eq!(select_leaf(&floating, &[left(Kind::Float, EdgeMode::Traverse)]).id, 5);
}

/// A root with the given outputs, each holding one window; the output with
/// id `focus` holds the focused window.
fn screens(focus: i64, outputs: Vec<(i64, Rect)>) -> Node {
    let children = outputs
        .into_iter()
        .map(|(id, rect)| {
            let inner = if id == focus { active(id * 10) } else { win(id * 10) };
            placed(
                make(id, ContainerType::Output, Layout::Other, vec![id * 10], vec![inner]),
                rect,
            )
        })
        .collect();
    make(1, ContainerType::Root, Layout::Outputs, vec![focus], children)
}

#[test]
fn output_moves_to_the_output_beside() {
    let tree = screens(2, vec![(2, at(0, 0, 1920, 1080)), (3, at(1920, 0, 1920, 1080))]);
    assert_eq!(id_of(neighbor(&tree, &[right(Kind::Output, EdgeMode::Stop)])), Some(30));
    assert_eq!(id_of(neighbor(&tree, &[left(Kind::Output, EdgeMode::Stop)])), None);
    assert_eq!(id_of(neighbor(&tree, &[left(Kind::Output, EdgeMode::Wrap)])), Some(30));
    assert_eq!(id_of(neighbor(&tree, &[down(Kind::Output, EdgeMode::Stop)])), None);
}

#[test]
fn output_uses_the_axis_of_the_target() {
    let tree = screens(2, vec![(2, at(0, 0, 1920, 1080)), (3, at(0, 1080, 1920, 1080))]);
    assert_eq!(id_of(neighbor(&tree, &[down(Kind::Output, EdgeMode::Stop)])), Some(30));
    assert_eq!(id_of(neighbor(&tree, &[right(Kind::Output, EdgeMode::Stop)])), None);
    let tree = screens(3, vec![(2, at(0, 0, 1920, 1080)), (3, at(0, 1080, 1920, 1080))]);
    assert_eq!(id_of(neighbor(&tree, &[up(Kind::Output, EdgeMode::Stop)])), Some(20));
}

#[test]
fn output_must_not_overlap_the_focused_one() {
    let tree = screens(2, vec![(2, at(0, 0, 1920, 1080)), (3, at(1919, 0, 1920, 1080))]);
    assert_eq!(id_of(neighbor(&tree, &[right(Kind::Output, EdgeMode::Stop)])), None);
}

#[test]
fn output_nearest_is_by_squared_distance_to_the_closest_point() {
    // From the center (960, 540) of the focused output: to output 3 the
    // closest point is (1920, 5000), at 960^2 + 4460^2 = 20813200; to
    // output 4 it is (3000, 540), at 2040^2 = 4161600.
    let tree = screens(
        2,
        vec![
            (2, at(0, 0, 1920, 1080)),
            (3, at(1920, 5000, 100, 100)),
            (4, at(3000, 500, 100, 100)),
        ],
    );
    assert_eq!(id_of(neighbor(&tree, &[right(Kind::Output, EdgeMode::Stop)])), Some(40));
    // Moved up to y = 2000, output 3 is at 960^2 + 1460^2 = 3053200.
    let tree = screens(
        2,
        vec![
            (2, at(0, 0, 1920, 1080)),
            (3, at(1920, 2000, 100, 100)),
            (4, at(3000, 500, 100, 100)),
        ],
    );
    assert_eq!(id_of(neighbor(&tree, &[right(Kind::Output, EdgeMode::Stop)])), Some(30));
}

#[test]
fn output_at_equal_distance_is_chosen_by_id() {
    // Both lie 960 to the right of the center (960, 540) and 541 above or
    // below it.
    let above = at(1920, -1000, 1920, 1000);
    let below = at(1920, 1081, 1920, 1000);
    let tree = screens(2, vec![(2, at(0, 0, 1920, 1080)), (3, above), (4, below)]);
    assert_eq!(id_of(neighbor(&tree, &[right(Kind::Output, EdgeMode::Stop)])), Some(40));
    let tree = screens(2, vec![(2, at(0, 0, 1920, 1080)), (4, above), (3, below)]);
    assert_eq!(id_of(neighbor(&tree, &[right(Kind::Output, EdgeMode::Stop)])), Some(40));
    let tree = screens(5, vec![(5, at(3840, 0, 1920, 1080)), (3, above), (4, below)]);
    assert_eq!(id_of(neighbor(&tree, &[left(Kind::Output, EdgeMode::Stop)])), Some(30));
}

#[test]
fn output_wrap_goes_to_the_farthest_output_behind() {
    let row = vec![
        (2, at(0, 0, 1920, 1080)),
        (3, at(1920, 0, 1920, 1080)),
        (4, at(3840, 0, 1920, 1080)),
    ];
    let tree = screens(4, row.clone());
    assert_eq!(id_of(neighbor(&tree, &[right(Kind::Output, EdgeMode::Wrap)])), Some(20));
    assert_eq!(id_of(neighbor(&tree, &[left(Kind::Output, EdgeMode::Wrap)])), Some(30));
    let tree = screens(2, row);
    assert_eq!(id_of(neighbor(&tree, &[left(Kind::Output, EdgeMode::Wrap)])), Some(40));
    assert_eq!(id_of(neighbor(&tree, &[right(Kind::Output, EdgeMode::Wrap)])), Some(30));
}

#[test]
fn output_wrap_with_a_single_output_is_the_focused_output() {
    let tree = screens(2, vec![(2, at(0, 0, 1920, 1080))]);
    let wrap = right(Kind::Output, EdgeMode::Wrap);
    assert_eq!(id_of(neighbor_local(&tree, &wrap)), Some(2));
    assert_eq!(id_of(neighbor(&tree, &[wrap])), Some(20));
    assert_eq!(id_of(neighbor(&tree, &[down(Kind::Output, EdgeMode::Wrap)])), Some(20));
    assert_eq!(id_of(neighbor(&tree, &[right(Kind::Output, EdgeMode::Stop)])), None);
}

#[test]
fn output_with_an_empty_rectangle_is_measured_at_its_position() {
    let tree = screens(
        2,
        vec![(2, at(0, 0, 100, 100)), (3, at(500, 10, 0, 0)), (4, at(400, 5000, 10, 10))],
    );
    assert_eq!(id_of(neighbor(&tree, &[right(Kind::Output, EdgeMode::Stop)])), Some(30));
}

#[test]
fn output_at_the_limits_of_the_coordinates() {
    let tree = screens(
        2,
        vec![
            (2, at(i32::MIN, i32::MIN, 1, i32::MIN)),
            (3, at(i32::MAX, i32::MAX, i32::MAX, i32::MAX)),
            (4, at(0, 0, 10, 10)),
        ],
    );
    assert_eq!(id_of(neighbor(&tree, &[right(Kind::Output, EdgeMode::Stop)])), Some(40));
    assert_eq!(id_of(neighbor(&tree, &[left(Kind::Output, EdgeMode::Wrap)])), Some(30));
}

#[test]
fn workspace_moves_along_the_workspaces_of_an_output() {
    let space = |id: i64, focus: bool| {
        make(
            id,
            ContainerType::Workspace,
            Layout::SplitHorizontal,
            vec![id * 10],
            vec![if focus { active(id * 10) } else { win(id * 10) }],
        )
    };
    let output = make(
        2,
        ContainerType::Output,
        Layout::Other,
        vec![4, 3, 5],
        vec![space(3, false), space(4, true), space(5, false)],
    );
    let tree = make(1, ContainerType::Root, Layout::Outputs, vec![2], vec![output]);
    assert_eq!(id_of(neighbor(&tree, &[right(Kind::Workspace, EdgeMode::Stop)])), Some(50));
    assert_eq!(id_of(neighbor(&tree, &[up(Kind::Workspace, EdgeMode::Stop)])), Some(30));
    let targets = [right(Kind::Split, EdgeMode::Traverse), right(Kind::Workspace, EdgeMode::Wrap)];
    assert_eq!(id_of(neighbor(&tree, &targets)), Some(50));
}

#[test]
fn neighbor_of_a_focused_root_is_none() {
    let mut tree = three(2);
    tree.is_focused = true;
    assert_eq!(id_of(neighbor(&tree, &[right(Kind::Split, EdgeMode::Wrap)])), None);
}

#[test]
fn neighbor_with_a_dangling_focus_is_none() {
    let tree = con(100, Layout::SplitHorizontal, vec![9], vec![win(1), win(2)]);
    assert_eq!(id_of(neighbor(&tree, &[right(Kind::Split, EdgeMode::Wrap)])), None);
    assert_eq!(id_of(neighbor_local(&tree, &right(Kind::Split, EdgeMode::Wrap))), None);
    assert_eq!(id_of(neighbor_local(&tree, &right(Kind::Float, EdgeMode::Wrap))), None);
}

#[test]
fn neighbor_local_does_not_ask_whether_the_target_applies() {
    let tree = three(2);
    assert_eq!(id_of(neighbor_local(&tree, &down(Kind::Group, EdgeMode::Stop))), Some(3));
    assert_eq!(id_of(neighbor_local(&tree, &up(Kind::Workspace, EdgeMode::Stop))), Some(1));
}

#[test]
fn search_over_a_preprocessed_tree() {
    let tiled = vec![
        con(10, Layout::Tabbed, vec![12], vec![win(11), win(12)]),
        active(20),
    ];
    let space = Node {
        id: 4,
        name: Some("1".to_string()),
        container_type: ContainerType::Workspace,
        layout: Layout::SplitHorizontal,
        rect: at(0, 0, 1920, 1080),
        is_focused: false,
        focus_order: vec![20, 10, 30],
        children: tiled,
        floating_children: vec![placed(win(30), at(100, 100, 200, 200))],
        fullscreen_mode: FullscreenMode::Off,
    };
    let other = named(
        make(5, ContainerType::Workspace, Layout::SplitHorizontal, vec![], vec![]),
        "2",
    );
    let output = named(
        make(2, ContainerType::Output, Layout::Other, vec![4, 5], vec![space, other]),
        "eDP-1",
    );
    let tree = preprocess(make(1, ContainerType::Root, Layout::Other, vec![2], vec![output]));
    let go = |targets: &[Target]| id_of(neighbor(&tree, targets));
    assert_eq!(go(&[left(Kind::Split, EdgeMode::Stop)]), Some(12));
    assert_eq!(go(&[right(Kind::Split, EdgeMode::Stop)]), None);
    assert_eq!(go(&[right(Kind::Float, EdgeMode::Wrap)]), None);
    let targets = [right(Kind::Split, EdgeMode::Traverse), right(Kind::Workspace, EdgeMode::Stop)];
    let found = neighbor(&tree, &targets).unwrap();
    assert_eq!(found.id, -6);
    assert_eq!(found.container_type, ContainerType::Workspace);
    assert_eq!(found.name, Some("2".to_string()));
}
