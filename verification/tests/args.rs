use overfocus::algorithm::{EdgeMode, Kind, Target};
use overfocus::args::{parse_args, parse_target};

fn words(list: &[&str]) -> Vec<String> {
    list.iter().map(|s| s.to_string()).collect()
}

fn goal(kind: Kind, backward: bool, vertical: bool, edge_mode: EdgeMode) -> Target {
    Target { kind, backward, vertical, edge_mode }
}

#[test]
fn every_kind_is_read() {
    assert_eq!(parse_target("split-rs").unwrap().kind, Kind::Split);
    assert_eq!(parse_target("group-rs").unwrap().kind, Kind::Group);
    assert_eq!(parse_target("float-rs").unwrap().kind, Kind::Float);
    assert_eq!(parse_target("workspace-rs").unwrap().kind, Kind::Workspace);
    assert_eq!(parse_target("output-rs").unwrap().kind, Kind::Output);
}

#[test]
fn every_direction_is_read() {
    assert_eq!(parse_target("split-rs"), Some(goal(Kind::Split, false, false, EdgeMode::Stop)));
    assert_eq!(parse_target("split-ls"), Some(goal(Kind::Split, true, false, EdgeMode::Stop)));
    assert_eq!(parse_target("split-ds"), Some(goal(Kind::Split, false, true, EdgeMode::Stop)));
    assert_eq!(parse_target("split-us"), Some(goal(Kind::Split, true, true, EdgeMode::Stop)));
}

#[test]
fn every_edge_mode_is_read() {
    assert_eq!(parse_target("group-ls").unwrap().edge_mode, EdgeMode::Stop);
    assert_eq!(parse_target("group-lw").unwrap().edge_mode, EdgeMode::Wrap);
    assert_eq!(parse_target("group-lt").unwrap().edge_mode, EdgeMode::Traverse);
    assert_eq!(parse_target("group-li").unwrap().edge_mode, EdgeMode::Inactive);
}

#[test]
fn what_follows_the_two_letters_is_ignored() {
    assert_eq!(
        parse_target("float-uwxyz"),
        Some(goal(Kind::Float, true, true, EdgeMode::Wrap))
    );
    assert_eq!(
        parse_target("float-uw-more"),
        Some(goal(Kind::Float, true, true, EdgeMode::Wrap))
    );
}

#[test]
fn malformed_words_are_refused() {
    assert_eq!(parse_target(""), None);
    assert_eq!(parse_target("split"), None);
    assert_eq!(parse_target("splitrs"), None);
    assert_eq!(parse_target("split-"), None);
    assert_eq!(parse_target("split-r"), None);
    assert_eq!(parse_target("split-xs"), None);
    assert_eq!(parse_target("split-rx"), None);
    assert_eq!(parse_target("split-sr"), None);
    assert_eq!(parse_target("split--rs"), None);
    assert_eq!(parse_target("-rs"), None);
    assert_eq!(parse_target("window-rs"), None);
    assert_eq!(parse_target("Split-rs"), None);
    assert_eq!(parse_target("splits-rs"), None);
    assert_eq!(parse_target("spli-rs"), None);
    assert_eq!(parse_target(" split-rs"), None);
    assert_eq!(parse_target("split-RS"), None);
    assert_eq!(parse_target("split-r\u{e9}"), None);
    assert_eq!(parse_target("spl\u{ee}t-rs"), None);
}

#[test]
fn arguments_after_the_program_name_are_read_in_order() {
    let args = words(&["overfocus", "split-lt", "float-lw", "output-ls"]);
    assert_eq!(
        parse_args(&args),
        Some(vec![
            goal(Kind::Split, true, false, EdgeMode::Traverse),
            goal(Kind::Float, true, false, EdgeMode::Wrap),
            goal(Kind::Output, true, false, EdgeMode::Stop),
        ])
    );
    let args = words(&["split-lt", "group-di"]);
    assert_eq!(parse_args(&args), Some(vec![goal(Kind::Group, false, true, EdgeMode::Inactive)]));
}

#[test]
fn arguments_without_a_target_are_refused() {
    assert_eq!(parse_args(&[]), None);
    assert_eq!(parse_args(&words(&["overfocus"])), None);
    assert_eq!(parse_args(&words(&["split-rs"])), None);
}

#[test]
fn one_malformed_argument_refuses_all() {
    assert_eq!(parse_args(&words(&["overfocus", "split-lt", "float", "output-ls"])), None);
    assert_eq!(parse_args(&words(&["overfocus", "split-lt", "float-lw", ""])), None);
    assert_eq!(parse_args(&words(&["overfocus", "nothing-lw"])), None);
}
