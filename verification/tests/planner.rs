//! The navigation planner: escape walks, command batches, and the
//! handling of per-command results.

use haswaynav::cli::Direction;
use haswaynav::tree::cursor::find_focused;
use haswaynav::tree::{CommandResult, Layout, TreeNode};
use haswaynav::{build_batch, direction_command, escape_count, first_failure, plan_focus_change};

fn container(layout: Layout, nodes: Vec<TreeNode>) -> TreeNode {
    TreeNode { layout, nodes, ..Default::default() }
}

/// A focused leaf nested under Tabbed, Tabbed, SplitH, Output (root).
fn escape_tree() -> TreeNode {
    container(
        Layout::Output,
        vec![container(
            Layout::SplitH,
            vec![container(
                Layout::Tabbed,
                vec![container(
                    Layout::Tabbed,
                    vec![TreeNode { focused: true, ..Default::default() }],
                )],
            )],
        )],
    )
}

#[test]
fn planner_escapes_tabbed_containers() {
    let tree = escape_tree();
    let batch = plan_focus_change(&tree, Direction::Left);
    assert_eq!(batch, Some("focus parent; focus parent; focus left".to_string()));
}

#[test]
fn planner_counts_two_escapes() {
    let tree = escape_tree();
    let focused = find_focused(&tree).unwrap();
    assert_eq!(2, escape_count(&focused));
}

#[test]
fn planner_stops_at_split_immediately() {
    let tree = container(
        Layout::SplitV,
        vec![
            TreeNode { focused: true, ..Default::default() },
            TreeNode::default(),
        ],
    );
    let batch = plan_focus_change(&tree, Direction::Down);
    assert_eq!(batch, Some("focus down".to_string()));
}

#[test]
fn planner_no_focused_node() {
    let tree = container(
        Layout::Output,
        vec![container(Layout::SplitH, vec![TreeNode::default()])],
    );
    assert_eq!(plan_focus_change(&tree, Direction::Right), None);
}

#[test]
fn direction_commands() {
    assert_eq!("focus left", direction_command(Direction::Left));
    assert_eq!("focus right", direction_command(Direction::Right));
    assert_eq!("focus up", direction_command(Direction::Up));
    assert_eq!("focus down", direction_command(Direction::Down));
}

#[test]
fn batch_of_zero_escapes() {
    assert_eq!("focus up", &build_batch(0, Direction::Up));
}

#[test]
fn batch_of_three_escapes() {
    assert_eq!(
        "focus parent; focus parent; focus parent; focus right",
        &build_batch(3, Direction::Right)
    );
}

fn ok_result() -> CommandResult {
    CommandResult { success: true, parse_error: None, error: None }
}

#[test]
fn command_failure_is_reported() {
    let results = vec![
        ok_result(),
        CommandResult {
            success: false,
            parse_error: Some(false),
            error: Some("Cannot move focus".to_string()),
        },
        ok_result(),
    ];
    let failed = first_failure(&results);
    assert_eq!(failed, Some(1));
    assert_eq!(
        results[failed.unwrap()].error,
        Some("Cannot move focus".to_string())
    );
}

#[test]
fn command_success_reports_nothing() {
    let results = vec![ok_result(), ok_result()];
    assert_eq!(first_failure(&results), None);
    assert_eq!(first_failure(&Vec::new()), None);
}
