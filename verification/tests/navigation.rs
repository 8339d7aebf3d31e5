//! Cursor navigation and traversal over a purely tiling tree.

use haswaynav::tree::cursor::{find_focused, Cursor, CursorIterator};
use haswaynav::tree::TreeNode;

fn leaf(name: &str) -> TreeNode {
    TreeNode { name: Some(name.to_string()), ..Default::default() }
}

fn build_tree() -> TreeNode {
    TreeNode {
        name: Some("a".to_string()),
        nodes: vec![TreeNode {
            name: Some("b".to_string()),
            nodes: vec![
                leaf("c"),
                TreeNode {
                    name: Some("d".to_string()),
                    nodes: vec![TreeNode {
                        name: Some("e".to_string()),
                        nodes: vec![TreeNode { focused: true, ..leaf("f") }],
                        ..Default::default()
                    }],
                    ..Default::default()
                },
                TreeNode {
                    name: Some("g".to_string()),
                    nodes: vec![leaf("h")],
                    ..Default::default()
                },
            ],
            ..Default::default()
        }],
        ..Default::default()
    }
}

fn name_of(c: &Cursor<'_>) -> String {
    c.get_node().name.clone().unwrap_or("".to_string())
}

#[test]
fn cursor_navigation_descend() {
    let tree = build_tree();
    let res: Result<Cursor, Cursor> = (|| Cursor::new(&tree).descend()?.descend())();
    assert_eq!("c", &name_of(&res.unwrap()));
}

#[test]
fn cursor_navigation_next_sibling() {
    let tree = build_tree();
    let res: Result<Cursor, Cursor> =
        (|| Cursor::new(&tree).descend()?.descend()?.next_sibling())();
    assert_eq!("d", &name_of(&res.unwrap()));
}

#[test]
fn cursor_navigation_prev_sibling() {
    let tree = build_tree();
    let res: Result<Cursor, Cursor> = (|| {
        Cursor::new(&tree)
            .descend()?
            .descend()?
            .next_sibling()?
            .prev_sibling()
    })();
    assert_eq!("c", &name_of(&res.unwrap()));
}

#[test]
fn cursor_traversal() {
    let tree = build_tree();
    let mut it = CursorIterator::new(Cursor::new(&tree));
    let mut names = String::new();
    while let Some(c) = it.next() {
        names += &name_of(&c);
    }
    assert_eq!(names, "cfedhgba".to_string());
}

#[test]
fn cursor_find() {
    let tree = build_tree();
    let mut co = find_focused(&tree);
    let mut trace = String::new();
    while let Some(c) = co {
        trace += &name_of(&c);
        co = c.ascend().ok();
    }
    assert_eq!(&trace, "fedba");
}
