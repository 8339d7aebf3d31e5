//! Cursor navigation and traversal over a tree with both tiling and
//! floating children.

use haswaynav::tree::cursor::{find_focused, Cursor, CursorIterator};
use haswaynav::tree::TreeNode;

fn leaf(name: &str) -> TreeNode {
    TreeNode { name: Some(name.to_string()), ..Default::default() }
}

fn build_tree() -> TreeNode {
    TreeNode {
        name: Some("a".to_string()),
        nodes: vec![TreeNode {
            name: Some("b".to_string()),
            nodes: vec![
                leaf("c"),
                TreeNode {
                    name: Some("d".to_string()),
                    nodes: vec![TreeNode {
                        name: Some("e".to_string()),
                        nodes: vec![TreeNode { focused: true, ..leaf("f") }],
                        ..Default::default()
                    }],
                    floating_nodes: vec![TreeNode {
                        name: Some("g".to_string()),
                        nodes: vec![TreeNode { focused: true, ..leaf("h") }],
                        ..Default::default()
                    }],
                    ..Default::default()
                },
                TreeNode {
                    name: Some("i".to_string()),
                    nodes: vec![leaf("j")],
                    ..Default::default()
                },
            ],
            ..Default::default()
        }],
        ..Default::default()
    }
}

fn name_of(c: &Cursor<'_>) -> String {
    c.get_node().name.clone().unwrap_or("".to_string())
}

#[test]
fn navigation_descend() {
    let tree = build_tree();
    let res: Result<Cursor, Cursor> = (|| Cursor::new(&tree).descend()?.descend())();
    assert_eq!("c", &name_of(&res.unwrap()));
}

#[test]
fn navigation_next_sibling() {
    let tree = build_tree();
    let res: Result<Cursor, Cursor> =
        (|| Cursor::new(&tree).descend()?.descend()?.next_sibling())();
    assert_eq!("d", &name_of(&res.unwrap()));
}

#[test]
fn navigation_prev_sibling() {
    let tree = build_tree();
    let res: Result<Cursor, Cursor> = (|| {
        Cursor::new(&tree)
            .descend()?
            .descend()?
            .next_sibling()?
            .prev_sibling()
    })();
    assert_eq!("c", &name_of(&res.unwrap()));
}

#[test]
fn is_floating() {
    let tree = build_tree();
    let res: Result<Cursor, Cursor> = (|| {
        Cursor::new(&tree)
            .descend()?
            .descend()?
            .next_sibling()?
            .descend()
    })();
    assert_eq!("e", &name_of(&res.clone().unwrap()));
    assert_eq!(false, res.unwrap().is_floating());
}

#[test]
fn is_not_floating() {
    let tree = build_tree();
    let res: Result<Cursor, Cursor> = (|| {
        Cursor::new(&tree)
            .descend()?
            .descend()?
            .next_sibling()?
            .descend()?
            .next_sibling()
    })();
    assert_eq!("g", &name_of(&res.clone().unwrap()));
    assert_eq!(true, res.unwrap().is_floating());
}

#[test]
fn ancestors() {
    let tree = build_tree();
    let mut it = Cursor::new(&tree).iter();
    let mut found: Option<Cursor> = None;
    while let Some(c) = it.next() {
        if c.get_node().name == Some("f".to_string()) {
            found = Some(c);
            break;
        }
    }
    let mut names = String::new();
    for a in found.unwrap().ancestors() {
        names += &name_of(&a);
    }
    assert_eq!(names, "edba".to_string());
}

#[test]
fn traversal() {
    let tree = build_tree();
    let mut it = CursorIterator::new(Cursor::new(&tree));
    let mut names = String::new();
    while let Some(c) = it.next() {
        names += &name_of(&c);
    }
    assert_eq!(names, "cfehgdjiba".to_string());
}

#[test]
fn into_iter() {
    let tree = build_tree();
    let collect = |mut i: CursorIterator<'_>| {
        let mut names: Vec<String> = Vec::new();
        while let Some(c) = i.next() {
            names.push(name_of(&c));
        }
        names
    };
    assert_eq!(
        collect(CursorIterator::new(Cursor::new(&tree))),
        collect(Cursor::new(&tree).iter())
    );
}

#[test]
fn iteration_from_an_inner_cursor_continues_past_its_subtree() {
    let tree = build_tree();
    // stand on d, the second child of b
    let d: Cursor = (|| Cursor::new(&tree).descend()?.descend()?.next_sibling())().unwrap();
    assert_eq!("d", &name_of(&d));
    // iteration starts at d's left-most descendant and walks on to the root
    let mut it = d.iter();
    let mut names = String::new();
    while let Some(c) = it.next() {
        names += &name_of(&c);
    }
    assert_eq!(names, "fehgdjiba".to_string());
}

#[test]
fn root_is_never_floating() {
    let tree = build_tree();
    assert_eq!(false, Cursor::new(&tree).is_floating());
}

#[test]
fn traversal_of_single_node() {
    let tree = leaf("a");
    let mut it = CursorIterator::new(Cursor::new(&tree));
    let mut names = String::new();
    while let Some(c) = it.next() {
        names += &name_of(&c);
    }
    assert_eq!(names, "a".to_string());
    assert!(find_focused(&tree).is_none());
}

#[test]
fn ancestors_length_is_depth() {
    let tree = build_tree();
    // the node named f sits at depth four: a, b, d, e above it
    let mut it = Cursor::new(&tree).iter();
    let mut found: Option<Cursor> = None;
    while let Some(c) = it.next() {
        if c.get_node().name == Some("f".to_string()) {
            found = Some(c);
            break;
        }
    }
    assert_eq!(4, found.unwrap().ancestors().len());
}

#[test]
fn find() {
    let tree = build_tree();
    let mut co = find_focused(&tree);
    let mut trace = String::new();
    while let Some(c) = co {
        trace += &name_of(&c);
        co = c.ascend().ok();
    }
    assert_eq!(&trace, "fedba");
}
