//! Data types for representing the window manager's layout as a tree.
//!
//! A [`TreeNode`] is the in-memory form of one node of the layout tree that
//! the window manager reports over IPC. The caller decodes the wire payload
//! and hands the tree here; nothing in this module performs I/O.

use vstd::prelude::*;

pub mod cursor;
pub mod order;
pub mod path;

verus! {

/// See [`TreeNode::node_type`].
#[derive(Debug, PartialEq, Eq, Copy, Clone, Structural)]
pub enum NodeType {
    Root,
    Output,
    Workspace,
    Con,
    FloatingCon,
}

impl Default for NodeType {
    fn default() -> (r: Self)
        ensures
            r == NodeType::Root,
    {
        NodeType::Root
    }
}

/// See [`TreeNode::border`].
#[derive(Debug, PartialEq, Eq, Copy, Clone, Structural)]
pub enum Border {
    NoBorder,
    Normal,
    Pixel,
    Csd,
}

impl Default for Border {
    fn default() -> (r: Self)
        ensures
            r == Border::NoBorder,
    {
        Border::NoBorder
    }
}

/// See [`TreeNode::layout`].
#[derive(Debug, PartialEq, Eq, Copy, Clone, Structural)]
pub enum Layout {
    /// Used by the window manager for leaf views.
    NoLayout,
    SplitH,
    SplitV,
    Stacked,
    Tabbed,
    Output,
}

impl Default for Layout {
    fn default() -> (r: Self)
        ensures
            r == Layout::NoLayout,
    {
        Layout::NoLayout
    }
}

/// See [`TreeNode::orientation`].
#[derive(Debug, PartialEq, Eq, Copy, Clone, Structural)]
pub enum Orientation {
    NoOrientation,
    Vertical,
    Horizontal,
}

impl Default for Orientation {
    fn default() -> (r: Self)
        ensures
            r == Orientation::NoOrientation,
    {
        Orientation::NoOrientation
    }
}

/// A rectangle, as the window manager describes geometries.
#[derive(Debug, PartialEq, Eq, Copy, Clone, Structural)]
pub struct Rect {
    pub x: i32,
    pub y: i32,
    pub width: i32,
    pub height: i32,
}

impl Default for Rect {
    fn default() -> (r: Self)
        ensures
            r == (Rect { x: 0, y: 0, width: 0, height: 0 }),
    {
        Rect { x: 0, y: 0, width: 0, height: 0 }
    }
}

/// See [`TreeNode::fullscreen_mode`].
#[derive(Debug, PartialEq, Eq, Copy, Clone, Structural)]
pub enum FullScreenMode {
    NoFullScreen,
    FullWorkspace,
    GlobalFullScreen,
}

impl Default for FullScreenMode {
    fn default() -> (r: Self)
        ensures
            r == FullScreenMode::NoFullScreen,
    {
        FullScreenMode::NoFullScreen
    }
}

impl FullScreenMode {
    /// Decode the integer the wire format uses for a fullscreen mode.
    /// On failure the rejected value is handed back so the caller can report it.
    pub fn try_from(value: i32) -> (r: Result<FullScreenMode, i32>)
        ensures
            value == 0 ==> r == Ok::<FullScreenMode, i32>(FullScreenMode::NoFullScreen),
            value == 1 ==> r == Ok::<FullScreenMode, i32>(FullScreenMode::FullWorkspace),
            value == 2 ==> r == Ok::<FullScreenMode, i32>(FullScreenMode::GlobalFullScreen),
            !(0 <= value <= 2) ==> r == Err::<FullScreenMode, i32>(value),
    {
        match value {
            0 => Ok(FullScreenMode::NoFullScreen),
            1 => Ok(FullScreenMode::FullWorkspace),
            2 => Ok(FullScreenMode::GlobalFullScreen),
            _ => Err(value),
        }
    }
}

/// See [`TreeNode::idle_inhibitors`].
#[derive(Debug, PartialEq, Eq, Copy, Clone, Structural)]
pub enum ApplicationInhibitor {
    Disabled,
    Enabled,
}

/// See [`TreeNode::idle_inhibitors`].
#[derive(Debug, PartialEq, Eq, Copy, Clone, Structural)]
pub enum UserInhibitor {
    NoInhibitor,
    Focus,
    Fullscreen,
    Open,
    Visible,
}

/// See [`TreeNode::idle_inhibitors`].
#[derive(Debug, PartialEq, Eq, Copy, Clone, Structural)]
pub struct InhibitorState {
    pub application: ApplicationInhibitor,
    pub user: UserInhibitor,
}

/// One node of the layout tree the window manager reports for `GET_TREE`.
///
/// Children come in two ordered groups: the tiling children in [`Self::nodes`]
/// and the floating children in [`Self::floating_nodes`]. For traversal the
/// two groups form one combined sibling sequence, tiling children first.
#[derive(Debug)]
pub struct TreeNode {
    /// The internal unique ID for this node.
    pub id: i32,
    /// The name of the node, such as the output name or window title.
    pub name: Option<String>,
    /// The node type: root, output, workspace, con, or floating_con.
    pub node_type: NodeType,
    /// The border style for the node.
    pub border: Border,
    /// Number of pixels used for the border width.
    pub current_border_width: i32,
    /// The node's layout.
    pub layout: Layout,
    /// The node's orientation.
    pub orientation: Orientation,
    /// The absolute geometry of the node.
    pub rect: Rect,
    /// The geometry of the contents inside the node.
    pub window_rect: Rect,
    /// The geometry of the decorations for the node relative to the parent.
    pub deco_rect: Rect,
    /// The natural geometry of the contents if it were to size itself.
    pub geometry: Rect,
    /// Whether the node or any of its descendants has the urgent hint set.
    pub urgent: bool,
    /// Whether the node is sticky (shows on all workspaces).
    pub sticky: bool,
    /// List of marks assigned to the node.
    pub marks: Vec<String>,
    /// Whether the node is currently focused by the default seat.
    pub focused: bool,
    /// Child node IDs in the current focus order.
    pub focus: Vec<i32>,
    /// The tiling children of the node, in layout order.
    pub nodes: Vec<TreeNode>,
    /// The floating children of the node.
    pub floating_nodes: Vec<TreeNode>,
    /// (Only workspaces) A string representation of the workspace layout.
    pub representation: Option<String>,
    /// (Only containers and views) The fullscreen mode of the node.
    pub fullscreen_mode: FullScreenMode,
    /// (Only views) The name of the application, if set.
    pub app_id: Option<String>,
    /// (Only views) The PID of the application that owns the view.
    pub pid: Option<i32>,
    /// (Only views) Whether the node is visible.
    pub visible: Option<bool>,
    /// (Only views) The shell of the view, such as xdg_shell.
    pub shell: Option<String>,
    /// (Only views) Whether the view is inhibiting the idle state.
    pub inhibit_idle: Option<bool>,
    /// (Only views) The state of the application and user idle inhibitors.
    pub idle_inhibitors: Option<InhibitorState>,
}

impl Default for TreeNode {
    /// A node with every field at its neutral value; handy as a base when
    /// building trees by hand.
    fn default() -> (r: Self)
        ensures
            r.id == 0,
            r.name is None,
            r.node_type == NodeType::Root,
            r.border == Border::NoBorder,
            r.current_border_width == 0,
            r.layout == Layout::NoLayout,
            r.orientation == Orientation::NoOrientation,
            r.rect == (Rect { x: 0, y: 0, width: 0, height: 0 }),
            r.window_rect == (Rect { x: 0, y: 0, width: 0, height: 0 }),
            r.deco_rect == (Rect { x: 0, y: 0, width: 0, height: 0 }),
            r.geometry == (Rect { x: 0, y: 0, width: 0, height: 0 }),
            !r.urgent,
            !r.sticky,
            r.marks@ == Seq::<String>::empty(),
            !r.focused,
            r.focus@ == Seq::<i32>::empty(),
            r.nodes@ == Seq::<TreeNode>::empty(),
            r.floating_nodes@ == Seq::<TreeNode>::empty(),
            r.representation is None,
            r.fullscreen_mode == FullScreenMode::NoFullScreen,
            r.app_id is None,
            r.pid is None,
            r.visible is None,
            r.shell is None,
            r.inhibit_idle is None,
            r.idle_inhibitors is None,
    {
        TreeNode {
            id: 0,
            name: None,
            node_type: NodeType::Root,
            border: Border::NoBorder,
            current_border_width: 0,
            layout: Layout::NoLayout,
            orientation: Orientation::NoOrientation,
            rect: Rect { x: 0, y: 0, width: 0, height: 0 },
            window_rect: Rect { x: 0, y: 0, width: 0, height: 0 },
            deco_rect: Rect { x: 0, y: 0, width: 0, height: 0 },
            geometry: Rect { x: 0, y: 0, width: 0, height: 0 },
            urgent: false,
            sticky: false,
            marks: Vec::new(),
            focused: false,
            focus: Vec::new(),
            nodes: Vec::new(),
            floating_nodes: Vec::new(),
            representation: None,
            fullscreen_mode: FullScreenMode::NoFullScreen,
            app_id: None,
            pid: None,
            visible: None,
            shell: None,
            inhibit_idle: None,
            idle_inhibitors: None,
        }
    }
}

/// The reply received for one command of a `RUN_COMMAND` batch.
#[derive(Debug, PartialEq, Eq, Clone)]
pub struct CommandResult {
    /// Whether the command was successful.
    pub success: bool,
    /// True when the command failed because it could not be parsed.
    pub parse_error: Option<bool>,
    /// A human readable error message in case of failure.
    pub error: Option<String>,
}

} // verus!
