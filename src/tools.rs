//! Annotation tools, drag modes and their keyboard shortcuts.
use vstd::prelude::*;

verus! {

/// A resize handle on an annotation.
#[derive(Clone, Copy, Debug, PartialEq, Eq, Structural)]
pub enum HandleKind {
    /// Arrow start control point.
    ArrowStart,
    /// Arrow end control point.
    ArrowEnd,
    TopLeft,
    Top,
    TopRight,
    Left,
    Right,
    BottomLeft,
    Bottom,
    BottomRight,
}

/// Which part of the selection the user is dragging.
#[derive(Clone, Copy, Debug, PartialEq, Eq, Structural)]
pub enum DragMode {
    Idle,
    Creating,
    Moving,
    ResizeTopLeft,
    ResizeTopRight,
    ResizeBottomLeft,
    ResizeBottomRight,
    ResizeTop,
    ResizeBottom,
    ResizeLeft,
    ResizeRight,
}

/// The annotation tool in use.
#[derive(Clone, Copy, Debug, PartialEq, Eq, Structural)]
pub enum ActiveTool {
    Select,
    Arrow,
    Rectangle,
    Ellipse,
    Pencil,
    Text,
    Highlight,
    Step,
    Blur,
    Crop,
}

/// What the Select tool is dragging.
#[derive(Clone, Copy, Debug, PartialEq, Eq, Structural)]
pub enum SelectDragMode {
    Idle,
    MovingAnnotation,
    ResizingHandle(HandleKind),
}

/// What the Crop tool is dragging.
#[derive(Clone, Copy, Debug, PartialEq, Eq, Structural)]
pub enum CropDragMode {
    Idle,
    Drawing,
    Moving,
    Resizing(HandleKind),
}

/// Key codes of the letter keys that pick a tool.
pub const KEY_A: u16 = 0;
pub const KEY_S: u16 = 1;
pub const KEY_H: u16 = 4;
pub const KEY_C: u16 = 8;
pub const KEY_B: u16 = 11;
pub const KEY_E: u16 = 14;
pub const KEY_R: u16 = 15;
pub const KEY_T: u16 = 17;
pub const KEY_P: u16 = 35;
pub const KEY_N: u16 = 45;

/// Key codes of the digit keys that pick a stroke width.
pub const KEY_1: u16 = 18;
pub const KEY_2: u16 = 19;
pub const KEY_3: u16 = 20;

/// The tool that a key picks: S select, A arrow, R rectangle, E ellipse,
/// P pencil, T text, H highlight, N step, B blur, C crop.
pub open spec fn tool_of_key(key_code: u16) -> Option<ActiveTool> {
    if key_code == KEY_S {
        Some(ActiveTool::Select)
    } else if key_code == KEY_A {
        Some(ActiveTool::Arrow)
    } else if key_code == KEY_R {
        Some(ActiveTool::Rectangle)
    } else if key_code == KEY_E {
        Some(ActiveTool::Ellipse)
    } else if key_code == KEY_P {
        Some(ActiveTool::Pencil)
    } else if key_code == KEY_T {
        Some(ActiveTool::Text)
    } else if key_code == KEY_H {
        Some(ActiveTool::Highlight)
    } else if key_code == KEY_N {
        Some(ActiveTool::Step)
    } else if key_code == KEY_B {
        Some(ActiveTool::Blur)
    } else if key_code == KEY_C {
        Some(ActiveTool::Crop)
    } else {
        None
    }
}

/// Map a key code to the tool it selects, if any.
pub fn tool_for_key(key_code: u16) -> (r: Option<ActiveTool>)
    ensures
        r == tool_of_key(key_code),
{
    match key_code {
        KEY_S => Some(ActiveTool::Select),
        KEY_A => Some(ActiveTool::Arrow),
        KEY_R => Some(ActiveTool::Rectangle),
        KEY_E => Some(ActiveTool::Ellipse),
        KEY_P => Some(ActiveTool::Pencil),
        KEY_T => Some(ActiveTool::Text),
        KEY_H => Some(ActiveTool::Highlight),
        KEY_N => Some(ActiveTool::Step),
        KEY_B => Some(ActiveTool::Blur),
        KEY_C => Some(ActiveTool::Crop),
        _ => None,
    }
}

/// Map a key code to a stroke action: the selector name and the stroke index
/// (0 thin, 1 medium, 2 thick) for the keys 1, 2 and 3.
pub fn stroke_for_key(key_code: u16) -> (r: Option<(&'static str, usize)>)
    ensures
        key_code == KEY_1 ==> (r matches Some((s, i)) && s@ == "strokeThin:"@ && i == 0),
        key_code == KEY_2 ==> (r matches Some((s, i)) && s@ == "strokeMedium:"@ && i == 1),
        key_code == KEY_3 ==> (r matches Some((s, i)) && s@ == "strokeThick:"@ && i == 2),
        key_code != KEY_1 && key_code != KEY_2 && key_code != KEY_3 ==> r is None,
{
    match key_code {
        KEY_1 => Some(("strokeThin:", 0)),
        KEY_2 => Some(("strokeMedium:", 1)),
        KEY_3 => Some(("strokeThick:", 2)),
        _ => None,
    }
}

} // verus!
