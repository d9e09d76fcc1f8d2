//! Selection state of the annotation toolbar: which tool and stroke buttons
//! are highlighted, and whether the color picker is open.
use vstd::prelude::*;

verus! {

/// Toolbar button state.
pub struct ToolbarView {
    /// Index of the highlighted tool button.
    pub active_tool_index: usize,
    /// Index of the highlighted stroke-width button.
    pub active_stroke_index: usize,
    /// Whether the color button shows the picker as open.
    pub color_picker_active: bool,
}

impl ToolbarView {
    /// First tool and first stroke highlighted, color picker closed.
    pub fn new() -> (r: Self)
        ensures
            r.active_tool_index == 0,
            r.active_stroke_index == 0,
            !r.color_picker_active,
    {
        ToolbarView { active_tool_index: 0, active_stroke_index: 0, color_picker_active: false }
    }

    /// Highlight tool button `index`.
    pub fn set_active_tool(&mut self, index: usize)
        ensures
            *final(self) == (ToolbarView { active_tool_index: index, ..*old(self) }),
    {
        self.active_tool_index = index;
    }

    /// Highlight stroke-width button `index`.
    pub fn set_active_stroke(&mut self, index: usize)
        ensures
            *final(self) == (ToolbarView { active_stroke_index: index, ..*old(self) }),
    {
        self.active_stroke_index = index;
    }

    /// Show the color picker as open or closed.
    pub fn set_color_picker_active(&mut self, active: bool)
        ensures
            *final(self) == (ToolbarView { color_picker_active: active, ..*old(self) }),
    {
        self.color_picker_active = active;
    }

    /// Whether the color picker is shown as open.
    pub fn is_color_picker_active(&self) -> (r: bool)
        ensures
            r == self.color_picker_active,
    {
        self.color_picker_active
    }
}

} // verus!
