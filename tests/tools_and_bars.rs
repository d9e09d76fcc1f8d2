use clipshot::minibar::{MiniBarDragTarget, MiniBarView};
use clipshot::toolbar::ToolbarView;
use clipshot::tools::{stroke_for_key, tool_for_key, ActiveTool};

#[test]
fn letter_keys_pick_tools() {
    assert_eq!(tool_for_key(1), Some(ActiveTool::Select));
    assert_eq!(tool_for_key(0), Some(ActiveTool::Arrow));
    assert_eq!(tool_for_key(15), Some(ActiveTool::Rectangle));
    assert_eq!(tool_for_key(14), Some(ActiveTool::Ellipse));
    assert_eq!(tool_for_key(35), Some(ActiveTool::Pencil));
    assert_eq!(tool_for_key(17), Some(ActiveTool::Text));
    assert_eq!(tool_for_key(4), Some(ActiveTool::Highlight));
    assert_eq!(tool_for_key(45), Some(ActiveTool::Step));
    assert_eq!(tool_for_key(11), Some(ActiveTool::Blur));
    assert_eq!(tool_for_key(8), Some(ActiveTool::Crop));
    assert_eq!(tool_for_key(2), None);
    assert_eq!(tool_for_key(18), None);
}

#[test]
fn digit_keys_pick_strokes() {
    assert_eq!(stroke_for_key(18), Some(("strokeThin:", 0)));
    assert_eq!(stroke_for_key(19), Some(("strokeMedium:", 1)));
    assert_eq!(stroke_for_key(20), Some(("strokeThick:", 2)));
    assert_eq!(stroke_for_key(21), None);
    assert_eq!(stroke_for_key(1), None);
}

#[test]
fn mini_bar_state_round_trips() {
    let mut bar = MiniBarView::new();
    bar.update_state(3, Some(9), 5, 20);
    assert_eq!(bar.start_frame(), 3);
    assert_eq!(bar.end_frame(), Some(9));
    assert_eq!(bar.take_pending_seek_frame(), None);
}

#[test]
fn dragging_the_start_handle_stays_before_the_end() {
    let mut bar = MiniBarView::new();
    bar.update_state(3, Some(9), 5, 20);
    bar.begin_drag(MiniBarDragTarget::StartHandle);
    bar.drag_to_frame(15);
    assert_eq!(bar.start_frame(), 8);
    assert_eq!(bar.take_pending_seek_frame(), Some(8));
    assert_eq!(bar.take_pending_seek_frame(), None);
    bar.drag_to_frame(2);
    assert_eq!(bar.start_frame(), 2);
    assert!(bar.end_drag());
    assert!(!bar.end_drag());
}

#[test]
fn dragging_the_end_handle_stays_after_the_start() {
    let mut bar = MiniBarView::new();
    bar.update_state(3, None, 5, 20);
    bar.begin_drag(MiniBarDragTarget::EndHandle);
    bar.drag_to_frame(1);
    assert_eq!(bar.end_frame(), Some(4));
    assert_eq!(bar.take_pending_seek_frame(), Some(3));
    bar.drag_to_frame(50);
    assert_eq!(bar.end_frame(), Some(20));
    assert_eq!(bar.take_pending_seek_frame(), Some(19));
}

#[test]
fn moving_without_a_handle_changes_nothing() {
    let mut bar = MiniBarView::new();
    bar.update_state(3, None, 5, 20);
    bar.drag_to_frame(10);
    assert_eq!(bar.start_frame(), 3);
    assert_eq!(bar.end_frame(), None);
    assert_eq!(bar.take_pending_seek_frame(), None);
}

#[test]
fn toolbar_tracks_its_selection() {
    let mut bar = ToolbarView::new();
    assert!(!bar.is_color_picker_active());
    bar.set_color_picker_active(true);
    assert!(bar.is_color_picker_active());
    bar.set_active_tool(4);
    bar.set_active_stroke(2);
    assert_eq!((bar.active_tool_index, bar.active_stroke_index), (4, 2));
    bar.set_color_picker_active(false);
    assert!(!bar.is_color_picker_active());
}
