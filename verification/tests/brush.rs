use logic_paint::brush::{Brush, BrushAction, BrushEvent, ToolType};
use logic_paint::coords::{CellCoord, IVec2};

fn mouse(buttons: u16, x: i32, y: i32) -> BrushEvent {
    BrushEvent::Mouse { buttons, cell: IVec2::new(x, y) }
}

#[test]
fn keys_select_tools() {
    let mut b = Brush::new();
    assert_eq!(b.active_tool, ToolType::Metal);
    assert!(matches!(b.handle_input_event(&BrushEvent::KeyPressed { code: "KeyQ".to_string() }), BrushAction::Nothing));
    assert_eq!(b.active_tool, ToolType::NType);
    b.handle_input_event(&BrushEvent::KeyPressed { code: "KeyX".to_string() });
    assert_eq!(b.active_tool, ToolType::NType);
}

#[test]
fn stroke_repaints_then_commits() {
    let mut b = Brush::new();
    match b.handle_input_event(&mouse(1, 0, 0)) {
        BrushAction::Repaint { tool, steps } => {
            assert_eq!(tool, ToolType::Metal);
            assert_eq!(steps, vec![CellCoord::new(0, 0)]);
        },
        _ => panic!("expected a repaint"),
    }
    match b.handle_input_event(&mouse(1, 1, 2)) {
        BrushAction::Repaint { steps, .. } => {
            // First moved more vertically than horizontally.
            assert_eq!(b.initial_impulse_vertical, Some(true));
            assert_eq!(steps, vec![CellCoord::new(0, 0), CellCoord::new(0, 1), CellCoord::new(0, 2), CellCoord::new(1, 2)]);
        },
        _ => panic!("expected a repaint"),
    }
    // The same cell with the same buttons is ignored.
    assert!(matches!(b.handle_input_event(&mouse(1, 1, 2)), BrushAction::Nothing));
    assert!(matches!(b.handle_input_event(&mouse(0, 1, 2)), BrushAction::Commit));
    assert!(matches!(b.handle_input_event(&mouse(0, 3, 3)), BrushAction::Nothing));
}

#[test]
fn both_buttons_abort() {
    let mut b = Brush::new();
    b.handle_input_event(&mouse(1, 0, 0));
    assert!(matches!(b.handle_input_event(&mouse(3, 0, 1)), BrushAction::Abort));
}
