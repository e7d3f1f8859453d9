use localtex::draw::{DrawBoard, DrawPaper, DrawTool, InkPos, StrokePt};

fn at(x: f32, y: f32) -> InkPos {
    InkPos { x: x.to_bits(), y: y.to_bits() }
}

const MS: u64 = 1_000_000;

#[test]
fn undo_redo_and_new_stroke_clears_redo() {
    let mut b = DrawBoard::new();
    b.pointer_down(at(0.0, 0.0), 0);
    let _ = b.pointer_move(at(4.0, 0.0), MS);
    b.pointer_up();
    b.pointer_down(at(8.0, 0.0), 2 * MS);
    let _ = b.pointer_move(at(12.0, 0.0), 3 * MS);
    b.pointer_up();
    assert!(b.can_undo());
    b.undo();
    assert_eq!(b.lines.len(), 1);
    assert!(b.can_redo());
    b.redo();
    assert_eq!(b.lines.len(), 2);
    b.undo();
    b.pointer_down(at(0.0, 0.0), 4 * MS);
    let _ = b.pointer_move(at(1.0, 0.0), 5 * MS);
    b.pointer_up();
    assert!(!b.can_redo());
}

#[test]
fn end_gesture_clears_painting_without_snapshot() {
    let mut b = DrawBoard::new();
    b.painting = true;
    b.end_gesture();
    assert!(!b.painting);
    assert!(!b.is_gesturing());
}

#[test]
fn clear_ink_keeps_tool_and_paper() {
    let mut b = DrawBoard::new();
    b.pointer_down(at(0.0, 0.0), 0);
    let _ = b.pointer_move(at(4.0, 0.0), MS);
    b.pointer_up();
    b.set_tool(DrawTool::Eraser);
    b.set_paper(DrawPaper::Lines);
    b.clear_ink();
    assert!(b.lines.is_empty());
    assert!(!b.has_ink());
    assert_eq!(b.tool, DrawTool::Eraser);
    assert_eq!(b.paper, DrawPaper::Lines);
}

#[test]
fn eraser_hides_os_cursor_only_on_pad() {
    let mut b = DrawBoard::new();
    assert!(!b.os_cursor_hidden());
    b.set_tool(DrawTool::Eraser);
    assert!(!b.os_cursor_hidden());
    let _ = b.pointer_move(at(8.0, 8.0), 0);
    assert!(b.os_cursor_hidden());
    assert!(b.eraser_ring().is_some());
    b.set_dock_hovered(true);
    assert!(!b.os_cursor_hidden());
    assert!(b.eraser_ring().is_none());
    b.set_dock_hovered(false);
    assert!(b.os_cursor_hidden());
    b.set_tool(DrawTool::Pen);
    assert!(!b.os_cursor_hidden());
    b.set_tool(DrawTool::Eraser);
    b.leave_canvas();
    assert!(!b.os_cursor_hidden());
    assert!(b.hover.is_none());
}

#[test]
fn redo_right_after_undo_restores_the_same_ink() {
    let mut b = DrawBoard::new();
    b.pointer_down(at(1.0, 2.0), 5 * MS);
    let _ = b.pointer_move(at(3.0, 4.0), 7 * MS);
    b.pointer_up();
    let before = b.lines.clone();
    b.undo();
    assert!(b.lines.is_empty());
    b.redo();
    assert_eq!(b.lines, before);
    assert_eq!(
        b.lines[0],
        vec![StrokePt { pos: at(1.0, 2.0), t_ns: 0 }, StrokePt { pos: at(3.0, 4.0), t_ns: 2 * MS }]
    );
    assert!(b.can_undo());
    assert!(!b.can_redo());
}

#[test]
fn eraser_press_that_misses_records_nothing() {
    let mut b = DrawBoard::new();
    b.pointer_down(at(0.0, 0.0), 0);
    let _ = b.pointer_move(at(4.0, 0.0), MS);
    b.pointer_up();
    b.undo();
    b.redo();
    b.set_tool(DrawTool::Eraser);
    b.pointer_down(at(100.0, 100.0), 2 * MS);
    assert!(b.erasing());
    let same = b.lines.clone();
    b.apply_erase(same);
    b.pointer_up();
    b.undo();
    assert!(b.lines.is_empty(), "the only undo step is the stroke itself");
    assert!(!b.can_undo());
}

#[test]
fn erased_ink_is_undoable() {
    let mut b = DrawBoard::new();
    b.pointer_down(at(0.0, 0.0), 0);
    let _ = b.pointer_move(at(4.0, 0.0), MS);
    b.pointer_up();
    let drawn = b.lines.clone();
    b.set_tool(DrawTool::Eraser);
    b.pointer_down(at(2.0, 0.0), 2 * MS);
    b.apply_erase(Vec::new());
    b.pointer_up();
    assert!(!b.has_ink());
    b.undo();
    assert_eq!(b.lines, drawn);
    assert!(b.has_ink());
}

#[test]
fn pen_clock_starts_at_first_sample_and_restarts_after_clear() {
    let mut b = DrawBoard::new();
    b.pointer_down(at(0.0, 0.0), 40 * MS);
    let _ = b.pointer_move(at(1.0, 0.0), 55 * MS);
    assert_eq!(b.lines[0][0].t_ns, 0);
    assert_eq!(b.lines[0][1].t_ns, 15 * MS);
    b.pointer_up();
    b.clear_ink();
    b.pointer_down(at(0.0, 0.0), 90 * MS);
    assert_eq!(b.lines[0][0].t_ns, 0);
}
