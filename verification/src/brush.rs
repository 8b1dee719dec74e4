//! The painting brush: from input events to the painting the editor does.
use vstd::prelude::*;

use crate::coords::{CellCoord, IVec2};
use crate::substrate::io::{abs, drag_path, spec_drag_path, string_eq_str};

verus! {

/// What the brush paints.
#[derive(Debug, Clone, Copy, PartialEq, Eq, Structural)]
pub enum ToolType {
    NType,
    PType,
    Metal,
    Via,
}

/// The state of the brush between input events.
#[derive(Debug, Clone, Copy)]
pub struct Brush {
    pub active_tool: ToolType,
    /// The cell where the current stroke started.
    pub draw_start: Option<IVec2>,
    /// The cell of the last mouse event.
    pub last_event_cell: Option<IVec2>,
    /// Whether the stroke first moved vertically (unknown until it moves).
    pub initial_impulse_vertical: Option<bool>,
    /// The primary and secondary buttons at the last mouse event.
    pub previous_buttons: (bool, bool),
}

/// An input event as the brush sees it: a key press (its key code), or a mouse event with its
/// buttons and the cell under the pointer.
pub enum BrushEvent {
    KeyPressed { code: String },
    Mouse { buttons: u16, cell: IVec2 },
    Other,
}

/// What the editor does with its painting transaction after an event: nothing, abort it, commit
/// it, or abort it and repaint the stroke along `steps` with `tool` in a new one.
pub enum BrushAction {
    Nothing,
    Abort,
    Commit,
    Repaint { tool: ToolType, steps: Vec<CellCoord> },
}

/// The tool a key selects, if any: Q the N type, W the P type, E metal, R vias.
pub open spec fn spec_key_tool(code: Seq<char>) -> Option<ToolType> {
    if code == "KeyQ"@ {
        Some(ToolType::NType)
    } else if code == "KeyW"@ {
        Some(ToolType::PType)
    } else if code == "KeyE"@ {
        Some(ToolType::Metal)
    } else if code == "KeyR"@ {
        Some(ToolType::Via)
    } else {
        None
    }
}

/// The primary and secondary buttons held in a mouse event's button mask.
pub open spec fn spec_pressed(buttons: u16) -> (bool, bool) {
    ((buttons & 1u16) != 0, (buttons & 2u16) != 0)
}

/// How a mouse event goes: ignored (same cell, same buttons), abort (both buttons), release
/// (neither button), or paint.
pub open spec fn spec_ignored(b: Brush, buttons: u16, cell: IVec2) -> bool {
    b.last_event_cell == Some(cell) && spec_pressed(buttons) == b.previous_buttons
}

/// The brush after recording a mouse event.
pub open spec fn spec_recorded(b: Brush, buttons: u16, cell: IVec2) -> Brush {
    Brush { last_event_cell: Some(cell), previous_buttons: spec_pressed(buttons), ..b }
}

/// The brush of a painting mouse event: the stroke starts at the event's cell when a button was
/// just pressed, and the stroke's first direction is fixed once it moves.
pub open spec fn spec_painting(b: Brush, buttons: u16, cell: IVec2) -> Brush {
    let p = spec_pressed(buttons);
    let just = (p.0 && !b.previous_buttons.0) || (p.1 && !b.previous_buttons.1);
    let b1 = spec_recorded(b, buttons, cell);
    let b2 = if just { Brush { draw_start: Some(cell), ..b1 } } else { b1 };
    let start = b2.draw_start->0;
    let dx = cell.x - start.x;
    let dy = cell.y - start.y;
    if dx == 0 && dy == 0 {
        Brush { initial_impulse_vertical: None, ..b2 }
    } else {
        match b2.initial_impulse_vertical {
            Some(v) => b2,
            None => Brush { initial_impulse_vertical: Some(abs(dx) < abs(dy)), ..b2 },
        }
    }
}

/// The event is one the brush handles without failing: a painting mouse event has a stroke start
/// (a button was pressed before or now), its offset from that start fits in `i32`, and it paints
/// with the primary button.
pub open spec fn spec_brush_ok(b: Brush, e: BrushEvent) -> bool {
    match e {
        BrushEvent::Mouse { buttons, cell } => {
            let p = spec_pressed(buttons);
            (spec_ignored(b, buttons, cell) || (p.0 && p.1) || (!p.0 && !p.1)) || {
                let b2 = spec_painting(b, buttons, cell);
                &&& b2.draw_start is Some
                &&& i32::MIN < cell.x - b2.draw_start->0.x <= i32::MAX
                &&& i32::MIN < cell.y - b2.draw_start->0.y <= i32::MAX
                &&& p.0
            }
        },
        _ => true,
    }
}

/// The brush after an event: a key press may select a tool; a mouse event is recorded (unless
/// ignored) and, when painting, updates the stroke (see `spec_painting`).
pub open spec fn spec_brush_after(b: Brush, e: BrushEvent) -> Brush {
    match e {
        BrushEvent::KeyPressed { code } => match spec_key_tool(code@) {
            Some(t) => Brush { active_tool: t, ..b },
            None => b,
        },
        BrushEvent::Mouse { buttons, cell } => {
            let p = spec_pressed(buttons);
            if spec_ignored(b, buttons, cell) {
                b
            } else if (p.0 && p.1) || (!p.0 && !p.1) {
                spec_recorded(b, buttons, cell)
            } else {
                spec_painting(b, buttons, cell)
            }
        },
        BrushEvent::Other => b,
    }
}

/// The transaction step of an event: both buttons abort, releasing the buttons commits the
/// stroke, painting repaints it from its start to the event's cell.
pub open spec fn spec_brush_action_kind(b: Brush, e: BrushEvent) -> int {
    match e {
        BrushEvent::Mouse { buttons, cell } => {
            let p = spec_pressed(buttons);
            if spec_ignored(b, buttons, cell) {
                0
            } else if p.0 && p.1 {
                1
            } else if !p.0 && !p.1 {
                if b.previous_buttons.0 || b.previous_buttons.1 { 2 } else { 0 }
            } else {
                3
            }
        },
        _ => 0,
    }
}

impl Brush {
    /// A metal brush with no stroke.
    pub fn new() -> (r: Brush)
        ensures
            r == (Brush {
                active_tool: ToolType::Metal,
                draw_start: None,
                last_event_cell: None,
                initial_impulse_vertical: None,
                previous_buttons: (false, false),
            }),
    {
        Brush {
            active_tool: ToolType::Metal,
            draw_start: None,
            last_event_cell: None,
            initial_impulse_vertical: None,
            previous_buttons: (false, false),
        }
    }

    /// Handles one input event (see `spec_brush_after` and `spec_brush_action_kind`). A repaint
    /// paints the drag path from the stroke's start to the event's cell, along the stroke's first
    /// direction first.
    pub fn handle_input_event(&mut self, event: &BrushEvent) -> (r: BrushAction)
        requires
            spec_brush_ok(*old(self), *event),
        ensures
            *final(self) == spec_brush_after(*old(self), *event),
            r is Nothing <==> spec_brush_action_kind(*old(self), *event) == 0,
            r is Abort <==> spec_brush_action_kind(*old(self), *event) == 1,
            r is Commit <==> spec_brush_action_kind(*old(self), *event) == 2,
            r matches BrushAction::Repaint { tool, steps } ==> {
                &&& tool == final(self).active_tool
                &&& event matches BrushEvent::Mouse { cell, .. }
                &&& steps@ == spec_drag_path(final(self).draw_start->0, *cell, final(self).initial_impulse_vertical == Some(true))
            },
    {
        match event {
            BrushEvent::KeyPressed { code } => {
                if string_eq_str(code, "KeyQ") {
                    self.active_tool = ToolType::NType;
                } else if string_eq_str(code, "KeyW") {
                    self.active_tool = ToolType::PType;
                } else if string_eq_str(code, "KeyE") {
                    self.active_tool = ToolType::Metal;
                } else if string_eq_str(code, "KeyR") {
                    self.active_tool = ToolType::Via;
                }
                BrushAction::Nothing
            },
            BrushEvent::Other => BrushAction::Nothing,
            BrushEvent::Mouse { buttons, cell } => {
                let end = *cell;
                let pressed = ((*buttons & 1u16) != 0, (*buttons & 2u16) != 0);
                let previous = self.previous_buttons;
                let just_pressed = (pressed.0 && !previous.0, pressed.1 && !previous.1);

                // Only re-compute what was painted if the pointer moved to another cell.
                if let Some(last) = self.last_event_cell {
                    if last == end && pressed.0 == previous.0 && pressed.1 == previous.1 {
                        return BrushAction::Nothing;
                    }
                }
                self.last_event_cell = Some(end);
                self.previous_buttons = pressed;

                // Clicking both buttons cancels drawing.
                if pressed.0 && pressed.1 {
                    return BrushAction::Abort;
                }
                // Releasing both buttons commits the stroke.
                if !pressed.0 && !pressed.1 {
                    if previous.0 || previous.1 {
                        return BrushAction::Commit;
                    }
                    return BrushAction::Nothing;
                }

                if just_pressed.0 || just_pressed.1 {
                    self.draw_start = Some(end);
                }
                let start = match self.draw_start {
                    Some(s) => s,
                    None => {
                        return BrushAction::Nothing;
                    },
                };
                let dx = end.x - start.x;
                let dy = end.y - start.y;
                if dx == 0 && dy == 0 {
                    self.initial_impulse_vertical = None;
                } else if self.initial_impulse_vertical.is_none() {
                    let ax = if dx < 0 { -dx } else { dx };
                    let ay = if dy < 0 { -dy } else { dy };
                    self.initial_impulse_vertical = Some(ax < ay);
                }
                let vertical = match self.initial_impulse_vertical {
                    Some(v) => v,
                    None => false,
                };
                let steps = drag_path(start, end, vertical);
                BrushAction::Repaint { tool: self.active_tool, steps }
            },
        }
    }
}

/// A stroke keeps its first direction: when a painting mouse event continues a stroke whose first
/// direction is already known (one button held, as it was already held before, at a cell other
/// than the stroke's start), the brush keeps that direction and the stroke's start.
pub proof fn lemma_stroke_keeps_first_direction(b: Brush, buttons: u16, cell: IVec2, start: IVec2, v: bool)
    requires
        b.initial_impulse_vertical == Some(v),
        b.draw_start == Some(start),
        spec_pressed(buttons).0 != spec_pressed(buttons).1,
        spec_pressed(buttons).0 ==> b.previous_buttons.0,
        spec_pressed(buttons).1 ==> b.previous_buttons.1,
        cell != start,
    ensures
        spec_brush_after(b, BrushEvent::Mouse { buttons, cell }).initial_impulse_vertical == Some(v),
        spec_brush_after(b, BrushEvent::Mouse { buttons, cell }).draw_start == Some(start),
{
}

/// A stroke's first direction is fixed by its first move: when a painting mouse event continues a
/// stroke whose direction is not yet known, at a cell other than its start, the direction becomes
/// vertical exactly when the cell is further from the start along y than along x; back at the
/// start the direction is unknown again.
pub proof fn lemma_stroke_first_move_sets_direction(b: Brush, buttons: u16, cell: IVec2, start: IVec2)
    requires
        b.draw_start == Some(start),
        b.last_event_cell != Some(cell),
        spec_pressed(buttons).0 != spec_pressed(buttons).1,
        spec_pressed(buttons).0 ==> b.previous_buttons.0,
        spec_pressed(buttons).1 ==> b.previous_buttons.1,
    ensures
        cell == start ==> spec_brush_after(b, BrushEvent::Mouse { buttons, cell }).initial_impulse_vertical is None,
        cell != start && b.initial_impulse_vertical is None ==> spec_brush_after(b, BrushEvent::Mouse { buttons, cell }).initial_impulse_vertical == Some(
            abs(cell.x - start.x) < abs(cell.y - start.y),
        ),
{
}

/// Keys select tools and change nothing else: Q the N type, W the P type, E metal, R vias; any
/// other key leaves the brush as it is.
pub proof fn lemma_keys_select_tools(b: Brush, code: String)
    ensures
        ({
            let after = spec_brush_after(b, BrushEvent::KeyPressed { code });
            &&& after.draw_start == b.draw_start && after.last_event_cell == b.last_event_cell
            &&& after.initial_impulse_vertical == b.initial_impulse_vertical
            &&& after.previous_buttons == b.previous_buttons
            &&& code@ == "KeyQ"@ ==> after.active_tool == ToolType::NType
            &&& code@ == "KeyW"@ ==> after.active_tool == ToolType::PType
            &&& code@ == "KeyE"@ ==> after.active_tool == ToolType::Metal
            &&& code@ == "KeyR"@ ==> after.active_tool == ToolType::Via
            &&& (code@ != "KeyQ"@ && code@ != "KeyW"@ && code@ != "KeyE"@ && code@ != "KeyR"@) ==> after == b
        }),
{
    reveal_strlit("KeyQ");
    reveal_strlit("KeyW");
    reveal_strlit("KeyE");
    reveal_strlit("KeyR");
    assert("KeyQ"@[3] != "KeyW"@[3] && "KeyQ"@[3] != "KeyE"@[3] && "KeyQ"@[3] != "KeyR"@[3]);
    assert("KeyW"@[3] != "KeyE"@[3] && "KeyW"@[3] != "KeyR"@[3] && "KeyE"@[3] != "KeyR"@[3]);
}

/// What a mouse event does to the painting transaction, when it is not a repeat of the last
/// event: both buttons abort; no button commits a stroke that a button was held for, and does
/// nothing otherwise; one button repaints. The event's cell and buttons are recorded.
pub proof fn lemma_mouse_actions(b: Brush, buttons: u16, cell: IVec2)
    requires
        !spec_ignored(b, buttons, cell),
    ensures
        ({
            let p = spec_pressed(buttons);
            let e = BrushEvent::Mouse { buttons, cell };
            &&& p.0 && p.1 ==> spec_brush_action_kind(b, e) == 1
            &&& !p.0 && !p.1 ==> spec_brush_action_kind(b, e) == (if b.previous_buttons.0 || b.previous_buttons.1 { 2int } else { 0int })
            &&& p.0 != p.1 ==> spec_brush_action_kind(b, e) == 3
            &&& spec_brush_after(b, e).last_event_cell == Some(cell)
            &&& spec_brush_after(b, e).previous_buttons == p
            &&& spec_brush_after(b, e).active_tool == b.active_tool
        }),
{
}

} // verus!
