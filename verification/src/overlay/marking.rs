//! Marking shop slots by hand: dragging rectangles and drawing them.

use super::draw_list::{color, DebugRect, DrawListState, OverlayMode};
use super::renderer::{push_step, push_text, sat_sub, step_views, steps_fit, DrawOp, Renderer, StepView};
use crate::arith::wide_usize;
use crate::config::{AppConfig, CustomSlotConfig};
use crate::matchers::Rect;
use crate::overlay::commands::slots_as_config;
use crate::text::decimal;
use vstd::prelude::*;

verus! {

/// The rectangle spanned by a drag from `(sx, sy)` to `(cx, cy)`.
pub open spec fn drag_rect(d: (u32, u32, u32, u32)) -> Rect {
    let (sx, sy, cx, cy) = d;
    Rect {
        x: if sx <= cx { sx } else { cx },
        y: if sy <= cy { sy } else { cy },
        width: (if sx >= cx { sx - cx } else { cx - sx }) as u32,
        height: (if sy >= cy { sy - cy } else { cy - sy }) as u32,
    }
}

/// A drag spans the same rectangle whichever way it goes: its left and top
/// edges are the smaller coordinates of its two corners, its width and
/// height the distances between them, and it holds both corners.
pub proof fn lemma_drag_rect_either_way(sx: u32, sy: u32, cx: u32, cy: u32)
    ensures
        drag_rect((sx, sy, cx, cy)) == drag_rect((cx, cy, sx, sy)),
        drag_rect((sx, sy, cx, cy)).width == if sx >= cx { sx - cx } else { cx - sx },
        drag_rect((sx, sy, cx, cy)).height == if sy >= cy { sy - cy } else { cy - sy },
        drag_rect((sx, sy, cx, cy)).x <= sx && drag_rect((sx, sy, cx, cy)).x <= cx,
        drag_rect((sx, sy, cx, cy)).y <= sy && drag_rect((sx, sy, cx, cy)).y <= cy,
        sx <= drag_rect((sx, sy, cx, cy)).x + drag_rect((sx, sy, cx, cy)).width,
        cx <= drag_rect((sx, sy, cx, cy)).x + drag_rect((sx, sy, cx, cy)).width,
        sy <= drag_rect((sx, sy, cx, cy)).y + drag_rect((sx, sy, cx, cy)).height,
        cy <= drag_rect((sx, sy, cx, cy)).y + drag_rect((sx, sy, cx, cy)).height,
{
}


pub fn drag_to_rect(d: (u32, u32, u32, u32)) -> (r: Rect)
    ensures
        r == drag_rect(d),
        r.x + r.width <= u32::MAX,
        r.y + r.height <= u32::MAX,
{
    let (sx, sy, cx, cy) = d;
    let x = if sx <= cx { sx } else { cx };
    let y = if sy <= cy { sy } else { cy };
    let w = if sx >= cx { sx - cx } else { cx - sx };
    let h = if sy >= cy { sy - cy } else { cy - sy };
    Rect::new(x, y, w, h)
}

/// The mouse state of the marking mode.
#[derive(Debug, Clone, Copy)]
pub struct DragState {
    pub active: bool,
    pub start: (u32, u32),
    pub last_cursor: (u32, u32),
}

/// Keys the marking mode reacts to.
#[derive(Debug, Clone, Copy, PartialEq, Eq, Structural)]
pub enum MarkingKey {
    Enter,
    Escape,
    C,
    Other,
}

impl DragState {
    pub fn new() -> (d: Self)
        ensures
            !d.active,
            d.start == (0u32, 0u32),
            d.last_cursor == (0u32, 0u32),
    {
        DragState { active: false, start: (0, 0), last_cursor: (0, 0) }
    }

    /// The cursor moved to `(cx, cy)`: remembered, and while a drag is under
    /// way in marking mode the drag's far corner follows it.
    pub fn cursor_moved(&mut self, dl: &mut DrawListState, current_mode: OverlayMode, cx: u32, cy: u32)
        ensures
            final(self).last_cursor == (cx, cy),
            final(self).active == old(self).active,
            final(self).start == old(self).start,
            final(dl).current_drag == if current_mode == OverlayMode::Marking && old(self).active {
                Some((old(self).start.0, old(self).start.1, cx, cy))
            } else {
                old(dl).current_drag
            },
            final(dl).marked_slots@ == old(dl).marked_slots@,
            final(dl).mode == old(dl).mode,
    {
        self.last_cursor = (cx, cy);
        if current_mode == OverlayMode::Marking && self.active {
            dl.current_drag = Some((self.start.0, self.start.1, cx, cy));
        }
    }

    /// The left button went down (`pressed`) or up in marking mode. Pressing
    /// starts a drag at the cursor; releasing ends it and keeps the dragged
    /// rectangle as a slot when it is more than 10 pixels in both directions.
    pub fn left_button(&mut self, dl: &mut DrawListState, pressed: bool)
        ensures
            pressed ==> *final(self) == (DragState { active: true, start: old(self).last_cursor, ..*old(self) })
                && final(dl).current_drag == old(dl).current_drag && final(dl).marked_slots@
                == old(dl).marked_slots@,
            !pressed && old(self).active ==> {
                &&& *final(self) == (DragState { active: false, ..*old(self) })
                &&& final(dl).current_drag is None
                &&& final(dl).marked_slots@ == match old(dl).current_drag {
                    Some(d) => if drag_rect(d).width > 10 && drag_rect(d).height > 10 {
                        old(dl).marked_slots@.push(drag_rect(d))
                    } else {
                        old(dl).marked_slots@
                    },
                    None => old(dl).marked_slots@,
                }
            },
            !pressed && !old(self).active ==> *final(self) == *old(self) && final(dl).current_drag
                == old(dl).current_drag && final(dl).marked_slots@ == old(dl).marked_slots@,
            final(dl).mode == old(dl).mode,
    {
        if pressed {
            self.active = true;
            self.start = self.last_cursor;
        } else if self.active {
            self.active = false;
            let drag = dl.current_drag.take();
            match drag {
                Some(d) => {
                    let r = drag_to_rect(d);
                    if r.width > 10 && r.height > 10 {
                        dl.marked_slots.push(r);
                    }
                },
                None => {},
            }
        }
    }
}

/// The right button removes the last marked slot.
pub fn right_button_pressed(dl: &mut DrawListState)
    ensures
        final(dl).marked_slots@ == if old(dl).marked_slots@.len() > 0 {
            old(dl).marked_slots@.drop_last()
        } else {
            old(dl).marked_slots@
        },
        final(dl).mode == old(dl).mode,
{
    dl.marked_slots.pop();
}

/// A key pressed in marking mode: Enter and Escape leave it, C forgets the
/// marked slots. Gives whether the slots are to be saved.
pub fn marking_key(dl: &mut DrawListState, cfg: &mut AppConfig, key: MarkingKey) -> (save: bool)
    ensures
        save == (key == MarkingKey::Enter),
        key == MarkingKey::Enter ==> final(cfg).marked_slots@ == slots_as_config(old(dl).marked_slots@),
        key != MarkingKey::Enter ==> final(cfg).marked_slots@ == old(cfg).marked_slots@,
        crate::overlay::commands::same_other_settings(*final(cfg), *old(cfg)),
        final(cfg).debug_mode == old(cfg).debug_mode,
        final(cfg).ng_plus_mode == old(cfg).ng_plus_mode,
        final(dl).mode == if key == MarkingKey::Enter || key == MarkingKey::Escape {
            OverlayMode::Passive
        } else {
            old(dl).mode
        },
        final(dl).marked_slots@ == if key == MarkingKey::C { Seq::empty() } else { old(dl).marked_slots@ },
{
    match key {
        MarkingKey::Enter => {
            MarkingOverlay::save_marked_slots(dl, cfg);
            dl.mode = OverlayMode::Passive;
            true
        },
        MarkingKey::Escape => {
            dl.mode = OverlayMode::Passive;
            false
        },
        MarkingKey::C => {
            dl.marked_slots.clear();
            false
        },
        MarkingKey::Other => false,
    }
}

/// Left edge of the marking banner.
pub open spec fn banner_x(w: int) -> int {
    sat_sub(w, 680) / 2
}

/// The drag rectangle that is drawn, when there is one.
pub open spec fn drawn_drag(d: Option<(u32, u32, u32, u32)>) -> Option<Rect> {
    match d {
        Some(dd) => if drag_rect(dd).width > 0 && drag_rect(dd).height > 0 { Some(drag_rect(dd)) } else { None },
        None => None,
    }
}

/// The banner's text for `n` marked slots.
pub open spec fn marking_message(n: nat) -> Seq<char> {
    "MARKING MODE: "@ + decimal(n)
        + " slot(s) marked | Drag to Add | Right-Click to Remove | ENTER / F8 Save | C Clear | ESC Cancel"@
}

/// The caption of a drag: its size as `WxH`.
pub open spec fn size_label(r: Rect) -> Seq<char> {
    decimal(r.width as nat) + seq!['x'] + decimal(r.height as nat)
}


/// Slot `k` (counting from 1) outlined in teal, its number written inside.
pub open spec fn slot_step(slot: Rect, k: nat) -> StepView {
    StepView::Outline(slot, 3, color::TEAL, crate::shop::pipeline::slot_label(k))
}

/// The first `n` slots.
pub open spec fn slots_steps(slots: Seq<Rect>, n: int) -> Seq<StepView>
    decreases n,
{
    if n <= 0 {
        Seq::empty()
    } else {
        slots_steps(slots, n - 1).push(slot_step(slots[n - 1], n as nat))
    }
}

/// The drag outlined in yellow, its size written inside, when it is drawn.
pub open spec fn drag_steps(d: Option<(u32, u32, u32, u32)>) -> Seq<StepView> {
    match drawn_drag(d) {
        Some(r) => seq![StepView::Outline(r, 2, color::YELLOW, size_label(r))],
        None => Seq::empty(),
    }
}

/// The steps of the marking screen, in drawing order: the canvas dimmed,
/// the instructions banner and its text, every marked slot and the current
/// drag.
pub open spec fn marking_steps(w: int, h: int, state: DrawListState) -> Seq<StepView> {
    seq![
        StepView::Fill(0, 0, w, h, 0x5500_0000u32),
        StepView::Panel(banner_x(w), 20, 680, 44, 10, color::DARK_BG, Some(color::ORANGE)),
        StepView::Text((banner_x(w) + 16, 32int, marking_message(state.marked_slots@.len()), color::WHITE, 13u32)),
    ] + slots_steps(state.marked_slots@, state.marked_slots@.len() as int) + drag_steps(state.current_drag)
}

/// Draws the screen for marking shop slots by hand.
pub struct MarkingOverlay;

impl MarkingOverlay {
    /// The steps that draw the marking screen on the renderer's canvas.
    pub fn render(renderer: &Renderer, state: &DrawListState) -> (ops: Vec<DrawOp>)
        requires
            wide_usize(),
            renderer.width <= u32::MAX,
            renderer.height <= u32::MAX,
        ensures
            step_views(ops@) == marking_steps(renderer.width as int, renderer.height as int, *state),
            steps_fit(ops@),
    {
        let (rw, rh) = (renderer.width, renderer.height);
        let mut ops: Vec<DrawOp> = Vec::new();
        push_step(&mut ops, DrawOp::Fill { x: 0, y: 0, width: rw, height: rh, color: 0x55_00_00_00 });
        let banner_w: usize = 680;
        let bx = (if rw >= banner_w { rw - banner_w } else { 0 }) / 2;
        push_step(
            &mut ops,
            DrawOp::Panel {
                x: bx,
                y: 20,
                width: banner_w,
                height: 44,
                radius: 10,
                fill: color::DARK_BG,
                border: Some(color::ORANGE),
            },
        );
        let mut msg = String::from_str("MARKING MODE: ");
        crate::text::push_decimal(&mut msg, state.marked_slots.len() as u64);
        msg.append(" slot(s) marked | Drag to Add | Right-Click to Remove | ENTER / F8 Save | C Clear | ESC Cancel");
        push_text(&mut ops, bx + 16, 32, msg, color::WHITE, 13);
        let ghost first = step_views(ops@);
        let n = state.marked_slots.len();
        let mut idx: usize = 0;
        while idx < n
            invariant
                wide_usize(),
                n == state.marked_slots@.len(),
                idx <= n,
                steps_fit(ops@),
                step_views(ops@) == first + slots_steps(state.marked_slots@, idx as int),
            decreases n - idx,
        {
            let slot = state.marked_slots[idx];
            let mut label = String::from_str("Slot ");
            crate::text::push_decimal(&mut label, (idx + 1) as u64);
            proof {
                reveal_strlit("Slot ");
                assert(label@ =~= crate::shop::pipeline::slot_label((idx + 1) as nat));
            }
            let ghost before = step_views(ops@);
            push_step(&mut ops, DrawOp::Outline(DebugRect { rect: slot, color: color::TEAL, label, thickness: 3 }));
            proof {
                assert(step_views(ops@) =~= first + slots_steps(state.marked_slots@, idx + 1));
            }
            idx += 1;
        }
        let ghost with_slots = step_views(ops@);
        match state.current_drag {
            Some(d) => {
                let r = drag_to_rect(d);
                if r.width > 0 && r.height > 0 {
                    let mut label = String::new();
                    crate::text::push_decimal(&mut label, r.width as u64);
                    crate::text::string_push(&mut label, 'x');
                    crate::text::push_decimal(&mut label, r.height as u64);
                    proof {
                        assert(label@ =~= size_label(r));
                    }
                    push_step(&mut ops, DrawOp::Outline(DebugRect { rect: r, color: color::YELLOW, label, thickness: 2 }));
                }
            },
            None => {},
        }
        proof {
            assert(step_views(ops@) =~= with_slots + drag_steps(state.current_drag));
        }
        ops
    }

    /// Copies the marked slots into the settings, which the caller then saves.
    pub fn save_marked_slots(dl: &DrawListState, cfg: &mut AppConfig)
        ensures
            final(cfg).marked_slots@ == slots_as_config(dl.marked_slots@),
            crate::overlay::commands::same_other_settings(*final(cfg), *old(cfg)),
            final(cfg).debug_mode == old(cfg).debug_mode,
            final(cfg).ng_plus_mode == old(cfg).ng_plus_mode,
    {
        let mut slots: Vec<CustomSlotConfig> = Vec::new();
        let n = dl.marked_slots.len();
        let mut i: usize = 0;
        while i < n
            invariant
                n == dl.marked_slots@.len(),
                i <= n,
                slots@ == slots_as_config(dl.marked_slots@.take(i as int)),
            decreases n - i,
        {
            let c = CustomSlotConfig::from_rect(dl.marked_slots[i]);
            slots.push(c);
            proof {
                assert(slots_as_config(dl.marked_slots@.take(i + 1)) =~= slots_as_config(
                    dl.marked_slots@.take(i as int),
                ).push(c));
            }
            i += 1;
        }
        proof {
            assert(dl.marked_slots@.take(n as int) =~= dl.marked_slots@);
        }
        cfg.marked_slots = slots;
    }
}

} // verus!
