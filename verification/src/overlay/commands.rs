//! How the overlay's state changes when a command arrives.

use super::draw_list::{toggled, DrawListState, OverlayMode};
use crate::config::{AppConfig, CustomSlotConfig};
use crate::event_bus::AppCommand;
use crate::matchers::Rect;
use vstd::prelude::*;

verus! {

/// What is left to do outside the overlay's state once a command is applied.
#[derive(Debug, Clone, Copy, PartialEq, Eq, Structural)]
pub enum CommandEffect {
    /// Nothing.
    Done,
    /// Write the settings to disk.
    SaveConfig,
    /// Switch file logging on or off, then write the settings to disk.
    SetDebugAndSave(bool),
    /// Write the loaded templates out as images.
    DumpTemplates,
    /// Quit the application.
    Exit,
}

/// The marked slots as settings entries.
pub open spec fn slots_as_config(slots: Seq<Rect>) -> Seq<CustomSlotConfig> {
    slots.map_values(|r: Rect| CustomSlotConfig { x: r.x, y: r.y, width: r.width, height: r.height })
}

/// All settings but debug mode, New Game+ mode and the marked slots agree.
pub open spec fn same_other_settings(a: AppConfig, b: AppConfig) -> bool {
    &&& a.match_algorithm == b.match_algorithm
    &&& a.use_simd == b.use_simd
    &&& a.sample_step == b.sample_step
    &&& a.detection_delay_ms == b.detection_delay_ms
    &&& a.render_delay_ms == b.render_delay_ms
    &&& a.debounce_ms == b.debounce_ms
    &&& a.leader_key == b.leader_key
    &&& a.mark_region_hotkey == b.mark_region_hotkey
    &&& a.toggle_debug_hotkey == b.toggle_debug_hotkey
    &&& a.detect_window_hotkey == b.detect_window_hotkey
    &&& a.exit_app_hotkey == b.exit_app_hotkey
    &&& a.toggle_ng_plus_hotkey == b.toggle_ng_plus_hotkey
    &&& a.dump_templates_hotkey == b.dump_templates_hotkey
    &&& a.manual_search_hotkey == b.manual_search_hotkey
    &&& a.pause_overlay_hotkey == b.pause_overlay_hotkey
    &&& a.target_window_title == b.target_window_title
}

/// Toggling away from search mode back to passive drops the query and its
/// results.
pub open spec fn clears_search(old_mode: OverlayMode, cmd: AppCommand) -> bool {
    match cmd {
        AppCommand::ToggleOverlayMode(t) => toggled(old_mode, t) == OverlayMode::Passive && old_mode
            == OverlayMode::Search,
        _ => false,
    }
}

/// Applies one command to the overlay state and the settings, as the
/// overlay's event loop does, and says what is left to do.
pub fn apply_command(dl: &mut DrawListState, cfg: &mut AppConfig, cmd: AppCommand) -> (e: CommandEffect)
    ensures
        final(dl).mode == match cmd {
            AppCommand::ToggleOverlayMode(t) => toggled(old(dl).mode, t),
            AppCommand::SetOverlayMode(m) => m,
            _ => old(dl).mode,
        },
        final(dl).item_cards@ == if cmd is RequestRedetect { Seq::empty() } else { old(dl).item_cards@ },
        final(dl).debug_rects@ == if cmd is RequestRedetect { Seq::empty() } else { old(dl).debug_rects@ },
        final(dl).redetect_requested == (cmd is RequestRedetect || old(dl).redetect_requested),
        final(dl).marked_slots@ == match cmd {
            AppCommand::ClearMarkedSlots => Seq::empty(),
            AppCommand::AddMarkedSlot(r) => old(dl).marked_slots@.push(r),
            AppCommand::RemoveLastMarkedSlot => if old(dl).marked_slots@.len() > 0 {
                old(dl).marked_slots@.drop_last()
            } else {
                old(dl).marked_slots@
            },
            _ => old(dl).marked_slots@,
        },
        final(dl).current_drag == match cmd {
            AppCommand::UpdateCurrentDrag(d) => d,
            _ => old(dl).current_drag,
        },
        final(dl).search_query@ == match cmd {
            AppCommand::UpdateSearchQuery(q) => q@,
            _ => if clears_search(old(dl).mode, cmd) { Seq::empty() } else { old(dl).search_query@ },
        },
        final(dl).search_results@ == if clears_search(old(dl).mode, cmd) {
            Seq::empty()
        } else {
            old(dl).search_results@
        },
        final(dl).is_ng_plus == old(dl).is_ng_plus,
        final(cfg).debug_mode == (old(cfg).debug_mode != (cmd is ToggleDebugMode)),
        final(cfg).ng_plus_mode == (old(cfg).ng_plus_mode != (cmd is ToggleNgPlusMode)),
        final(cfg).marked_slots@ == match cmd {
            AppCommand::SaveMarkedSlots => slots_as_config(old(dl).marked_slots@),
            AppCommand::ClearMarkedSlots => Seq::empty(),
            _ => old(cfg).marked_slots@,
        },
        same_other_settings(*final(cfg), *old(cfg)),
        e == match cmd {
            AppCommand::ToggleDebugMode => CommandEffect::SetDebugAndSave(final(cfg).debug_mode),
            AppCommand::ToggleNgPlusMode => CommandEffect::SaveConfig,
            AppCommand::SaveMarkedSlots => CommandEffect::SaveConfig,
            AppCommand::ClearMarkedSlots => CommandEffect::SaveConfig,
            AppCommand::DumpTemplates => CommandEffect::DumpTemplates,
            AppCommand::Exit => CommandEffect::Exit,
            _ => CommandEffect::Done,
        },
{
    match cmd {
        AppCommand::ToggleOverlayMode(target_mode) => {
            let new_mode = dl.mode.toggle(target_mode);
            if new_mode == OverlayMode::Passive && dl.mode == OverlayMode::Search {
                dl.search_query = String::new();
                dl.search_results.clear();
            }
            dl.mode = new_mode;
            CommandEffect::Done
        },
        AppCommand::ToggleDebugMode => {
            cfg.debug_mode = !cfg.debug_mode;
            CommandEffect::SetDebugAndSave(cfg.debug_mode)
        },
        AppCommand::ToggleNgPlusMode => {
            cfg.ng_plus_mode = !cfg.ng_plus_mode;
            CommandEffect::SaveConfig
        },
        AppCommand::RequestRedetect => {
            dl.item_cards.clear();
            dl.debug_rects.clear();
            dl.redetect_requested = true;
            CommandEffect::Done
        },
        AppCommand::DumpTemplates => CommandEffect::DumpTemplates,
        AppCommand::SetOverlayMode(m) => {
            dl.mode = m;
            CommandEffect::Done
        },
        AppCommand::SaveMarkedSlots => {
            let mut slots: Vec<CustomSlotConfig> = Vec::new();
            let n = dl.marked_slots.len();
            let mut i: usize = 0;
            while i < n
                invariant
                    n == dl.marked_slots@.len(),
                    i <= n,
                    slots@ == slots_as_config(dl.marked_slots@.take(i as int)),
                decreases n - i,
            {
                let r = dl.marked_slots[i];
                slots.push(CustomSlotConfig { x: r.x, y: r.y, width: r.width, height: r.height });
                proof {
                    assert(slots_as_config(dl.marked_slots@.take(i + 1)) =~= slots_as_config(
                        dl.marked_slots@.take(i as int),
                    ).push(CustomSlotConfig { x: r.x, y: r.y, width: r.width, height: r.height }));
                }
                i += 1;
            }
            proof {
                assert(dl.marked_slots@.take(n as int) =~= dl.marked_slots@);
            }
            cfg.marked_slots = slots;
            CommandEffect::SaveConfig
        },
        AppCommand::ClearMarkedSlots => {
            dl.marked_slots.clear();
            cfg.marked_slots.clear();
            CommandEffect::SaveConfig
        },
        AppCommand::AddMarkedSlot(rect) => {
            dl.marked_slots.push(rect);
            CommandEffect::Done
        },
        AppCommand::RemoveLastMarkedSlot => {
            dl.marked_slots.pop();
            CommandEffect::Done
        },
        AppCommand::UpdateCurrentDrag(drag) => {
            dl.current_drag = drag;
            CommandEffect::Done
        },
        AppCommand::UpdateSearchQuery(q) => {
            dl.search_query = q;
            CommandEffect::Done
        },
        AppCommand::Exit => CommandEffect::Exit,
    }
}

} // verus!
