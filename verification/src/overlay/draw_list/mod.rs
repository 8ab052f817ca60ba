//! What the overlay draws, shared between the detection loop, the input
//! handlers and the renderer.

pub mod color;

use crate::matchers::Rect;
use crate::shop::assets::PriceMap;
use vstd::prelude::*;

verus! {

/// A color as `0xAARRGGBB`.
pub type Argb = u32;

/// What the overlay is currently doing.
#[derive(Debug, Clone, Copy, PartialEq, Eq, Structural)]
pub enum OverlayMode {
    Passive,
    Marking,
    Search,
    Paused,
}

impl Default for OverlayMode {
    fn default() -> (m: Self)
        ensures
            m == OverlayMode::Passive,
    {
        OverlayMode::Passive
    }
}

/// The mode after asking for `target` in mode `m`: asking for the current
/// mode returns to passive, asking for another switches to it.
pub open spec fn toggled(m: OverlayMode, target: OverlayMode) -> OverlayMode {
    if m == target { OverlayMode::Passive } else { target }
}

impl OverlayMode {
    pub fn toggle(self, target: OverlayMode) -> (m: OverlayMode)
        ensures
            m == toggled(self, target),
    {
        if self == target {
            OverlayMode::Passive
        } else {
            target
        }
    }
}

/// Toggling the same mode twice from passive (or from that mode) comes back
/// where it started; toggling passive always lands in passive.
pub proof fn lemma_toggle_twice(m: OverlayMode, target: OverlayMode)
    ensures
        target != OverlayMode::Passive && (m == OverlayMode::Passive || m == target) ==> toggled(
            toggled(m, target),
            target,
        ) == m,
        toggled(m, OverlayMode::Passive) == OverlayMode::Passive,
        toggled(m, target) == target || toggled(m, target) == OverlayMode::Passive,
{
}

/// A rectangle outline drawn in debug mode, with an optional caption.
#[derive(Debug, Clone)]
pub struct DebugRect {
    pub rect: Rect,
    pub color: Argb,
    pub label: String,
    pub thickness: u32,
}


/// A price tag shown above a recognised item.
#[derive(Debug, Clone)]
pub struct ItemCard {
    pub x: u32,
    pub y: u32,
    pub width: u32,
    pub height: u32,
    pub name: String,
    pub popularity: String,
    pub price: Option<u32>,
    /// The match score in `[0, 1]`, as the bit pattern of an `f32`.
    pub match_score_bits: u32,
    pub is_ng_plus: bool,
}

/// One line of the manual price search.
#[derive(Debug, Clone)]
pub struct SearchResult {
    pub name: String,
    pub prices: PriceMap,
    pub ng_plus_prices: Option<PriceMap>,
}

/// Everything the overlay shows, and the state of its modes.
#[derive(Debug, Clone)]
pub struct DrawListState {
    pub mode: OverlayMode,
    pub item_cards: Vec<ItemCard>,
    pub debug_rects: Vec<DebugRect>,
    pub marked_slots: Vec<Rect>,
    pub current_drag: Option<(u32, u32, u32, u32)>,
    pub redetect_requested: bool,
    pub search_query: String,
    pub search_results: Vec<SearchResult>,
    pub is_ng_plus: bool,
}

impl Default for DrawListState {
    fn default() -> (s: Self)
        ensures
            s.mode == OverlayMode::Passive,
            s.item_cards@.len() == 0,
            s.debug_rects@.len() == 0,
            s.marked_slots@.len() == 0,
            s.current_drag is None,
            !s.redetect_requested,
            s.search_query@.len() == 0,
            s.search_results@.len() == 0,
            !s.is_ng_plus,
    {
        DrawListState {
            mode: OverlayMode::Passive,
            item_cards: Vec::new(),
            debug_rects: Vec::new(),
            marked_slots: Vec::new(),
            current_drag: None,
            redetect_requested: false,
            search_query: String::new(),
            search_results: Vec::new(),
            is_ng_plus: false,
        }
    }
}

} // verus!
