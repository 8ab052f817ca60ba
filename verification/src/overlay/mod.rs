//! The transparent overlay window: what it draws each frame and how it
//! reacts to input and commands.

pub mod commands;
pub mod draw_list;
pub mod marking;
pub mod renderer;
pub mod search;

use crate::arith::wide_usize;
use crate::config::AppConfig;
use draw_list::{DebugRect, DrawListState, ItemCard, OverlayMode};
use marking::{marking_steps, MarkingOverlay};
use renderer::{
    card_fits, card_fits_check, format_item_name, push_step, step_views, steps_fit, DrawOp, Renderer, StepView,
};
use search::{cuts_cleanly, names_cut_cleanly, search_steps, shown_count, SearchOverlay};
use vstd::prelude::*;
use vstd::string::StringSliceAdditionalSpecFns;
use vstd::utf8::{encode_utf8, is_char_boundary};

verus! {

/// Wakes the overlay's event loop to process commands and redraw.
pub struct RedrawTick;

/// How often the overlay is woken to redraw: the configured delay, at least
/// 10 ms.
pub fn redraw_delay_ms(cfg: &AppConfig) -> (d: u64)
    ensures
        d == if cfg.render_delay_ms >= 10 { cfg.render_delay_ms } else { 10 },
{
    if cfg.render_delay_ms >= 10 { cfg.render_delay_ms } else { 10 }
}

/// The overlay lets clicks through to the game, except while slots are
/// being marked.
pub fn click_through(mode: OverlayMode) -> (b: bool)
    ensures
        b == (mode != OverlayMode::Marking),
{
    mode != OverlayMode::Marking
}

/// Every debug rectangle outlined, with its caption.
pub open spec fn outline_steps(rects: Seq<DebugRect>) -> Seq<StepView> {
    rects.map_values(|r: DebugRect| StepView::Outline(r.rect, r.thickness as int, r.color, r.label@))
}

/// Every price tag.
pub open spec fn card_steps(cards: Seq<ItemCard>) -> Seq<StepView> {
    cards.map_values(|c: ItemCard| StepView::Card(c))
}

/// The usual screen: in debug mode the debug outlines, then the price tags.
pub open spec fn passive_steps(state: DrawListState, is_debug: bool) -> Seq<StepView> {
    (if is_debug { outline_steps(state.debug_rects@) } else { Seq::empty() }) + card_steps(state.item_cards@)
}

/// A fully transparent buffer of `n` pixels.
pub open spec fn blank(n: int) -> Seq<u32> {
    Seq::new(n as nat, |i: int| 0u32)
}

/// What the current mode draws can be drawn: every listed search result's
/// name can be shortened, and every price tag's layout fits.
pub open spec fn frame_drawable(state: DrawListState) -> bool {
    if state.mode == OverlayMode::Search {
        names_cut_cleanly(state)
    } else if state.mode == OverlayMode::Marking {
        true
    } else {
        forall|i: int| 0 <= i < state.item_cards@.len() ==> card_fits(#[trigger] state.item_cards@[i])
    }
}

/// The steps of a frame: while the game is in front, those of the screen
/// of the current mode; none otherwise.
pub open spec fn frame_steps(w: int, h: int, state: DrawListState, is_debug: bool, is_fg: bool) -> Seq<StepView> {
    if !is_fg {
        Seq::empty()
    } else if state.mode == OverlayMode::Search {
        search_steps(w, h, state)
    } else if state.mode == OverlayMode::Marking {
        marking_steps(w, h, state)
    } else {
        passive_steps(state, is_debug)
    }
}

/// A copy of a debug rectangle.
fn copy_debug_rect(d: &DebugRect) -> (c: DebugRect)
    ensures
        c == *d,
{
    DebugRect { rect: d.rect, color: d.color, label: d.label.clone(), thickness: d.thickness }
}

/// A copy of a price tag.
fn copy_card(card: &ItemCard) -> (c: ItemCard)
    ensures
        c == *card,
{
    ItemCard {
        x: card.x,
        y: card.y,
        width: card.width,
        height: card.height,
        name: card.name.clone(),
        popularity: card.popularity.clone(),
        price: card.price,
        match_score_bits: card.match_score_bits,
        is_ng_plus: card.is_ng_plus,
    }
}

/// Whether every listed search result's name can be shortened.
fn names_cut_check(state: &DrawListState) -> (b: bool)
    ensures
        b == names_cut_cleanly(*state),
{
    let n = state.search_results.len();
    let count: usize = if n <= 10 { n } else { 10 };
    let mut i: usize = 0;
    while i < count
        invariant
            n == state.search_results@.len(),
            count == shown_count(n as int),
            i <= count,
            forall|k: int|
                0 <= k < i ==> cuts_cleanly(
                    renderer::display_name((#[trigger] state.search_results@[k]).name@),
                ),
        decreases count - i,
    {
        let d = format_item_name(state.search_results[i].name.as_str());
        let ds = d.as_str();
        if ds.as_bytes().len() > 28 && !ds.is_char_boundary(25) {
            proof {
                assert(!cuts_cleanly(renderer::display_name(state.search_results@[i as int].name@)));
            }
            return false;
        }
        i += 1;
    }
    true
}

/// Starts a frame: clears the canvas and gives the steps that draw it, to
/// be performed in order with `Renderer::draw_op`, each step's texts
/// written before the next step. When the game is in front (`is_fg`), the
/// steps are those of the screen of the current mode: the search, the slot
/// marking, or the usual price tags, after the debug outlines in debug
/// mode. Gives `None` when the current screen cannot be drawn: a listed
/// search result whose name cannot be shortened at its 25th byte, or a
/// price tag too wide for the address range.
pub fn render_frame(renderer: &mut Renderer, state: &DrawListState, is_debug: bool, is_fg: bool) -> (r: Option<
    Vec<DrawOp>,
>)
    requires
        wide_usize(),
        old(renderer).width <= u32::MAX,
        old(renderer).height <= u32::MAX,
    ensures
        final(renderer).width == old(renderer).width,
        final(renderer).height == old(renderer).height,
        final(renderer).buf@ == blank(old(renderer).buf@.len() as int),
        r is None <==> is_fg && !frame_drawable(*state),
        r matches Some(ops) ==> {
            &&& step_views(ops@) == frame_steps(
                old(renderer).width as int,
                old(renderer).height as int,
                *state,
                is_debug,
                is_fg,
            )
            &&& steps_fit(ops@)
        },
{
    let n = renderer.buf.len();
    let mut i: usize = 0;
    while i < n
        invariant
            n == renderer.buf@.len(),
            n == old(renderer).buf@.len(),
            renderer.width == old(renderer).width,
            renderer.height == old(renderer).height,
            i <= n,
            forall|k: int| 0 <= k < i ==> #[trigger] renderer.buf@[k] == 0u32,
        decreases n - i,
    {
        renderer.buf[i] = 0;
        i += 1;
    }
    proof {
        assert(renderer.buf@ =~= blank(n as int));
    }
    let mut ops: Vec<DrawOp> = Vec::new();
    if !is_fg {
        proof {
            assert(step_views(ops@) =~= Seq::<StepView>::empty());
        }
        return Some(ops);
    }
    if state.mode == OverlayMode::Search {
        if !names_cut_check(state) {
            return None;
        }
        return Some(SearchOverlay::render(renderer, state));
    }
    if state.mode == OverlayMode::Marking {
        return Some(MarkingOverlay::render(renderer, state));
    }
    let nc = state.item_cards.len();
    let mut c: usize = 0;
    while c < nc
        invariant
            nc == state.item_cards@.len(),
            c <= nc,
            forall|k: int| 0 <= k < c ==> card_fits(#[trigger] state.item_cards@[k]),
            is_fg,
            state.mode != OverlayMode::Search && state.mode != OverlayMode::Marking,
            renderer.width == old(renderer).width,
            renderer.height == old(renderer).height,
            renderer.buf@ == blank(n as int),
            n == old(renderer).buf@.len(),
        decreases nc - c,
    {
        if !card_fits_check(&state.item_cards[c]) {
            return None;
        }
        c += 1;
    }
    if is_debug {
        let nd = state.debug_rects.len();
        let mut d: usize = 0;
        while d < nd
            invariant
                wide_usize(),
                nd == state.debug_rects@.len(),
                d <= nd,
                steps_fit(ops@),
                step_views(ops@) == outline_steps(state.debug_rects@.take(d as int)),
                renderer.width == old(renderer).width,
                renderer.height == old(renderer).height,
                renderer.buf@ == blank(n as int),
                n == old(renderer).buf@.len(),
            decreases nd - d,
        {
            let copy = copy_debug_rect(&state.debug_rects[d]);
            push_step(&mut ops, DrawOp::Outline(copy));
            proof {
                assert(step_views(ops@) =~= outline_steps(state.debug_rects@.take(d + 1)));
            }
            d += 1;
        }
        proof {
            assert(state.debug_rects@.take(nd as int) =~= state.debug_rects@);
        }
    }
    let ghost outlines = step_views(ops@);
    proof {
        assert(outlines =~= if is_debug { outline_steps(state.debug_rects@) } else { Seq::empty() });
    }
    let mut c: usize = 0;
    while c < nc
        invariant
            nc == state.item_cards@.len(),
            c <= nc,
            forall|k: int| 0 <= k < nc ==> card_fits(#[trigger] state.item_cards@[k]),
            steps_fit(ops@),
            step_views(ops@) == outlines + card_steps(state.item_cards@.take(c as int)),
            renderer.width == old(renderer).width,
            renderer.height == old(renderer).height,
            renderer.buf@ == blank(n as int),
            n == old(renderer).buf@.len(),
        decreases nc - c,
    {
        let copy = copy_card(&state.item_cards[c]);
        push_step(&mut ops, DrawOp::Card(copy));
        proof {
            assert(step_views(ops@) =~= outlines + card_steps(state.item_cards@.take(c + 1)));
        }
        c += 1;
    }
    proof {
        assert(state.item_cards@.take(nc as int) =~= state.item_cards@);
    }
    Some(ops)
}

} // verus!
