//! The manual price search screen.

use super::draw_list::{color, DrawListState, ItemCard, SearchResult};
use super::renderer::{
    badge_color, badge_tone, display_name, format_item_name, BadgeTone, price_string, price_text, push_step, push_text, sat_sub, step_views,
    steps_fit, text_steps, utf8_len, DrawOp, Renderer, StepView,
};
use crate::arith::wide_usize;
use crate::shop::assets::PriceMap;
use crate::text::decimal;
use vstd::prelude::*;
use vstd::string::StringSliceAdditionalSpecFns;
use vstd::utf8::{decode_utf8, encode_utf8, is_char_boundary};

verus! {

broadcast use vstd::utf8::encode_utf8_decode_utf8;

/// Draws the price search: a panel with the query and up to ten results.
pub struct SearchOverlay;

/// Left edge of the search panel, 500 pixels wide, centered.
pub open spec fn panel_left(w: int) -> int {
    sat_sub(w, 500) / 2
}

/// Top edge of the search panel: a fifth of the way down.
pub open spec fn panel_top(h: int) -> int {
    h / 5
}

/// How many results the panel lists: at most ten.
pub open spec fn shown_count(n: int) -> int {
    if n <= 10 { n } else { 10 }
}

/// The panel's height: a 70 pixel header, then the result table, or a line
/// saying that nothing was found, or nothing before anything was typed.
pub open spec fn panel_height(state: DrawListState) -> int {
    let c = shown_count(state.search_results@.len() as int);
    70 + if c > 0 {
        24 + c * 28 + 16
    } else if state.search_query@.len() > 0 {
        44
    } else {
        0
    }
}

/// Purple in New Game+, teal otherwise.
pub open spec fn accent(state: DrawListState) -> u32 {
    if state.is_ng_plus { color::PURPLE } else { color::TEAL }
}

pub open spec fn search_title(state: DrawListState) -> Seq<char> {
    if state.is_ng_plus { "ITEM SEARCH [NG+]"@ } else { "ITEM SEARCH"@ }
}

/// A name as a result row shows it: longer than 28 bytes, it is cut after
/// its 25th byte and followed by `...`.
pub open spec fn shown_name(d: Seq<char>) -> Seq<char> {
    if utf8_len(d) > 28 {
        decode_utf8(encode_utf8(d).take(25)) + "..."@
    } else {
        d
    }
}

/// Cutting a long name after its 25th byte falls between two characters.
pub open spec fn cuts_cleanly(d: Seq<char>) -> bool {
    utf8_len(d) > 28 ==> is_char_boundary(encode_utf8(d), 25)
}

/// Every listed result's display name can be shortened.
pub open spec fn names_cut_cleanly(state: DrawListState) -> bool {
    forall|i: int|
        0 <= i < shown_count(state.search_results@.len() as int) ==> cuts_cleanly(
            display_name((#[trigger] state.search_results@[i]).name@),
        )
}

/// The prices a row shows: the New Game+ ones when in New Game+ and known.
pub open spec fn row_prices(r: SearchResult, ng: bool) -> PriceMap {
    if ng && r.ng_plus_prices is Some { r.ng_plus_prices->0 } else { r.prices }
}

/// The texts of result row `i`, whose top is `ry`: name, then the low,
/// normal and high prices in gold.
pub open spec fn row_view(state: DrawListState, px: int, ry: int, i: int) -> Seq<(int, int, Seq<char>, u32, u32)> {
    let r = state.search_results@[i];
    let p = row_prices(r, state.is_ng_plus);
    seq![
        (px + 20, ry + 5, shown_name(display_name(r.name@)), color::WHITE, 12u32),
        (px + 260, ry + 5, price_text(p.price("low"@)), 0xFF_FF_D7_00u32, 12u32),
        (px + 330, ry + 5, price_text(p.price("normal"@)), 0xFF_FF_D7_00u32, 12u32),
        (px + 410, ry + 5, price_text(p.price("high"@)), 0xFF_FF_D7_00u32, 12u32),
    ]
}

/// Result row `i`, whose top is `ry`: every other row, starting with the
/// first, shaded, then its texts.
pub open spec fn row_steps(state: DrawListState, px: int, ry: int, i: int) -> Seq<StepView> {
    (if i % 2 == 0 {
        seq![StepView::Fill(px + 4, ry, 492, 28, 0x22FF_FFFFu32)]
    } else {
        Seq::empty()
    }) + text_steps(row_view(state, px, ry, i))
}

/// The first `n` result rows.
pub open spec fn rows_steps(state: DrawListState, px: int, y0: int, n: int) -> Seq<StepView>
    decreases n,
{
    if n <= 0 {
        Seq::empty()
    } else {
        rows_steps(state, px, y0, n - 1) + row_steps(state, px, y0 + (n - 1) * 28, n - 1)
    }
}

/// The panel's title and the hint.
pub open spec fn title_views(state: DrawListState, px: int, py: int) -> Seq<(int, int, Seq<char>, u32, u32)> {
    seq![
        (px + 20, py + 10, search_title(state), accent(state), 14u32),
        (px + 200, py + 12, "Type to search | ESC to close"@, 0xAAAA_AAAAu32, 11u32),
    ]
}

/// The query with a cursor, and a placeholder while the query is empty.
pub open spec fn query_views(state: DrawListState, px: int, py: int) -> Seq<(int, int, Seq<char>, u32, u32)> {
    seq![(px + 26, py + 40, state.search_query@ + seq!['|'], color::WHITE, 13u32)] + if state.search_query@.len()
        == 0 {
        seq![(px + 36, py + 40, "Search item name..."@, 0x7788_8888u32, 13u32)]
    } else {
        Seq::empty()
    }
}

/// The column headers of the result table.
pub open spec fn column_views(px: int, ry: int) -> Seq<(int, int, Seq<char>, u32, u32)> {
    seq![
        (px + 20, ry, "ITEM"@, 0xCC88_888Cu32, 11u32),
        (px + 260, ry, "LOW"@, color::RED, 11u32),
        (px + 330, ry, "NORMAL"@, color::ORANGE, 11u32),
        (px + 410, ry, "HIGH"@, color::GREEN, 11u32),
    ]
}

/// A price tag's popularity badge takes the color of the matching column of
/// the search table (low red, normal orange, high green), so the three
/// popularities are told apart by color.
pub proof fn lemma_badge_matches_columns(card: ItemCard, other: ItemCard)
    ensures
        badge_tone(card.popularity@) == BadgeTone::Low ==> badge_color(card) == column_views(0, 0)[1].3,
        badge_tone(card.popularity@) == BadgeTone::Other ==> badge_color(card) == column_views(0, 0)[2].3,
        badge_tone(card.popularity@) == BadgeTone::High ==> badge_color(card) == column_views(0, 0)[3].3,
        badge_tone(card.popularity@) != badge_tone(other.popularity@) ==> badge_color(card) != badge_color(
            other,
        ),
{
}

/// The head of the search screen: the canvas dimmed, the panel, its title
/// and hint, the input field, the query.
pub open spec fn search_head(w: int, h: int, state: DrawListState) -> Seq<StepView> {
    let (px, py) = (panel_left(w), panel_top(h));
    seq![
        StepView::Fill(0, 0, w, h, 0x5500_0000u32),
        StepView::Panel(px, py, 500, panel_height(state), 12, color::DARK_BG, Some(accent(state))),
    ] + text_steps(title_views(state, px, py)) + seq![
        StepView::Panel(px + 16, py + 34, 468, 28, 6, 0xCC2C_2C2Eu32, Some(0xFF58_585Cu32)),
    ] + text_steps(query_views(state, px, py))
}

/// The steps of the search screen, in drawing order: the head, then a line
/// saying that nothing was found, or the column headers, the separator
/// under them, up to ten result rows and how many more there are.
pub open spec fn search_steps(w: int, h: int, state: DrawListState) -> Seq<StepView> {
    let (px, py) = (panel_left(w), panel_top(h));
    let n = state.search_results@.len() as int;
    let head = search_head(w, h, state);
    if n == 0 {
        if state.search_query@.len() > 0 {
            head + text_steps(seq![(px + 20, py + 80, "No items found."@, 0xCCAA_AAAAu32, 12u32)])
        } else {
            head
        }
    } else {
        head + text_steps(column_views(px, py + 70)) + seq![StepView::Fill(px + 16, py + 88, 468, 1, 0x6658_585Cu32)]
            + rows_steps(state, px, py + 94, shown_count(n)) + if n > 10 {
            text_steps(
                seq![(px + 20, py + 376, "...and "@ + decimal((n - 10) as nat) + " more"@, 0xAA88_888Cu32, 11u32)],
            )
        } else {
            Seq::empty()
        }
    }
}

/// Shortens a display name as a result row shows it.
fn shorten_name(name: String) -> (r: String)
    requires
        cuts_cleanly(name@),
    ensures
        r@ == shown_name(name@),
{
    let ns = name.as_str();
    if ns.as_bytes().len() > 28 {
        let (head, _) = ns.split_at(25);
        let mut s = String::from_str(head);
        proof {
            assert(head.spec_bytes() == encode_utf8(head@));
            assert(encode_utf8(head@) =~= encode_utf8(name@).take(25));
            assert(decode_utf8(encode_utf8(head@)) == head@);
        }
        s.append("...");
        s
    } else {
        name
    }
}

/// The low, normal and high prices a result row shows.
pub fn row_price_labels(result: &SearchResult, is_ng_plus: bool) -> (l: (String, String, String))
    ensures
        l.0@ == price_text(row_prices(*result, is_ng_plus).price("low"@)),
        l.1@ == price_text(row_prices(*result, is_ng_plus).price("normal"@)),
        l.2@ == price_text(row_prices(*result, is_ng_plus).price("high"@)),
{
    let prices: &PriceMap = if is_ng_plus {
        match &result.ng_plus_prices {
            Some(m) => m,
            None => &result.prices,
        }
    } else {
        &result.prices
    };
    (price_string(prices.get("low")), price_string(prices.get("normal")), price_string(prices.get("high")))
}

impl SearchOverlay {
    /// The steps that draw the search screen on the renderer's canvas.
    #[verifier::rlimit(60)]
    pub fn render(renderer: &Renderer, state: &DrawListState) -> (ops: Vec<DrawOp>)
        requires
            wide_usize(),
            renderer.width <= u32::MAX,
            renderer.height <= u32::MAX,
            names_cut_cleanly(*state),
        ensures
            step_views(ops@) == search_steps(renderer.width as int, renderer.height as int, *state),
            steps_fit(ops@),
    {
        let ghost (w, h) = (renderer.width as int, renderer.height as int);
        let (rw, rh) = (renderer.width, renderer.height);
        let mut ops: Vec<DrawOp> = Vec::new();
        push_step(&mut ops, DrawOp::Fill { x: 0, y: 0, width: rw, height: rh, color: 0x55_00_00_00 });
        let panel_w: usize = 500;
        let n = state.search_results.len();
        let result_count: usize = if n <= 10 { n } else { 10 };
        let query_empty = state.search_query.as_str().is_empty();
        let results_h: usize = if result_count > 0 {
            24 + result_count * 28 + 16
        } else if !query_empty {
            44
        } else {
            0
        };
        let panel_h = 70 + results_h;
        let px = (if rw >= panel_w { rw - panel_w } else { 0 }) / 2;
        let py = rh / 5;
        let accent_color = if state.is_ng_plus { color::PURPLE } else { color::TEAL };
        push_step(
            &mut ops,
            DrawOp::Panel {
                x: px,
                y: py,
                width: panel_w,
                height: panel_h,
                radius: 12,
                fill: color::DARK_BG,
                border: Some(accent_color),
            },
        );
        let title = if state.is_ng_plus { "ITEM SEARCH [NG+]" } else { "ITEM SEARCH" };
        push_text(&mut ops, px + 20, py + 10, String::from_str(title), accent_color, 14);
        push_text(&mut ops, px + 200, py + 12, String::from_str("Type to search | ESC to close"), 0xAA_AA_AA_AA, 11);
        push_step(
            &mut ops,
            DrawOp::Panel {
                x: px + 16,
                y: py + 34,
                width: panel_w - 32,
                height: 28,
                radius: 6,
                fill: 0xCC_2C_2C_2E,
                border: Some(0xFF_58_58_5C),
            },
        );
        let mut display_text = state.search_query.clone();
        crate::text::string_push(&mut display_text, '|');
        proof {
            assert(display_text@ =~= state.search_query@ + seq!['|']);
        }
        push_text(&mut ops, px + 26, py + 40, display_text, color::WHITE, 13);
        if query_empty {
            push_text(&mut ops, px + 36, py + 40, String::from_str("Search item name..."), 0x77_88_88_88, 13);
        }
        proof {
            assert(step_views(ops@) =~= search_head(w, h, *state));
        }
        if n == 0 {
            if !query_empty {
                let ghost before = step_views(ops@);
                push_text(&mut ops, px + 20, py + 80, String::from_str("No items found."), 0xCC_AA_AA_AA, 12);
                proof {
                    assert(step_views(ops@) =~= before + text_steps(
                        seq![((px + 20) as int, (py + 80) as int, "No items found."@, 0xCCAA_AAAAu32, 12u32)],
                    ));
                }
            }
            return ops;
        }
        let ghost head = step_views(ops@);
        let results_y = py + 70;
        push_text(&mut ops, px + 20, results_y, String::from_str("ITEM"), 0xCC_88_88_8C, 11);
        push_text(&mut ops, px + 260, results_y, String::from_str("LOW"), color::RED, 11);
        push_text(&mut ops, px + 330, results_y, String::from_str("NORMAL"), color::ORANGE, 11);
        push_text(&mut ops, px + 410, results_y, String::from_str("HIGH"), color::GREEN, 11);
        let sep_y = results_y + 18;
        push_step(&mut ops, DrawOp::Fill { x: px + 16, y: sep_y, width: panel_w - 32, height: 1, color: 0x66_58_58_5C });
        let ghost head_cols = step_views(ops@);
        proof {
            assert(head_cols =~= head + text_steps(column_views(px as int, results_y as int)) + seq![
                StepView::Fill((px + 16) as int, sep_y as int, 468, 1, 0x6658_585Cu32),
            ]);
        }
        let y0 = sep_y + 6;
        let mut i: usize = 0;
        while i < result_count
            invariant
                wide_usize(),
                w == rw,
                h == rh,
                w <= u32::MAX,
                h <= u32::MAX,
                names_cut_cleanly(*state),
                n == state.search_results@.len(),
                result_count == shown_count(n as int),
                px <= w,
                panel_w == 500,
                y0 == (h / 5) + 94,
                i <= result_count,
                steps_fit(ops@),
                step_views(ops@) == head_cols + rows_steps(*state, px as int, y0 as int, i as int),
            decreases result_count - i,
        {
            let row_y = y0 + i * 28;
            let ghost before = step_views(ops@);
            if i % 2 == 0 {
                push_step(&mut ops, DrawOp::Fill { x: px + 4, y: row_y, width: panel_w - 8, height: 28, color: 0x22_FF_FF_FF });
            }
            let ghost shaded = step_views(ops@);
            let result = &state.search_results[i];
            proof {
                assert(cuts_cleanly(display_name(state.search_results@[i as int].name@)));
            }
            let name = format_item_name(result.name.as_str());
            let display_name = shorten_name(name);
            let (low, normal, high) = row_price_labels(result, state.is_ng_plus);
            let gold: u32 = 0xFF_FF_D7_00;
            push_text(&mut ops, px + 20, row_y + 5, display_name, color::WHITE, 12);
            push_text(&mut ops, px + 260, row_y + 5, low, gold, 12);
            push_text(&mut ops, px + 330, row_y + 5, normal, gold, 12);
            push_text(&mut ops, px + 410, row_y + 5, high, gold, 12);
            proof {
                assert(step_views(ops@) =~= shaded + text_steps(row_view(*state, px as int, row_y as int, i as int)));
                assert(step_views(ops@) =~= before + row_steps(*state, px as int, row_y as int, i as int));
            }
            i += 1;
        }
        if n > 10 {
            let mut more_text = String::from_str("...and ");
            crate::text::push_decimal(&mut more_text, (n - 10) as u64);
            more_text.append(" more");
            let ghost before = step_views(ops@);
            push_text(&mut ops, px + 20, y0 + 282, more_text, 0xAA_88_88_8C, 11);
            proof {
                assert(step_views(ops@) =~= before + text_steps(
                    seq![((px + 20) as int, (y0 + 282) as int, "...and "@ + decimal((n - 10) as nat) + " more"@, 0xAA88_888Cu32, 11u32)],
                ));
            }
        }
        ops
    }
}

} // verus!
