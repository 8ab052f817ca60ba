use moonlighter_overlay::config::AppConfig;
use moonlighter_overlay::event_bus::AppCommand;
use moonlighter_overlay::matchers::Rect;
use moonlighter_overlay::overlay::commands::{apply_command, CommandEffect};
use moonlighter_overlay::overlay::draw_list::color;
use moonlighter_overlay::overlay::draw_list::{DebugRect, DrawListState, ItemCard, OverlayMode, SearchResult};
use moonlighter_overlay::overlay::marking::{marking_key, right_button_pressed, DragState, MarkingKey, MarkingOverlay};
use moonlighter_overlay::overlay::renderer::{
    card_labels, format_item_name, is_inside_rounded, is_on_rounded_edge, price_string, BadgeTone, DrawOp,
    Renderer, Shape, TextOp,
};
use moonlighter_overlay::overlay::search::{row_price_labels, SearchOverlay};
use moonlighter_overlay::overlay::{click_through, redraw_delay_ms, render_frame};
use moonlighter_overlay::shop::assets::PriceMap;

fn view(t: &TextOp) -> (usize, usize, &str, u32, u32) {
    (t.x, t.y, t.text.as_str(), t.color, t.size)
}

/// Performs the steps in order and gives every text they write, in order.
fn perform(r: &mut Renderer, ops: &[DrawOp]) -> Vec<TextOp> {
    let mut texts = Vec::new();
    for op in ops {
        assert!(op.fits());
        texts.extend(r.draw_op(op));
    }
    texts
}

/// Draws a screen of steps on a fresh canvas.
fn screen(buf: &mut [u32], w: usize, h: usize, plan: impl Fn(&Renderer) -> Vec<DrawOp>) -> Vec<TextOp> {
    let mut r = Renderer::new(buf, w, h);
    let ops = plan(&r);
    perform(&mut r, &ops)
}

/// Starts a frame and performs its steps.
fn frame(buf: &mut [u32], w: usize, h: usize, state: &DrawListState, is_debug: bool, is_fg: bool) -> Option<Vec<TextOp>> {
    let mut r = Renderer::new(buf, w, h);
    let ops = render_frame(&mut r, state, is_debug, is_fg)?;
    Some(perform(&mut r, &ops))
}

fn prices(pairs: &[(&str, u32)]) -> PriceMap {
    let mut m = PriceMap::new();
    for (k, p) in pairs {
        m.insert(k.to_string(), *p);
    }
    m
}

fn card(name: &str, popularity: &str, price: Option<u32>, ng: bool) -> ItemCard {
    ItemCard {
        x: 100,
        y: 100,
        width: 50,
        height: 50,
        name: name.to_string(),
        popularity: popularity.to_string(),
        price,
        match_score_bits: 0.9f32.to_bits(),
        is_ng_plus: ng,
    }
}

#[test]
fn blending_follows_the_source_alpha() {
    let mut buf = vec![0xFF00_0000u32, 0, 0x1234_5678];
    let mut r = Renderer::new(&mut buf, 3, 1);
    r.set_pixel(0, 0, 0x80FF_FFFF);
    r.set_pixel(1, 0, 0x80FF_0000);
    r.set_pixel(2, 0, 0x00FF_FFFF);
    r.set_pixel(3, 0, 0xFFFF_FFFF);
    r.set_pixel(0, 1, 0xFFFF_FFFF);
    assert_eq!(buf, vec![0xFF80_8080, 0x8080_0000, 0x1234_5678]);
}

#[test]
fn opaque_colors_replace_and_transparent_ones_keep() {
    let mut buf = vec![0x1122_3344u32; 2];
    let mut r = Renderer::new(&mut buf, 2, 1);
    r.set_pixel(0, 0, 0xFFAB_CDEF);
    r.set_pixel(1, 0, 0x00AB_CDEF);
    assert_eq!(buf, vec![0xFFAB_CDEF, 0x1122_3344]);
}

#[test]
fn fill_region_is_clipped_to_the_canvas() {
    let mut buf = vec![0u32; 9];
    let mut r = Renderer::new(&mut buf, 3, 3);
    r.fill_region(1, 1, 5, 5, Shape::Solid, 0, 0xFF00_00FF);
    assert_eq!(buf, vec![0, 0, 0, 0, 0xFF00_00FF, 0xFF00_00FF, 0, 0xFF00_00FF, 0xFF00_00FF]);
}

#[test]
fn rounded_corners() {
    assert!(!is_inside_rounded(0, 0, 10, 10, 3));
    assert!(is_inside_rounded(1, 1, 10, 10, 3));
    assert!(is_inside_rounded(5, 5, 10, 10, 3));
    assert!(is_inside_rounded(0, 0, 10, 10, 0));
    assert!(!is_inside_rounded(9, 9, 10, 10, 3));
    assert!(is_on_rounded_edge(5, 0, 10, 10, 3));
    assert!(!is_on_rounded_edge(5, 5, 10, 10, 3));
}

#[test]
fn debug_outline_and_caption() {
    let mut buf = vec![0u32; 36];
    let mut r = Renderer::new(&mut buf, 6, 6);
    let d = DebugRect { rect: Rect::new(1, 1, 4, 3), color: 0xFFFF_FFFF, label: "L".to_string(), thickness: 1 };
    let label = r.draw_debug_rect(&d).unwrap();
    assert_eq!(view(&label), (4, 4, "L", 0xFFFF_FFFF, 12));
    let w = 0xFFFF_FFFFu32;
    let expected = vec![
        0, 0, 0, 0, 0, 0,
        0, w, w, w, w, 0,
        0, w, 0, 0, w, 0,
        0, w, w, w, w, 0,
        0, 0, 0, 0, 0, 0,
        0, 0, 0, 0, 0, 0,
    ];
    assert_eq!(buf, expected);
    let mut buf2 = vec![0u32; 4];
    let mut r2 = Renderer::new(&mut buf2, 2, 2);
    let unlabelled = DebugRect { rect: Rect::new(0, 0, 2, 2), color: 0xFF00_0000, label: String::new(), thickness: 1 };
    assert!(r2.draw_debug_rect(&unlabelled).is_none());
}

#[test]
fn item_names_are_title_cased() {
    assert_eq!(format_item_name("iron_bar"), "Iron Bar");
    assert_eq!(format_item_name("  golem__core "), "Golem Core");
    assert_eq!(format_item_name(""), "");
    assert_eq!(format_item_name("x"), "X");
}

#[test]
fn price_labels() {
    assert_eq!(price_string(Some(150)), "150g");
    assert_eq!(price_string(Some(0)), "0g");
    assert_eq!(price_string(None), "---");
}

#[test]
fn card_labels_and_tones() {
    let l = card_labels(&card("iron_bar", "high", Some(150), false));
    assert_eq!((l.badge.as_str(), l.title.as_str(), l.price.as_str(), l.price_line.as_str()), ("HIGH", "Iron Bar", "150g", "150g"));
    assert_eq!(l.tone, BadgeTone::High);
    let l = card_labels(&card("iron_bar", "Low", None, true));
    assert_eq!((l.badge.as_str(), l.price_line.as_str()), ("LOW", "[NG+] ---"));
    assert_eq!(l.tone, BadgeTone::Low);
    assert_eq!(card_labels(&card("a", "normal", None, false)).tone, BadgeTone::Other);
}

#[test]
fn item_card_layout() {
    let mut buf = vec![0u32; 300 * 200];
    let mut r = Renderer::new(&mut buf, 300, 200);
    let texts = r.draw_item_card(&card("iron_bar", "high", Some(150), false));
    let views: Vec<_> = texts.iter().map(view).collect();
    assert_eq!(
        views,
        vec![
            (55, 64, "HIGH", color::WHITE, 11),
            (95, 54, "Iron Bar", color::WHITE, 14),
            (95, 72, "150g", 0xFFFF_D700, 12),
        ]
    );
    assert_eq!(buf[0], 0);
    assert_eq!(buf[71 * 300 + 69], color::GREEN);
}

#[test]
fn search_panel_lists_results() {
    let mut buf = vec![0u32; 800 * 600];
    let mut state = DrawListState::default();
    state.mode = OverlayMode::Search;
    state.search_query = "ir".to_string();
    state.search_results.push(SearchResult {
        name: "iron_bar".to_string(),
        prices: prices(&[("low", 10), ("normal", 20), ("high", 30)]),
        ng_plus_prices: None,
    });
    let texts = screen(&mut buf, 800, 600, |r| SearchOverlay::render(r, &state));
    let views: Vec<_> = texts.iter().map(view).collect();
    assert_eq!(
        views,
        vec![
            (170, 130, "ITEM SEARCH", color::TEAL, 14),
            (350, 132, "Type to search | ESC to close", 0xAAAA_AAAA, 11),
            (176, 160, "ir|", color::WHITE, 13),
            (170, 190, "ITEM", 0xCC88_888C, 11),
            (410, 190, "LOW", color::RED, 11),
            (480, 190, "NORMAL", color::ORANGE, 11),
            (560, 190, "HIGH", color::GREEN, 11),
            (170, 219, "Iron Bar", color::WHITE, 12),
            (410, 219, "10g", 0xFFFF_D700, 12),
            (480, 219, "20g", 0xFFFF_D700, 12),
            (560, 219, "30g", 0xFFFF_D700, 12),
        ]
    );
}

#[test]
fn search_panel_states() {
    let mut buf = vec![0u32; 800 * 600];
    let mut state = DrawListState::default();
    state.mode = OverlayMode::Search;
    state.is_ng_plus = true;
    let texts = screen(&mut buf, 800, 600, |r| SearchOverlay::render(r, &state));
    let views: Vec<_> = texts.iter().map(view).collect();
    assert_eq!(views[0], (170, 130, "ITEM SEARCH [NG+]", color::PURPLE, 14));
    assert_eq!(views[3], (186, 160, "Search item name...", 0x7788_8888, 13));
    assert_eq!(views.len(), 4);
    state.search_query = "zzz".to_string();
    let texts = screen(&mut buf, 800, 600, |r| SearchOverlay::render(r, &state));
    assert_eq!(view(texts.last().unwrap()), (170, 200, "No items found.", 0xCCAA_AAAA, 12));
    for i in 0..12 {
        state.search_results.push(SearchResult {
            name: if i == 0 { "extraordinarily_long_item_name_here".to_string() } else { format!("item_{i}") },
            prices: prices(&[]),
            ng_plus_prices: Some(prices(&[("low", 7)])),
        });
    }
    let texts = screen(&mut buf, 800, 600, |r| SearchOverlay::render(r, &state));
    assert_eq!(texts.len(), 3 + 4 + 40 + 1);
    assert_eq!(view(&texts[7]), (170, 219, "Extraordinarily Long Item...", color::WHITE, 12));
    assert_eq!(view(&texts[8]), (410, 219, "7g", 0xFFFF_D700, 12));
    assert_eq!(view(&texts[9]), (480, 219, "---", 0xFFFF_D700, 12));
    assert_eq!(view(texts.last().unwrap()), (170, 496, "...and 2 more", 0xAA88_888C, 11));
}

#[test]
fn row_prices_prefer_new_game_plus() {
    let r = SearchResult {
        name: "x".to_string(),
        prices: prices(&[("low", 1), ("normal", 2)]),
        ng_plus_prices: Some(prices(&[("high", 9)])),
    };
    let (l, n, h) = row_price_labels(&r, false);
    assert_eq!((l.as_str(), n.as_str(), h.as_str()), ("1g", "2g", "---"));
    let (l, n, h) = row_price_labels(&r, true);
    assert_eq!((l.as_str(), n.as_str(), h.as_str()), ("---", "---", "9g"));
}

#[test]
fn marking_screen_texts() {
    let mut buf = vec![0u32; 800 * 600];
    let mut state = DrawListState::default();
    state.mode = OverlayMode::Marking;
    state.marked_slots.push(Rect::new(10, 10, 50, 50));
    state.current_drag = Some((100, 100, 40, 70));
    let texts = screen(&mut buf, 800, 600, |r| MarkingOverlay::render(r, &state));
    let views: Vec<_> = texts.iter().map(view).collect();
    assert_eq!(
        views,
        vec![
            (
                76,
                32,
                "MARKING MODE: 1 slot(s) marked | Drag to Add | Right-Click to Remove | ENTER / F8 Save | C Clear | ESC Cancel",
                color::WHITE,
                13,
            ),
            (15, 15, "Slot 1", color::TEAL, 12),
            (44, 74, "60x30", color::YELLOW, 12),
        ]
    );
}

#[test]
fn frames_clear_and_pick_the_screen() {
    let mut buf = vec![0x1234_5678u32; 100 * 100];
    let mut state = DrawListState::default();
    state.debug_rects.push(DebugRect { rect: Rect::new(0, 0, 5, 5), color: color::RED, label: "SHOP BBOX".to_string(), thickness: 2 });
    let texts = frame(&mut buf, 100, 100, &state, true, false).unwrap();
    assert!(texts.is_empty());
    assert!(buf.iter().all(|&p| p == 0));
    let texts = frame(&mut buf, 100, 100, &state, false, true).unwrap();
    assert!(texts.is_empty());
    let texts = frame(&mut buf, 100, 100, &state, true, true).unwrap();
    assert_eq!(texts.iter().map(view).collect::<Vec<_>>(), vec![(4, 4, "SHOP BBOX", color::RED, 12)]);
    assert_eq!(buf[0], color::RED);
}

#[test]
fn a_name_cut_inside_a_character_is_not_drawn() {
    let mut buf = vec![7u32; 800 * 600];
    let mut state = DrawListState::default();
    state.mode = OverlayMode::Search;
    state.search_results.push(SearchResult {
        name: format!("{}éééé", "a".repeat(24)),
        prices: PriceMap::new(),
        ng_plus_prices: None,
    });
    assert!(frame(&mut buf, 800, 600, &state, false, true).is_none());
    assert!(buf.iter().all(|&p| p == 0));
}

#[test]
fn passive_frames_draw_price_tags() {
    let mut buf = vec![0u32; 300 * 200];
    let mut state = DrawListState::default();
    state.item_cards.push(card("iron_bar", "high", Some(150), true));
    let texts = frame(&mut buf, 300, 200, &state, false, true).unwrap();
    assert_eq!(texts.len(), 3);
    assert_eq!(view(&texts[2]), (95, 72, "[NG+] 150g", 0xFFFF_D700, 12));
}

#[test]
fn toggling_a_mode_twice_returns_to_passive() {
    for t in [OverlayMode::Marking, OverlayMode::Search, OverlayMode::Paused] {
        let m = OverlayMode::Passive.toggle(t);
        assert_eq!(m, t);
        assert_eq!(m.toggle(t), OverlayMode::Passive);
    }
    assert_eq!(OverlayMode::Search.toggle(OverlayMode::Marking), OverlayMode::Marking);
    assert_eq!(OverlayMode::Search.toggle(OverlayMode::Passive), OverlayMode::Passive);
}

#[test]
fn commands_update_state_and_settings() {
    let mut dl = DrawListState::default();
    let mut cfg = AppConfig::default();
    assert_eq!(apply_command(&mut dl, &mut cfg, AppCommand::ToggleDebugMode), CommandEffect::SetDebugAndSave(true));
    assert!(cfg.debug_mode);
    assert_eq!(apply_command(&mut dl, &mut cfg, AppCommand::ToggleNgPlusMode), CommandEffect::SaveConfig);
    assert!(cfg.ng_plus_mode);
    dl.item_cards.push(card("a", "low", None, false));
    assert_eq!(apply_command(&mut dl, &mut cfg, AppCommand::RequestRedetect), CommandEffect::Done);
    assert!(dl.item_cards.is_empty() && dl.redetect_requested);
    assert_eq!(apply_command(&mut dl, &mut cfg, AppCommand::DumpTemplates), CommandEffect::DumpTemplates);
    assert_eq!(apply_command(&mut dl, &mut cfg, AppCommand::AddMarkedSlot(Rect::new(1, 2, 30, 40))), CommandEffect::Done);
    assert_eq!(apply_command(&mut dl, &mut cfg, AppCommand::SaveMarkedSlots), CommandEffect::SaveConfig);
    assert_eq!(cfg.marked_slots.len(), 1);
    assert_eq!(cfg.marked_slots[0].to_rect(), Rect::new(1, 2, 30, 40));
    assert_eq!(apply_command(&mut dl, &mut cfg, AppCommand::ClearMarkedSlots), CommandEffect::SaveConfig);
    assert!(dl.marked_slots.is_empty() && cfg.marked_slots.is_empty());
    assert_eq!(apply_command(&mut dl, &mut cfg, AppCommand::Exit), CommandEffect::Exit);
    assert_eq!(cfg.leader_key, "O");
}

#[test]
fn leaving_the_search_clears_it() {
    let mut dl = DrawListState::default();
    let mut cfg = AppConfig::default();
    apply_command(&mut dl, &mut cfg, AppCommand::ToggleOverlayMode(OverlayMode::Search));
    assert_eq!(dl.mode, OverlayMode::Search);
    apply_command(&mut dl, &mut cfg, AppCommand::UpdateSearchQuery("iron".to_string()));
    assert_eq!(dl.search_query, "iron");
    apply_command(&mut dl, &mut cfg, AppCommand::ToggleOverlayMode(OverlayMode::Search));
    assert_eq!(dl.mode, OverlayMode::Passive);
    assert!(dl.search_query.is_empty());
    apply_command(&mut dl, &mut cfg, AppCommand::SetOverlayMode(OverlayMode::Paused));
    assert_eq!(dl.mode, OverlayMode::Paused);
}

#[test]
fn dragging_marks_slots() {
    let mut dl = DrawListState::default();
    dl.mode = OverlayMode::Marking;
    let mut drag = DragState::new();
    drag.cursor_moved(&mut dl, OverlayMode::Marking, 50, 60);
    drag.left_button(&mut dl, true);
    drag.cursor_moved(&mut dl, OverlayMode::Marking, 10, 100);
    assert_eq!(dl.current_drag, Some((50, 60, 10, 100)));
    drag.left_button(&mut dl, false);
    assert!(dl.current_drag.is_none());
    assert_eq!(dl.marked_slots, vec![Rect::new(10, 60, 40, 40)]);
    drag.left_button(&mut dl, true);
    drag.cursor_moved(&mut dl, OverlayMode::Marking, 15, 65);
    drag.left_button(&mut dl, false);
    assert_eq!(dl.marked_slots.len(), 1);
    right_button_pressed(&mut dl);
    assert!(dl.marked_slots.is_empty());
}

#[test]
fn marking_keys() {
    let mut dl = DrawListState::default();
    let mut cfg = AppConfig::default();
    dl.mode = OverlayMode::Marking;
    dl.marked_slots.push(Rect::new(5, 6, 70, 80));
    assert!(!marking_key(&mut dl, &mut cfg, MarkingKey::Other));
    assert_eq!(dl.mode, OverlayMode::Marking);
    assert!(marking_key(&mut dl, &mut cfg, MarkingKey::Enter));
    assert_eq!(dl.mode, OverlayMode::Passive);
    assert_eq!(cfg.marked_slots[0].to_rect(), Rect::new(5, 6, 70, 80));
    dl.mode = OverlayMode::Marking;
    assert!(!marking_key(&mut dl, &mut cfg, MarkingKey::C));
    assert!(dl.marked_slots.is_empty());
    assert!(!marking_key(&mut dl, &mut cfg, MarkingKey::Escape));
    assert_eq!(dl.mode, OverlayMode::Passive);
}

#[test]
fn redraw_rate_and_click_through() {
    let mut cfg = AppConfig::default();
    assert_eq!(redraw_delay_ms(&cfg), 33);
    cfg.render_delay_ms = 2;
    assert_eq!(redraw_delay_ms(&cfg), 10);
    assert!(click_through(OverlayMode::Passive));
    assert!(!click_through(OverlayMode::Marking));
}

#[test]
fn frame_steps_keep_each_text_next_to_its_shape() {
    let mut buf = vec![0u32; 300 * 200];
    let mut state = DrawListState::default();
    state.item_cards.push(card("iron_bar", "high", Some(150), false));
    state.item_cards.push(card("iron_bar", "low", None, false));
    let ops = render_frame(&mut Renderer::new(&mut buf, 300, 200), &state, true, true).unwrap();
    assert_eq!(ops.len(), 2);
    assert!(matches!(ops[0], DrawOp::Card(_)) && matches!(ops[1], DrawOp::Card(_)));
    let mut r = Renderer::new(&mut buf, 300, 200);
    let first = r.draw_op(&ops[0]);
    assert_eq!(view(&first[2]), (95, 72, "150g", 0xFFFF_D700, 12));
    let second = r.draw_op(&ops[1]);
    assert_eq!(view(&second[2]), (103, 72, "---", 0xFFFF_D700, 12));

    state.mode = OverlayMode::Search;
    let ops = SearchOverlay::render(&Renderer::new(&mut buf, 800, 600), &state);
    assert!(matches!(ops[0], DrawOp::Fill { x: 0, y: 0, width: 800, height: 600, color: 0x5500_0000 }));
    assert!(matches!(ops[1], DrawOp::Panel { x: 150, y: 120, width: 500, height: 70, .. }));
    assert!(matches!(ops[2], DrawOp::Text(_)) && matches!(ops[3], DrawOp::Text(_)));
    assert!(matches!(ops[4], DrawOp::Panel { x: 166, y: 154, width: 468, height: 28, radius: 6, .. }));
    assert!(matches!(ops[5], DrawOp::Text(_)));
}

#[test]
fn formatting_a_name_twice_changes_nothing_more() {
    for name in ["iron_bar", "  hello__world_ ", "a_b_c", "x", "", "_", "Already Nice", "mixed_Case_42_tag"] {
        let once = format_item_name(name);
        assert_eq!(format_item_name(&once), once);
    }
    assert_eq!(format_item_name("  hello__world_ "), "Hello World");
}

#[test]
fn rounded_boxes_are_symmetric_and_lose_their_corners() {
    let (w, h, r) = (20usize, 12usize, 5usize);
    for y in 0..h {
        for x in 0..w {
            let inside = is_inside_rounded(x, y, w, h, r);
            assert_eq!(inside, is_inside_rounded(w - 1 - x, y, w, h, r));
            assert_eq!(inside, is_inside_rounded(x, h - 1 - y, w, h, r));
            assert!(is_inside_rounded(x, y, w, h, 0));
        }
    }
    assert!(!is_inside_rounded(0, 0, 2, 2, 1));
    assert!(!is_inside_rounded(1000, 1000, w, h, r));
    assert!(is_inside_rounded(3, 1, 0, 4, 2));
}

#[test]
fn a_card_leaves_the_rest_of_the_canvas_alone() {
    let mut buf = vec![0x1111_1111u32; 40 * 30];
    let mut r = Renderer::new(&mut buf, 40, 30);
    r.draw_rounded_rect(5, 5, 10, 8, 2, 0xFF00_FF00, Some(0xFFFF_0000));
    for y in 0..30 {
        for x in 0..40 {
            if !(5..18).contains(&x) || !(5..16).contains(&y) {
                assert_eq!(buf[y * 40 + x], 0x1111_1111);
            }
        }
    }
    assert_ne!(buf[9 * 40 + 9], 0x1111_1111);
}

#[test]
fn display_names_have_clean_spacing() {
    for name in ["__iron__bar__", " a\t_b \n c ", "x", "", "___", "golem_core_lvl_2"] {
        let d = format_item_name(name);
        assert!(!d.contains('_'));
        assert_eq!(d.trim(), d);
        assert!(!d.contains("  "));
        assert!(!d.chars().zip(d.chars().skip(1)).any(|(a, b)| a.is_whitespace() && b.is_whitespace()));
    }
    assert_eq!(format_item_name(" a\t_b \n c "), "A B C");
}
