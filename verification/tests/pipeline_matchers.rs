use moonlighter_overlay::config::{AppConfig, CustomSlotConfig};
use moonlighter_overlay::matchers::image::LumaImage;
use moonlighter_overlay::matchers::sad::sad_error;
use moonlighter_overlay::matchers::{
    plan_match, validate, ExecutionMode, MatchTemplateParams, MatcherAlgorithm, PreparedTemplate, Rect,
};
use moonlighter_overlay::overlay::draw_list::{color, DrawListState, ItemCard, OverlayMode};
use moonlighter_overlay::shop::assets::{ItemPriceEntry, ItemPriceTable, PriceMap};
use moonlighter_overlay::shop::pipeline::{
    begin_detection_round, crop, custom_slots_bbox, detected_item, publish_detections, round_step, shop_debug_rects,
    shop_frame, shop_quadrants, translate, DetectionCache, RoundStep,
};
use moonlighter_overlay::shop::types::{CellRegions, Popularity, ShopCoords, SubRect};

fn params(mask: Option<&LumaImage>, step: u32) -> MatchTemplateParams<'_> {
    MatchTemplateParams { algorithm: MatcherAlgorithm::SAD, mode: ExecutionMode::Normal, mask, sample_step: step }
}

fn img(w: u32, h: u32, data: Vec<u8>) -> LumaImage {
    LumaImage::from_raw(w, h, data).unwrap()
}

fn cell(x: u32, y: u32) -> CellRegions {
    let slot = Rect::new(x, y, 300, 110);
    CellRegions {
        slot,
        item: Rect::new(x + 111, y + 30, 75, 75),
        popularity: Rect::new(x + 214, y + 1, 54, 54),
        price: Rect::new(x + 205, y + 75, 90, 22),
    }
}

fn shop() -> ShopCoords {
    ShopCoords { slots: vec![cell(0, 0).slot, cell(300, 0).slot], cells: vec![cell(0, 0), cell(300, 0)], bbox: Rect::new(0, 0, 600, 110) }
}

fn table() -> ItemPriceTable {
    let mut p = PriceMap::new();
    p.insert("high".to_string(), 70);
    ItemPriceTable { items: vec![ItemPriceEntry { name: "iron_bar".to_string(), prices: p, ng_plus_prices: None }] }
}

#[test]
fn rect_edges() {
    let r = Rect::new(10, 20, 30, 40);
    assert_eq!((r.x, r.y, r.width, r.height), (10, 20, 30, 40));
    assert_eq!(r.right(), 40);
    assert_eq!(r.bottom(), 60);
}

#[test]
fn images_and_crops() {
    assert!(LumaImage::from_raw(2, 2, vec![1, 2, 3]).is_none());
    let i = img(3, 3, (1..10).collect());
    assert_eq!(i.dimensions(), (3, 3));
    assert_eq!(i.as_raw(), &[1, 2, 3, 4, 5, 6, 7, 8, 9]);
    let c = i.crop_imm(1, 1, 5, 5);
    assert_eq!((c.width, c.height, c.data), (2, 2, vec![5, 6, 8, 9]));
    let c = crop(&i, Rect::new(0, 2, 2, 1));
    assert_eq!((c.width, c.height, c.data), (2, 1, vec![7, 8]));
    let blank = LumaImage::new(2, 3);
    assert_eq!(blank.data, vec![0; 6]);
}

#[test]
fn templates_are_sampled() {
    let t = img(3, 3, (0..9).collect());
    let p = PreparedTemplate::new(&t, None, 2);
    assert_eq!((p.sampled_cols, p.sampled_rows), (2, 2));
    assert_eq!(p.data, vec![0, 2, 6, 8]);
    assert_eq!(p.max_error(), 4 * 255);
    let m = img(3, 3, vec![255, 0, 0, 0, 0, 0, 255, 0, 0]);
    let pm = PreparedTemplate::new(&t, Some(&m), 2);
    assert_eq!(pm.mask, Some(vec![255, 0, 255, 0]));
    assert_eq!(pm.max_error(), 2 * 255);
}

#[test]
fn searches_are_validated() {
    let image = img(4, 4, vec![0; 16]);
    let t = img(2, 2, vec![0; 4]);
    assert_eq!(validate(&image, &t, &params(None, 0)), Some((3, 3, 1)));
    assert_eq!(validate(&image, &t, &params(None, 3)), Some((3, 3, 3)));
    assert_eq!(validate(&t, &image, &params(None, 1)), None);
    let wrong_mask = img(1, 2, vec![1, 1]);
    assert_eq!(validate(&image, &t, &params(Some(&wrong_mask), 1)), None);
    let empty = img(0, 0, vec![]);
    assert_eq!(validate(&image, &empty, &params(None, 1)), None);
}

#[test]
fn plans_scan_rows_with_cutoff() {
    let image = img(3, 1, vec![10, 20, 30]);
    let t = img(2, 1, vec![10, 20]);
    let plan = plan_match(&image, &t, &params(None, 1)).unwrap();
    assert_eq!((plan.search_cols, plan.search_rows, plan.step, plan.max_error), (2, 1, 1, 510));
    assert_eq!(plan.sad_row_errors(&image, 0), Some(vec![0, 20]));
    assert_eq!(plan.sad_row_errors(&image, 1), None);
    assert_eq!(plan.sad_row_errors(&img(2, 1, vec![0, 0]), 0), None);
    assert!(plan_match(&t, &image, &params(None, 1)).is_none());
}

#[test]
fn sum_of_absolute_differences() {
    let image = [10u8, 20, 30, 40, 50, 60];
    let t = PreparedTemplate::new(&img(2, 2, vec![10, 20, 40, 40]), None, 1);
    assert_eq!(sad_error(&image, 3, &t, 0, 0, 1, u64::MAX), 10);
    assert_eq!(sad_error(&image, 3, &t, 1, 0, 1, u64::MAX), 10 + 10 + 10 + 20);
    // Cut off after the first row, whose total already reaches the best.
    assert_eq!(sad_error(&image, 3, &t, 1, 0, 1, 5), 20);
}

#[test]
fn shop_frames_and_quadrants() {
    let tr = Rect::new(200, 50, 20, 20);
    let bl = Rect::new(100, 300, 20, 20);
    assert_eq!(shop_frame(tr, bl), Some(Rect::new(100, 50, 120, 270)));
    assert_eq!(shop_frame(bl, tr), None);
    let q = shop_quadrants(Rect::new(100, 50, 120, 270), 101);
    assert_eq!(
        q,
        vec![
            Rect::new(100, 50, 60, 135),
            Rect::new(160, 50, 60, 135),
            Rect::new(100, 151, 60, 169),
            Rect::new(160, 151, 60, 169),
        ]
    );
    let q = shop_quadrants(Rect::new(0, 0, 10, 4), 100);
    assert_eq!(q[2], Rect::new(0, 3, 5, 1));
    assert_eq!(translate(Rect::new(1, 2, 3, 4), Rect::new(10, 20, 0, 0)), Rect::new(11, 22, 3, 4));
    assert_eq!(SubRect { x: 111, y: 30, w: 75, h: 75 }.to_rect(Rect::new(5, 6, 1, 1)), Rect::new(116, 36, 75, 75));
}

#[test]
fn custom_slot_box() {
    let b = custom_slots_bbox(&vec![Rect::new(10, 20, 30, 40), Rect::new(5, 50, 10, 10)]);
    assert_eq!(b, Rect::new(5, 20, 35, 40));
    assert_eq!(custom_slots_bbox(&vec![Rect::new(7, 8, 9, 10)]), Rect::new(7, 8, 9, 10));
}

fn dl_card() -> ItemCard {
    ItemCard {
        x: 0,
        y: 0,
        width: 1,
        height: 1,
        name: "a".to_string(),
        popularity: "low".to_string(),
        price: None,
        match_score_bits: 0,
        is_ng_plus: false,
    }
}

#[test]
fn detection_rounds() {
    let cfg = AppConfig::default();
    let mut dl = DrawListState::default();
    dl.redetect_requested = true;
    dl.item_cards.push(ItemCard {
        x: 0,
        y: 0,
        width: 1,
        height: 1,
        name: "a".to_string(),
        popularity: "low".to_string(),
        price: None,
        match_score_bits: 0,
        is_ng_plus: false,
    });
    let mut cache: DetectionCache<u8> = DetectionCache::new();
    cache.window = Some(1);
    cache.shop = Some(shop());
    let t = begin_detection_round(&mut dl, &cfg, &mut cache);
    assert!(t.redetect && !t.paused);
    assert!(cache.window.is_none() && cache.shop.is_none());
    assert_eq!(round_step(&t, &cache, &cfg), RoundStep::FindWindow);
    assert_eq!(t.delay_ms, 500);
    assert!(!dl.redetect_requested && dl.item_cards.is_empty());
    dl.mode = OverlayMode::Search;
    let mut fast = AppConfig::default();
    fast.detection_delay_ms = 10;
    cache.window = Some(2);
    let t = begin_detection_round(&mut dl, &fast, &mut cache);
    assert!(t.paused && !t.redetect);
    assert_eq!(t.delay_ms, 50);
    assert_eq!(cache.window, Some(2));
    assert_eq!(round_step(&t, &cache, &fast), RoundStep::Wait);
    dl.mode = OverlayMode::Paused;
    dl.item_cards.push(dl_card());
    let t = begin_detection_round(&mut dl, &fast, &mut cache);
    assert!(t.paused && dl.item_cards.is_empty());
    assert_eq!(round_step(&t, &cache, &fast), RoundStep::Wait);
    dl.mode = OverlayMode::Passive;
    let t = begin_detection_round(&mut dl, &fast, &mut cache);
    assert_eq!(round_step(&t, &cache, &fast), RoundStep::LocateShop);
    cache.shop = Some(shop());
    assert_eq!(round_step(&t, &cache, &fast), RoundStep::UseCachedShop);
    fast.marked_slots.push(CustomSlotConfig { x: 1, y: 2, width: 30, height: 40 });
    assert_eq!(round_step(&t, &cache, &fast), RoundStep::UseMarkedSlots);
}

#[test]
fn debug_outlines_of_a_shop() {
    let d = shop_debug_rects(&shop());
    assert_eq!(d.len(), 5);
    assert_eq!((d[0].rect, d[0].color, d[0].label.as_str(), d[0].thickness), (Rect::new(0, 0, 600, 110), color::ORANGE, "SHOP BBOX", 2));
    assert_eq!((d[3].rect, d[3].color, d[3].label.as_str(), d[3].thickness), (cell(300, 0).slot, color::WHITE, "Slot 1", 1));
    assert_eq!((d[4].rect, d[4].color, d[4].label.as_str()), (cell(300, 0).item, color::BLUE, ""));
}

#[test]
fn detections_become_price_tags() {
    let s = shop();
    let item = detected_item(1, &s.cells[1], "Iron Bar", Rect::new(2, 3, 70, 70), 0.75f32.to_bits(), Popularity::High, &table(), false);
    assert_eq!(item.item_rect, Rect::new(300 + 111 + 2, 33, 70, 70));
    assert_eq!(item.detected_price, Some(70));
    assert_eq!(item.prices.get("high"), Some(70));
    assert_eq!(item.popularity_rect, s.cells[1].popularity);
    let unknown = detected_item(0, &s.cells[0], "copper", Rect::new(0, 0, 1, 1), 0, Popularity::Low, &table(), false);
    assert_eq!(unknown.detected_price, None);
    assert!(unknown.prices.entries.is_empty());
    let mut dl = DrawListState::default();
    publish_detections(&mut dl, Some(&s), &vec![item], true, true);
    assert_eq!(dl.item_cards.len(), 1);
    let c = &dl.item_cards[0];
    assert_eq!((c.x, c.y, c.width, c.height), (411, 30, 75, 75));
    assert_eq!((c.name.as_str(), c.popularity.as_str(), c.price, c.is_ng_plus), ("Iron Bar", "high", Some(70), true));
    assert_eq!(f32::from_bits(c.match_score_bits), 0.75);
    assert_eq!(dl.debug_rects.len(), 5);
    publish_detections(&mut dl, None, &vec![], true, false);
    assert!(dl.item_cards.is_empty() && dl.debug_rects.is_empty());
}
