//! The decisions of the detection loop: which frames to skip, where the shop
//! and its slots are, and what to draw in debug mode.

use super::assets::{
    entry_matches, first_entry, lemma_first_entry_none, lemma_first_entry_some, normalized,
    entry_price, ItemPriceTable, PriceMap,
};
use super::types::{popularity_key, CellRegions, Popularity, ShopCoords};
use crate::config::AppConfig;
use crate::matchers::image::{is_crop_of, LumaImage};
use crate::matchers::Rect;
use crate::overlay::draw_list::{color, DebugRect, DrawListState, ItemCard, OverlayMode};
use crate::text::decimal;
use vstd::prelude::*;

verus! {

/// The part of `gray` under `r`, clipped to the image.
pub fn crop(gray: &LumaImage, r: Rect) -> (c: LumaImage)
    requires
        gray.wf(),
    ensures
        is_crop_of(c, *gray, r.x as int, r.y as int, r.width as int, r.height as int),
{
    gray.crop_imm(r.x, r.y, r.width, r.height)
}

/// `r` moved by the top-left corner of `by`: a rectangle found inside a
/// crop, in the coordinates of the whole image.
pub fn translate(r: Rect, by: Rect) -> (t: Rect)
    requires
        r.x + by.x <= u32::MAX,
        r.y + by.y <= u32::MAX,
    ensures
        t == (Rect { x: (r.x + by.x) as u32, y: (r.y + by.y) as u32, width: r.width, height: r.height }),
{
    Rect::new(r.x + by.x, r.y + by.y, r.width, r.height)
}

/// Smallest left edge, 0 for no rectangles.
pub open spec fn min_left(rs: Seq<Rect>) -> int
    decreases rs.len(),
{
    if rs.len() == 0 {
        0
    } else if rs.len() == 1 {
        rs[0].x as int
    } else {
        let m = min_left(rs.drop_last());
        if (rs.last().x as int) < m { rs.last().x as int } else { m }
    }
}

/// Smallest top edge, 0 for no rectangles.
pub open spec fn min_top(rs: Seq<Rect>) -> int
    decreases rs.len(),
{
    if rs.len() == 0 {
        0
    } else if rs.len() == 1 {
        rs[0].y as int
    } else {
        let m = min_top(rs.drop_last());
        if (rs.last().y as int) < m { rs.last().y as int } else { m }
    }
}

/// Largest right edge, 100 for no rectangles.
pub open spec fn max_right(rs: Seq<Rect>) -> int
    decreases rs.len(),
{
    if rs.len() == 0 {
        100
    } else if rs.len() == 1 {
        rs[0].x + rs[0].width
    } else {
        let m = max_right(rs.drop_last());
        if rs.last().x + rs.last().width > m { rs.last().x + rs.last().width } else { m }
    }
}

/// Largest bottom edge, 100 for no rectangles.
pub open spec fn max_bottom(rs: Seq<Rect>) -> int
    decreases rs.len(),
{
    if rs.len() == 0 {
        100
    } else if rs.len() == 1 {
        rs[0].y + rs[0].height
    } else {
        let m = max_bottom(rs.drop_last());
        if rs.last().y + rs.last().height > m { rs.last().y + rs.last().height } else { m }
    }
}

/// The edges of hand-marked slots: no slot reaches left of `min_left`,
/// above `min_top`, right of `max_right` or below `max_bottom`, and each of
/// these edges is some slot's own edge.
pub proof fn lemma_slot_edges(rs: Seq<Rect>)
    requires
        rs.len() > 0,
    ensures
        forall|i: int|
            0 <= i < rs.len() ==> {
                &&& min_left(rs) <= (#[trigger] rs[i]).x
                &&& min_top(rs) <= rs[i].y
                &&& rs[i].x + rs[i].width <= max_right(rs)
                &&& rs[i].y + rs[i].height <= max_bottom(rs)
            },
        exists|i: int| 0 <= i < rs.len() && min_left(rs) == (#[trigger] rs[i]).x,
        exists|i: int| 0 <= i < rs.len() && min_top(rs) == (#[trigger] rs[i]).y,
        exists|i: int| 0 <= i < rs.len() && max_right(rs) == (#[trigger] rs[i]).x + rs[i].width,
        exists|i: int| 0 <= i < rs.len() && max_bottom(rs) == (#[trigger] rs[i]).y + rs[i].height,
    decreases rs.len(),
{
    if rs.len() == 1 {
        assert(min_left(rs) == rs[0].x);
        assert(min_top(rs) == rs[0].y);
        assert(max_right(rs) == rs[0].x + rs[0].width);
        assert(max_bottom(rs) == rs[0].y + rs[0].height);
    } else {
        let p = rs.drop_last();
        lemma_slot_edges(p);
        let l = rs.len() - 1;
        assert(rs[l] == rs.last());
        assert forall|i: int| 0 <= i < rs.len() implies {
            &&& min_left(rs) <= (#[trigger] rs[i]).x
            &&& min_top(rs) <= rs[i].y
            &&& rs[i].x + rs[i].width <= max_right(rs)
            &&& rs[i].y + rs[i].height <= max_bottom(rs)
        } by {
            if i < l {
                assert(rs[i] == p[i]);
            }
        }
        let i1 = choose|i: int| 0 <= i < p.len() && min_left(p) == (#[trigger] p[i]).x;
        let i2 = choose|i: int| 0 <= i < p.len() && min_top(p) == (#[trigger] p[i]).y;
        let i3 = choose|i: int| 0 <= i < p.len() && max_right(p) == (#[trigger] p[i]).x + p[i].width;
        let i4 = choose|i: int| 0 <= i < p.len() && max_bottom(p) == (#[trigger] p[i]).y + p[i].height;
        assert(rs[i1] == p[i1] && rs[i2] == p[i2] && rs[i3] == p[i3] && rs[i4] == p[i4]);
        if (rs[l].x as int) < min_left(p) {
            assert(min_left(rs) == rs[l].x);
        } else {
            assert(min_left(rs) == rs[i1].x);
        }
        if (rs[l].y as int) < min_top(p) {
            assert(min_top(rs) == rs[l].y);
        } else {
            assert(min_top(rs) == rs[i2].y);
        }
        if rs[l].x + rs[l].width > max_right(p) {
            assert(max_right(rs) == rs[l].x + rs[l].width);
        } else {
            assert(max_right(rs) == rs[i3].x + rs[i3].width);
        }
        if rs[l].y + rs[l].height > max_bottom(p) {
            assert(max_bottom(rs) == rs[l].y + rs[l].height);
        } else {
            assert(max_bottom(rs) == rs[i4].y + rs[i4].height);
        }
    }
}

/// `a - b`, or 0 when `b > a`.
pub open spec fn sat_sub(a: int, b: int) -> int {
    if a >= b { a - b } else { 0 }
}

/// The box around hand-marked slots: from the smallest left and top edges to
/// the largest right and bottom edges.
pub fn custom_slots_bbox(rects: &Vec<Rect>) -> (b: Rect)
    requires
        forall|i: int|
            0 <= i < rects@.len() ==> (#[trigger] rects@[i]).x + rects@[i].width <= u32::MAX
                && rects@[i].y + rects@[i].height <= u32::MAX,
    ensures
        b.x == min_left(rects@),
        b.y == min_top(rects@),
        b.width == sat_sub(max_right(rects@), min_left(rects@)),
        b.height == sat_sub(max_bottom(rects@), min_top(rects@)),
        forall|i: int|
            0 <= i < rects@.len() ==> {
                &&& b.x <= (#[trigger] rects@[i]).x
                &&& b.y <= rects@[i].y
                &&& rects@[i].x + rects@[i].width <= b.x + b.width
                &&& rects@[i].y + rects@[i].height <= b.y + b.height
            },
{
    let n = rects.len();
    if n == 0 {
        return Rect::new(0, 0, 100, 100);
    }
    let mut min_x = rects[0].x;
    let mut min_y = rects[0].y;
    let mut max_r = rects[0].right();
    let mut max_b = rects[0].bottom();
    let mut i: usize = 1;
    while i < n
        invariant
            n == rects@.len(),
            1 <= i <= n,
            forall|k: int|
                0 <= k < rects@.len() ==> (#[trigger] rects@[k]).x + rects@[k].width <= u32::MAX
                    && rects@[k].y + rects@[k].height <= u32::MAX,
            min_x == min_left(rects@.take(i as int)),
            min_y == min_top(rects@.take(i as int)),
            max_r == max_right(rects@.take(i as int)),
            max_b == max_bottom(rects@.take(i as int)),
        decreases n - i,
    {
        let r = rects[i];
        proof {
            assert(rects@.take(i + 1).drop_last() =~= rects@.take(i as int));
            assert(rects@.take(i + 1).last() == r);
        }
        if r.x < min_x {
            min_x = r.x;
        }
        if r.y < min_y {
            min_y = r.y;
        }
        if r.right() > max_r {
            max_r = r.right();
        }
        if r.bottom() > max_b {
            max_b = r.bottom();
        }
        i += 1;
    }
    proof {
        assert(rects@.take(n as int) =~= rects@);
        lemma_slot_edges(rects@);
        assert(rects@[0] == rects@[0]);
    }
    let w = if max_r >= min_x { max_r - min_x } else { 0 };
    let h = if max_b >= min_y { max_b - min_y } else { 0 };
    Rect::new(min_x, min_y, w, h)
}

/// The shop's frame from its top-right and bottom-left corner anchors: left
/// edge from the bottom-left anchor, top from the top-right one, right edge
/// at the top-right anchor's right, bottom at the bottom-left anchor's
/// bottom; none when that box is empty.
pub fn shop_frame(tr: Rect, bl: Rect) -> (b: Option<Rect>)
    requires
        tr.x + tr.width <= u32::MAX,
        bl.y + bl.height <= u32::MAX,
    ensures
        ({
            let (left, top, right, bottom) = (bl.x as int, tr.y as int, tr.x + tr.width, bl.y + bl.height);
            &&& b is None <==> (right <= left || bottom <= top)
            &&& b matches Some(r) ==> r == (Rect {
                x: bl.x,
                y: tr.y,
                width: (right - left) as u32,
                height: (bottom - top) as u32,
            })
        }),
{
    let left = bl.x;
    let top = tr.y;
    let right = tr.right();
    let bottom = bl.bottom();
    if right <= left || bottom <= top {
        return None;
    }
    Some(Rect::new(left, top, right - left, bottom - top))
}

/// The four parts of the shop frame searched for slots: the two top quarters
/// side by side, and two lower halves that start `start_offset` below the
/// top (but at least one row inside the frame).
pub fn shop_quadrants(bbox: Rect, start_offset: u32) -> (q: Vec<Rect>)
    requires
        bbox.x + bbox.width <= u32::MAX,
        bbox.y + bbox.height <= u32::MAX,
        bbox.y + start_offset <= u32::MAX,
    ensures
        ({
            let hw = bbox.width / 2;
            let top_h = bbox.height / 2;
            let lower_start = if bbox.y + start_offset <= bbox.y + sat_sub(bbox.height as int, 1) {
                bbox.y + start_offset
            } else {
                bbox.y + sat_sub(bbox.height as int, 1)
            };
            let bottom_h = sat_sub(bbox.y + bbox.height, lower_start);
            &&& q@.len() == 4
            &&& q@[0] == Rect { x: bbox.x, y: bbox.y, width: hw as u32, height: top_h as u32 }
            &&& q@[1] == Rect { x: (bbox.x + hw) as u32, y: bbox.y, width: hw as u32, height: top_h as u32 }
            &&& q@[2] == Rect { x: bbox.x, y: lower_start as u32, width: hw as u32, height: bottom_h as u32 }
            &&& q@[3] == Rect {
                x: (bbox.x + hw) as u32,
                y: lower_start as u32,
                width: hw as u32,
                height: bottom_h as u32,
            }
        }),
{
    let hw = bbox.width / 2;
    let top_h = bbox.height / 2;
    let mut q: Vec<Rect> = Vec::new();
    q.push(Rect::new(bbox.x, bbox.y, hw, top_h));
    q.push(Rect::new(bbox.x + hw, bbox.y, hw, top_h));
    let h1 = if bbox.height >= 1 { bbox.height - 1 } else { 0 };
    let lower_start = if bbox.y + start_offset <= bbox.y + h1 { bbox.y + start_offset } else { bbox.y + h1 };
    let end = bbox.y + bbox.height;
    let bottom_h = if end >= lower_start { end - lower_start } else { 0 };
    q.push(Rect::new(bbox.x, lower_start, hw, bottom_h));
    q.push(Rect::new(bbox.x + hw, lower_start, hw, bottom_h));
    q
}

/// What the detection loop does this round.
#[derive(Debug, Clone, Copy, PartialEq, Eq, Structural)]
pub struct DetectionTick {
    /// The overlay is marking, searching or paused: skip detection.
    pub paused: bool,
    /// A new search for the game window and the shop was asked for.
    pub redetect: bool,
    /// How long to wait before the next round, at least 50 ms.
    pub delay_ms: u64,
}

/// What the detection loop keeps from one round to the next: the game
/// window it found and the shop grid it located.
pub struct DetectionCache<W> {
    pub window: Option<W>,
    pub shop: Option<ShopCoords>,
}

impl<W> DetectionCache<W> {
    /// Nothing found yet.
    pub fn new() -> (c: Self)
        ensures
            c.window is None,
            c.shop is None,
    {
        DetectionCache { window: None, shop: None }
    }
}

/// Starts a round of the detection loop: takes a pending redetection request
/// (clearing what was drawn and forgetting the game window and the shop
/// grid), clears the cards while paused, and reads the delay between rounds.
pub fn begin_detection_round<W>(dl: &mut DrawListState, cfg: &AppConfig, cache: &mut DetectionCache<W>) -> (t:
    DetectionTick)
    ensures
        t.delay_ms == if cfg.detection_delay_ms >= 50 { cfg.detection_delay_ms } else { 50 },
        t.redetect == old(dl).redetect_requested,
        t.paused == (old(dl).mode == OverlayMode::Marking || old(dl).mode == OverlayMode::Search
            || old(dl).mode == OverlayMode::Paused),
        !final(dl).redetect_requested,
        final(dl).mode == old(dl).mode,
        (t.redetect || old(dl).mode == OverlayMode::Paused) ==> final(dl).item_cards@.len() == 0
            && final(dl).debug_rects@.len() == 0,
        !(t.redetect || old(dl).mode == OverlayMode::Paused) ==> final(dl).item_cards@
            == old(dl).item_cards@ && final(dl).debug_rects@ == old(dl).debug_rects@,
        final(dl).marked_slots@ == old(dl).marked_slots@,
        final(dl).search_query@ == old(dl).search_query@,
        final(dl).current_drag == old(dl).current_drag,
        t.redetect ==> final(cache).window is None && final(cache).shop is None,
        !t.redetect ==> *final(cache) == *old(cache),
{
    let redetect = dl.redetect_requested;
    if redetect {
        dl.redetect_requested = false;
        dl.item_cards.clear();
        dl.debug_rects.clear();
        cache.window = None;
        cache.shop = None;
    }
    let paused = dl.mode == OverlayMode::Marking || dl.mode == OverlayMode::Search || dl.mode
        == OverlayMode::Paused;
    if dl.mode == OverlayMode::Paused {
        dl.item_cards.clear();
        dl.debug_rects.clear();
    }
    let delay_ms = if cfg.detection_delay_ms >= 50 { cfg.detection_delay_ms } else { 50 };
    DetectionTick { paused, redetect, delay_ms }
}

/// What the rest of a detection round does.
#[derive(Debug, Clone, Copy, PartialEq, Eq, Structural)]
pub enum RoundStep {
    /// Paused: wait for the next round, capturing nothing and drawing
    /// nothing new.
    Wait,
    /// Look for the game window among the open windows.
    FindWindow,
    /// Capture the window and look for items in the slots marked by hand.
    UseMarkedSlots,
    /// Capture the window and look for items on the shop grid located before.
    UseCachedShop,
    /// Capture the window and locate the shop grid first.
    LocateShop,
}

/// What a round does after `begin_detection_round`: nothing while paused;
/// else, without a game window, look for one; with it, the slots marked by
/// hand when there are any, else the shop grid already located, else
/// locate it.
pub fn round_step<W>(tick: &DetectionTick, cache: &DetectionCache<W>, cfg: &AppConfig) -> (s: RoundStep)
    ensures
        s == if tick.paused {
            RoundStep::Wait
        } else if cache.window is None {
            RoundStep::FindWindow
        } else if cfg.marked_slots@.len() > 0 {
            RoundStep::UseMarkedSlots
        } else if cache.shop is Some {
            RoundStep::UseCachedShop
        } else {
            RoundStep::LocateShop
        },
{
    if tick.paused {
        RoundStep::Wait
    } else if cache.window.is_none() {
        RoundStep::FindWindow
    } else if cfg.marked_slots.len() > 0 {
        RoundStep::UseMarkedSlots
    } else if cache.shop.is_some() {
        RoundStep::UseCachedShop
    } else {
        RoundStep::LocateShop
    }
}

/// `"Slot "` followed by `n` in decimal.
pub open spec fn slot_label(n: nat) -> Seq<char> {
    seq!['S', 'l', 'o', 't', ' '] + decimal(n)
}

/// The debug outlines of a located shop: the frame in orange, then for every
/// slot its outline in white, labelled with its index, and its item region
/// in blue.
pub fn shop_debug_rects(shop: &ShopCoords) -> (d: Vec<DebugRect>)
    requires
        shop.cells@.len() < u64::MAX,
    ensures
        are_shop_debug_rects(d@, *shop),
{
    let mut d: Vec<DebugRect> = Vec::new();
    d.push(DebugRect { rect: shop.bbox, color: color::ORANGE, label: String::from_str("SHOP BBOX"), thickness: 2 });
    let n = shop.cells.len();
    let mut idx: usize = 0;
    while idx < n
        invariant
            n == shop.cells@.len(),
            n < u64::MAX,
            idx <= n,
            d@.len() == 1 + 2 * idx,
            d@[0].rect == shop.bbox && d@[0].color == color::ORANGE && d@[0].label@ == "SHOP BBOX"@
                && d@[0].thickness == 2,
            forall|i: int|
                0 <= i < idx ==> {
                    &&& (#[trigger] d@[1 + 2 * i]).rect == shop.cells@[i].slot
                    &&& d@[1 + 2 * i].color == color::WHITE
                    &&& d@[1 + 2 * i].label@ == slot_label(i as nat)
                    &&& d@[1 + 2 * i].thickness == 1
                    &&& d@[2 + 2 * i].rect == shop.cells@[i].item
                    &&& d@[2 + 2 * i].color == color::BLUE
                    &&& d@[2 + 2 * i].label@.len() == 0
                    &&& d@[2 + 2 * i].thickness == 1
                },
        decreases n - idx,
    {
        let cell = shop.cells[idx];
        let mut label = String::from_str("Slot ");
        crate::text::push_decimal(&mut label, idx as u64);
        proof {
            reveal_strlit("Slot ");
            assert(label@ =~= slot_label(idx as nat));
        }
        let ghost before = d@;
        d.push(DebugRect { rect: cell.slot, color: color::WHITE, label, thickness: 1 });
        d.push(DebugRect { rect: cell.item, color: color::BLUE, label: String::new(), thickness: 1 });
        proof {
            assert forall|i: int| 0 <= i < idx + 1 implies {
                &&& (#[trigger] d@[1 + 2 * i]).rect == shop.cells@[i].slot
                &&& d@[1 + 2 * i].color == color::WHITE
                &&& d@[1 + 2 * i].label@ == slot_label(i as nat)
                &&& d@[1 + 2 * i].thickness == 1
                &&& d@[2 + 2 * i].rect == shop.cells@[i].item
                &&& d@[2 + 2 * i].color == color::BLUE
                &&& d@[2 + 2 * i].label@.len() == 0
                &&& d@[2 + 2 * i].thickness == 1
            } by {
                if i < idx {
                    assert(d@[1 + 2 * i] == before[1 + 2 * i]);
                    assert(d@[2 + 2 * i] == before[2 + 2 * i]);
                }
            }
        }
        idx += 1;
    }
    d
}


/// An item recognised in a slot of the shop.
#[derive(Debug, Clone)]
pub struct DetectedItem {
    pub slot_index: usize,
    pub name: String,
    /// The match score in `[0, 1]`, as the bit pattern of an `f32`.
    pub match_score_bits: u32,
    pub popularity: Popularity,
    pub detected_price: Option<u32>,
    pub prices: PriceMap,
    pub item_rect: Rect,
    pub popularity_rect: Rect,
    pub price_rect: Rect,
}

/// Records the best template found in a slot: where it lies in the whole
/// image, and its prices from the table (none when the table does not know
/// the item) together with the price at the slot's popularity.
pub fn detected_item(
    slot_index: usize,
    cell: &CellRegions,
    name: &str,
    found: Rect,
    match_score_bits: u32,
    popularity: Popularity,
    table: &ItemPriceTable,
    ng_plus: bool,
) -> (d: DetectedItem)
    requires
        found.x + cell.item.x <= u32::MAX,
        found.y + cell.item.y <= u32::MAX,
    ensures
        d.slot_index == slot_index,
        d.name@ == name@,
        d.match_score_bits == match_score_bits,
        d.popularity == popularity,
        d.item_rect == (Rect {
            x: (found.x + cell.item.x) as u32,
            y: (found.y + cell.item.y) as u32,
            width: found.width,
            height: found.height,
        }),
        d.popularity_rect == cell.popularity,
        d.price_rect == cell.price,
        d.detected_price == match first_entry(table.items@, normalized(name@)) {
            None => None,
            Some(e) => entry_price(e, popularity, ng_plus),
        },
        match first_entry(table.items@, normalized(name@)) {
            None => d.prices.entries@.len() == 0,
            Some(e) => d.prices.entries@ == e.prices.entries@,
        },
{
    let prices = match table.lookup(name) {
        Some(p) => {
            proof {
                let i = choose|i: int|
                    0 <= i < table.items@.len() && *p == (#[trigger] table.items@[i]).prices && entry_matches(
                        table.items@[i],
                        normalized(name@),
                    ) && forall|j: int| 0 <= j < i ==> !entry_matches(#[trigger] table.items@[j], normalized(name@));
                lemma_first_entry_some(table.items@, normalized(name@), i);
            }
            p.copy()
        },
        None => {
            proof {
                lemma_first_entry_none(table.items@, normalized(name@));
            }
            PriceMap::new()
        },
    };
    let detected_price = table.lookup_price(name, popularity, ng_plus);
    DetectedItem {
        slot_index,
        name: String::from_str(name),
        match_score_bits,
        popularity,
        detected_price,
        prices,
        item_rect: translate(found, cell.item),
        popularity_rect: cell.popularity,
        price_rect: cell.price,
    }
}

/// The price tag shown for `item`, found in the slot whose item region is
/// `region`.
pub open spec fn is_card_for(card: ItemCard, region: Rect, item: DetectedItem, is_ng_plus: bool) -> bool {
    &&& card.x == region.x && card.y == region.y
    &&& card.width == region.width && card.height == region.height
    &&& card.name@ == item.name@
    &&& card.popularity@ == popularity_key(item.popularity)
    &&& card.price == item.detected_price
    &&& card.match_score_bits == item.match_score_bits
    &&& card.is_ng_plus == is_ng_plus
}

/// `d` are the debug outlines of a located shop: the frame in orange, then
/// for every slot its outline in white, labelled with its index, and its
/// item region in blue.
pub open spec fn are_shop_debug_rects(d: Seq<DebugRect>, shop: ShopCoords) -> bool {
    &&& d.len() == 1 + 2 * shop.cells@.len()
    &&& d[0].rect == shop.bbox && d[0].color == color::ORANGE && d[0].label@ == "SHOP BBOX"@
        && d[0].thickness == 2
    &&& forall|i: int|
        0 <= i < shop.cells@.len() ==> {
            &&& (#[trigger] d[1 + 2 * i]).rect == shop.cells@[i].slot
            &&& d[1 + 2 * i].color == color::WHITE
            &&& d[1 + 2 * i].label@ == slot_label(i as nat)
            &&& d[1 + 2 * i].thickness == 1
            &&& d[2 + 2 * i].rect == shop.cells@[i].item
            &&& d[2 + 2 * i].color == color::BLUE
            &&& d[2 + 2 * i].label@.len() == 0
            &&& d[2 + 2 * i].thickness == 1
        }
}

/// Publishes the outcome of a detection round. With a shop, its recognised
/// items become the price tags, each over the item region of its slot, and
/// in debug mode the shop's outlines are drawn; without one, nothing is.
pub fn publish_detections(
    dl: &mut DrawListState,
    shop: Option<&ShopCoords>,
    items: &Vec<DetectedItem>,
    is_debug: bool,
    is_ng_plus: bool,
)
    requires
        shop matches Some(s) ==> s.cells@.len() < u64::MAX && forall|i: int|
            0 <= i < items@.len() ==> (#[trigger] items@[i]).slot_index < s.cells@.len(),
    ensures
        shop is None ==> final(dl).item_cards@.len() == 0 && final(dl).debug_rects@.len() == 0,
        shop matches Some(s) ==> {
            &&& final(dl).item_cards@.len() == items@.len()
            &&& forall|i: int|
                0 <= i < items@.len() ==> #[trigger] is_card_for(
                    final(dl).item_cards@[i],
                    s.cells@[items@[i].slot_index as int].item,
                    items@[i],
                    is_ng_plus,
                )
            &&& is_debug ==> are_shop_debug_rects(final(dl).debug_rects@, *s)
            &&& !is_debug ==> final(dl).debug_rects@.len() == 0
        },
        final(dl).mode == old(dl).mode,
        final(dl).marked_slots@ == old(dl).marked_slots@,
        final(dl).current_drag == old(dl).current_drag,
        final(dl).redetect_requested == old(dl).redetect_requested,
        final(dl).search_query@ == old(dl).search_query@,
        final(dl).search_results@ == old(dl).search_results@,
        final(dl).is_ng_plus == old(dl).is_ng_plus,
{
    dl.item_cards.clear();
    dl.debug_rects.clear();
    let s = match shop {
        Some(s) => s,
        None => return,
    };
    let n = items.len();
    let mut i: usize = 0;
    while i < n
        invariant
            n == items@.len(),
            i <= n,
            forall|k: int| 0 <= k < items@.len() ==> (#[trigger] items@[k]).slot_index < s.cells@.len(),
            dl.item_cards@.len() == i,
            forall|k: int|
                0 <= k < i ==> #[trigger] is_card_for(
                    dl.item_cards@[k],
                    s.cells@[items@[k].slot_index as int].item,
                    items@[k],
                    is_ng_plus,
                ),
            dl.debug_rects@.len() == 0,
            dl.mode == old(dl).mode,
            dl.marked_slots@ == old(dl).marked_slots@,
            dl.current_drag == old(dl).current_drag,
            dl.redetect_requested == old(dl).redetect_requested,
            dl.search_query@ == old(dl).search_query@,
            dl.search_results@ == old(dl).search_results@,
            dl.is_ng_plus == old(dl).is_ng_plus,
        decreases n - i,
    {
        let item = &items[i];
        let cell = &s.cells[item.slot_index];
        let popularity = String::from_str(item.popularity.as_key());
        let card = ItemCard {
            x: cell.item.x,
            y: cell.item.y,
            width: cell.item.width,
            height: cell.item.height,
            name: item.name.clone(),
            popularity,
            price: item.detected_price,
            match_score_bits: item.match_score_bits,
            is_ng_plus,
        };
        dl.item_cards.push(card);
        i += 1;
    }
    if is_debug {
        dl.debug_rects = shop_debug_rects(s);
    }
}

} // verus!
