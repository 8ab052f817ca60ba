//! Shop geometry and item popularity.

use crate::matchers::Rect;
use vstd::prelude::*;

verus! {

/// A region given relative to a shop slot's top-left corner.
#[derive(Debug, Clone, Copy, PartialEq, Eq, Structural)]
pub struct SubRect {
    pub x: u32,
    pub y: u32,
    pub w: u32,
    pub h: u32,
}

impl SubRect {
    /// The region placed inside `slot`.
    pub fn to_rect(self, slot: Rect) -> (r: Rect)
        requires
            slot.x + self.x <= u32::MAX,
            slot.y + self.y <= u32::MAX,
        ensures
            r == (Rect { x: (slot.x + self.x) as u32, y: (slot.y + self.y) as u32, width: self.w, height: self.h }),
    {
        Rect { x: slot.x + self.x, y: slot.y + self.y, width: self.w, height: self.h }
    }
}

/// The item icon inside a slot, at scale 1.
pub fn shared_item() -> (r: SubRect)
    ensures
        r == (SubRect { x: 111, y: 30, w: 75, h: 75 }),
{
    SubRect { x: 111, y: 30, w: 75, h: 75 }
}

/// The popularity badge inside a slot, at scale 1.
pub fn shared_pop() -> (r: SubRect)
    ensures
        r == (SubRect { x: 214, y: 1, w: 54, h: 54 }),
{
    SubRect { x: 214, y: 1, w: 54, h: 54 }
}

/// The price tag inside a slot, at scale 1.
pub fn shared_price() -> (r: SubRect)
    ensures
        r == (SubRect { x: 205, y: 75, w: 90, h: 22 }),
{
    SubRect { x: 205, y: 75, w: 90, h: 22 }
}

/// Where the item icon, the popularity badge and the price of one shop slot are.
#[derive(Debug, Clone, Copy, PartialEq, Eq, Structural)]
pub struct CellRegions {
    pub slot: Rect,
    pub item: Rect,
    pub popularity: Rect,
    pub price: Rect,
}

/// The located shop: its slots, their regions and the box around them.
#[derive(Debug, Clone)]
pub struct ShopCoords {
    pub slots: Vec<Rect>,
    pub cells: Vec<CellRegions>,
    pub bbox: Rect,
}

/// How much the customers currently want an item.
#[derive(Debug, Clone, Copy, PartialEq, Eq, PartialOrd, Ord, Structural)]
pub enum Popularity {
    Low,
    Normal,
    High,
}

/// The name a popularity has in price tables and template file names.
pub open spec fn popularity_key(p: Popularity) -> Seq<char> {
    match p {
        Popularity::Low => seq!['l', 'o', 'w'],
        Popularity::Normal => seq!['n', 'o', 'r', 'm', 'a', 'l'],
        Popularity::High => seq!['h', 'i', 'g', 'h'],
    }
}

impl Default for Popularity {
    fn default() -> (p: Self)
        ensures
            p == Popularity::Normal,
    {
        Popularity::Normal
    }
}

impl Popularity {
    /// The popularity a template named `low`, `normal` or `high` stands for.
    pub fn from_template_name(name: &str) -> (p: Option<Self>)
        ensures
            p matches Some(v) ==> popularity_key(v) == name@,
            p is None ==> forall|v: Popularity| popularity_key(v) != name@,
    {
        proof {
            reveal_strlit("low");
            reveal_strlit("normal");
            reveal_strlit("high");
        }
        if crate::text::str_eq(name, "low") {
            Some(Popularity::Low)
        } else if crate::text::str_eq(name, "normal") {
            Some(Popularity::Normal)
        } else if crate::text::str_eq(name, "high") {
            Some(Popularity::High)
        } else {
            proof {
                assert forall|v: Popularity| popularity_key(v) != name@ by {
                    match v {
                        Popularity::Low => assert(popularity_key(v) =~= "low"@),
                        Popularity::Normal => assert(popularity_key(v) =~= "normal"@),
                        Popularity::High => assert(popularity_key(v) =~= "high"@),
                    }
                }
            }
            None
        }
    }

    /// `"low"`, `"normal"` or `"high"`.
    pub fn as_key(self) -> (k: &'static str)
        ensures
            k@ == popularity_key(self),
    {
        proof {
            reveal_strlit("low");
            reveal_strlit("normal");
            reveal_strlit("high");
        }
        match self {
            Popularity::Low => "low",
            Popularity::Normal => "normal",
            Popularity::High => "high",
        }
    }
}

/// Reading a popularity's name back gives the same popularity.
pub proof fn lemma_popularity_key_round_trip(p: Popularity, q: Popularity)
    ensures
        popularity_key(p) == popularity_key(q) <==> p == q,
{
    if p != q {
        let a = popularity_key(p);
        let b = popularity_key(q);
        assert(a.len() != b.len() || a[0] != b[0]);
    }
}

} // verus!
