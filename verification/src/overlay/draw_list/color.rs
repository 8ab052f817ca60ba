//! The overlay's palette, as `0xAARRGGBB`.

use super::Argb;
use vstd::prelude::*;

verus! {

pub const RED: Argb = 0xFF_FF_45_3Au32;
pub const GREEN: Argb = 0xFF_30_D1_5Bu32;
pub const BLUE: Argb = 0xFF_0A_84_FFu32;
pub const YELLOW: Argb = 0xFF_FF_D6_0Au32;
pub const TEAL: Argb = 0xFF_64_D2_FFu32;
pub const WHITE: Argb = 0xFF_F2_F2_F7u32;
pub const ORANGE: Argb = 0xFF_FF_9F_0Au32;
pub const PURPLE: Argb = 0xFF_BF_5A_F2u32;
pub const DARK_BG: Argb = 0xEE_1C_1C_1Eu32;
pub const CARD_BORDER: Argb = 0xFF_3A_3A_3Cu32;

} // verus!
