//! Hotkey names, debouncing and the keyboard input of the price search.

use crate::config::{title_matches, AppConfig, TitleMatcher};
use crate::event_bus::AppCommand;
use crate::overlay::draw_list::{DrawListState, OverlayMode, SearchResult};
use crate::shop::assets::{entries_containing, normalized, ItemPriceEntry, ItemPriceTable, PriceMap};
use crate::text::{is_ascii_alnum, str_eq, trimmed, uppercase};
use crate::tray::{command_of, TrayMenuItem};
use vstd::prelude::*;

verus! {

/// The virtual-key code a trimmed, uppercased hotkey name stands for, or -1
/// for none: `NONE`, `0`, `OFF` and the empty name disable a hotkey; `F1` to
/// `F12`, `SPACE`, `TAB`, `ENTER`/`RETURN`, `ESC`/`ESCAPE`, `ALT`,
/// `CTRL`/`CONTROL` and `SHIFT` name those keys; a single ASCII letter or
/// digit is its own code.
pub open spec fn vk_of(s: Seq<char>) -> int {
    if s.len() == 0 || s == "NONE"@ || s == "0"@ || s == "OFF"@ {
        -1
    } else if s == "F1"@ {
        0x70
    } else if s == "F2"@ {
        0x71
    } else if s == "F3"@ {
        0x72
    } else if s == "F4"@ {
        0x73
    } else if s == "F5"@ {
        0x74
    } else if s == "F6"@ {
        0x75
    } else if s == "F7"@ {
        0x76
    } else if s == "F8"@ {
        0x77
    } else if s == "F9"@ {
        0x78
    } else if s == "F10"@ {
        0x79
    } else if s == "F11"@ {
        0x7A
    } else if s == "F12"@ {
        0x7B
    } else if s == "SPACE"@ {
        0x20
    } else if s == "TAB"@ {
        0x09
    } else if s == "ENTER"@ || s == "RETURN"@ {
        0x0D
    } else if s == "ESC"@ || s == "ESCAPE"@ {
        0x1B
    } else if s == "ALT"@ {
        0x12
    } else if s == "CTRL"@ || s == "CONTROL"@ {
        0x11
    } else if s == "SHIFT"@ {
        0x10
    } else if s.len() == 1 && is_ascii_alnum(s[0]) {
        s[0] as int
    } else {
        -1
    }
}

/// The virtual-key code of an already trimmed and uppercased hotkey name.
pub fn hotkey_vk_of(s: &str) -> (vk: i32)
    ensures
        vk == vk_of(s@),
{
    let cs = crate::text::chars_of(s);
    if cs.len() == 0 || str_eq(s, "NONE") || str_eq(s, "0") || str_eq(s, "OFF") {
        -1
    } else if str_eq(s, "F1") {
        0x70
    } else if str_eq(s, "F2") {
        0x71
    } else if str_eq(s, "F3") {
        0x72
    } else if str_eq(s, "F4") {
        0x73
    } else if str_eq(s, "F5") {
        0x74
    } else if str_eq(s, "F6") {
        0x75
    } else if str_eq(s, "F7") {
        0x76
    } else if str_eq(s, "F8") {
        0x77
    } else if str_eq(s, "F9") {
        0x78
    } else if str_eq(s, "F10") {
        0x79
    } else if str_eq(s, "F11") {
        0x7A
    } else if str_eq(s, "F12") {
        0x7B
    } else if str_eq(s, "SPACE") {
        0x20
    } else if str_eq(s, "TAB") {
        0x09
    } else if str_eq(s, "ENTER") || str_eq(s, "RETURN") {
        0x0D
    } else if str_eq(s, "ESC") || str_eq(s, "ESCAPE") {
        0x1B
    } else if str_eq(s, "ALT") {
        0x12
    } else if str_eq(s, "CTRL") || str_eq(s, "CONTROL") {
        0x11
    } else if str_eq(s, "SHIFT") {
        0x10
    } else if cs.len() == 1 && crate::text::is_ascii_alphanumeric(cs[0]) {
        cs[0] as i32
    } else {
        -1
    }
}

/// The virtual-key code of a hotkey name as the user wrote it.
pub fn parse_hotkey_vk(name: &str) -> (vk: i32)
    ensures
        vk == vk_of(uppercase(trimmed(name@))),
{
    let t = crate::text::trim(name);
    let ts = crate::text::string_of(&t);
    let s = crate::text::to_uppercase(ts.as_str());
    hotkey_vk_of(s.as_str())
}

/// A hotkey name stands for no key (-1) or for a key code below 128.
pub proof fn lemma_vk_range(s: Seq<char>)
    ensures
        vk_of(s) == -1 || 0 < vk_of(s) < 128,
{
}

/// A function key fires without the leader key; any other key, when a
/// leader is bound, only with it held.
pub proof fn lemma_leader_rule(
    target_vk: i32,
    leader_vk: i32,
    target_down: bool,
    elapsed_ns: u128,
    debounce_ns: u128,
)
    requires
        target_vk > 0,
        target_down,
        elapsed_ns >= debounce_ns,
    ensures
        is_function_key(target_vk as int) ==> fires(target_vk, leader_vk, target_down, false, elapsed_ns, debounce_ns),
        !is_function_key(target_vk as int) && leader_vk > 0 ==> !fires(
            target_vk,
            leader_vk,
            target_down,
            false,
            elapsed_ns,
            debounce_ns,
        ),
{
}

/// A hotkey never fires again before the debounce time has passed since it
/// last fired.
pub proof fn lemma_debounced(
    target_vk: i32,
    leader_vk: i32,
    target_down: bool,
    leader_down: bool,
    elapsed_ns: u128,
    debounce_ns: u128,
)
    requires
        elapsed_ns < debounce_ns,
    ensures
        !fires(target_vk, leader_vk, target_down, leader_down, elapsed_ns, debounce_ns),
{
}

/// Whether key `vk`, now `pressed`, went down since the memory `prev` was taken.
pub open spec fn just_pressed(prev: Seq<bool>, vk: int, pressed: bool) -> bool {
    pressed && !prev[vk]
}

/// The key memory after recording key `vk` as `pressed`.
pub open spec fn remembered(prev: Seq<bool>, vk: int, pressed: bool) -> Seq<bool> {
    prev.update(vk, pressed)
}

/// A key held over two looks is reported as pressed at most once: after a
/// look records it, the next look with the key still down reports nothing.
pub proof fn lemma_held_key_reported_once(prev: Seq<bool>, vk: int)
    requires
        0 <= vk < prev.len(),
    ensures
        !just_pressed(remembered(prev, vk, true), vk, true),
{
}

/// Function keys fire on their own; other keys only while the leader key is
/// held, when there is one.
pub open spec fn is_function_key(vk: int) -> bool {
    0x70 <= vk <= 0x7B
}

/// Whether a hotkey fires: it is bound and held, its leader is held when it
/// needs one, and at least `debounce_ns` have passed since it last fired.
pub open spec fn fires(
    target_vk: i32,
    leader_vk: i32,
    target_down: bool,
    leader_down: bool,
    elapsed_ns: u128,
    debounce_ns: u128,
) -> bool {
    &&& target_vk > 0
    &&& target_down
    &&& (is_function_key(target_vk as int) || leader_vk <= 0 || leader_down)
    &&& elapsed_ns >= debounce_ns
}

/// Decides whether a hotkey fires, given the state of its key and of the
/// leader key and the time since it last fired.
pub fn check_hotkey_trigger(
    target_vk: i32,
    leader_vk: i32,
    target_down: bool,
    leader_down: bool,
    elapsed_ns: u128,
    debounce_ns: u128,
) -> (b: bool)
    ensures
        b == fires(target_vk, leader_vk, target_down, leader_down, elapsed_ns, debounce_ns),
{
    if target_vk <= 0 {
        return false;
    }
    if !target_down {
        return false;
    }
    let is_f_key = 0x70 <= target_vk && target_vk <= 0x7B;
    if !is_f_key && leader_vk > 0 {
        if !leader_down {
            return false;
        }
    }
    elapsed_ns >= debounce_ns
}

/// Records the state of key `vk` and says whether it went down since the
/// last call. Codes outside `0..256` are never pressed.
pub fn key_just_pressed(vk: i32, pressed: bool, prev_keys: &mut [bool; 256]) -> (b: bool)
    ensures
        (vk < 0 || vk >= 256) ==> !b && final(prev_keys)@ == old(prev_keys)@,
        (0 <= vk < 256) ==> b == just_pressed(old(prev_keys)@, vk as int, pressed) && final(prev_keys)@
            == remembered(old(prev_keys)@, vk as int, pressed),
{
    if vk < 0 || vk >= 256 {
        return false;
    }
    let idx = vk as usize;
    let was_pressed = prev_keys[idx];
    prev_keys[idx] = pressed;
    pressed && !was_pressed
}

/// What the keys that went down since the last look ask of the search box.
#[derive(Debug, Clone)]
pub struct SearchKeys {
    pub close: bool,
    pub backspace: bool,
    pub chars: Vec<char>,
}

/// Key `vk` went down: it is down now and was not before.
pub open spec fn went_down(down: Seq<bool>, prev: Seq<bool>, vk: int) -> bool {
    down[vk] && !prev[vk]
}

/// The characters typed by the keys `first .. first + n` that went down,
/// key `first + i` typing `base + i`.
pub open spec fn typed(down: Seq<bool>, prev: Seq<bool>, first: int, base: int, n: int) -> Seq<char>
    decreases n,
{
    if n <= 0 {
        Seq::empty()
    } else {
        let pre = typed(down, prev, first, base, n - 1);
        if went_down(down, prev, first + n - 1) {
            pre.push((base + n - 1) as char)
        } else {
            pre
        }
    }
}

/// The text typed into the search box: a space, the letters `a` to `z` for
/// the keys A to Z and the digits, for the keys that went down.
pub open spec fn search_text(down: Seq<bool>, prev: Seq<bool>) -> Seq<char> {
    (if went_down(down, prev, 0x20) { seq![' '] } else { Seq::empty() }) + typed(
        down,
        prev,
        0x41,
        'a' as int,
        26,
    ) + typed(down, prev, 0x30, '0' as int, 10)
}

/// Looks at escape, backspace, space, the letters and the digits, in that
/// order, records their state and collects what went down.
pub fn scan_search_keys(key_down: &[bool; 256], prev_keys: &mut [bool; 256]) -> (k: SearchKeys)
    ensures
        k.close == went_down(key_down@, old(prev_keys)@, 0x1B),
        k.backspace == went_down(key_down@, old(prev_keys)@, 0x08),
        k.chars@ == search_text(key_down@, old(prev_keys)@),
        final(prev_keys)@.len() == 256,
        forall|vk: int|
            0 <= vk < 256 ==> #[trigger] final(prev_keys)@[vk] == if vk == 0x1B || vk == 0x08 || vk
                == 0x20 || (0x41 <= vk <= 0x5A) || (0x30 <= vk <= 0x39) {
                key_down@[vk]
            } else {
                old(prev_keys)@[vk]
            },
{
    let ghost prev0 = prev_keys@;
    let close = key_just_pressed(0x1B, key_down[0x1B], prev_keys);
    let backspace = key_just_pressed(0x08, key_down[0x08], prev_keys);
    let mut chars: Vec<char> = Vec::new();
    if key_just_pressed(0x20, key_down[0x20], prev_keys) {
        chars.push(' ');
    }
    let ghost after_space = chars@;
    let mut vk: i32 = 0x41;
    while vk <= 0x5A
        invariant
            0x41 <= vk <= 0x5B,
            prev_keys@.len() == 256,
            chars@ == after_space + typed(key_down@, prev0, 0x41, 'a' as int, vk - 0x41),
            forall|j: int|
                0 <= j < 256 ==> #[trigger] prev_keys@[j] == if j == 0x1B || j == 0x08 || j == 0x20
                    || (0x41 <= j < vk) {
                    key_down@[j]
                } else {
                    prev0[j]
                },
        decreases 0x5B - vk,
    {
        if key_just_pressed(vk, key_down[vk as usize], prev_keys) {
            chars.push((vk as u8 - 0x41 + 'a' as u8) as char);
        }
        proof {
            assert(chars@ =~= after_space + typed(key_down@, prev0, 0x41, 'a' as int, vk + 1 - 0x41));
        }
        vk += 1;
    }
    let ghost after_letters = chars@;
    let mut vk: i32 = 0x30;
    while vk <= 0x39
        invariant
            0x30 <= vk <= 0x3A,
            prev_keys@.len() == 256,
            chars@ == after_letters + typed(key_down@, prev0, 0x30, '0' as int, vk - 0x30),
            forall|j: int|
                0 <= j < 256 ==> #[trigger] prev_keys@[j] == if j == 0x1B || j == 0x08 || j == 0x20
                    || (0x41 <= j <= 0x5A) || (0x30 <= j < vk) {
                    key_down@[j]
                } else {
                    prev0[j]
                },
        decreases 0x3A - vk,
    {
        if key_just_pressed(vk, key_down[vk as usize], prev_keys) {
            chars.push(vk as u8 as char);
        }
        proof {
            assert(chars@ =~= after_letters + typed(key_down@, prev0, 0x30, '0' as int, vk + 1 - 0x30));
        }
        vk += 1;
    }
    proof {
        assert(chars@ =~= search_text(key_down@, prev0));
    }
    SearchKeys { close, backspace, chars }
}


/// `r` shows entry `e`: same name and the same price maps.
pub open spec fn shows_entry(r: SearchResult, e: ItemPriceEntry) -> bool {
    &&& r.name@ == e.name@
    &&& r.prices.entries@ == e.prices.entries@
    &&& r.ng_plus_prices is Some == e.ng_plus_prices is Some
    &&& r.ng_plus_prices matches Some(m) ==> m.entries@ == e.ng_plus_prices->0.entries@
}

/// The search box after a backspace: its last character removed, if any.
pub open spec fn without_last(s: Seq<char>) -> Seq<char> {
    if s.len() > 0 { s.drop_last() } else { s }
}

/// The query typed so far after the keys that just went down.
pub open spec fn edited_query(old_query: Seq<char>, keys: SearchKeys) -> Seq<char> {
    (if keys.backspace { without_last(old_query) } else { old_query }) + keys.chars@
}

/// What the search-box keys do to the overlay state: escape closes the
/// search and returns to passive mode; backspace and typed characters edit
/// the query, after which the first 20 matching entries of the price table
/// become the results; nothing else changes.
pub open spec fn search_keys_applied(
    o: DrawListState,
    n: DrawListState,
    keys: SearchKeys,
    table: ItemPriceTable,
    is_ng_plus: bool,
) -> bool {
    &&& keys.close ==> {
        &&& n.search_query@.len() == 0
        &&& n.search_results@.len() == 0
        &&& n.mode == OverlayMode::Passive
        &&& n.is_ng_plus == o.is_ng_plus
    }
    &&& !keys.close && (keys.backspace || keys.chars@.len() > 0) ==> {
        let q = edited_query(o.search_query@, keys);
        let all = entries_containing(table.items@, normalized(q));
        let cnt = if normalized(q).len() == 0 { 0 } else if all.len() <= 20 { all.len() as int } else { 20 };
        &&& n.search_query@ == q
        &&& n.mode == o.mode
        &&& n.is_ng_plus == is_ng_plus
        &&& n.search_results@.len() == cnt
        &&& forall|k: int| 0 <= k < cnt ==> #[trigger] shows_entry(n.search_results@[k], all[k])
    }
    &&& !keys.close && !keys.backspace && keys.chars@.len() == 0 ==> {
        &&& n.search_query@ == o.search_query@
        &&& n.search_results@ == o.search_results@
        &&& n.mode == o.mode
        &&& n.is_ng_plus == o.is_ng_plus
    }
    &&& n.item_cards@ == o.item_cards@
    &&& n.debug_rects@ == o.debug_rects@
    &&& n.marked_slots@ == o.marked_slots@
    &&& n.current_drag == o.current_drag
    &&& n.redetect_requested == o.redetect_requested
}

/// Applies the search-box keys: escape closes the search and returns to
/// passive mode; backspace and typed characters edit the query, after which
/// the first 20 matching entries of the price table become the results.
pub fn apply_search_keys(dl: &mut DrawListState, keys: &SearchKeys, table: &ItemPriceTable, is_ng_plus: bool)
    ensures
        search_keys_applied(*old(dl), *final(dl), *keys, *table, is_ng_plus),
{
    if keys.close {
        dl.search_query = String::new();
        dl.search_results.clear();
        dl.mode = OverlayMode::Passive;
        return;
    }
    if keys.backspace || keys.chars.len() > 0 {
        let mut q = crate::text::chars_of(dl.search_query.as_str());
        if keys.backspace {
            q.pop();
        }
        let mut i: usize = 0;
        let ghost base = q@;
        while i < keys.chars.len()
            invariant
                i <= keys.chars@.len(),
                q@ == base + keys.chars@.take(i as int),
            decreases keys.chars@.len() - i,
        {
            q.push(keys.chars[i]);
            proof {
                assert(base + keys.chars@.take(i + 1) =~= (base + keys.chars@.take(i as int)).push(keys.chars@[i as int]));
            }
            i += 1;
        }
        proof {
            assert(keys.chars@.take(keys.chars@.len() as int) =~= keys.chars@);
            assert(q@ =~= edited_query(old(dl).search_query@, *keys));
        }
        let query = crate::text::string_of(&q);
        let found = table.search(query.as_str(), 20);
        let ghost all = entries_containing(table.items@, normalized(query@));
        let mut results: Vec<SearchResult> = Vec::new();
        let mut j: usize = 0;
        while j < found.len()
            invariant
                j <= found@.len(),
                results@.len() == j,
                forall|k: int| 0 <= k < j ==> #[trigger] shows_entry(results@[k], *found@[k]),
            decreases found@.len() - j,
        {
            let entry = found[j];
            let ng = match &entry.ng_plus_prices {
                Some(m) => Some(m.copy()),
                None => None,
            };
            results.push(SearchResult { name: entry.name.clone(), prices: entry.prices.copy(), ng_plus_prices: ng });
            j += 1;
        }
        proof {
            if normalized(query@).len() > 0 {
                let m = found@.map_values(|e: &ItemPriceEntry| *e);
                let cnt = if 20 <= all.len() { 20int } else { all.len() as int };
                assert(m == all.take(cnt));
                assert forall|k: int| 0 <= k < found@.len() implies #[trigger] shows_entry(results@[k], all[k]) by {
                    assert(m[k] == *found@[k]);
                    assert(all.take(cnt)[k] == all[k]);
                    assert(shows_entry(results@[k], *found@[k]));
                }
            }
        }
        dl.search_query = query;
        dl.search_results = results;
        dl.is_ng_plus = is_ng_plus;
    }
}


/// Whether a foreground window whose title was read as `title` is the game
/// window: a window without a title never is.
pub fn title_is_target(matcher: &TitleMatcher, title: &str) -> (b: bool)
    ensures
        b == (title@.len() > 0 && title_matches(matcher.pattern(), title@)),
{
    if title.is_empty() {
        return false;
    }
    matcher.is_match(title)
}

/// Whether the foreground window, whose title was read as
/// `foreground_title`, is the one `target_title` designates.
pub fn is_target_foreground(target_title: &str, foreground_title: &str) -> (b: bool)
    ensures
        b == (foreground_title@.len() > 0 && title_matches(trimmed(target_title@), foreground_title@)),
{
    let matcher = TitleMatcher::new(target_title);
    title_is_target(&matcher, foreground_title)
}

/// The number of hotkeys the listener watches.
pub const HOTKEY_COUNT: usize = 8;

/// The key codes of the listener's hotkeys, in the order it checks them:
/// pause, mark, debug, redetect, exit, NG+, dump, search.
pub struct HotkeyBindings {
    pub leader: i32,
    pub keys: [i32; 8],
    pub debounce_ms: u64,
}

/// The configured names of the hotkeys, in the order the listener checks them.
pub open spec fn hotkey_names(cfg: AppConfig) -> Seq<Seq<char>> {
    seq![
        cfg.pause_overlay_hotkey@,
        cfg.mark_region_hotkey@,
        cfg.toggle_debug_hotkey@,
        cfg.detect_window_hotkey@,
        cfg.exit_app_hotkey@,
        cfg.toggle_ng_plus_hotkey@,
        cfg.dump_templates_hotkey@,
        cfg.manual_search_hotkey@,
    ]
}

/// The key code of a hotkey name as the user wrote it.
pub open spec fn bound_vk(name: Seq<char>) -> int {
    vk_of(uppercase(trimmed(name)))
}

/// The command hotkey `i` sends.
pub open spec fn hotkey_command(i: int) -> AppCommand {
    if i == 0 {
        AppCommand::ToggleOverlayMode(OverlayMode::Paused)
    } else if i == 1 {
        AppCommand::ToggleOverlayMode(OverlayMode::Marking)
    } else if i == 2 {
        AppCommand::ToggleDebugMode
    } else if i == 3 {
        AppCommand::RequestRedetect
    } else if i == 4 {
        AppCommand::Exit
    } else if i == 5 {
        AppCommand::ToggleNgPlusMode
    } else if i == 6 {
        AppCommand::DumpTemplates
    } else {
        AppCommand::ToggleOverlayMode(OverlayMode::Search)
    }
}

/// Each hotkey sends the command of the tray entry of the same name, so
/// the redetect hotkey asks for a redetection and the exit hotkey quits;
/// no two hotkeys send the same command.
pub proof fn lemma_hotkeys_send_the_tray_commands(cfg: AppConfig)
    ensures
        hotkey_names(cfg)[0] == cfg.pause_overlay_hotkey@ && hotkey_command(0) == command_of(TrayMenuItem::Pause),
        hotkey_names(cfg)[1] == cfg.mark_region_hotkey@ && hotkey_command(1) == command_of(TrayMenuItem::Marking),
        hotkey_names(cfg)[2] == cfg.toggle_debug_hotkey@ && hotkey_command(2) == command_of(TrayMenuItem::Debug),
        hotkey_names(cfg)[3] == cfg.detect_window_hotkey@ && hotkey_command(3) == command_of(
            TrayMenuItem::Redetect,
        ),
        hotkey_names(cfg)[4] == cfg.exit_app_hotkey@ && hotkey_command(4) == command_of(TrayMenuItem::Exit),
        hotkey_names(cfg)[5] == cfg.toggle_ng_plus_hotkey@ && hotkey_command(5) == command_of(
            TrayMenuItem::NgPlus,
        ),
        hotkey_names(cfg)[6] == cfg.dump_templates_hotkey@ && hotkey_command(6) == command_of(
            TrayMenuItem::Dump,
        ),
        hotkey_names(cfg)[7] == cfg.manual_search_hotkey@ && hotkey_command(7) == command_of(
            TrayMenuItem::Search,
        ),
        forall|i: int, j: int| 0 <= i < j < 8 ==> #[trigger] hotkey_command(i) != #[trigger] hotkey_command(j),
{
}

fn command_for(i: usize) -> (c: AppCommand)
    ensures
        c == hotkey_command(i as int),
{
    if i == 0 {
        AppCommand::ToggleOverlayMode(OverlayMode::Paused)
    } else if i == 1 {
        AppCommand::ToggleOverlayMode(OverlayMode::Marking)
    } else if i == 2 {
        AppCommand::ToggleDebugMode
    } else if i == 3 {
        AppCommand::RequestRedetect
    } else if i == 4 {
        AppCommand::Exit
    } else if i == 5 {
        AppCommand::ToggleNgPlusMode
    } else if i == 6 {
        AppCommand::DumpTemplates
    } else {
        AppCommand::ToggleOverlayMode(OverlayMode::Search)
    }
}

/// Reads the hotkey settings of `cfg`.
pub fn hotkey_bindings(cfg: &AppConfig) -> (b: HotkeyBindings)
    ensures
        b.leader == bound_vk(cfg.leader_key@),
        forall|i: int| 0 <= i < 8 ==> #[trigger] b.keys@[i] == bound_vk(hotkey_names(*cfg)[i]),
        b.debounce_ms == cfg.debounce_ms,
{
    let keys = [
        parse_hotkey_vk(cfg.pause_overlay_hotkey.as_str()),
        parse_hotkey_vk(cfg.mark_region_hotkey.as_str()),
        parse_hotkey_vk(cfg.toggle_debug_hotkey.as_str()),
        parse_hotkey_vk(cfg.detect_window_hotkey.as_str()),
        parse_hotkey_vk(cfg.exit_app_hotkey.as_str()),
        parse_hotkey_vk(cfg.toggle_ng_plus_hotkey.as_str()),
        parse_hotkey_vk(cfg.dump_templates_hotkey.as_str()),
        parse_hotkey_vk(cfg.manual_search_hotkey.as_str()),
    ];
    HotkeyBindings { leader: parse_hotkey_vk(cfg.leader_key.as_str()), keys, debounce_ms: cfg.debounce_ms }
}

/// Whether key `vk` is held in the snapshot `down`; codes outside the
/// snapshot never are.
pub open spec fn key_is_down(down: Seq<bool>, vk: int) -> bool {
    0 <= vk < 256 && down[vk]
}

/// The commands of the hotkeys among the first `n` that fired, in order.
pub open spec fn fired_commands(fired: Seq<bool>, n: int) -> Seq<AppCommand>
    decreases n,
{
    if n <= 0 {
        Seq::empty()
    } else {
        fired_commands(fired, n - 1) + if fired[n - 1] {
            seq![hotkey_command(n - 1)]
        } else {
            Seq::empty()
        }
    }
}

/// Which hotkeys fired in one look at the keyboard, and the commands they send.
pub struct HotkeyFiring {
    pub fired: [bool; 8],
    pub commands: Vec<AppCommand>,
}

/// One look at the keyboard by the hotkey listener: `key_down` holds the
/// state of every key and `elapsed_ns[i]` the time since hotkey `i` last
/// fired. Each hotkey that fires sends its command, in order; when the
/// search hotkey fires, the key memory of the search box takes the current
/// state of the keyboard, so that held keys are not typed.
pub fn hotkey_step(
    b: &HotkeyBindings,
    key_down: &[bool; 256],
    elapsed_ns: &[u128; 8],
    prev_keys: &mut [bool; 256],
) -> (f: HotkeyFiring)
    ensures
        forall|i: int|
            0 <= i < 8 ==> #[trigger] f.fired@[i] == fires(
                b.keys@[i],
                b.leader,
                key_is_down(key_down@, b.keys@[i] as int),
                key_is_down(key_down@, b.leader as int),
                elapsed_ns@[i],
                (b.debounce_ms * 1_000_000) as u128,
            ),
        f.commands@ == fired_commands(f.fired@, 8),
        final(prev_keys)@ == if f.fired@[7] { key_down@ } else { old(prev_keys)@ },
{
    let debounce_ns: u128 = b.debounce_ms as u128 * 1_000_000;
    let leader_down = 0 <= b.leader && b.leader < 256 && key_down[b.leader as usize];
    let mut fired = [false; 8];
    let mut commands: Vec<AppCommand> = Vec::new();
    let mut i: usize = 0;
    while i < HOTKEY_COUNT
        invariant
            i <= 8,
            HOTKEY_COUNT == 8,
            fired@.len() == 8,
            debounce_ns == (b.debounce_ms * 1_000_000) as u128,
            leader_down == key_is_down(key_down@, b.leader as int),
            forall|k: int|
                0 <= k < i ==> #[trigger] fired@[k] == fires(
                    b.keys@[k],
                    b.leader,
                    key_is_down(key_down@, b.keys@[k] as int),
                    leader_down,
                    elapsed_ns@[k],
                    debounce_ns,
                ),
            commands@ == fired_commands(fired@, i as int),
        decreases 8 - i,
    {
        let vk = b.keys[i];
        let down = 0 <= vk && vk < 256 && key_down[vk as usize];
        let hit = check_hotkey_trigger(vk, b.leader, down, leader_down, elapsed_ns[i], debounce_ns);
        let ghost before = fired@;
        fired[i] = hit;
        proof {
            assert forall|n: int| 0 <= n <= i implies fired_commands(fired@, n) == fired_commands(before, n) by {
                lemma_fired_commands_prefix(fired@, before, n, i as int);
            }
        }
        if hit {
            commands.push(command_for(i));
        }
        i += 1;
    }
    if fired[7] {
        let mut vk: usize = 0;
        while vk < 256
            invariant
                vk <= 256,
                prev_keys@.len() == 256,
                forall|k: int| 0 <= k < vk ==> #[trigger] prev_keys@[k] == key_down@[k],
            decreases 256 - vk,
        {
            prev_keys[vk] = key_down[vk];
            vk += 1;
        }
        proof {
            assert(prev_keys@ =~= key_down@);
        }
    }
    HotkeyFiring { fired, commands }
}

proof fn lemma_fired_commands_prefix(a: Seq<bool>, b: Seq<bool>, n: int, upto: int)
    requires
        0 <= n <= upto,
        upto <= a.len(),
        upto <= b.len(),
        forall|k: int| 0 <= k < upto ==> a[k] == b[k],
    ensures
        fired_commands(a, n) == fired_commands(b, n),
    decreases n,
{
    if n > 0 {
        lemma_fired_commands_prefix(a, b, n - 1, upto);
    }
}

/// The key memory after the search box has looked at the keyboard.
pub open spec fn search_memory(down: Seq<bool>, prev: Seq<bool>) -> Seq<bool> {
    Seq::new(
        256,
        |vk: int|
            if vk == 0x1B || vk == 0x08 || vk == 0x20 || (0x41 <= vk <= 0x5A) || (0x30 <= vk <= 0x39) {
                down[vk]
            } else {
                prev[vk]
            },
    )
}

/// The search box's share of one look at the keyboard: while searching,
/// the keys that went down edit the query, and are handed back; otherwise
/// the key memory is forgotten.
pub fn search_input_step(
    dl: &mut DrawListState,
    key_down: &[bool; 256],
    prev_keys: &mut [bool; 256],
    table: &ItemPriceTable,
    is_ng_plus: bool,
) -> (k: Option<SearchKeys>)
    ensures
        k is Some <==> old(dl).mode == OverlayMode::Search,
        k is None ==> *final(dl) == *old(dl) && final(prev_keys)@ == Seq::new(256, |i: int| false),
        k matches Some(keys) ==> {
            &&& keys.close == went_down(key_down@, old(prev_keys)@, 0x1B)
            &&& keys.backspace == went_down(key_down@, old(prev_keys)@, 0x08)
            &&& keys.chars@ == search_text(key_down@, old(prev_keys)@)
            &&& final(prev_keys)@ == search_memory(key_down@, old(prev_keys)@)
            &&& search_keys_applied(*old(dl), *final(dl), keys, *table, is_ng_plus)
        },
{
    if dl.mode == OverlayMode::Search {
        let keys = scan_search_keys(key_down, prev_keys);
        proof {
            assert(prev_keys@ =~= search_memory(key_down@, old(prev_keys)@));
        }
        apply_search_keys(dl, &keys, table, is_ng_plus);
        Some(keys)
    } else {
        let mut vk: usize = 0;
        while vk < 256
            invariant
                vk <= 256,
                prev_keys@.len() == 256,
                forall|j: int| 0 <= j < vk ==> #[trigger] prev_keys@[j] == false,
            decreases 256 - vk,
        {
            prev_keys[vk] = false;
            vk += 1;
        }
        proof {
            assert(prev_keys@ =~= Seq::new(256, |i: int| false));
        }
        None
    }
}


/// The listener's remembered target title, with the matcher made from it.
pub struct TitleCache {
    pub title: String,
    pub matcher: TitleMatcher,
}

impl TitleCache {
    /// Nothing remembered yet: the empty title.
    pub fn new() -> (c: Self)
        ensures
            c.title@.len() == 0,
            c.matcher.pattern() == trimmed(c.title@),
    {
        let title = String::new();
        let matcher = TitleMatcher::new(title.as_str());
        TitleCache { title, matcher }
    }

    /// Follows the configured target title; the matcher is made anew only
    /// when the title changed.
    pub fn refresh(&mut self, target_title: &String)
        requires
            old(self).matcher.pattern() == trimmed(old(self).title@),
        ensures
            final(self).title@ == target_title@,
            final(self).matcher.pattern() == trimmed(target_title@),
    {
        if self.title != *target_title {
            self.matcher = TitleMatcher::new(target_title.as_str());
            self.title = target_title.clone();
        }
    }
}

/// One polling tick of the hotkey listener, given the title read from the
/// foreground window, the state of every key and the time since each
/// hotkey last fired. While the game window is not in front, nothing
/// fires and the key memory is forgotten; otherwise the configured hotkeys
/// are checked and the commands of those that fire are given, in order.
pub fn listener_tick(
    cache: &mut TitleCache,
    cfg: &AppConfig,
    foreground_title: &str,
    key_down: &[bool; 256],
    elapsed_ns: &[u128; 8],
    prev_keys: &mut [bool; 256],
) -> (f: Option<HotkeyFiring>)
    requires
        old(cache).matcher.pattern() == trimmed(old(cache).title@),
    ensures
        final(cache).title@ == cfg.target_window_title@,
        final(cache).matcher.pattern() == trimmed(cfg.target_window_title@),
        f is None <==> !(foreground_title@.len() > 0 && title_matches(
            trimmed(cfg.target_window_title@),
            foreground_title@,
        )),
        f is None ==> final(prev_keys)@ == Seq::new(256, |i: int| false),
        f matches Some(firing) ==> {
            &&& forall|i: int|
                0 <= i < 8 ==> #[trigger] firing.fired@[i] == fires(
                    bound_vk(hotkey_names(*cfg)[i]) as i32,
                    bound_vk(cfg.leader_key@) as i32,
                    key_is_down(key_down@, bound_vk(hotkey_names(*cfg)[i]) as int),
                    key_is_down(key_down@, bound_vk(cfg.leader_key@) as int),
                    elapsed_ns@[i],
                    (cfg.debounce_ms * 1_000_000) as u128,
                )
            &&& firing.commands@ == fired_commands(firing.fired@, 8)
            &&& final(prev_keys)@ == if firing.fired@[7] { key_down@ } else { old(prev_keys)@ }
        },
{
    cache.refresh(&cfg.target_window_title);
    if !title_is_target(&cache.matcher, foreground_title) {
        let mut vk: usize = 0;
        while vk < 256
            invariant
                vk <= 256,
                prev_keys@.len() == 256,
                forall|j: int| 0 <= j < vk ==> #[trigger] prev_keys@[j] == false,
            decreases 256 - vk,
        {
            prev_keys[vk] = false;
            vk += 1;
        }
        proof {
            assert(prev_keys@ =~= Seq::new(256, |i: int| false));
        }
        return None;
    }
    let b = hotkey_bindings(cfg);
    let firing = hotkey_step(&b, key_down, elapsed_ns, prev_keys);
    Some(firing)
}

} // verus!
