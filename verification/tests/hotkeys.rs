use moonlighter_overlay::config::AppConfig;
use moonlighter_overlay::event_bus::AppCommand;
use moonlighter_overlay::hotkeys::{
    apply_search_keys, check_hotkey_trigger, hotkey_bindings, hotkey_step, is_target_foreground,
    key_just_pressed, listener_tick, parse_hotkey_vk, scan_search_keys, search_input_step, title_is_target,
    SearchKeys, TitleCache,
};
use moonlighter_overlay::config::TitleMatcher;
use moonlighter_overlay::overlay::draw_list::{DrawListState, OverlayMode};
use moonlighter_overlay::shop::assets::{ItemPriceEntry, ItemPriceTable, PriceMap};

fn prices(pairs: &[(&str, u32)]) -> PriceMap {
    let mut m = PriceMap::new();
    for (k, p) in pairs {
        m.insert(k.to_string(), *p);
    }
    m
}

fn table() -> ItemPriceTable {
    ItemPriceTable {
        items: vec![
            ItemPriceEntry { name: "iron_bar".to_string(), prices: prices(&[("normal", 50)]), ng_plus_prices: None },
            ItemPriceEntry { name: "iron_sword".to_string(), prices: prices(&[("normal", 90)]), ng_plus_prices: None },
            ItemPriceEntry { name: "golem_core".to_string(), prices: prices(&[("low", 10)]), ng_plus_prices: None },
        ],
    }
}

#[test]
fn hotkey_names_map_to_key_codes() {
    assert_eq!(parse_hotkey_vk("f5"), 0x74);
    assert_eq!(parse_hotkey_vk("F12"), 0x7B);
    assert_eq!(parse_hotkey_vk(" o "), 'O' as i32);
    assert_eq!(parse_hotkey_vk("7"), '7' as i32);
    assert_eq!(parse_hotkey_vk("Ctrl"), 0x11);
    assert_eq!(parse_hotkey_vk("control"), 0x11);
    assert_eq!(parse_hotkey_vk("escape"), 0x1B);
    assert_eq!(parse_hotkey_vk("return"), 0x0D);
    assert_eq!(parse_hotkey_vk("space"), 0x20);
    assert_eq!(parse_hotkey_vk("tab"), 0x09);
    assert_eq!(parse_hotkey_vk("alt"), 0x12);
    assert_eq!(parse_hotkey_vk("shift"), 0x10);
}

#[test]
fn disabled_and_unknown_hotkeys_have_no_code() {
    for name in ["", "  ", "none", "NONE", "0", "off", "?", "ab", "F13"] {
        assert_eq!(parse_hotkey_vk(name), -1, "{name}");
    }
}

#[test]
fn hotkey_codes_stay_below_128() {
    for name in ["a", "Z", "9", "f1", "f12", "esc", "none", "é"] {
        let vk = parse_hotkey_vk(name);
        assert!(vk == -1 || (0 < vk && vk < 128), "{name}");
    }
}

#[test]
fn hotkey_trigger_rules() {
    let second = 1_000_000_000u128;
    let debounce = 100_000_000u128;
    // Unbound or released keys never fire.
    assert!(!check_hotkey_trigger(-1, 0x4F, true, true, second, debounce));
    assert!(!check_hotkey_trigger(0x4D, 0x4F, false, true, second, debounce));
    // A letter needs its leader.
    assert!(!check_hotkey_trigger(0x4D, 0x4F, true, false, second, debounce));
    assert!(check_hotkey_trigger(0x4D, 0x4F, true, true, second, debounce));
    // Without a leader bound it fires alone.
    assert!(check_hotkey_trigger(0x4D, -1, true, false, second, debounce));
    // A function key fires without the leader.
    assert!(check_hotkey_trigger(0x77, 0x4F, true, false, second, debounce));
    // Not before the debounce time has passed.
    assert!(!check_hotkey_trigger(0x77, 0x4F, true, true, debounce - 1, debounce));
    assert!(check_hotkey_trigger(0x77, 0x4F, true, true, debounce, debounce));
}

#[test]
fn a_held_key_is_reported_once() {
    let mut prev = [false; 256];
    assert!(key_just_pressed(0x41, true, &mut prev));
    assert!(prev[0x41]);
    assert!(!key_just_pressed(0x41, true, &mut prev));
    assert!(!key_just_pressed(0x41, false, &mut prev));
    assert!(!prev[0x41]);
    assert!(key_just_pressed(0x41, true, &mut prev));
    assert!(!key_just_pressed(300, true, &mut prev));
    assert!(!key_just_pressed(-5, true, &mut prev));
}

#[test]
fn default_bindings() {
    let b = hotkey_bindings(&AppConfig::default());
    assert_eq!(b.leader, 'O' as i32);
    assert_eq!(b.keys, [0x50, 0x4D, 0x44, 0x52, 0x58, 0x4E, 0x54, 0x53]);
    assert_eq!(b.debounce_ms, 100);
}

#[test]
fn leader_and_mark_toggle_marking() {
    let b = hotkey_bindings(&AppConfig::default());
    let mut down = [false; 256];
    down['O' as usize] = true;
    down['M' as usize] = true;
    let elapsed = [1_000_000_000u128; 8];
    let mut prev = [false; 256];
    prev[3] = true;
    let f = hotkey_step(&b, &down, &elapsed, &mut prev);
    assert_eq!(f.fired, [false, true, false, false, false, false, false, false]);
    assert_eq!(f.commands.len(), 1);
    assert!(matches!(f.commands[0], AppCommand::ToggleOverlayMode(OverlayMode::Marking)));
    assert!(prev[3]);
    assert!(!prev['O' as usize]);
}

#[test]
fn several_hotkeys_fire_in_order_and_search_resyncs_keys() {
    let b = hotkey_bindings(&AppConfig::default());
    let mut down = [false; 256];
    for k in ['O', 'S', 'X', 'P'] {
        down[k as usize] = true;
    }
    let mut elapsed = [1_000_000_000u128; 8];
    elapsed[4] = 5;
    let mut prev = [false; 256];
    let f = hotkey_step(&b, &down, &elapsed, &mut prev);
    assert_eq!(f.fired, [true, false, false, false, false, false, false, true]);
    assert_eq!(f.commands.len(), 2);
    assert!(matches!(f.commands[0], AppCommand::ToggleOverlayMode(OverlayMode::Paused)));
    assert!(matches!(f.commands[1], AppCommand::ToggleOverlayMode(OverlayMode::Search)));
    assert_eq!(prev, down);
}

#[test]
fn without_the_leader_nothing_fires() {
    let b = hotkey_bindings(&AppConfig::default());
    let mut down = [false; 256];
    down['M' as usize] = true;
    let mut prev = [false; 256];
    let f = hotkey_step(&b, &down, &[1_000_000_000u128; 8], &mut prev);
    assert!(f.commands.is_empty());
    assert_eq!(f.fired, [false; 8]);
}

#[test]
fn search_keys_are_collected_in_order() {
    let mut down = [false; 256];
    down[0x20] = true;
    down['A' as usize] = true;
    down['1' as usize] = true;
    down[0x08] = true;
    let mut prev = [false; 256];
    let k = scan_search_keys(&down, &mut prev);
    assert!(!k.close);
    assert!(k.backspace);
    assert_eq!(k.chars.iter().collect::<String>(), " a1");
    let again = scan_search_keys(&down, &mut prev);
    assert!(!again.backspace);
    assert!(again.chars.is_empty());
}

#[test]
fn typing_searches_the_price_table() {
    let mut dl = DrawListState::default();
    dl.mode = OverlayMode::Search;
    let keys = SearchKeys { close: false, backspace: false, chars: "iron".chars().collect() };
    apply_search_keys(&mut dl, &keys, &table(), true);
    assert_eq!(dl.search_query, "iron");
    assert_eq!(dl.search_results.len(), 2);
    assert_eq!(dl.search_results[0].name, "iron_bar");
    assert_eq!(dl.search_results[1].name, "iron_sword");
    assert!(dl.is_ng_plus);
    let back = SearchKeys { close: false, backspace: true, chars: "_s".chars().collect() };
    apply_search_keys(&mut dl, &back, &table(), false);
    assert_eq!(dl.search_query, "iro_s");
    assert_eq!(dl.search_results.len(), 0);
    assert!(!dl.is_ng_plus);
}

#[test]
fn escape_closes_the_search() {
    let mut dl = DrawListState::default();
    dl.mode = OverlayMode::Search;
    dl.search_query = "iron".to_string();
    let keys = SearchKeys { close: true, backspace: true, chars: vec!['x'] };
    apply_search_keys(&mut dl, &keys, &table(), false);
    assert_eq!(dl.mode, OverlayMode::Passive);
    assert!(dl.search_query.is_empty());
    assert!(dl.search_results.is_empty());
}

#[test]
fn search_input_only_while_searching() {
    let mut dl = DrawListState::default();
    let mut down = [false; 256];
    down['G' as usize] = true;
    let mut prev = [true; 256];
    assert!(search_input_step(&mut dl, &down, &mut prev, &table(), false).is_none());
    assert_eq!(prev, [false; 256]);
    assert!(dl.search_query.is_empty());
    dl.mode = OverlayMode::Search;
    let k = search_input_step(&mut dl, &down, &mut prev, &table(), false).unwrap();
    assert_eq!(k.chars, vec!['g']);
    assert_eq!(dl.search_query, "g");
    assert_eq!(dl.search_results.len(), 1);
    assert_eq!(dl.search_results[0].name, "golem_core");
}

#[test]
fn foreground_window_check() {
    assert!(is_target_foreground("^Moonlighter$", "Moonlighter"));
    assert!(!is_target_foreground("^Moonlighter$", "Steam"));
    assert!(!is_target_foreground("", ""));
    assert!(is_target_foreground("", "Any window"));
    let m = TitleMatcher::new("moon");
    assert!(title_is_target(&m, "Moonlighter"));
    assert!(!title_is_target(&m, ""));
}

#[test]
fn the_listener_ignores_keys_while_the_game_is_not_in_front() {
    let cfg = AppConfig::default();
    let mut cache = TitleCache::new();
    let mut down = [false; 256];
    down['O' as usize] = true;
    down['M' as usize] = true;
    let elapsed = [1_000_000_000u128; 8];
    let mut prev = [true; 256];
    assert!(listener_tick(&mut cache, &cfg, "Notepad", &down, &elapsed, &mut prev).is_none());
    assert!(prev.iter().all(|p| !p));
    assert_eq!(cache.title, cfg.target_window_title);
    assert!(listener_tick(&mut cache, &cfg, "", &down, &elapsed, &mut prev).is_none());
    let f = listener_tick(&mut cache, &cfg, "Moonlighter", &down, &elapsed, &mut prev).unwrap();
    assert_eq!(f.fired, [false, true, false, false, false, false, false, false]);
    assert!(matches!(f.commands[0], AppCommand::ToggleOverlayMode(OverlayMode::Marking)));
    let mut other = cfg.clone();
    other.target_window_title = "Notepad".to_string();
    let f = listener_tick(&mut cache, &other, "Notepad", &down, &elapsed, &mut prev).unwrap();
    assert_eq!(cache.title, "Notepad");
    assert_eq!(f.commands.len(), 1);
}
