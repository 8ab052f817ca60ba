use moonlighter_overlay::logger::format_timestamp;
use moonlighter_overlay::config::{AppConfig, CustomSlotConfig, TitleMatcher, CONFIG_PATH};
use moonlighter_overlay::matchers::{ExecutionMode, MatcherAlgorithm, Rect};
use moonlighter_overlay::text::{
    chars_of, contains, decimal_string, has_prefix, has_suffix, path_file_name, replace, stem_of,
    string_of, trim,
};

fn s(v: Vec<char>) -> String {
    v.into_iter().collect()
}

#[test]
fn trim_drops_surrounding_white_space() {
    assert_eq!(s(trim("  a b \t\n")), "a b");
    assert_eq!(s(trim("   ")), "");
    assert_eq!(s(trim("x")), "x");
}

#[test]
fn decimal_string_writes_digits() {
    assert_eq!(decimal_string(0), "0");
    assert_eq!(decimal_string(12045), "12045");
    assert_eq!(decimal_string(u64::MAX), "18446744073709551615");
}

#[test]
fn case_conversion_reaches_names_and_hotkeys() {
    assert_eq!(moonlighter_overlay::shop::assets::normalize_name("AbC-1"), "abc_1");
    assert_eq!(moonlighter_overlay::hotkeys::parse_hotkey_vk("f5"), 0x74);
    assert_eq!(moonlighter_overlay::tray::format_hotkey_label("o", "x"), "O+X");
    assert_eq!(moonlighter_overlay::overlay::renderer::format_item_name("élan_vital"), "Élan Vital");
}

#[test]
fn prefix_and_suffix_tests() {
    assert!(has_prefix("items/a_mask.png", "items/"));
    assert!(!has_prefix("item", "items/"));
    assert!(has_suffix("items/a_mask.png", "_mask.png"));
    assert!(!has_suffix("items/a.png", "_mask.png"));
    assert!(has_prefix("abc", ""));
    assert!(has_suffix("abc", ""));
}

#[test]
fn replace_replaces_every_occurrence_from_the_left() {
    assert_eq!(replace("items/a_mask.png", "_mask.png", ".png"), "items/a.png");
    assert_eq!(replace("x_mask.png_mask.png", "_mask.png", ".png"), "x.png.png");
    assert_eq!(replace("aaa", "aa", "b"), "ba");
    assert_eq!(replace("none here", "_mask.png", ".png"), "none here");
}

#[test]
fn file_names_and_stems() {
    assert_eq!(s(path_file_name("items/ores/iron_bar.png")), "iron_bar.png");
    assert_eq!(s(path_file_name("plain.png")), "plain.png");
    assert_eq!(s(path_file_name("dir/")), "");
    assert_eq!(s(stem_of(&chars_of("iron_bar.png"))), "iron_bar");
    assert_eq!(s(stem_of(&chars_of("a.b.c"))), "a.b");
    assert_eq!(s(stem_of(&chars_of("noext"))), "noext");
}

#[test]
fn substring_search() {
    assert!(contains(&chars_of("moonlighter window"), &chars_of("light")));
    assert!(!contains(&chars_of("moon"), &chars_of("moonlight")));
    assert!(contains(&chars_of("abc"), &chars_of("")));
    assert_eq!(string_of(&chars_of("round trip")), "round trip");
}

#[test]
fn title_matcher_uses_a_case_insensitive_expression() {
    let m = TitleMatcher::new("^Moonlighter$");
    assert!(m.is_match("Moonlighter"));
    assert!(m.is_match("MOONLIGHTER"));
    assert!(!m.is_match("Moonlighter 2"));
    assert!(!m.is_match("Notepad"));
}

#[test]
fn title_matcher_with_empty_pattern_matches_every_window() {
    let m = TitleMatcher::new("   ");
    assert!(m.is_match("anything"));
    assert!(m.is_match(""));
}

#[test]
fn title_matcher_falls_back_to_substring_for_bad_expressions() {
    let m = TitleMatcher::new("  (Broken ");
    assert!(m.is_match("a (broken window"));
    assert!(m.is_match("A (BROKEN"));
    assert!(!m.is_match("broken"));
}

#[test]
fn slot_settings_round_trip() {
    let r = Rect::new(10, 20, 30, 40);
    let c = CustomSlotConfig::from_rect(r);
    assert_eq!((c.x, c.y, c.width, c.height), (10, 20, 30, 40));
    assert_eq!(c.to_rect(), r);
}

#[test]
fn default_settings() {
    let c = AppConfig::default();
    assert!(!c.debug_mode);
    assert_eq!(c.match_algorithm, MatcherAlgorithm::ZNCC);
    assert!(c.use_simd);
    assert_eq!(c.sample_step, 1);
    assert_eq!(c.detection_delay_ms, 500);
    assert_eq!(c.render_delay_ms, 33);
    assert_eq!(c.debounce_ms, 100);
    assert_eq!(c.leader_key, "O");
    assert_eq!(c.mark_region_hotkey, "M");
    assert_eq!(c.toggle_debug_hotkey, "D");
    assert_eq!(c.detect_window_hotkey, "R");
    assert_eq!(c.exit_app_hotkey, "X");
    assert_eq!(c.toggle_ng_plus_hotkey, "N");
    assert_eq!(c.dump_templates_hotkey, "T");
    assert_eq!(c.manual_search_hotkey, "S");
    assert_eq!(c.pause_overlay_hotkey, "P");
    assert_eq!(c.target_window_title, "^Moonlighter$");
    assert!(!c.ng_plus_mode);
    assert!(c.marked_slots.is_empty());
    assert_eq!(CONFIG_PATH, "moonlighter_overlay_config.toml");
}

#[test]
fn execution_mode_follows_the_simd_setting() {
    let mut c = AppConfig::default();
    assert_eq!(c.execution_mode(), ExecutionMode::Simd);
    c.use_simd = false;
    assert_eq!(c.execution_mode(), ExecutionMode::Normal);
}

#[test]
fn timestamps_are_zero_padded() {
    assert_eq!(format_timestamp(2024, 3, 7, 9, 5, 2, 45), "2024-03-07 09:05:02:045");
    assert_eq!(format_timestamp(7, 12, 31, 23, 59, 59, 999), "0007-12-31 23:59:59:999");
    assert_eq!(format_timestamp(12345, 0, 0, 0, 0, 0, 1000), "12345-00-00 00:00:00:1000");
}
