//! User settings and the window-title matcher.

use crate::matchers::{ExecutionMode, MatcherAlgorithm, Rect};
use crate::text::{lowercase, seq_contains, trimmed};
use vstd::prelude::*;

verus! {

/// Where the settings are kept, next to the executable.
pub const CONFIG_PATH: &'static str = "moonlighter_overlay_config.toml";

#[verifier::external_type_specification]
#[verifier::external_body]
pub struct ExRegex(regex::Regex);

/// Whether `regex::RegexBuilder` with case-insensitive matching accepts
/// `pattern`.
pub uninterp spec fn ci_regex_compiles(pattern: Seq<char>) -> bool;

/// Whether the case-insensitive regular expression `pattern` matches
/// somewhere in `text`, as `regex::Regex::is_match` decides.
pub uninterp spec fn ci_regex_matches(pattern: Seq<char>, text: Seq<char>) -> bool;

/// A case-insensitive regular expression together with the pattern it was
/// built from.
pub struct CompiledPattern {
    re: regex::Regex,
    source: Ghost<Seq<char>>,
}

impl CompiledPattern {
    pub closed spec fn source(&self) -> Seq<char> {
        self.source@
    }
}

/// Calls `regex::RegexBuilder::new(pattern).case_insensitive(true).build()`.
/// Claims that it succeeds exactly when the named predicate says the pattern
/// compiles, and records the pattern the expression was built from.
#[verifier::external_body]
fn build_case_insensitive(pattern: &str) -> (r: Option<CompiledPattern>)
    ensures
        r is Some <==> ci_regex_compiles(pattern@),
        r matches Some(c) ==> c.source() == pattern@,
{
    regex::RegexBuilder::new(pattern).case_insensitive(true).build().ok().map(
        |re| CompiledPattern { re, source: Ghost(pattern@) },
    )
}

/// Calls `regex::Regex::is_match`; claims that the answer is the named
/// match predicate of the pattern the expression was built from.
#[verifier::external_body]
fn regex_is_match(p: &CompiledPattern, text: &str) -> (r: bool)
    ensures
        r == ci_regex_matches(p.source(), text@),
{
    p.re.is_match(text)
}

/// Whether a window titled `title` is the one the trimmed pattern
/// `pattern` designates: every window for an empty pattern; else a
/// case-insensitive regular-expression match, or, for a pattern that is no
/// valid expression, a case-insensitive substring test.
pub open spec fn title_matches(pattern: Seq<char>, title: Seq<char>) -> bool {
    if pattern.len() == 0 {
        true
    } else if ci_regex_compiles(pattern) {
        ci_regex_matches(pattern, title)
    } else {
        seq_contains(lowercase(title), lowercase(pattern))
    }
}

/// Decides whether a window title designates the game window.
pub struct TitleMatcher {
    pattern: String,
    regex: Option<CompiledPattern>,
}

impl TitleMatcher {
    /// The trimmed pattern the matcher was made from.
    pub closed spec fn pattern(&self) -> Seq<char> {
        self.pattern@
    }

    /// The compiled expression, when there is one, belongs to the pattern.
    #[verifier::type_invariant]
    spec fn wf(&self) -> bool {
        &&& self.regex is Some <==> ci_regex_compiles(self.pattern@)
        &&& self.regex matches Some(c) ==> c.source() == self.pattern@
    }

    pub fn new(pattern: &str) -> (m: Self)
        ensures
            m.pattern() == trimmed(pattern@),
    {
        let t = crate::text::trim(pattern);
        let pattern = crate::text::string_of(&t);
        let regex = build_case_insensitive(pattern.as_str());
        TitleMatcher { pattern, regex }
    }

    pub fn is_match(&self, window_title: &str) -> (b: bool)
        ensures
            b == title_matches(self.pattern(), window_title@),
    {
        proof {
            use_type_invariant(self);
        }
        if self.pattern.as_str().is_empty() {
            return true;
        }
        match &self.regex {
            Some(re) => regex_is_match(re, window_title),
            None => {
                let title = crate::text::to_lowercase(window_title);
                let pat = crate::text::to_lowercase(self.pattern.as_str());
                let tv = crate::text::chars_of(title.as_str());
                let pv = crate::text::chars_of(pat.as_str());
                crate::text::contains(&tv, &pv)
            },
        }
    }
}

/// A shop slot marked by hand, in screen pixels.
#[derive(Debug, Clone, Copy, PartialEq, Eq, Structural)]
pub struct CustomSlotConfig {
    pub x: u32,
    pub y: u32,
    pub width: u32,
    pub height: u32,
}

impl CustomSlotConfig {
    pub fn to_rect(&self) -> (r: Rect)
        ensures
            r == (Rect { x: self.x, y: self.y, width: self.width, height: self.height }),
    {
        Rect { x: self.x, y: self.y, width: self.width, height: self.height }
    }

    pub fn from_rect(r: Rect) -> (c: Self)
        ensures
            c == (CustomSlotConfig { x: r.x, y: r.y, width: r.width, height: r.height }),
    {
        CustomSlotConfig { x: r.x, y: r.y, width: r.width, height: r.height }
    }
}

/// Converting a marked slot to a rectangle and back gives the same slot, and
/// the other way round.
pub proof fn lemma_slot_rect_round_trip(c: CustomSlotConfig, r: Rect)
    ensures
        ({
            let r2 = Rect { x: c.x, y: c.y, width: c.width, height: c.height };
            (CustomSlotConfig { x: r2.x, y: r2.y, width: r2.width, height: r2.height }) == c
        }),
        ({
            let c2 = CustomSlotConfig { x: r.x, y: r.y, width: r.width, height: r.height };
            (Rect { x: c2.x, y: c2.y, width: c2.width, height: c2.height }) == r
        }),
{
}

/// The user's settings.
#[derive(Debug, Clone)]
pub struct AppConfig {
    pub debug_mode: bool,
    pub match_algorithm: MatcherAlgorithm,
    pub use_simd: bool,
    pub sample_step: u32,
    pub detection_delay_ms: u64,
    pub render_delay_ms: u64,
    pub debounce_ms: u64,
    pub leader_key: String,
    pub mark_region_hotkey: String,
    pub toggle_debug_hotkey: String,
    pub detect_window_hotkey: String,
    pub exit_app_hotkey: String,
    pub toggle_ng_plus_hotkey: String,
    pub dump_templates_hotkey: String,
    pub manual_search_hotkey: String,
    pub pause_overlay_hotkey: String,
    pub target_window_title: String,
    pub ng_plus_mode: bool,
    pub marked_slots: Vec<CustomSlotConfig>,
}

impl Default for AppConfig {
    fn default() -> (c: Self)
        ensures
            !c.debug_mode,
            c.match_algorithm == MatcherAlgorithm::ZNCC,
            c.use_simd,
            c.sample_step == 1,
            c.detection_delay_ms == 500,
            c.render_delay_ms == 33,
            c.debounce_ms == 100,
            c.leader_key@ == "O"@,
            c.mark_region_hotkey@ == "M"@,
            c.toggle_debug_hotkey@ == "D"@,
            c.detect_window_hotkey@ == "R"@,
            c.exit_app_hotkey@ == "X"@,
            c.toggle_ng_plus_hotkey@ == "N"@,
            c.dump_templates_hotkey@ == "T"@,
            c.manual_search_hotkey@ == "S"@,
            c.pause_overlay_hotkey@ == "P"@,
            c.target_window_title@ == "^Moonlighter$"@,
            !c.ng_plus_mode,
            c.marked_slots@.len() == 0,
    {
        AppConfig {
            debug_mode: false,
            match_algorithm: MatcherAlgorithm::ZNCC,
            use_simd: true,
            sample_step: 1,
            detection_delay_ms: 500,
            render_delay_ms: 33,
            debounce_ms: 100,
            leader_key: String::from_str("O"),
            mark_region_hotkey: String::from_str("M"),
            toggle_debug_hotkey: String::from_str("D"),
            detect_window_hotkey: String::from_str("R"),
            exit_app_hotkey: String::from_str("X"),
            toggle_ng_plus_hotkey: String::from_str("N"),
            dump_templates_hotkey: String::from_str("T"),
            manual_search_hotkey: String::from_str("S"),
            pause_overlay_hotkey: String::from_str("P"),
            target_window_title: String::from_str("^Moonlighter$"),
            ng_plus_mode: false,
            marked_slots: Vec::new(),
        }
    }
}

impl AppConfig {
    /// The vectorised kernels when `use_simd` is set, the scalar ones otherwise.
    pub fn execution_mode(&self) -> (m: ExecutionMode)
        ensures
            m == if self.use_simd { ExecutionMode::Simd } else { ExecutionMode::Normal },
    {
        if self.use_simd {
            ExecutionMode::Simd
        } else {
            ExecutionMode::Normal
        }
    }
}

} // verus!
