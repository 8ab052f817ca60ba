//! The system-tray menu: its entries and what choosing one asks for.

use crate::config::AppConfig;
use crate::event_bus::AppCommand;
use crate::overlay::draw_list::OverlayMode;
use crate::text::{trimmed, uppercase};
use vstd::prelude::*;

verus! {

/// An entry of the tray menu.
#[derive(Debug, Clone, Copy, PartialEq, Eq, Structural)]
pub enum TrayMenuItem {
    Pause,
    Search,
    Marking,
    NgPlus,
    Redetect,
    Exit,
    Debug,
    Dump,
}

/// The command identifier the menu reports for an entry.
pub open spec fn menu_id_of(item: TrayMenuItem) -> u32 {
    match item {
        TrayMenuItem::Pause => 1001,
        TrayMenuItem::Search => 1002,
        TrayMenuItem::Marking => 1003,
        TrayMenuItem::NgPlus => 1004,
        TrayMenuItem::Redetect => 1005,
        TrayMenuItem::Exit => 1006,
        TrayMenuItem::Debug => 1007,
        TrayMenuItem::Dump => 1008,
    }
}

impl TryFrom<u32> for TrayMenuItem {
    type Error = ();

    fn try_from(value: u32) -> (r: Result<Self, Self::Error>)
        ensures
            r matches Ok(item) ==> menu_id_of(item) == value,
            r is Err ==> !(1001 <= value <= 1008),
    {
        match value {
            1001 => Ok(TrayMenuItem::Pause),
            1002 => Ok(TrayMenuItem::Search),
            1003 => Ok(TrayMenuItem::Marking),
            1004 => Ok(TrayMenuItem::NgPlus),
            1005 => Ok(TrayMenuItem::Redetect),
            1006 => Ok(TrayMenuItem::Exit),
            1007 => Ok(TrayMenuItem::Debug),
            1008 => Ok(TrayMenuItem::Dump),
            _ => Err(()),
        }
    }
}

impl vstd::std_specs::convert::TryFromSpecImpl<u32> for TrayMenuItem {
    open spec fn obeys_try_from_spec() -> bool {
        true
    }

    open spec fn try_from_spec(v: u32) -> Result<Self, ()> {
        match v {
            1001 => Ok(TrayMenuItem::Pause),
            1002 => Ok(TrayMenuItem::Search),
            1003 => Ok(TrayMenuItem::Marking),
            1004 => Ok(TrayMenuItem::NgPlus),
            1005 => Ok(TrayMenuItem::Redetect),
            1006 => Ok(TrayMenuItem::Exit),
            1007 => Ok(TrayMenuItem::Debug),
            1008 => Ok(TrayMenuItem::Dump),
            _ => Err(()),
        }
    }
}

/// Identifiers are distinct and all lie in `1001..=1008`, so reading an
/// entry's identifier back gives the same entry.
pub proof fn lemma_menu_id_injective(a: TrayMenuItem, b: TrayMenuItem)
    ensures
        1001 <= menu_id_of(a) <= 1008,
        menu_id_of(a) == menu_id_of(b) <==> a == b,
{
}

/// The command an entry sends.
pub open spec fn command_of(item: TrayMenuItem) -> AppCommand {
    match item {
        TrayMenuItem::Pause => AppCommand::ToggleOverlayMode(OverlayMode::Paused),
        TrayMenuItem::Search => AppCommand::ToggleOverlayMode(OverlayMode::Search),
        TrayMenuItem::Marking => AppCommand::ToggleOverlayMode(OverlayMode::Marking),
        TrayMenuItem::Debug => AppCommand::ToggleDebugMode,
        TrayMenuItem::NgPlus => AppCommand::ToggleNgPlusMode,
        TrayMenuItem::Redetect => AppCommand::RequestRedetect,
        TrayMenuItem::Dump => AppCommand::DumpTemplates,
        TrayMenuItem::Exit => AppCommand::Exit,
    }
}

impl TrayMenuItem {
    /// The command identifier the menu reports for this entry.
    pub fn menu_id(self) -> (id: u32)
        ensures
            id == menu_id_of(self),
    {
        match self {
            TrayMenuItem::Pause => 1001,
            TrayMenuItem::Search => 1002,
            TrayMenuItem::Marking => 1003,
            TrayMenuItem::NgPlus => 1004,
            TrayMenuItem::Redetect => 1005,
            TrayMenuItem::Exit => 1006,
            TrayMenuItem::Debug => 1007,
            TrayMenuItem::Dump => 1008,
        }
    }

    pub fn to_app_command(self) -> (c: AppCommand)
        ensures
            c == command_of(self),
    {
        match self {
            TrayMenuItem::Pause => AppCommand::ToggleOverlayMode(OverlayMode::Paused),
            TrayMenuItem::Search => AppCommand::ToggleOverlayMode(OverlayMode::Search),
            TrayMenuItem::Marking => AppCommand::ToggleOverlayMode(OverlayMode::Marking),
            TrayMenuItem::Debug => AppCommand::ToggleDebugMode,
            TrayMenuItem::NgPlus => AppCommand::ToggleNgPlusMode,
            TrayMenuItem::Redetect => AppCommand::RequestRedetect,
            TrayMenuItem::Dump => AppCommand::DumpTemplates,
            TrayMenuItem::Exit => AppCommand::Exit,
        }
    }
}

/// UTF-16 code units of one character.
pub open spec fn utf16_units(c: char) -> Seq<u16> {
    let u = c as u32;
    if u < 0x10000 {
        seq![u as u16]
    } else {
        seq![(0xD800 + ((u - 0x10000) / 0x400)) as u16, (0xDC00 + ((u - 0x10000) % 0x400)) as u16]
    }
}

/// UTF-16 encoding of a character sequence.
pub open spec fn utf16_of(s: Seq<char>) -> Seq<u16>
    decreases s.len(),
{
    if s.len() == 0 {
        Seq::empty()
    } else {
        utf16_of(s.drop_last()) + utf16_units(s.last())
    }
}

/// `s` as a zero-terminated UTF-16 string, the form the Windows API takes.
pub fn to_wstring(s: &str) -> (w: Vec<u16>)
    ensures
        w@ == utf16_of(s@).push(0u16),
{
    let cs = crate::text::chars_of(s);
    let mut w: Vec<u16> = Vec::new();
    let mut i: usize = 0;
    while i < cs.len()
        invariant
            cs@ == s@,
            i <= cs@.len(),
            w@ == utf16_of(cs@.take(i as int)),
        decreases cs@.len() - i,
    {
        let c = cs[i];
        let u = c as u32;
        proof {
            assert(cs@.take(i + 1).drop_last() =~= cs@.take(i as int));
        }
        if u < 0x10000 {
            w.push(u as u16);
        } else {
            let v = u - 0x10000;
            w.push((0xD800 + v / 0x400) as u16);
            w.push((0xDC00 + v % 0x400) as u16);
        }
        proof {
            assert(w@ =~= utf16_of(cs@.take(i + 1)));
        }
        i += 1;
    }
    proof {
        assert(cs@.take(cs@.len() as int) =~= cs@);
    }
    w.push(0);
    w
}

/// The label of a hotkey: leader and key trimmed and uppercased, joined by
/// `+`, or the key alone when there is no leader.
pub open spec fn hotkey_label(leader: Seq<char>, key: Seq<char>) -> Seq<char> {
    let l = uppercase(trimmed(leader));
    let k = uppercase(trimmed(key));
    if l.len() == 0 { k } else { l + seq!['+'] + k }
}

fn upper_trimmed(s: &str) -> (r: String)
    ensures
        r@ == uppercase(trimmed(s@)),
{
    let t = crate::text::trim(s);
    let ts = crate::text::string_of(&t);
    crate::text::to_uppercase(ts.as_str())
}

pub fn format_hotkey_label(leader: &str, key: &str) -> (r: String)
    ensures
        r@ == hotkey_label(leader@, key@),
{
    let leader = upper_trimmed(leader);
    let key = upper_trimmed(key);
    if leader.as_str().is_empty() {
        key
    } else {
        let mut out = leader;
        crate::text::string_push(&mut out, '+');
        out.append(key.as_str());
        out
    }
}

/// One line of the tray menu: an entry with its label and check mark, or a
/// separator.
#[derive(Debug, Clone)]
pub struct MenuEntry {
    pub item: Option<TrayMenuItem>,
    pub label: String,
    pub checked: bool,
}

/// `prefix` followed by ` (`, the hotkey label and `)`.
pub open spec fn labelled(prefix: Seq<char>, hotkey: Seq<char>) -> Seq<char> {
    prefix + seq![' ', '('] + hotkey + seq![')']
}

fn entry_with_hotkey(item: TrayMenuItem, prefix: &str, leader: &str, key: &str, checked: bool) -> (e: MenuEntry)
    ensures
        e.item == Some(item),
        e.label@ == labelled(prefix@, hotkey_label(leader@, key@)),
        e.checked == checked,
{
    let hk = format_hotkey_label(leader, key);
    let mut label = String::from_str(prefix);
    label.append(" (");
    label.append(hk.as_str());
    label.append(")");
    proof {
        reveal_strlit(" (");
        reveal_strlit(")");
        assert(label@ =~= labelled(prefix@, hotkey_label(leader@, key@)));
    }
    MenuEntry { item: Some(item), label, checked }
}

/// The tray menu for the current mode and settings, top to bottom: pause
/// (checked while paused), search, marking, debug mode, New Game+ mode,
/// redetect, dump, a separator and exit, each labelled with its hotkey.
pub fn tray_menu(mode: OverlayMode, cfg: &AppConfig) -> (m: Vec<MenuEntry>)
    ensures
        m@.len() == 9,
        m@[0].item == Some(TrayMenuItem::Pause) && m@[0].checked == (mode == OverlayMode::Paused)
            && m@[0].label@ == labelled(
            if mode == OverlayMode::Paused { "Resume Overlay"@ } else { "Pause Overlay"@ },
            hotkey_label(cfg.leader_key@, cfg.pause_overlay_hotkey@),
        ),
        m@[1].item == Some(TrayMenuItem::Search) && m@[1].checked == (mode == OverlayMode::Search)
            && m@[1].label@ == labelled("Search Items"@, hotkey_label(cfg.leader_key@, cfg.manual_search_hotkey@)),
        m@[2].item == Some(TrayMenuItem::Marking) && m@[2].checked == (mode == OverlayMode::Marking)
            && m@[2].label@ == labelled("Mark Slots"@, hotkey_label(cfg.leader_key@, cfg.mark_region_hotkey@)),
        m@[3].item == Some(TrayMenuItem::Debug) && m@[3].checked == cfg.debug_mode
            && m@[3].label@ == labelled(
            if cfg.debug_mode { "Debug Mode [ON]"@ } else { "Debug Mode [OFF]"@ },
            hotkey_label(cfg.leader_key@, cfg.toggle_debug_hotkey@),
        ),
        m@[4].item == Some(TrayMenuItem::NgPlus) && m@[4].checked == cfg.ng_plus_mode
            && m@[4].label@ == labelled(
            if cfg.ng_plus_mode { "NG+ Mode [ON]"@ } else { "NG+ Mode [OFF]"@ },
            hotkey_label(cfg.leader_key@, cfg.toggle_ng_plus_hotkey@),
        ),
        m@[5].item == Some(TrayMenuItem::Redetect) && !m@[5].checked
            && m@[5].label@ == labelled("Redetect Window"@, hotkey_label(cfg.leader_key@, cfg.detect_window_hotkey@)),
        m@[6].item == Some(TrayMenuItem::Dump) && !m@[6].checked
            && m@[6].label@ == labelled("Dump Asset Templates"@, hotkey_label(cfg.leader_key@, cfg.dump_templates_hotkey@)),
        m@[7].item is None,
        m@[8].item == Some(TrayMenuItem::Exit) && !m@[8].checked
            && m@[8].label@ == labelled("Exit Application"@, hotkey_label(cfg.leader_key@, cfg.exit_app_hotkey@)),
{
    let leader = cfg.leader_key.as_str();
    let is_paused = mode == OverlayMode::Paused;
    let mut m: Vec<MenuEntry> = Vec::new();
    m.push(entry_with_hotkey(
        TrayMenuItem::Pause,
        if is_paused { "Resume Overlay" } else { "Pause Overlay" },
        leader,
        cfg.pause_overlay_hotkey.as_str(),
        is_paused,
    ));
    m.push(entry_with_hotkey(
        TrayMenuItem::Search,
        "Search Items",
        leader,
        cfg.manual_search_hotkey.as_str(),
        mode == OverlayMode::Search,
    ));
    m.push(entry_with_hotkey(
        TrayMenuItem::Marking,
        "Mark Slots",
        leader,
        cfg.mark_region_hotkey.as_str(),
        mode == OverlayMode::Marking,
    ));
    m.push(entry_with_hotkey(
        TrayMenuItem::Debug,
        if cfg.debug_mode { "Debug Mode [ON]" } else { "Debug Mode [OFF]" },
        leader,
        cfg.toggle_debug_hotkey.as_str(),
        cfg.debug_mode,
    ));
    m.push(entry_with_hotkey(
        TrayMenuItem::NgPlus,
        if cfg.ng_plus_mode { "NG+ Mode [ON]" } else { "NG+ Mode [OFF]" },
        leader,
        cfg.toggle_ng_plus_hotkey.as_str(),
        cfg.ng_plus_mode,
    ));
    m.push(entry_with_hotkey(
        TrayMenuItem::Redetect,
        "Redetect Window",
        leader,
        cfg.detect_window_hotkey.as_str(),
        false,
    ));
    m.push(entry_with_hotkey(
        TrayMenuItem::Dump,
        "Dump Asset Templates",
        leader,
        cfg.dump_templates_hotkey.as_str(),
        false,
    ));
    m.push(MenuEntry { item: None, label: String::new(), checked: false });
    m.push(entry_with_hotkey(
        TrayMenuItem::Exit,
        "Exit Application",
        leader,
        cfg.exit_app_hotkey.as_str(),
        false,
    ));
    m
}

} // verus!
