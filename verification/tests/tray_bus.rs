use moonlighter_overlay::config::AppConfig;
use moonlighter_overlay::event_bus::{create_command_bus, AppCommand, CommandBus};
use moonlighter_overlay::overlay::draw_list::OverlayMode;
use moonlighter_overlay::tray::{format_hotkey_label, to_wstring, tray_menu, TrayMenuItem};

#[test]
fn menu_ids_round_trip() {
    let all = [
        TrayMenuItem::Pause,
        TrayMenuItem::Search,
        TrayMenuItem::Marking,
        TrayMenuItem::NgPlus,
        TrayMenuItem::Redetect,
        TrayMenuItem::Exit,
        TrayMenuItem::Debug,
        TrayMenuItem::Dump,
    ];
    for (i, item) in all.iter().enumerate() {
        assert_eq!(item.menu_id(), 1001 + i as u32);
        assert_eq!(TrayMenuItem::try_from(item.menu_id()), Ok(*item));
    }
    assert_eq!(TrayMenuItem::try_from(1000), Err(()));
    assert_eq!(TrayMenuItem::try_from(1009), Err(()));
}

#[test]
fn menu_entries_send_commands() {
    assert!(matches!(TrayMenuItem::Pause.to_app_command(), AppCommand::ToggleOverlayMode(OverlayMode::Paused)));
    assert!(matches!(TrayMenuItem::Search.to_app_command(), AppCommand::ToggleOverlayMode(OverlayMode::Search)));
    assert!(matches!(TrayMenuItem::Marking.to_app_command(), AppCommand::ToggleOverlayMode(OverlayMode::Marking)));
    assert!(matches!(TrayMenuItem::Debug.to_app_command(), AppCommand::ToggleDebugMode));
    assert!(matches!(TrayMenuItem::NgPlus.to_app_command(), AppCommand::ToggleNgPlusMode));
    assert!(matches!(TrayMenuItem::Redetect.to_app_command(), AppCommand::RequestRedetect));
    assert!(matches!(TrayMenuItem::Dump.to_app_command(), AppCommand::DumpTemplates));
    assert!(matches!(TrayMenuItem::Exit.to_app_command(), AppCommand::Exit));
}

#[test]
fn wide_strings_end_with_zero() {
    assert_eq!(to_wstring("Hi"), vec![72, 105, 0]);
    assert_eq!(to_wstring(""), vec![0]);
    assert_eq!(to_wstring("é𝄞"), vec![0xE9, 0xD834, 0xDD1E, 0]);
}

#[test]
fn hotkey_labels() {
    assert_eq!(format_hotkey_label("o", " m "), "O+M");
    assert_eq!(format_hotkey_label("", "f8"), "F8");
    assert_eq!(format_hotkey_label("  ", "x"), "X");
}

#[test]
fn tray_menu_follows_mode_and_settings() {
    let mut cfg = AppConfig::default();
    let m = tray_menu(OverlayMode::Passive, &cfg);
    let labels: Vec<&str> = m.iter().map(|e| e.label.as_str()).collect();
    assert_eq!(labels[0], "Pause Overlay (O+P)");
    assert_eq!(labels[1], "Search Items (O+S)");
    assert_eq!(labels[2], "Mark Slots (O+M)");
    assert_eq!(labels[3], "Debug Mode [OFF] (O+D)");
    assert_eq!(labels[4], "NG+ Mode [OFF] (O+N)");
    assert_eq!(labels[5], "Redetect Window (O+R)");
    assert_eq!(labels[6], "Dump Asset Templates (O+T)");
    assert!(m[7].item.is_none());
    assert_eq!(labels[8], "Exit Application (O+X)");
    assert!(!m[0].checked);
    cfg.debug_mode = true;
    let m = tray_menu(OverlayMode::Paused, &cfg);
    assert_eq!(m[0].label, "Resume Overlay (O+P)");
    assert!(m[0].checked);
    assert!(m[3].checked);
    assert_eq!(m[3].label, "Debug Mode [ON] (O+D)");
}

#[test]
fn the_command_bus_delivers_in_order() {
    let (tx, rx) = create_command_bus();
    let bus = CommandBus::new(tx);
    bus.send(AppCommand::RequestRedetect);
    let other = bus.clone_sender();
    other.send(AppCommand::Exit).unwrap();
    assert!(matches!(rx.recv().unwrap(), AppCommand::RequestRedetect));
    assert!(matches!(rx.recv().unwrap(), AppCommand::Exit));
}
