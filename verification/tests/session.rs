use duomic::config::{Config, MeterStyle};
use duomic::devices::{find_device_by_name, get_virtual_device_names, is_virtual_device, AudioDevice};
use duomic::flow::{App, AppAction, AppState};
use duomic::protocol::DeviceInfo;
use duomic::ui::{InputState, KeyAction, KeyPress, ListState};

#[test]
fn test_default_config() {
    let config = Config::default();
    assert!(config.virtual_mics.is_empty());
    assert!(config.ui.color);
    assert_eq!(config.ui.meter_style, MeterStyle::Gradient);
}

#[test]
fn config_add_replaces_and_remove_reports() {
    let mut config = Config::default();
    config.add_virtual_mic("Desk".to_string(), 0);
    config.add_virtual_mic("Room".to_string(), 1);
    config.add_virtual_mic("Desk".to_string(), 2);
    assert_eq!(config.virtual_mics.len(), 2);
    assert_eq!(config.virtual_mics[0].name, "Room");
    assert_eq!(config.virtual_mics[1].name, "Desk");
    assert_eq!(config.virtual_mics[1].channel, 2);
    assert!(config.remove_virtual_mic("Room"));
    assert!(!config.remove_virtual_mic("Room"));
    assert_eq!(config.virtual_mics.len(), 1);
}

fn dev(name: &str, channels: u16) -> AudioDevice {
    AudioDevice { name: name.to_string(), channels, sample_rate: 48000, index: 0 }
}

#[test]
fn virtual_devices_are_filtered_case_insensitively() {
    let driver = vec![DeviceInfo { name: "Desk Mic".to_string(), channel: 0 }];
    let names = get_virtual_device_names(&driver);
    assert!(is_virtual_device("DuoMic Output", &names));
    assert!(is_virtual_device("My DUOMIC thing", &names));
    assert!(is_virtual_device("desk mic", &names));
    assert!(is_virtual_device("Desk Mic Pro", &names));
    assert!(!is_virtual_device("USB Audio", &names));
}

#[test]
fn device_lookup_is_partial_and_case_insensitive() {
    let devices = vec![dev("USB Audio CODEC", 2), dev("Scarlett 2i2", 2)];
    let found = find_device_by_name(&devices, "scarlett").expect("present");
    assert_eq!(found.name, "Scarlett 2i2");
    assert!(find_device_by_name(&devices, "built-in").is_none());
    assert_eq!(devices[0].display_string(), "USB Audio CODEC (2 channels)");
}

#[test]
fn fresh_session_asks_only_with_a_usable_config() {
    let empty = App::new(vec![dev("A", 2)], Config::default());
    assert_eq!(empty.state, AppState::SelectDevice);
    let mut config = Config::default();
    config.device.name = Some("A".to_string());
    config.add_virtual_mic("Mic".to_string(), 0);
    let configured = App::new(vec![dev("A", 2)], config);
    assert_eq!(configured.state, AppState::AskAction);
}

#[test]
fn selection_flow_reaches_save_and_start() {
    let mut app = App::new(vec![dev("Board", 2)], Config::default());
    assert_eq!(app.state, AppState::SelectDevice);
    let action = app.handle_key(KeyAction::Select);
    assert_eq!(action, Some(AppAction::StartPreview));
    assert_eq!(app.state, AppState::SelectChannels);
    assert_eq!(app.channel_selected, vec![false, false]);

    // Enter with nothing selected stays put.
    assert_eq!(app.handle_key(KeyAction::Select), None);
    assert_eq!(app.state, AppState::SelectChannels);

    // Select channel 1 and confirm.
    assert_eq!(app.handle_key(KeyAction::Down), None);
    assert_eq!(app.handle_key(KeyAction::Char(' ')), None);
    assert_eq!(app.channel_selected, vec![false, true]);
    assert_eq!(app.handle_key(KeyAction::Select), None);
    assert_eq!(app.state, AppState::EnterNames);
    assert_eq!(app.channel_names.len(), 1);

    // An empty name takes the default: device name plus channel number.
    assert_eq!(app.generate_default_name(0), "Board Ch1");
    let action = app.handle_key(KeyAction::Select);
    assert_eq!(action, Some(AppAction::SaveAndStart));
    assert_eq!(app.channel_names[0], "Board Ch1");

    let mics = app.build_virtual_mics();
    assert_eq!(mics.len(), 1);
    assert_eq!(mics[0].name, "Board Ch1");
    assert_eq!(mics[0].channel, 1);

    app.start_running();
    assert_eq!(app.state, AppState::Running);
    assert_eq!(app.dashboard_labels, vec!["Board Ch1".to_string()]);
}

#[test]
fn typed_names_and_cancel_navigation() {
    let mut app = App::new(vec![dev("Board", 2)], Config::default());
    app.handle_key(KeyAction::Select);
    app.handle_key(KeyAction::Char(' '));
    app.handle_key(KeyAction::Down);
    app.handle_key(KeyAction::Char(' '));
    app.handle_key(KeyAction::Select);
    assert_eq!(app.channel_names.len(), 2);

    app.handle_key(KeyAction::Char('M'));
    app.handle_key(KeyAction::Char('e'));
    assert_eq!(app.handle_key(KeyAction::Select), None);
    assert_eq!(app.name_cursor, 1);
    assert_eq!(app.channel_names[0], "Me");

    // Escape steps back to the previous name and restores it for editing.
    assert_eq!(app.handle_key(KeyAction::Cancel), None);
    assert_eq!(app.name_cursor, 0);
    assert_eq!(app.name_input, "Me");

    // Escape from the first slot returns to channel selection.
    app.handle_key(KeyAction::Cancel);
    assert_eq!(app.state, AppState::SelectChannels);
}

#[test]
fn running_error_and_ask_screens() {
    let mut config = Config::default();
    config.device.name = Some("Board".to_string());
    config.add_virtual_mic("Mic".to_string(), 1);
    let mut app = App::new(vec![dev("Board", 2)], config);
    assert_eq!(app.state, AppState::AskAction);
    assert_eq!(app.handle_key(KeyAction::Up), None);
    assert_eq!(app.action_cursor, 1);
    assert_eq!(app.handle_key(KeyAction::Down), None);
    assert_eq!(app.action_cursor, 0);
    assert_eq!(app.handle_key(KeyAction::Select), Some(AppAction::StartWithConfig));

    app.start_with_existing_config();
    assert_eq!(app.state, AppState::Running);
    assert_eq!(app.dashboard_labels, vec!["Mic [Ch 1]".to_string()]);
    assert_eq!(app.handle_key(KeyAction::Restart), Some(AppAction::Restart));
    assert_eq!(app.handle_key(KeyAction::Setup), Some(AppAction::StopCapture));
    assert_eq!(app.state, AppState::SelectDevice);

    app.set_error("boom".to_string());
    assert_eq!(app.state, AppState::Error("boom".to_string()));
    assert_eq!(app.handle_key(KeyAction::Char('r')), Some(AppAction::Retry));
    app.handle_key(KeyAction::Quit);
    assert_eq!(app.state, AppState::Quit);
    assert_eq!(app.handle_key(KeyAction::Select), None);
    assert_eq!(app.state, AppState::Quit);
}

#[test]
fn key_mapping_navigation_versus_text() {
    assert_eq!(KeyAction::from_navigation(KeyPress::Char('q'), false), KeyAction::Quit);
    assert_eq!(KeyAction::from_navigation(KeyPress::Char('s'), false), KeyAction::Setup);
    assert_eq!(KeyAction::from_navigation(KeyPress::Char('c'), true), KeyAction::Quit);
    assert_eq!(KeyAction::from_navigation(KeyPress::Enter, false), KeyAction::Select);
    assert_eq!(KeyAction::from_navigation(KeyPress::Other, false), KeyAction::Ignore);
    // Text entry lets shortcut letters through as characters.
    assert_eq!(KeyAction::from_text_input(KeyPress::Char('q'), false), KeyAction::Char('q'));
    assert_eq!(KeyAction::from_text_input(KeyPress::Char('c'), true), KeyAction::Quit);
    assert_eq!(KeyAction::from_text_input(KeyPress::Esc, false), KeyAction::Cancel);
}

#[test]
fn list_and_input_state() {
    let mut list = ListState::new(vec!["a".to_string(), "b".to_string()]);
    list.select_next();
    assert_eq!(list.selected, 1);
    list.select_next();
    assert_eq!(list.selected, 0);
    list.select_prev();
    assert_eq!(list.selected, 1);
    assert_eq!(list.selected_item(), Some(&"b".to_string()));

    let mut input = InputState::with_value("ab".to_string());
    assert_eq!(input.cursor, 2);
    input.insert('c');
    assert_eq!(input.value, "abc");
    input.delete();
    input.delete();
    assert_eq!(input.value, "a");
    input.clear();
    assert_eq!(input.value, "");
    assert_eq!(input.cursor, 0);
}
