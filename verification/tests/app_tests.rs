use monitor_splitter::hotkeys::HotkeyManager;
use monitor_splitter::pipe_client::PipeClient;
use monitor_splitter::protocol::{
    equal_horizontal_split, AppToDriver, DriverToApp, PhysicalMonitor, Preset,
};
use monitor_splitter::replies::{
    acknowledgement_from_reply, physical_monitors_from_reply, reply_text,
    virtual_monitors_from_reply, ReplyError,
};

fn preset(name: &str, hotkey: Option<&str>) -> Preset {
    Preset {
        name: name.to_string(),
        config: equal_horizontal_split(0, 2),
        hotkey: hotkey.map(|h| h.to_string()),
    }
}

#[test]
fn hotkeys_map_to_presets() {
    let mut hk = HotkeyManager::new();
    assert_eq!(hk.preset_for_hotkey("Ctrl+Alt+1"), None);
    let presets = vec![
        preset("Halves", Some("Ctrl+Alt+1")),
        preset("Plain", None),
        preset("Thirds", Some("Ctrl+Alt+3")),
        preset("Shadowed", Some("Ctrl+Alt+1")),
    ];
    assert!(hk.register_presets(&presets).is_ok());
    assert_eq!(hk.preset_for_hotkey("Ctrl+Alt+1"), Some("Halves"));
    assert_eq!(hk.preset_for_hotkey("Ctrl+Alt+3"), Some("Thirds"));
    assert_eq!(hk.preset_for_hotkey("Ctrl+Alt+2"), None);
    assert_eq!(hk.preset_for_hotkey("Plain"), None);

    // registering again replaces the earlier bindings
    assert!(hk.register_presets(&presets[2..3]).is_ok());
    assert_eq!(hk.preset_for_hotkey("Ctrl+Alt+1"), None);
    assert_eq!(hk.preset_for_hotkey("Ctrl+Alt+3"), Some("Thirds"));

    hk.unregister_all();
    assert_eq!(hk.preset_for_hotkey("Ctrl+Alt+3"), None);
}

#[test]
fn pipe_client_without_driver() {
    let mut client = PipeClient::new();
    assert!(!client.is_connected());
    assert!(client.connect().is_ok());
    assert!(!client.is_connected());
    match client.send(&AppToDriver::Ping).unwrap() {
        DriverToApp::Error { message } => assert_eq!(message, "Not connected to driver"),
        _ => panic!("Expected Error"),
    }
}

#[test]
fn replies_to_requests() {
    let monitor = PhysicalMonitor {
        index: 2,
        name: "Panel".to_string(),
        width: 2560,
        height: 1440,
        refresh_rate: 75,
    };
    let monitors = physical_monitors_from_reply(DriverToApp::MonitorList { monitors: vec![monitor] }).unwrap();
    assert_eq!(monitors.len(), 1);
    assert_eq!(monitors[0].index, 2);

    match physical_monitors_from_reply(DriverToApp::Error { message: "boom".to_string() }) {
        Err(ReplyError::Driver(message)) => assert_eq!(message, "boom"),
        _ => panic!("Expected a driver error"),
    }
    assert!(matches!(
        physical_monitors_from_reply(DriverToApp::Pong),
        Err(ReplyError::Unexpected(DriverToApp::Pong))
    ));

    let vms = virtual_monitors_from_reply(DriverToApp::SplitState { virtual_monitors: vec![] }).unwrap();
    assert!(vms.is_empty());
    assert!(matches!(
        virtual_monitors_from_reply(DriverToApp::Success),
        Err(ReplyError::Unexpected(DriverToApp::Success))
    ));

    assert!(acknowledgement_from_reply(DriverToApp::Success).is_ok());
    assert!(acknowledgement_from_reply(DriverToApp::SplitState { virtual_monitors: vec![] }).is_ok());
    match acknowledgement_from_reply(DriverToApp::Error { message: "no".to_string() }) {
        Err(ReplyError::Driver(message)) => assert_eq!(message, "no"),
        _ => panic!("Expected a driver error"),
    }
    assert!(matches!(
        acknowledgement_from_reply(DriverToApp::MonitorList { monitors: vec![] }),
        Err(ReplyError::Unexpected(DriverToApp::MonitorList { .. }))
    ));
}

#[test]
fn reply_lines() {
    assert_eq!(reply_text("{\"type\":\"pong\"}\n").unwrap(), "{\"type\":\"pong\"}");
    assert_eq!(reply_text("  \t{\"a\": 1} \r\n").unwrap(), "{\"a\": 1}");
    assert_eq!(reply_text("\u{3000}x\u{a0}").unwrap(), "x");
    assert_eq!(reply_text("a b").unwrap(), "a b");
    for blank in ["", "\n", " \t\r\n", "\u{2028}\u{85}"] {
        assert_eq!(reply_text(blank).unwrap_err(), "Driver returned an empty response");
        assert_eq!(reply_text(blank).is_err(), blank.trim().is_empty());
    }
}
