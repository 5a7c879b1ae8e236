use monitor_splitter::edid::{edid_for_region, generate_synthetic_edid, validate_regions};
use monitor_splitter::monitor_manager::MonitorManager;
use monitor_splitter::pipe_server::{frame_message, handle_message, PipeServerConfig};
use monitor_splitter::protocol::{
    equal_horizontal_split, equal_vertical_split, AppToDriver, DriverToApp, PhysicalMonitor,
    SplitConfig, SplitRegion,
};
use monitor_splitter::ratio::Ratio;

fn frac(num: i64, den: u32) -> Ratio {
    Ratio::of(num, den)
}

fn region(x: (i64, u32), y: (i64, u32), w: (i64, u32), h: (i64, u32)) -> SplitRegion {
    SplitRegion { x: frac(x.0, x.1), y: frac(y.0, y.1), width: frac(w.0, w.1), height: frac(h.0, h.1) }
}

fn test_physical_monitor() -> PhysicalMonitor {
    PhysicalMonitor {
        index: 0,
        name: "Test Ultrawide".to_string(),
        width: 3840,
        height: 1080,
        refresh_rate: 60,
    }
}

fn setup_manager() -> MonitorManager {
    let mut mgr = MonitorManager::new();
    mgr.register_physical_monitor(PhysicalMonitor {
        index: 0,
        name: "Test Monitor".to_string(),
        width: 3840,
        height: 1080,
        refresh_rate: 60,
    });
    mgr
}

fn error_text(r: Result<(), String>) -> String {
    r.unwrap_err()
}

#[test]
fn test_edid_for_half_region() {
    let region = region((0, 1), (0, 1), (1, 2), (1, 1));
    let edid = edid_for_region(3840, 1080, &region, 0);
    // Verify checksum
    let sum: u8 = edid.iter().fold(0u8, |acc, &b| acc.wrapping_add(b));
    assert_eq!(sum, 0);
}

#[test]
fn edid_for_region_matches_generated_block() {
    let region = region((1, 2), (0, 1), (1, 2), (1, 1));
    let edid = edid_for_region(3840, 1080, &region, 3);
    assert_eq!(edid, generate_synthetic_edid(1920, 1080, "VSplit-3"));
    assert_eq!(&edid[77..85], b"VSplit-3");
}

#[test]
fn test_validate_non_overlapping() {
    let regions = vec![
        region((0, 1), (0, 1), (1, 2), (1, 1)),
        region((1, 2), (0, 1), (1, 2), (1, 1)),
    ];
    assert!(validate_regions(&regions).is_ok());
}

#[test]
fn test_validate_overlapping() {
    let regions = vec![
        region((0, 1), (0, 1), (6, 10), (1, 1)),
        region((1, 2), (0, 1), (1, 2), (1, 1)),
    ];
    assert!(validate_regions(&regions).is_err());
}

#[test]
fn validate_messages() {
    let overlapping = vec![
        region((0, 1), (0, 1), (6, 10), (1, 1)),
        region((1, 2), (0, 1), (1, 2), (1, 1)),
    ];
    assert_eq!(error_text(validate_regions(&overlapping)), "Regions 0 and 1 overlap");

    let negative = vec![region((0, 1), (0, 1), (1, 2), (1, 1)), region((-1, 10), (0, 1), (1, 2), (1, 1))];
    assert_eq!(error_text(validate_regions(&negative)), "Region 1 has invalid bounds");

    let empty_width = vec![region((0, 1), (0, 1), (0, 2), (1, 1))];
    assert_eq!(error_text(validate_regions(&empty_width)), "Region 0 has invalid bounds");

    let too_wide = vec![region((6, 10), (0, 1), (1, 2), (1, 1))];
    assert_eq!(error_text(validate_regions(&too_wide)), "Region 0 extends beyond monitor bounds");

    let too_tall = vec![region((0, 1), (1, 2), (1, 1), (6, 10))];
    assert_eq!(error_text(validate_regions(&too_tall)), "Region 0 extends beyond monitor bounds");

    // bounds are checked for every region before any overlap
    let both = vec![
        region((0, 1), (0, 1), (1, 1), (1, 1)),
        region((0, 1), (0, 1), (1, 1), (1, 1)),
        region((0, 1), (0, 1), (2, 1), (1, 1)),
    ];
    assert_eq!(error_text(validate_regions(&both)), "Region 2 extends beyond monitor bounds");

    // the first overlapping pair is reported
    let three = vec![
        region((0, 1), (0, 1), (1, 3), (1, 1)),
        region((1, 3), (0, 1), (1, 3), (1, 1)),
        region((1, 3), (0, 1), (2, 3), (1, 1)),
        region((0, 1), (0, 1), (1, 3), (1, 1)),
    ];
    assert_eq!(error_text(validate_regions(&three)), "Regions 0 and 3 overlap");
}

#[test]
fn validate_edge_tolerance() {
    // one ten-thousandth beyond the edge is tolerated, more is not
    let at_limit = vec![region((0, 1), (0, 1), (10001, 10000), (1, 1))];
    assert!(validate_regions(&at_limit).is_ok());
    let beyond = vec![region((0, 1), (0, 1), (10002, 10000), (1, 1))];
    assert!(validate_regions(&beyond).is_err());
    // touching regions do not overlap
    let quarters = vec![
        region((0, 1), (0, 1), (1, 2), (1, 2)),
        region((1, 2), (0, 1), (1, 2), (1, 2)),
        region((0, 1), (1, 2), (1, 2), (1, 2)),
        region((1, 2), (1, 2), (1, 2), (1, 2)),
    ];
    assert!(validate_regions(&quarters).is_ok());
}

#[test]
fn validate_coverage() {
    let uncovered = "Regions do not cover the full monitor";
    let left_half = vec![region((0, 1), (0, 1), (1, 2), (1, 1))];
    assert_eq!(error_text(validate_regions(&left_half)), uncovered);
    assert_eq!(error_text(validate_regions(&[])), uncovered);

    let gap = vec![region((0, 1), (0, 1), (1, 3), (1, 1)), region((2, 3), (0, 1), (1, 3), (1, 1))];
    assert_eq!(error_text(validate_regions(&gap)), uncovered);

    let missing_cell = vec![
        region((0, 1), (0, 1), (1, 2), (1, 2)),
        region((1, 2), (0, 1), (1, 2), (1, 2)),
        region((0, 1), (1, 2), (1, 2), (1, 2)),
    ];
    assert_eq!(error_text(validate_regions(&missing_cell)), uncovered);

    let short = vec![region((0, 1), (0, 1), (1, 1), (9, 10))];
    assert_eq!(error_text(validate_regions(&short)), uncovered);

    let uneven = vec![region((0, 1), (0, 1), (6, 10), (1, 1)), region((6, 10), (0, 1), (4, 10), (1, 1))];
    assert!(validate_regions(&uneven).is_ok());

    let l_shape = vec![
        region((0, 1), (0, 1), (1, 2), (1, 1)),
        region((1, 2), (0, 1), (1, 2), (1, 2)),
        region((1, 2), (1, 2), (1, 2), (1, 2)),
    ];
    assert!(validate_regions(&l_shape).is_ok());

    // overlaps are reported before gaps
    let both = vec![region((0, 1), (0, 1), (1, 4), (1, 1)), region((0, 1), (0, 1), (1, 4), (1, 1))];
    assert_eq!(error_text(validate_regions(&both)), "Regions 0 and 1 overlap");
}

#[test]
fn apply_split_requires_coverage() {
    let mut mgr = setup_manager();
    mgr.apply_split(&equal_horizontal_split(0, 2)).unwrap();
    let partial = SplitConfig {
        monitor_index: 0,
        regions: vec![region((0, 1), (0, 1), (1, 2), (1, 1))],
        preset_name: None,
    };
    assert_eq!(mgr.apply_split(&partial).unwrap_err(), "Regions do not cover the full monitor");
    assert_eq!(mgr.virtual_monitors().len(), 2);
    match handle_message(&AppToDriver::ApplySplit(partial), &mut mgr) {
        DriverToApp::Error { message } => assert_eq!(message, "Regions do not cover the full monitor"),
        _ => panic!("Expected Error"),
    }
}

#[test]
fn equal_splits_always_validate() {
    for n in 1..=20 {
        assert!(validate_regions(&equal_horizontal_split(0, n).regions).is_ok());
        assert!(validate_regions(&equal_vertical_split(0, n).regions).is_ok());
    }
}

#[test]
fn overlap_is_symmetric() {
    let a = region((0, 1), (0, 1), (6, 10), (1, 1));
    let b = region((1, 2), (0, 1), (1, 2), (1, 1));
    assert_eq!(
        validate_regions(&[a, b]).is_err(),
        validate_regions(&[b, a]).is_err()
    );
    let c = region((0, 1), (0, 1), (1, 2), (1, 1));
    assert!(validate_regions(&[c, b]).is_ok());
    assert!(validate_regions(&[b, c]).is_ok());
}

#[test]
fn test_apply_horizontal_split() {
    let mut mgr = MonitorManager::new();
    mgr.register_physical_monitor(test_physical_monitor());

    let config = equal_horizontal_split(0, 2);
    let result = mgr.apply_split(&config).unwrap();

    assert_eq!(result.len(), 2);
    assert_eq!(result[0].width, 1920);
    assert_eq!(result[0].height, 1080);
    assert_eq!(result[1].width, 1920);
    assert_eq!(result[1].height, 1080);
}

#[test]
fn test_remove_splits() {
    let mut mgr = MonitorManager::new();
    mgr.register_physical_monitor(test_physical_monitor());

    let config = equal_horizontal_split(0, 3);
    mgr.apply_split(&config).unwrap();
    assert_eq!(mgr.virtual_monitors().len(), 3);

    let removed = mgr.remove_splits(0);
    assert_eq!(removed, 3);
    assert_eq!(mgr.virtual_monitors().len(), 0);
}

#[test]
fn test_reapply_replaces() {
    let mut mgr = MonitorManager::new();
    mgr.register_physical_monitor(test_physical_monitor());

    let config2 = equal_horizontal_split(0, 2);
    mgr.apply_split(&config2).unwrap();
    assert_eq!(mgr.virtual_monitors().len(), 2);

    let config3 = equal_horizontal_split(0, 3);
    mgr.apply_split(&config3).unwrap();
    assert_eq!(mgr.virtual_monitors().len(), 3);
}

#[test]
fn apply_split_assigns_ids_and_regions() {
    let mut mgr = setup_manager();
    let created = mgr.apply_split(&equal_horizontal_split(0, 3)).unwrap();
    let ids: Vec<&str> = created.iter().map(|vm| vm.id.as_str()).collect();
    assert_eq!(ids, vec!["vm-0", "vm-1", "vm-2"]);
    assert!(created.iter().all(|vm| vm.physical_monitor_index == 0));
    assert_eq!(created[1].region.x.numerator(), 1);
    assert_eq!(created[1].region.x.denominator(), 3);
    assert_eq!(created[0].width, 1280);
    let again = mgr.apply_split(&equal_vertical_split(0, 2)).unwrap();
    assert_eq!(again[0].id, "vm-3");
    assert_eq!(again[1].id, "vm-4");
    assert_eq!(again[0].width, 3840);
    assert_eq!(again[0].height, 540);
    let current: Vec<&str> = mgr.virtual_monitors().iter().map(|vm| vm.id.as_str()).collect();
    assert_eq!(current, vec!["vm-3", "vm-4"]);
}

#[test]
fn apply_split_errors() {
    let mut mgr = setup_manager();
    let missing = equal_horizontal_split(5, 2);
    assert_eq!(mgr.apply_split(&missing).unwrap_err(), "Physical monitor 5 not found");

    let none = SplitConfig { monitor_index: 0, regions: vec![], preset_name: None };
    assert_eq!(mgr.apply_split(&none).unwrap_err(), "No regions specified");

    let too_many = equal_horizontal_split(0, 17);
    assert_eq!(mgr.apply_split(&too_many).unwrap_err(), "Would exceed maximum of 16 virtual monitors");

    let bad = SplitConfig {
        monitor_index: 0,
        regions: vec![region((0, 1), (0, 1), (6, 10), (1, 1)), region((1, 2), (0, 1), (1, 2), (1, 1))],
        preset_name: None,
    };
    assert_eq!(mgr.apply_split(&bad).unwrap_err(), "Regions 0 and 1 overlap");
    assert_eq!(mgr.virtual_monitors().len(), 0);

    // the limit counts the monitors that a split would replace
    mgr.apply_split(&equal_horizontal_split(0, 10)).unwrap();
    assert_eq!(
        mgr.apply_split(&equal_horizontal_split(0, 7)).unwrap_err(),
        "Would exceed maximum of 16 virtual monitors"
    );
    assert_eq!(mgr.virtual_monitors().len(), 10);
    mgr.apply_split(&equal_horizontal_split(0, 6)).unwrap();
    assert_eq!(mgr.virtual_monitors().len(), 6);
}

#[test]
fn splits_on_other_monitors_stay() {
    let mut mgr = setup_manager();
    mgr.register_physical_monitor(PhysicalMonitor {
        index: 1,
        name: "Second".to_string(),
        width: 1920,
        height: 1200,
        refresh_rate: 144,
    });
    mgr.apply_split(&equal_horizontal_split(0, 2)).unwrap();
    mgr.apply_split(&equal_vertical_split(1, 3)).unwrap();
    assert_eq!(mgr.virtual_monitors().len(), 5);
    mgr.apply_split(&equal_horizontal_split(0, 4)).unwrap();
    assert_eq!(mgr.virtual_monitors().len(), 7);
    assert_eq!(mgr.virtual_monitors().iter().filter(|vm| vm.physical_monitor_index == 1).count(), 3);
    assert_eq!(mgr.remove_splits(1), 3);
    assert_eq!(mgr.remove_splits(1), 0);
    assert!(mgr.virtual_monitors().iter().all(|vm| vm.physical_monitor_index == 0));
    assert_eq!(mgr.remove_all(), 4);
    assert_eq!(mgr.remove_all(), 0);
    assert_eq!(mgr.physical_monitors().len(), 2);
}

#[test]
fn default_manager_is_empty() {
    let mgr = MonitorManager::default();
    assert!(mgr.virtual_monitors().is_empty());
    assert!(mgr.physical_monitors().is_empty());
}

#[test]
fn test_ping_pong() {
    let mut mgr = setup_manager();
    let resp = handle_message(&AppToDriver::Ping, &mut mgr);
    assert!(matches!(resp, DriverToApp::Pong));
}

#[test]
fn test_query_monitors() {
    let mut mgr = setup_manager();
    let resp = handle_message(&AppToDriver::QueryMonitors, &mut mgr);
    match resp {
        DriverToApp::MonitorList { monitors } => {
            assert_eq!(monitors.len(), 1);
            assert_eq!(monitors[0].width, 3840);
        }
        _ => panic!("Expected MonitorList"),
    }
}

#[test]
fn test_apply_split_via_message() {
    let mut mgr = setup_manager();
    let config = equal_horizontal_split(0, 2);
    let resp = handle_message(&AppToDriver::ApplySplit(config), &mut mgr);
    match resp {
        DriverToApp::SplitState { virtual_monitors } => {
            assert_eq!(virtual_monitors.len(), 2);
        }
        _ => panic!("Expected SplitState"),
    }
}

#[test]
fn handle_message_other_requests() {
    let mut mgr = setup_manager();
    match handle_message(&AppToDriver::ApplySplit(equal_horizontal_split(9, 2)), &mut mgr) {
        DriverToApp::Error { message } => assert_eq!(message, "Physical monitor 9 not found"),
        _ => panic!("Expected Error"),
    }
    handle_message(&AppToDriver::ApplySplit(equal_horizontal_split(0, 4)), &mut mgr);
    match handle_message(&AppToDriver::QuerySplitState, &mut mgr) {
        DriverToApp::SplitState { virtual_monitors } => assert_eq!(virtual_monitors.len(), 4),
        _ => panic!("Expected SplitState"),
    }
    match handle_message(&AppToDriver::RemoveSplits { monitor_index: 0 }, &mut mgr) {
        DriverToApp::SplitState { virtual_monitors } => assert!(virtual_monitors.is_empty()),
        _ => panic!("Expected SplitState"),
    }
    handle_message(&AppToDriver::ApplySplit(equal_horizontal_split(0, 2)), &mut mgr);
    assert!(matches!(handle_message(&AppToDriver::RemoveAll, &mut mgr), DriverToApp::Success));
    assert!(mgr.virtual_monitors().is_empty());
}

#[test]
fn message_framing() {
    let framed = frame_message(b"{\"type\":\"ping\"}");
    assert_eq!(framed.last(), Some(&b'\n'));
    assert_eq!(&framed[..framed.len() - 1], b"{\"type\":\"ping\"}");
    assert_eq!(frame_message(b""), vec![b'\n']);
}

#[test]
fn pipe_server_defaults() {
    let config = PipeServerConfig::default();
    assert_eq!(config.pipe_name, r"\\.\pipe\MonitorSplitter");
    assert_eq!(config.max_connections, 4);
}

#[test]
fn ids_are_never_reused() {
    let mut mgr = setup_manager();
    assert_eq!(mgr.next_serial_number(), 0);
    let first = mgr.apply_split(&equal_horizontal_split(0, 2)).unwrap();
    assert_eq!(mgr.next_serial_number(), 2);
    assert_eq!(mgr.remove_all(), 2);
    let second = mgr.apply_split(&equal_vertical_split(0, 3)).unwrap();
    assert_eq!(mgr.next_serial_number(), 5);
    assert_eq!(mgr.remove_splits(0), 3);
    let third = mgr.apply_split(&equal_horizontal_split(0, 1)).unwrap();
    let mut ids: Vec<String> = first.iter().chain(&second).chain(&third).map(|vm| vm.id.clone()).collect();
    assert_eq!(ids, vec!["vm-0", "vm-1", "vm-2", "vm-3", "vm-4", "vm-5"]);
    ids.sort();
    ids.dedup();
    assert_eq!(ids.len(), 6);
    // a refused split issues no id
    assert!(mgr.apply_split(&equal_horizontal_split(7, 2)).is_err());
    assert_eq!(mgr.next_serial_number(), 6);
}
