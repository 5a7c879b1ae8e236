use monitor_splitter::edid::generate_synthetic_edid;
use monitor_splitter::protocol::{
    equal_horizontal_split, equal_vertical_split, AppConfig, Orientation, MAX_VIRTUAL_MONITORS,
    PIPE_NAME,
};
use monitor_splitter::ratio::Ratio;
use monitor_splitter::text::push_decimal;

fn value(r: &Ratio) -> f64 {
    r.numerator() as f64 / r.denominator() as f64
}

#[test]
fn test_horizontal_split() {
    let config = equal_horizontal_split(0, 2);
    assert_eq!(config.regions.len(), 2);
    assert!((value(&config.regions[0].width) - 0.5).abs() < f64::EPSILON);
    assert!((value(&config.regions[1].x) - 0.5).abs() < f64::EPSILON);
}

#[test]
fn test_vertical_split() {
    let config = equal_vertical_split(0, 3);
    assert_eq!(config.regions.len(), 3);
    assert!((value(&config.regions[0].height) - 1.0 / 3.0).abs() < f64::EPSILON);
}

#[test]
fn test_edid_checksum() {
    let edid = generate_synthetic_edid(1920, 1080, "VSplit-1");
    let sum: u8 = edid.iter().fold(0u8, |acc, &b| acc.wrapping_add(b));
    assert_eq!(sum, 0);
}

#[test]
fn equal_split_fractions_are_exact() {
    let config = equal_horizontal_split(7, 3);
    assert_eq!(config.monitor_index, 7);
    for (i, r) in config.regions.iter().enumerate() {
        assert_eq!(r.x.numerator(), i as i64);
        assert_eq!(r.x.denominator(), 3);
        assert_eq!(r.y.numerator(), 0);
        assert_eq!(r.width.numerator(), 1);
        assert_eq!(r.width.denominator(), 3);
        assert_eq!(r.height.numerator(), 1);
        assert_eq!(r.height.denominator(), 1);
    }
    let config = equal_vertical_split(1, 4);
    assert_eq!(config.regions.len(), 4);
    assert_eq!(config.regions[3].y.numerator(), 3);
    assert_eq!(config.regions[3].y.denominator(), 4);
    assert_eq!(config.regions[3].x.numerator(), 0);
    assert_eq!(config.regions[3].height.denominator(), 4);
}

#[test]
fn equal_split_preset_names() {
    let h = equal_horizontal_split(0, 2);
    assert_eq!(h.preset_name.as_deref(), Some("2× Horizontal"));
    let v = equal_vertical_split(0, 12);
    assert_eq!(v.preset_name.as_deref(), Some("12× Vertical"));
    let empty = equal_horizontal_split(0, 0);
    assert_eq!(empty.regions.len(), 0);
    assert_eq!(empty.preset_name.as_deref(), Some("0× Horizontal"));
}

#[test]
fn decimal_text() {
    for (n, text) in [(0u64, "0"), (7, "7"), (10, "10"), (305, "305"), (u64::MAX, "18446744073709551615")] {
        let mut s = String::from("x=");
        push_decimal(&mut s, n);
        assert_eq!(s, format!("x={}", text));
    }
}

#[test]
fn ratio_constructors() {
    assert!(Ratio::new(1, 0).is_none());
    let r = Ratio::new(-3, 4).unwrap();
    assert_eq!(r.numerator(), -3);
    assert_eq!(r.denominator(), 4);
    let q = Ratio::of(5, 2);
    assert_eq!(q.numerator(), 5);
    assert_eq!(q.denominator(), 2);
}

#[test]
fn ratio_scale_length() {
    assert_eq!(Ratio::of(1, 2).scale_length(3840), 1920);
    assert_eq!(Ratio::of(1, 3).scale_length(3840), 1280);
    assert_eq!(Ratio::of(1, 3).scale_length(100), 33);
    assert_eq!(Ratio::of(-1, 2).scale_length(3840), 0);
    assert_eq!(Ratio::of(0, 1).scale_length(3840), 0);
    assert_eq!(Ratio::of(i64::MAX, 1).scale_length(2), u32::MAX);
    assert_eq!(Ratio::of(1, 1).scale_length(u32::MAX), u32::MAX);
}

#[test]
fn edid_fixed_fields() {
    let edid = generate_synthetic_edid(1920, 1080, "VSplit-1");
    assert_eq!(&edid[0..8], &[0x00, 0xFF, 0xFF, 0xFF, 0xFF, 0xFF, 0xFF, 0x00]);
    assert_eq!(&edid[8..10], &[0x5A, 0x70]);
    assert_eq!(&edid[10..21], &[0x01, 0x00, 0x01, 0x00, 0x00, 0x00, 1, 34, 1, 4, 0xA5]);
    assert_eq!(edid[21], 48);
    assert_eq!(edid[22], 27);
    assert_eq!(edid[23], 120);
    assert_eq!(edid[24], 0x06);
    assert_eq!(&edid[25..35], &[0xEE, 0x91, 0xA3, 0x54, 0x4C, 0x99, 0x26, 0x0F, 0x50, 0x54]);
    assert_eq!(&edid[35..38], &[0, 0, 0]);
    assert!(edid[38..54].iter().all(|&b| b == 0x01));
}

#[test]
fn edid_timing_descriptor() {
    let edid = generate_synthetic_edid(1920, 1080, "VSplit-1");
    // 1920 * 1080 * 60 / 10000 = 12441 = 0x3099
    assert_eq!(edid[54], 0x99);
    assert_eq!(edid[55], 0x30);
    // 1920 = 0x780, 160 blanking
    assert_eq!(edid[56], 0x80);
    assert_eq!(edid[57], 160);
    assert_eq!(edid[58], 0x70);
    // 1080 = 0x438, 35 blanking
    assert_eq!(edid[59], 0x38);
    assert_eq!(edid[60], 35);
    assert_eq!(edid[61], 0x40);
    assert!(edid[62..72].iter().all(|&b| b == 0));
}

#[test]
fn edid_name_descriptor() {
    let edid = generate_synthetic_edid(1920, 1080, "VSplit-1");
    assert_eq!(&edid[72..77], &[0x00, 0x00, 0x00, 0xFC, 0x00]);
    assert_eq!(&edid[77..85], b"VSplit-1");
    assert_eq!(edid[85], 0x0A);
    assert!(edid[86..127].iter().all(|&b| b == 0));

    let long = generate_synthetic_edid(800, 600, "A very long monitor name");
    assert_eq!(&long[77..90], b"A very long m");
    assert!(long[90..127].iter().all(|&b| b == 0));
    let sum: u8 = long.iter().fold(0u8, |acc, &b| acc.wrapping_add(b));
    assert_eq!(sum, 0);

    let exact = generate_synthetic_edid(800, 600, "Thirteen char");
    assert_eq!(&exact[77..90], b"Thirteen char");
    assert_eq!(exact[90], 0);

    let empty = generate_synthetic_edid(0, 0, "");
    assert_eq!(empty[77], 0x0A);
    assert_eq!(empty[21], 0);
    assert_eq!(empty[54], 0);
}

#[test]
fn edid_checksum_for_many_sizes() {
    for (w, h) in [(640u32, 480u32), (1280, 720), (3840, 1080), (2560, 1440), (1, 1), (65535, 1000)] {
        let edid = generate_synthetic_edid(w, h, "Checksum");
        let sum: u8 = edid.iter().fold(0u8, |acc, &b| acc.wrapping_add(b));
        assert_eq!(sum, 0);
    }
}

#[test]
fn edid_truncates_wide_values() {
    // 70000 wraps to 4464 = 0x1170 in the 16-bit active count
    let edid = generate_synthetic_edid(70000, 1, "Wide");
    assert_eq!(edid[56], 0x70);
    assert_eq!(edid[58], 0x10);
    // 70000 / 40 = 1750, low byte 0xD6
    assert_eq!(edid[21], 0xD6);
}

#[test]
fn constants_and_defaults() {
    assert_eq!(PIPE_NAME, r"\\.\pipe\MonitorSplitter");
    assert_eq!(MAX_VIRTUAL_MONITORS, 16);
    let config = AppConfig::default();
    assert!(config.presets.is_empty());
    assert!(!config.start_on_boot);
    assert!(!config.minimize_to_tray);
    assert_ne!(Orientation::Horizontal, Orientation::Vertical);
}
