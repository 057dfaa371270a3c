use devscan::config::{Config, DeviceConfig, DeviceIdentifier};
use devscan::scan::{EnumerationError, PortRecord, ScanError, UsbPortId};

fn by_vid_pid(vid: u16, pid: u16, display_name: Option<&str>, has_bootloader: bool) -> DeviceConfig {
    DeviceConfig {
        identifier: DeviceIdentifier::VidPid { vid, pid },
        has_bootloader,
        display_name: display_name.map(|n| n.to_string()),
    }
}

fn by_fragment(fragment: &str, display_name: Option<&str>, has_bootloader: bool) -> DeviceConfig {
    DeviceConfig {
        identifier: DeviceIdentifier::NameFragment { fragment: fragment.to_string() },
        has_bootloader,
        display_name: display_name.map(|n| n.to_string()),
    }
}

fn usb_port(name: &str, vid: u16, pid: u16) -> PortRecord {
    PortRecord { name: name.to_string(), usb: Some(UsbPortId { vid, pid }) }
}

fn bare_port(name: &str) -> PortRecord {
    PortRecord { name: name.to_string(), usb: None }
}

#[test]
fn render_with_name_and_bootloader() {
    let d = by_vid_pid(0x2341, 0x8036, Some("Leonardo"), true);
    assert_eq!(d.render(), "VID:2341|PID:8036 (Leonardo)[bootloader]");
}

#[test]
fn render_bare() {
    let d = by_vid_pid(0x03eb, 0x2045, None, false);
    assert_eq!(d.render(), "VID:03eb|PID:2045");
}

#[test]
fn render_name_only() {
    let d = by_vid_pid(0x0000, 0xffff, Some("x"), false);
    assert_eq!(d.render(), "VID:0000|PID:ffff (x)");
}

#[test]
fn render_bootloader_only() {
    let d = by_vid_pid(0x1a2b, 0x3c4d, None, true);
    assert_eq!(d.render(), "VID:1a2b|PID:3c4d[bootloader]");
}

#[test]
fn render_fragment_identifier() {
    let d = by_fragment("ttyACM", Some("Board"), true);
    assert_eq!(d.render(), "ttyACM (Board)[bootloader]");
}

#[test]
fn no_ports_is_empty_success() {
    let cfg = Config { devices: vec![by_vid_pid(0x2341, 0x8036, None, false)] };
    let r = cfg.get_connected_devices(Ok(vec![]));
    assert_eq!(r, Ok(vec![]));
}

#[test]
fn no_devices_is_empty_success() {
    let cfg = Config { devices: vec![] };
    let ports = vec![usb_port("/dev/ttyACM0", 0x2341, 0x8036), bare_port("/dev/ttyS0")];
    let r = cfg.get_connected_devices(Ok(ports));
    assert_eq!(r, Ok(vec![]));
}

#[test]
fn vid_pid_match_found() {
    let cfg = Config {
        devices: vec![
            by_vid_pid(0x2341, 0x8036, Some("Leonardo"), true),
            by_vid_pid(0x03eb, 0x2045, None, false),
        ],
    };
    let ports = vec![usb_port("/dev/ttyACM0", 0x03eb, 0x2045)];
    let r = cfg.get_connected_devices(Ok(ports)).unwrap();
    assert_eq!(r, vec![by_vid_pid(0x03eb, 0x2045, None, false)]);
}

#[test]
fn one_port_matches_two_descriptors_in_configuration_order() {
    let first = by_vid_pid(0x2341, 0x8036, Some("A"), false);
    let second = by_vid_pid(0x2341, 0x8036, Some("B"), true);
    let cfg = Config { devices: vec![first.clone(), second.clone()] };
    let ports = vec![usb_port("/dev/ttyACM0", 0x2341, 0x8036)];
    let r = cfg.get_connected_devices(Ok(ports)).unwrap();
    assert_eq!(r, vec![first, second]);
}

#[test]
fn duplicate_descriptors_matched_independently() {
    let d = by_vid_pid(0x2341, 0x8036, None, false);
    let cfg = Config { devices: vec![d.clone(), d.clone()] };
    let ports = vec![usb_port("/dev/ttyACM0", 0x2341, 0x8036)];
    let r = cfg.get_connected_devices(Ok(ports)).unwrap();
    assert_eq!(r, vec![d.clone(), d]);
}

#[test]
fn non_usb_port_never_matches_vid_pid() {
    let cfg = Config {
        devices: vec![
            by_vid_pid(0x2341, 0x8036, None, false),
            by_vid_pid(0x0000, 0x0000, None, false),
        ],
    };
    let ports = vec![bare_port("/dev/ttyS0"), bare_port("/dev/ttyS1")];
    let r = cfg.get_connected_devices(Ok(ports)).unwrap();
    assert_eq!(r, vec![]);
}

#[test]
fn fragment_match_found() {
    let d = by_fragment("ttyACM", None, false);
    let cfg = Config { devices: vec![d.clone()] };
    let ports = vec![bare_port("/dev/ttyS0"), usb_port("/dev/ttyACM0", 0x1111, 0x2222)];
    let r = cfg.get_connected_devices(Ok(ports)).unwrap();
    assert_eq!(r, vec![d]);
}

#[test]
fn fragment_absent_no_match() {
    let cfg = Config { devices: vec![by_fragment("ttyUSB", None, false)] };
    let ports = vec![bare_port("/dev/ttyACM0")];
    let r = cfg.get_connected_devices(Ok(ports)).unwrap();
    assert_eq!(r, vec![]);
}

#[test]
fn empty_fragment_matches_every_port() {
    let d = by_fragment("", None, false);
    let cfg = Config { devices: vec![d.clone()] };
    let ports = vec![bare_port("/dev/ttyS0"), bare_port("COM3")];
    let r = cfg.get_connected_devices(Ok(ports)).unwrap();
    assert_eq!(r, vec![d.clone(), d]);
}

#[test]
fn fragment_at_end_of_name() {
    let d = by_fragment("ACM0", None, false);
    let cfg = Config { devices: vec![d.clone()] };
    let ports = vec![bare_port("/dev/ttyACM0")];
    let r = cfg.get_connected_devices(Ok(ports)).unwrap();
    assert_eq!(r, vec![d]);
}

#[test]
fn fragment_longer_than_name_no_match() {
    let cfg = Config { devices: vec![by_fragment("/dev/ttyACM0-long", None, false)] };
    let ports = vec![bare_port("/dev/ttyACM0")];
    let r = cfg.get_connected_devices(Ok(ports)).unwrap();
    assert_eq!(r, vec![]);
}

#[test]
fn result_follows_enumeration_then_configuration_order() {
    let a = by_vid_pid(0x1111, 0x0001, Some("a"), false);
    let b = by_vid_pid(0x2222, 0x0002, Some("b"), false);
    let c = by_fragment("COM", Some("c"), false);
    let cfg = Config { devices: vec![a.clone(), b.clone(), c.clone()] };
    let ports = vec![usb_port("COM7", 0x2222, 0x0002), usb_port("COM8", 0x1111, 0x0001)];
    let r = cfg.get_connected_devices(Ok(ports)).unwrap();
    // first port: b then c; second port: a then c
    assert_eq!(r, vec![b, c.clone(), a, c]);
}

#[test]
fn mixed_strategies_coexist() {
    let v = by_vid_pid(0x2341, 0x0036, None, true);
    let f = by_fragment("ttyACM", None, false);
    let cfg = Config { devices: vec![v.clone(), f.clone()] };
    let ports = vec![usb_port("/dev/ttyACM0", 0x2341, 0x0036)];
    let r = cfg.get_connected_devices(Ok(ports)).unwrap();
    assert_eq!(r, vec![v, f]);
}

#[test]
fn scan_is_idempotent() {
    let cfg = Config {
        devices: vec![
            by_vid_pid(0x2341, 0x8036, Some("Leonardo"), true),
            by_fragment("ACM", None, false),
        ],
    };
    let ports = vec![
        usb_port("/dev/ttyACM0", 0x2341, 0x8036),
        bare_port("/dev/ttyS0"),
        usb_port("/dev/ttyACM1", 0x9999, 0x9999),
    ];
    let first = cfg.get_connected_devices(Ok(ports.clone())).unwrap();
    let second = cfg.get_connected_devices(Ok(ports)).unwrap();
    assert_eq!(first, second);
}

#[test]
fn enumeration_failure_is_propagated() {
    let cfg = Config { devices: vec![by_vid_pid(0x2341, 0x8036, None, false)] };
    let failure = EnumerationError { message: "permission denied".to_string() };
    let r = cfg.get_connected_devices(Err(failure));
    assert_eq!(
        r,
        Err(ScanError::EnumerationFailed { message: "permission denied".to_string() })
    );
}

#[test]
fn enumeration_failure_even_with_no_devices() {
    let cfg = Config { devices: vec![] };
    let failure = EnumerationError { message: "driver error".to_string() };
    let r = cfg.get_connected_devices(Err(failure));
    assert!(matches!(r, Err(ScanError::EnumerationFailed { .. })));
}
