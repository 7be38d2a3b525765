use usb_device_history::setupapi::{
    device_id_extraction_panics, extract_device_id, parse_setupapi_lines, parse_timestamp,
    section_start_text, SetupApiScan,
};
use usb_device_history::timestamps::Timestamp;

#[test]
fn test_extract_device_id() {
    let line = ">>>  [Device Install (Hardware initiated) - USB\\VID_0781&PID_5591\\123456]";
    assert_eq!(extract_device_id(line), Some("VID_0781&PID_5591".to_string()));
}

#[test]
fn test_parse_timestamp() {
    let line = ">>>  Section start 2026/01/31 23:41:31.538";
    let result = parse_timestamp(line);
    assert!(result.is_some());
}

#[test]
fn parse_timestamp_gives_the_utc_instant() {
    let line = ">>>  Section start 2026/01/31 23:41:31.538";
    assert_eq!(parse_timestamp(line), Some(Timestamp { seconds: 1769902891, nanos: 0 }));
}

#[test]
fn section_start_text_rewrites_date_and_drops_fraction() {
    let line = ">>>  Section start 2026/01/31 23:41:31.538";
    assert_eq!(section_start_text(line), Some("2026-01-31 23:41:31".to_string()));
}

#[test]
fn parse_timestamp_needs_two_words() {
    assert_eq!(parse_timestamp(">>>  Section start 2026/01/31"), None);
    assert_eq!(parse_timestamp("no marker 2026/01/31 23:41:31"), None);
    assert_eq!(parse_timestamp(">>>  Section start not a-date"), None);
}

#[test]
fn extract_device_id_with_interface_suffix() {
    let line = ">>>  [Device Install - USB\\VID_046D&PID_0AD8&MI_00\\7&abc]";
    assert_eq!(extract_device_id(line), Some("VID_046D&PID_0AD8".to_string()));
}

#[test]
fn extract_device_id_stops_at_ampersand_without_pid_nearby() {
    // The first `&` ends the identifier when `PID_` is not within 20 bytes.
    let line = "USB\\VID_0781XXXXXXXXXXXXXXXX&PID_5591]";
    assert_eq!(extract_device_id(line), None);
}

#[test]
fn extract_device_id_without_vid() {
    assert_eq!(extract_device_id(">>>  [Device Install - USBSTOR\\Disk&Ven_X]"), None);
}

#[test]
fn extraction_panics_on_short_window() {
    assert!(device_id_extraction_panics("USB\\VID_12&"));
    assert!(!device_id_extraction_panics(
        ">>>  [Device Install (Hardware initiated) - USB\\VID_0781&PID_5591\\123456]"
    ));
}

#[test]
fn setupapi_lines_pair_headers_with_section_starts() {
    let lines: Vec<String> = vec![
        ">>>  [Device Install (Hardware initiated) - USB\\VID_0781&PID_5591\\123456]".to_string(),
        ">>>  Section start 2026/01/31 23:41:31.538".to_string(),
        "     dvi: something".to_string(),
        ">>>  [Device Install (Hardware initiated) - USBSTOR\\Disk&Ven_SanDisk]".to_string(),
        "  >>>  Section start 2026/01/31 10:00:00.000  ".to_string(),
        ">>>  Section start 2025/12/01 08:30:00.000".to_string(),
    ];
    let m = parse_setupapi_lines(&lines).expect("no panic");
    assert_eq!(m.len(), 2);
    assert_eq!(
        m.get(&"VID_0781&PID_5591".to_string()),
        Some(&Timestamp { seconds: 1769902891, nanos: 0 })
    );
    assert_eq!(m.get(&"USBSTOR".to_string()), Some(&Timestamp { seconds: 1769853600, nanos: 0 }));
}

#[test]
fn setupapi_lines_abort_on_panicking_line() {
    let lines: Vec<String> = vec![
        ">>>  [Device Install (Hardware initiated) - USB\\VID_0781&PID_5591\\123456]".to_string(),
        ">>>  Section start 2026/01/31 23:41:31.538".to_string(),
        ">>>  [Device Install - USB\\VID_12&".to_string(),
    ];
    assert!(parse_setupapi_lines(&lines).is_none());
}

#[test]
fn setupapi_step_with_given_instant() {
    let mut scan = SetupApiScan::new();
    assert!(scan.step(">>>  [Device Install - USB\\VID_1234&PID_ABCD\\SN]", None));
    let t = Timestamp { seconds: 42, nanos: 7 };
    assert!(scan.step(">>>  Section start whatever", Some(t)));
    // The pending device was used up.
    assert!(scan.step(">>>  Section start again", Some(Timestamp { seconds: 1, nanos: 0 })));
    let m = scan.into_timestamps();
    assert_eq!(m.len(), 1);
    assert_eq!(m.get(&"VID_1234&PID_ABCD".to_string()), Some(&t));
}

#[test]
fn setupapi_lines_keep_first_installation_time() {
    let lines: Vec<String> = vec![
        ">>>  [Device Install (Hardware initiated) - USB\\VID_0781&PID_5591\\123456]".to_string(),
        ">>>  Section start 2026/01/31 10:00:00.000".to_string(),
        ">>>  [Device Install (Hardware initiated) - USB\\VID_0781&PID_5591\\123456]".to_string(),
        ">>>  Section start 2026/01/31 23:41:31.538".to_string(),
    ];
    let m = parse_setupapi_lines(&lines).expect("no panic");
    assert_eq!(m.len(), 1);
    assert_eq!(
        m.get(&"VID_0781&PID_5591".to_string()),
        Some(&Timestamp { seconds: 1769853600, nanos: 0 })
    );
}

#[test]
fn setupapi_step_keeps_recorded_time() {
    let mut scan = SetupApiScan::new();
    let first = Timestamp { seconds: 10, nanos: 0 };
    assert!(scan.step(">>>  [Device Install - USB\\VID_1234&PID_ABCD\\SN]", None));
    assert!(scan.step(">>>  Section start x", Some(first)));
    assert!(scan.step(">>>  [Device Install - USB\\VID_1234&PID_ABCD\\SN]", None));
    assert!(scan.step(">>>  Section start y", Some(Timestamp { seconds: 20, nanos: 0 })));
    let m = scan.into_timestamps();
    assert_eq!(m.get(&"VID_1234&PID_ABCD".to_string()), Some(&first));
}
