use usb_device_history::eventlog::{
    collect_event_timestamps, extract_date, extract_device_id, frameworks_date, parse_driver_frameworks_output,
    parse_system_log_output, system_log_entry, system_log_time_text, FrameworksScan,
};
use usb_device_history::timestamps::{Timestamp, TimestampMap};

#[test]
fn extract_date_after_date_prefix() {
    assert_eq!(extract_date("Date: 2026-01-31T10:00:00Z  "), Some("2026-01-31T10:00:00Z".to_string()));
}

#[test]
fn extract_date_from_time_created() {
    let line = "<TimeCreated SystemTime='2026-01-31T10:00:00.0000000Z'/>";
    assert_eq!(extract_date(line), Some("2026-01-31T10:00:00.0000000Z".to_string()));
    assert_eq!(extract_date("<TimeCreated/>"), None);
    assert_eq!(extract_date("Nothing here"), None);
}

#[test]
fn event_device_id_up_to_separator() {
    assert_eq!(extract_device_id("Device USB\\VID_0781&PID_5591 arrived"), Some("VID_0781".to_string()));
    assert_eq!(extract_device_id("VID_0781 installed"), Some("VID_0781".to_string()));
}

#[test]
fn event_device_id_falls_back_to_usbstor() {
    assert_eq!(extract_device_id("USBSTOR device VID_0781"), Some("USBSTOR_Device".to_string()));
    assert_eq!(extract_device_id("a USBSTOR disk"), Some("USBSTOR_Device".to_string()));
    assert_eq!(extract_device_id("a mouse"), None);
}

#[test]
fn frameworks_date_parses_rfc3339() {
    assert_eq!(
        frameworks_date("Date: 2026-01-31T10:00:00Z"),
        Some(Timestamp { seconds: 1769853600, nanos: 0 })
    );
    assert_eq!(
        frameworks_date("Date: 2026-01-31T12:00:00+02:00"),
        Some(Timestamp { seconds: 1769853600, nanos: 0 })
    );
    assert_eq!(frameworks_date("Date: yesterday"), None);
    assert_eq!(frameworks_date("2026-01-31T10:00:00Z"), None);
}

#[test]
fn driver_frameworks_output_records_device_after_date() {
    let text = "Event[0]:\r\n  Date: 2026-01-31T10:00:00Z\r\n  Description: USB\\VID_0781&PID_5591\\123 started\r\n  USB\\VID_FFFF&PID_0001 later\r\n";
    let m = parse_driver_frameworks_output(text).expect("one timestamp");
    assert_eq!(m.len(), 1);
    assert_eq!(
        m.get(&"VID_0781".to_string()),
        Some(&Timestamp { seconds: 1769853600, nanos: 0 })
    );
}

#[test]
fn driver_frameworks_output_without_dates_is_none() {
    assert!(parse_driver_frameworks_output("USB\\VID_0781&PID_5591\n").is_none());
    assert!(parse_driver_frameworks_output("").is_none());
}

#[test]
fn frameworks_scan_step_with_given_date() {
    let mut scan = FrameworksScan::new();
    let t = Timestamp { seconds: 5, nanos: 0 };
    scan.step("Date: anything", Some(t));
    scan.step("USB VID_0001&PID_0002", None);
    let m = scan.into_timestamps();
    assert_eq!(m.get(&"VID_0001".to_string()), Some(&t));
}

#[test]
fn system_log_lines() {
    assert_eq!(
        system_log_time_text(" 2026-01-31T10:00:00Z |USB\\VID_0781&PID_5591 x"),
        Some("2026-01-31T10:00:00Z".to_string())
    );
    let t = Timestamp { seconds: 9, nanos: 1 };
    assert_eq!(
        system_log_entry("time|device VID_0781&PID_5591 x", Some(t)),
        Some(("VID_0781".to_string(), t))
    );
    assert_eq!(system_log_entry("time|device VID_0781", None), None);
    assert_eq!(system_log_entry("no bar VID_0781 x", Some(t)), None);
}

#[test]
fn system_log_output_collects_entries() {
    let text = "2026-01-31T10:00:00.0000000+00:00|USB\\VID_0781&PID_5591 device\n2025-12-01T08:30:00Z|Mass storage USBSTOR\nbad|VID_1111 x\n";
    let m = parse_system_log_output(text).expect("entries");
    assert_eq!(m.len(), 2);
    assert_eq!(m.get(&"VID_0781".to_string()), Some(&Timestamp { seconds: 1769853600, nanos: 0 }));
    assert_eq!(
        m.get(&"USBSTOR_Device".to_string()),
        Some(&Timestamp { seconds: 1764577800, nanos: 0 })
    );
    assert!(parse_system_log_output("nothing|here\n").is_none());
}

fn one_entry(key: &str, seconds: i64) -> TimestampMap {
    let mut m = TimestampMap::new();
    m.insert(key.to_string(), Timestamp { seconds, nanos: 0 });
    m
}

#[test]
fn event_timestamps_prefer_driver_frameworks() {
    let r = collect_event_timestamps(Some(one_entry("VID_0781&PID_5591", 5)), || -> Option<TimestampMap> {
        panic!("the System log is not queried")
    });
    assert_eq!(r.len(), 1);
    assert_eq!(
        r.get(&"VID_0781&PID_5591".to_string()),
        Some(&Timestamp { seconds: 5, nanos: 0 })
    );
}

#[test]
fn event_timestamps_fall_back_to_system_log() {
    let r = collect_event_timestamps(None, || Some(one_entry("VID_046D&PID_C52B", 9)));
    assert_eq!(r.get(&"VID_046D&PID_C52B".to_string()), Some(&Timestamp { seconds: 9, nanos: 0 }));
    let r = collect_event_timestamps(Some(TimestampMap::new()), || Some(one_entry("USBSTOR", 3)));
    assert_eq!(r.len(), 1);
    assert_eq!(r.get(&"USBSTOR".to_string()), Some(&Timestamp { seconds: 3, nanos: 0 }));
    let r = collect_event_timestamps(None, || None);
    assert!(r.is_empty());
}
