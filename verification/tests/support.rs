use usb_device_history::mounted::{collect_mounted_devices, mounted_entry};
use usb_device_history::eventlog::extract_date;
use usb_device_history::text::split_lines;
use usb_device_history::timestamps::{Timestamp, TimestampMap};
use usb_device_history::vendors::parse_vid_pid;
use usb_device_history::wmi_query::{removable_drives, Win32_LogicalDisk};

#[test]
fn split_lines_like_str_lines() {
    let text = "foo\nbar\n\r\nbaz\r";
    let expected: Vec<String> = text.lines().map(|l| l.to_string()).collect();
    assert_eq!(split_lines(text), expected);
    assert_eq!(split_lines(""), Vec::<String>::new());
    assert_eq!(split_lines("a\n\n"), vec!["a".to_string(), "".to_string()]);
}

#[test]
fn trimming_like_str_trim() {
    for s in ["  a b \t", "\u{3000}x\u{2028}", "", "   ", "y", "\u{85}z\u{a0}"] {
        assert_eq!(extract_date(&format!("Date:{}", s)), Some(s.trim().to_string()));
    }
}

#[test]
fn timestamp_map_insert_get_extend() {
    let mut m = TimestampMap::new();
    assert!(m.is_empty());
    m.insert("a".to_string(), Timestamp { seconds: 1, nanos: 0 });
    m.insert("b".to_string(), Timestamp { seconds: 2, nanos: 0 });
    m.insert("a".to_string(), Timestamp { seconds: 3, nanos: 0 });
    assert_eq!(m.len(), 2);
    assert_eq!(m.get(&"a".to_string()), Some(&Timestamp { seconds: 3, nanos: 0 }));
    let mut n = TimestampMap::new();
    n.insert("b".to_string(), Timestamp { seconds: 9, nanos: 0 });
    n.insert("c".to_string(), Timestamp { seconds: 4, nanos: 0 });
    m.extend(&n);
    assert_eq!(m.len(), 3);
    assert_eq!(m.get(&"b".to_string()), Some(&Timestamp { seconds: 9, nanos: 0 }));
    assert_eq!(m.get(&"z".to_string()), None);
}

#[test]
fn parse_vid_pid_four_characters() {
    assert_eq!(parse_vid_pid("VID_0781&PID_5591"), (Some("0781".to_string()), Some("5591".to_string())));
    assert_eq!(parse_vid_pid("VID_07"), (None, None));
    assert_eq!(parse_vid_pid("ROOT_HUB30"), (None, None));
}

#[test]
fn mounted_entries_of_usb_drives() {
    assert_eq!(
        mounted_entry("\\DosDevices\\E:", "\\??\\USBSTOR#Disk&Ven_SanDisk"),
        Some(("\\??\\USBSTOR#Disk&Ven_SanDisk".to_string(), "E:".to_string()))
    );
    assert_eq!(mounted_entry("\\DosDevices\\C:", "\\??\\SCSI#Disk"), None);
    assert_eq!(mounted_entry("\\??\\Volume{x}", "USB"), None);
    let values = vec![
        ("\\DosDevices\\E:".to_string(), b"\\??\\USBSTOR#Disk".to_vec()),
        ("\\DosDevices\\F:".to_string(), vec![0x55, 0x53, 0x42, 0xff]),
        ("\\DosDevices\\C:".to_string(), b"IDE".to_vec()),
    ];
    let m = collect_mounted_devices(&values);
    assert_eq!(m.len(), 2);
    assert_eq!(m.get(&"\\??\\USBSTOR#Disk".to_string()), Some(&"E:".to_string()));
    assert_eq!(m.get(&"USB\u{FFFD}".to_string()), Some(&"F:".to_string()));
}

#[test]
fn removable_drive_rows() {
    let disks = vec![Win32_LogicalDisk {
        device_i_d: "E:".to_string(),
        volume_name: Some("STICK".to_string()),
        description: None,
    }];
    assert_eq!(removable_drives(&disks), vec![("E:".to_string(), Some("STICK".to_string()), None)]);
}
