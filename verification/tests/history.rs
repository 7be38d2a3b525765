use usb_device_history::device::{DeviceCategory, UsbDevice};
use usb_device_history::history::{
    group_by_category, is_system_device, match_install_times, merge_duplicates, name_quality,
    serials_match, split_system_devices,
};
use usb_device_history::timestamps::{Timestamp, TimestampMap};
use usb_device_history::vendors::VendorTable;

fn dev(vendor_product: &str, serial: &str, friendly: Option<&str>) -> UsbDevice {
    UsbDevice::from_registry(
        "USB Devices".to_string(),
        vendor_product.to_string(),
        serial.to_string(),
        friendly.map(|s| s.to_string()),
        None,
        None,
        &VendorTable::new(),
    )
}

#[test]
fn system_devices_are_recognised() {
    assert!(is_system_device(&dev("ROOT_HUB30", "1", None)));
    assert!(is_system_device(&dev("VID_0000&PID_0000", "1", None)));
    assert!(is_system_device(&dev("VID_046D&PID_C52B&MI_00", "1", None)));
    assert!(is_system_device(&dev("VID_1234&PID_5678&LAMPARRAY", "1", None)));
    assert!(!is_system_device(&dev("VID_0781&PID_5591", "1", None)));
}

#[test]
fn split_system_devices_by_mode() {
    let ds = vec![
        dev("VID_0781&PID_5591", "a", None),
        dev("ROOT_HUB30", "b", None),
        dev("VID_046D&PID_C52B", "c", None),
    ];
    assert_eq!(split_system_devices(&ds, false), (vec![0, 2], vec![1]));
    assert_eq!(split_system_devices(&ds, true), (vec![0, 1, 2], vec![]));
}

#[test]
fn serials_match_by_prefix_when_long() {
    let a = "0401f51759fee3a2a5379070fa6f".to_string();
    let b = "0401f51759fee3a2a5379070fa6f14887b43cd".to_string();
    assert!(serials_match(&a, &b));
    assert!(serials_match(&b, &a));
    assert!(!serials_match(&"0401".to_string(), &"0401f5".to_string()));
    assert!(serials_match(&"0401".to_string(), &"0401".to_string()));
}

#[test]
fn name_quality_scores() {
    assert_eq!(name_quality(&dev("v", "1", Some("USB Mass Storage Device"))), 1);
    assert_eq!(name_quality(&dev("v", "1", Some("Cruzer USB Device"))), 1);
    assert_eq!(name_quality(&dev("v", "1", Some("SanDisk Cruzer Blade USB Device"))), 31);
    assert_eq!(name_quality(&dev("v", "1", None)), 0);
}

#[test]
fn merge_duplicates_keeps_device_with_vid() {
    let mut ds = vec![
        dev("Disk&Ven_SanDisk", "0401f51759fee3a2a5379070fa6f14887b43cd", Some("SanDisk Cruzer Blade USB Device")),
        dev("VID_0781&PID_5591", "0401f51759fee3a2a5379070fa6f", Some("USB Mass Storage Device")),
        dev("VID_046D&PID_C52B", "other", None),
    ];
    merge_duplicates(&mut ds);
    assert_eq!(ds.len(), 2);
    assert_eq!(ds[0].vendor_product, "VID_0781&PID_5591");
    assert_eq!(ds[0].friendly_name, Some("SanDisk Cruzer Blade USB Device".to_string()));
    assert_eq!(ds[0].serial_number, "0401f51759fee3a2a5379070fa6f14887b43cd");
    assert_eq!(ds[1].serial_number, "other");
}

#[test]
fn merge_duplicates_leaves_distinct_devices() {
    let mut ds = vec![dev("VID_1111&PID_2222", "a", None), dev("VID_3333&PID_4444", "b", None)];
    merge_duplicates(&mut ds);
    assert_eq!(ds.len(), 2);
    assert_eq!(ds[0].serial_number, "a");
    assert_eq!(ds[1].serial_number, "b");
}

#[test]
fn group_by_category_in_display_order() {
    let ds = vec![
        dev("VID_046D&PID_C52B", "1", Some("Gaming Mouse")),
        dev("VID_0781&PID_5591", "2", Some("Flash Drive")),
        dev("VID_1234&PID_0001", "3", Some("Gadget")),
        dev("VID_0781&PID_5592", "4", Some("Portable Disk")),
    ];
    let g = group_by_category(&ds);
    assert_eq!(
        g,
        vec![
            (DeviceCategory::Storage, vec![1, 3]),
            (DeviceCategory::Input, vec![0]),
            (DeviceCategory::Other, vec![2]),
        ]
    );
}

#[test]
fn match_install_times_prefers_setupapi() {
    let mut ds = vec![
        dev("VID_0781&PID_5591", "1", None),
        dev("VID_046D&PID_C52B", "2", None),
        dev("Disk&Ven_X", "3", None),
        dev("VID_1111&PID_2222", "4", None),
    ];
    let mut setupapi = TimestampMap::new();
    setupapi.insert("VID_0781&PID_5591".to_string(), Timestamp { seconds: 10, nanos: 0 });
    let mut events = TimestampMap::new();
    events.insert("VID_0781&PID_5591".to_string(), Timestamp { seconds: 20, nanos: 0 });
    events.insert("VID_046D&PID_C52B".to_string(), Timestamp { seconds: 30, nanos: 0 });
    let n = match_install_times(&mut ds, &setupapi, &events);
    assert_eq!(n, 2);
    assert_eq!(ds[0].install_time, Some(Timestamp { seconds: 10, nanos: 0 }));
    assert_eq!(ds[1].install_time, Some(Timestamp { seconds: 30, nanos: 0 }));
    assert_eq!(ds[2].install_time, None);
    assert_eq!(ds[3].install_time, None);
}

fn with_vid(vid: Option<&str>, serial: &str) -> UsbDevice {
    let mut d = dev("USB", serial, None);
    d.vid = vid.map(|v| v.to_string());
    d.pid = vid.map(|_| "0001".to_string());
    d
}

#[test]
fn merge_duplicates_rescans_after_removal() {
    let mut ds = vec![
        with_vid(None, "x"),
        with_vid(Some("0781"), "y"),
        with_vid(Some("046D"), "y"),
        with_vid(Some("05AC"), "x"),
    ];
    merge_duplicates(&mut ds);
    assert_eq!(ds.len(), 2);
    assert_eq!(ds[0].serial_number, "y");
    assert_eq!(ds[0].vid, Some("0781".to_string()));
    assert_eq!(ds[1].serial_number, "x");
    assert_eq!(ds[1].vid, Some("05AC".to_string()));
}
