use usb_device_history::device::{
    category_of_text, clean_device_name, CategoryColor, DeviceCategory, UsbDevice,
};
use usb_device_history::vendors::{lookup_vendor, VendorTable};

fn device(serial: &str, friendly: Option<&str>, desc: Option<&str>) -> UsbDevice {
    UsbDevice::from_registry(
        "USB Devices".to_string(),
        "VID_0781&PID_5591".to_string(),
        serial.to_string(),
        friendly.map(|s| s.to_string()),
        desc.map(|s| s.to_string()),
        None,
        &VendorTable::new(),
    )
}

#[test]
fn category_labels_and_colors() {
    assert_eq!(DeviceCategory::Storage.as_str(), "💾 Storage");
    assert_eq!(DeviceCategory::Input.as_str(), "🎮 Input Device");
    assert_eq!(DeviceCategory::Audio.as_str(), "🎵 Audio");
    assert_eq!(DeviceCategory::Mobile.as_str(), "📱 Mobile Device");
    assert_eq!(DeviceCategory::Hub.as_str(), "🔌 USB Hub");
    assert_eq!(DeviceCategory::Other.as_str(), "🔧 Other");
    assert_eq!(DeviceCategory::Storage.color(), CategoryColor::Yellow);
    assert_eq!(DeviceCategory::Input.color(), CategoryColor::Cyan);
    assert_eq!(DeviceCategory::Audio.color(), CategoryColor::Magenta);
    assert_eq!(DeviceCategory::Mobile.color(), CategoryColor::Blue);
    assert_eq!(DeviceCategory::Hub.color(), CategoryColor::BrightBlack);
    assert_eq!(DeviceCategory::Other.color(), CategoryColor::White);
}

#[test]
fn category_of_text_priorities() {
    assert_eq!(category_of_text("usb mass storage device"), DeviceCategory::Storage);
    assert_eq!(category_of_text("hid keyboard with disk"), DeviceCategory::Storage);
    assert_eq!(category_of_text("logitech g735 headset"), DeviceCategory::Audio);
    assert_eq!(category_of_text("xbox 360 controller"), DeviceCategory::Input);
    assert_eq!(category_of_text("apple iphone"), DeviceCategory::Mobile);
    assert_eq!(category_of_text("generic usb hub"), DeviceCategory::Hub);
    assert_eq!(category_of_text("serial adapter"), DeviceCategory::Other);
    assert_eq!(category_of_text("USB HUB"), DeviceCategory::Other);
}

#[test]
fn categorize_lowercases_the_fields() {
    // Only the lowercase text holds "usbstor"; the wrapper must lowercase.
    assert_eq!(
        UsbDevice::categorize("USB Devices", "USBSTOR", &None, &None, &None),
        DeviceCategory::Storage
    );
    assert_eq!(
        UsbDevice::categorize(
            "USB Devices",
            "VID_045E&PID_028E",
            &Some("Xbox 360 Controller for Windows".to_string()),
            &None,
            &Some("XnaComposite".to_string())
        ),
        DeviceCategory::Input
    );
    assert_eq!(
        UsbDevice::categorize("USB Devices", "VID_0000&PID_0000", &None, &None, &None),
        DeviceCategory::Other
    );
}

#[test]
fn from_registry_fills_fields() {
    let d = UsbDevice::from_registry(
        "USB Storage".to_string(),
        "Disk&Ven_SanDisk&Prod_Cruzer".to_string(),
        "0401f5".to_string(),
        Some("SanDisk Cruzer USB Device".to_string()),
        None,
        Some("DiskDrive".to_string()),
        &VendorTable::new(),
    );
    assert_eq!(d.vendor_product, "Disk&Ven_SanDisk&Prod_Cruzer");
    assert_eq!(d.serial_number, "0401f5");
    assert_eq!(d.vid, None);
    assert_eq!(d.pid, None);
    assert_eq!(d.device_category, DeviceCategory::Storage);
    assert_eq!(d.install_time, None);
    assert_eq!(d.drive_letter, None);
    let e = device("1", None, None);
    assert_eq!(e.vid, Some("0781".to_string()));
    assert_eq!(e.pid, Some("5591".to_string()));
    assert_eq!(e.vendor_name, None);
}

fn sample_vendors() -> VendorTable {
    let mut vendors = VendorTable::new();
    vendors.insert("0781".to_string(), "SanDisk".to_string());
    vendors.insert("046D".to_string(), "Logitech".to_string());
    vendors
}

#[test]
fn from_registry_names_vendor_from_table() {
    let vendors = sample_vendors();
    let d = UsbDevice::from_registry(
        "USB Devices".to_string(),
        "VID_0781&PID_5591".to_string(),
        "1".to_string(),
        None,
        None,
        None,
        &vendors,
    );
    assert_eq!(d.vendor_name, Some("SanDisk".to_string()));
    let unknown = UsbDevice::from_registry(
        "USB Devices".to_string(),
        "VID_9999&PID_0001".to_string(),
        "2".to_string(),
        None,
        None,
        None,
        &vendors,
    );
    assert_eq!(unknown.vendor_name, None);
    let no_vid = UsbDevice::from_registry(
        "USB Storage".to_string(),
        "Disk&Ven_SanDisk".to_string(),
        "3".to_string(),
        None,
        None,
        None,
        &vendors,
    );
    assert_eq!(no_vid.vendor_name, None);
}

#[test]
fn lookup_vendor_finds_known_ids() {
    let vendors = sample_vendors();
    assert_eq!(lookup_vendor(&vendors, &"046D".to_string()), Some("Logitech".to_string()));
    assert_eq!(lookup_vendor(&vendors, &"046d".to_string()), None);
}

#[test]
fn clean_device_name_takes_text_after_last_semicolon() {
    assert_eq!(clean_device_name("@usb.inf,%usb.devicedesc%;  USB Composite Device "), "USB Composite Device");
    assert_eq!(clean_device_name("a;b;c"), "c");
    assert_eq!(clean_device_name("Plain Name"), "Plain Name");
    assert_eq!(clean_device_name("ends;"), "");
}

#[test]
fn display_name_prefers_friendly_name() {
    assert_eq!(device("1", Some("x;Friendly"), Some("y;Desc")).display_name(), Some("Friendly".to_string()));
    assert_eq!(device("1", None, Some("y; Desc")).display_name(), Some("Desc".to_string()));
    assert_eq!(device("1", None, None).display_name(), None);
}

#[test]
fn display_serial_cuts_long_serials() {
    let long = "0401f51759fee3a2a5379070fa6f14887b43cd053cccf99e35e4ba0ef4981234567890";
    let shown = device(long, None, None).display_serial();
    assert_eq!(shown, format!("{}...", &long[..60]));
    assert_eq!(device("short", None, None).display_serial(), "short");
    let exact = "x".repeat(60);
    assert_eq!(device(&exact, None, None).display_serial(), exact);
}

#[test]
fn categorize_ignores_ascii_case() {
    let a = UsbDevice::categorize(
        "USB Devices",
        "VID_046D&PID_C52B",
        &Some("Gaming MOUSE".to_string()),
        &None,
        &Some("HIDClass".to_string()),
    );
    let b = UsbDevice::categorize(
        "usb devices",
        "vid_046d&pid_c52b",
        &Some("gaming mouse".to_string()),
        &None,
        &Some("hidclass".to_string()),
    );
    assert_eq!(a, DeviceCategory::Input);
    assert_eq!(a, b);
    assert_eq!(
        UsbDevice::categorize("USB Storage", "DISK&VEN_X", &None, &None, &None),
        UsbDevice::categorize("usb storage", "disk&ven_x", &None, &None, &None)
    );
    assert_eq!(
        UsbDevice::categorize("USB Devices", "X", &Some("USB HUB".to_string()), &None, &None),
        DeviceCategory::Hub
    );
}
