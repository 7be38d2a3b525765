//! USB devices as the registry records them, and their categories.

use vstd::prelude::*;
use vstd::utf8::*;
use vstd::string::StringSliceAdditionalSpecFns;
use vstd::string::StringExecFns;
use crate::text::{
    chars_of, contains, contains_str, last_index_of, rfind_char, string_of, trim, trim_bounds,
};
use crate::timestamps::Timestamp;
use crate::vendors::{lookup_vendor, parse_vid_pid, vid_pid, vendor_of, VendorTable};

verus! {

broadcast use {vstd::string::group_string_axioms, vstd::utf8::group_utf8_lib};

/// The kind of a device, by which devices are grouped for display.
#[derive(Clone, Copy, Debug, PartialEq, Eq, Hash, Structural)]
pub enum DeviceCategory {
    Storage,
    Input,
    Audio,
    Mobile,
    Hub,
    Other,
}

/// The terminal colour in which a category is shown.
#[derive(Clone, Copy, Debug, PartialEq, Eq, Structural)]
pub enum CategoryColor {
    Yellow,
    Cyan,
    Magenta,
    Blue,
    BrightBlack,
    White,
}

/// The label of a category, with its icon.
pub open spec fn category_label(c: DeviceCategory) -> Seq<char> {
    match c {
        DeviceCategory::Storage => "💾 Storage"@,
        DeviceCategory::Input => "🎮 Input Device"@,
        DeviceCategory::Audio => "🎵 Audio"@,
        DeviceCategory::Mobile => "📱 Mobile Device"@,
        DeviceCategory::Hub => "🔌 USB Hub"@,
        DeviceCategory::Other => "🔧 Other"@,
    }
}

/// The colour of a category.
pub open spec fn category_color(c: DeviceCategory) -> CategoryColor {
    match c {
        DeviceCategory::Storage => CategoryColor::Yellow,
        DeviceCategory::Input => CategoryColor::Cyan,
        DeviceCategory::Audio => CategoryColor::Magenta,
        DeviceCategory::Mobile => CategoryColor::Blue,
        DeviceCategory::Hub => CategoryColor::BrightBlack,
        DeviceCategory::Other => CategoryColor::White,
    }
}

impl DeviceCategory {
    /// The label of the category, with its icon.
    pub fn as_str(&self) -> (r: &'static str)
        ensures
            r@ == category_label(*self),
    {
        match self {
            DeviceCategory::Storage => "💾 Storage",
            DeviceCategory::Input => "🎮 Input Device",
            DeviceCategory::Audio => "🎵 Audio",
            DeviceCategory::Mobile => "📱 Mobile Device",
            DeviceCategory::Hub => "🔌 USB Hub",
            DeviceCategory::Other => "🔧 Other",
        }
    }

    /// The colour in which the category is shown.
    pub fn color(&self) -> (r: CategoryColor)
        ensures
            r == category_color(*self),
    {
        match self {
            DeviceCategory::Storage => CategoryColor::Yellow,
            DeviceCategory::Input => CategoryColor::Cyan,
            DeviceCategory::Audio => CategoryColor::Magenta,
            DeviceCategory::Mobile => CategoryColor::Blue,
            DeviceCategory::Hub => CategoryColor::BrightBlack,
            DeviceCategory::Other => CategoryColor::White,
        }
    }
}

/// Words that mark a storage device.
pub open spec fn mentions_storage(t: Seq<char>) -> bool {
    ||| contains(t, "storage"@)
    ||| contains(t, "disk"@)
    ||| contains(t, "drive"@)
    ||| contains(t, "usbstor"@)
    ||| contains(t, "mass storage"@)
}

/// Words that mark an audio device.
pub open spec fn mentions_audio(t: Seq<char>) -> bool {
    ||| contains(t, "audio"@)
    ||| contains(t, "sound"@)
    ||| contains(t, "microphone"@)
    ||| contains(t, "headset"@)
    ||| contains(t, "speaker"@)
    ||| contains(t, "shure"@)
    ||| contains(t, "g735"@)
    ||| contains(t, "046d:0ad8"@)
}

/// Words that mark an input device.
pub open spec fn mentions_input(t: Seq<char>) -> bool {
    ||| contains(t, "keyboard"@)
    ||| contains(t, "mouse"@)
    ||| contains(t, "controller"@)
    ||| contains(t, "gamepad"@)
    ||| contains(t, "hid"@)
    ||| contains(t, "input"@)
    ||| contains(t, "razer"@)
    ||| contains(t, "steelseries"@)
    ||| contains(t, "logitech"@)
    ||| contains(t, "xbox"@)
}

/// Words that mark a mobile device.
pub open spec fn mentions_mobile(t: Seq<char>) -> bool {
    ||| contains(t, "mobile"@)
    ||| contains(t, "phone"@)
    ||| contains(t, "iphone"@)
    ||| contains(t, "android"@)
    ||| contains(t, "mtp"@)
    ||| contains(t, "apple"@)
    ||| contains(t, "oneplus"@)
}

/// The category of a device described by the (lowercase) text `t`: the
/// first of storage, audio, input, mobile and hub whose words occur.
pub open spec fn category_for_text(t: Seq<char>) -> DeviceCategory {
    if mentions_storage(t) {
        DeviceCategory::Storage
    } else if mentions_audio(t) {
        DeviceCategory::Audio
    } else if mentions_input(t) {
        DeviceCategory::Input
    } else if mentions_mobile(t) {
        DeviceCategory::Mobile
    } else if contains(t, "hub"@) {
        DeviceCategory::Hub
    } else {
        DeviceCategory::Other
    }
}

/// Storage words decide the category before any other words, and a
/// device is `Other` exactly when none of the category words occur.
pub proof fn category_priority(t: Seq<char>)
    ensures
        mentions_storage(t) ==> category_for_text(t) == DeviceCategory::Storage,
        category_for_text(t) == DeviceCategory::Other <==> !(mentions_storage(t) || mentions_audio(t)
            || mentions_input(t) || mentions_mobile(t) || contains(t, "hub"@)),
{
}

/// How the words of a lowercase description decide its category: a storage
/// word makes it Storage; else an audio word, Audio; else an input word,
/// Input, whatever mobile words also occur; else a mobile word, Mobile;
/// else `hub`, Hub; with none of these words it is Other.
pub proof fn category_by_words(t: Seq<char>)
    ensures
        ({
            let storage = contains(t, "storage"@) || contains(t, "disk"@) || contains(t, "drive"@)
                || contains(t, "usbstor"@) || contains(t, "mass storage"@);
            let audio = contains(t, "audio"@) || contains(t, "sound"@) || contains(
                t,
                "microphone"@,
            ) || contains(t, "headset"@) || contains(t, "speaker"@) || contains(t, "shure"@)
                || contains(t, "g735"@) || contains(t, "046d:0ad8"@);
            let input = contains(t, "keyboard"@) || contains(t, "mouse"@) || contains(
                t,
                "controller"@,
            ) || contains(t, "gamepad"@) || contains(t, "hid"@) || contains(t, "input"@)
                || contains(t, "razer"@) || contains(t, "steelseries"@) || contains(
                t,
                "logitech"@,
            ) || contains(t, "xbox"@);
            let mobile = contains(t, "mobile"@) || contains(t, "phone"@) || contains(
                t,
                "iphone"@,
            ) || contains(t, "android"@) || contains(t, "mtp"@) || contains(t, "apple"@)
                || contains(t, "oneplus"@);
            let hub = contains(t, "hub"@);
            &&& storage ==> category_for_text(t) == DeviceCategory::Storage
            &&& !storage && audio ==> category_for_text(t) == DeviceCategory::Audio
            &&& !storage && !audio && input ==> category_for_text(t) == DeviceCategory::Input
            &&& !storage && !audio && !input && mobile ==> category_for_text(t)
                == DeviceCategory::Mobile
            &&& !storage && !audio && !input && !mobile && hub ==> category_for_text(t)
                == DeviceCategory::Hub
            &&& !storage && !audio && !input && !mobile && !hub ==> category_for_text(t)
                == DeviceCategory::Other
        }),
{
}

/// Name for what `str::to_lowercase` returns: the Unicode lowercase mapping
/// of the string, which is not always character by character (a final
/// sigma is lowercased by its context).
pub uninterp spec fn unicode_lowercase(s: Seq<char>) -> Seq<char>;

/// Whether `c` is an ASCII character.
pub open spec fn is_ascii_char(c: char) -> bool {
    (c as u32) < 128
}

/// Whether every character of `s` is ASCII.
pub open spec fn is_ascii_text(s: Seq<char>) -> bool {
    forall|i: int| 0 <= i < s.len() ==> is_ascii_char(#[trigger] s[i])
}

/// The ASCII lowercase of `c`: `A` to `Z` become `a` to `z`, every other
/// character stays.
pub open spec fn ascii_lower(c: char) -> char {
    if 65 <= (c as u32) && (c as u32) <= 90 {
        ((c as u32) + 32) as char
    } else {
        c
    }
}

/// The ASCII lowercase of each character of `s`.
pub open spec fn ascii_lowercase(s: Seq<char>) -> Seq<char> {
    s.map_values(|c: char| ascii_lower(c))
}

/// The lowercase of a string, by `str::to_lowercase`. The contract names
/// the result, and says that on ASCII text it is the ASCII lowercase of
/// each character (Unicode maps `A` to `Z` to `a` to `z` and leaves every
/// other ASCII character as it is); the mapping of other characters is
/// left unsaid.
#[verifier::external_body]
fn to_lowercase(s: &str) -> (r: String)
    ensures
        r@ == unicode_lowercase(s@),
        is_ascii_text(s@) ==> r@ == ascii_lowercase(s@),
{
    s.to_lowercase()
}

/// The characters of an optional string, or none.
pub open spec fn chars_or_empty(o: Option<String>) -> Seq<char> {
    match o {
        Some(s) => s@,
        None => Seq::empty(),
    }
}

/// The text a device is categorised by: its registry fields separated by
/// spaces, missing ones empty.
pub open spec fn description_text(
    category: Seq<char>,
    device_type: Seq<char>,
    friendly_name: Option<String>,
    device_desc: Option<String>,
    class: Option<String>,
) -> Seq<char> {
    category + seq![' '] + device_type + seq![' '] + chars_or_empty(friendly_name) + seq![' ']
        + chars_or_empty(device_desc) + seq![' '] + chars_or_empty(class)
}

/// The category of the registry fields of a device: that of the lowercase
/// of its description text.
pub open spec fn device_category_of(
    category: Seq<char>,
    device_type: Seq<char>,
    friendly_name: Option<String>,
    device_desc: Option<String>,
    class: Option<String>,
) -> DeviceCategory {
    category_for_text(
        unicode_lowercase(
            description_text(category, device_type, friendly_name, device_desc, class),
        ),
    )
}

/// The category of registry fields whose description text is ASCII: that
/// of the ASCII lowercase of the text.
pub open spec fn ascii_category_of(
    category: Seq<char>,
    device_type: Seq<char>,
    friendly_name: Option<String>,
    device_desc: Option<String>,
    class: Option<String>,
) -> DeviceCategory {
    category_for_text(
        ascii_lowercase(
            description_text(category, device_type, friendly_name, device_desc, class),
        ),
    )
}

/// Whether `a` and `b` are equal ignoring ASCII case.
pub open spec fn same_ignoring_ascii_case(a: Seq<char>, b: Seq<char>) -> bool {
    ascii_lowercase(a) == ascii_lowercase(b)
}

/// Whether two optional fields are both absent, or both present and equal
/// ignoring ASCII case.
pub open spec fn opt_same_ignoring_ascii_case(a: Option<String>, b: Option<String>) -> bool {
    match (a, b) {
        (None, None) => true,
        (Some(x), Some(y)) => same_ignoring_ascii_case(x@, y@),
        _ => false,
    }
}

/// The ASCII lowercase of a concatenation is the concatenation of the
/// lowercases.
proof fn lemma_lowercase_concat(x: Seq<char>, y: Seq<char>)
    ensures
        ascii_lowercase(x + y) == ascii_lowercase(x) + ascii_lowercase(y),
{
    assert(ascii_lowercase(x + y) =~= ascii_lowercase(x) + ascii_lowercase(y));
}

/// The ASCII lowercase of a description text, field by field.
proof fn lemma_lowercase_description(
    category: Seq<char>,
    device_type: Seq<char>,
    friendly_name: Option<String>,
    device_desc: Option<String>,
    class: Option<String>,
)
    ensures
        ascii_lowercase(description_text(category, device_type, friendly_name, device_desc, class))
            == ascii_lowercase(category) + seq![' '] + ascii_lowercase(device_type) + seq![' ']
            + ascii_lowercase(chars_or_empty(friendly_name)) + seq![' '] + ascii_lowercase(
            chars_or_empty(device_desc),
        ) + seq![' '] + ascii_lowercase(chars_or_empty(class)),
{
    let sp = seq![' '];
    assert(ascii_lowercase(sp) =~= sp);
    let f = chars_or_empty(friendly_name);
    let d = chars_or_empty(device_desc);
    let c = chars_or_empty(class);
    lemma_lowercase_concat(category, sp);
    lemma_lowercase_concat(category + sp, device_type);
    lemma_lowercase_concat(category + sp + device_type, sp);
    lemma_lowercase_concat(category + sp + device_type + sp, f);
    lemma_lowercase_concat(category + sp + device_type + sp + f, sp);
    lemma_lowercase_concat(category + sp + device_type + sp + f + sp, d);
    lemma_lowercase_concat(category + sp + device_type + sp + f + sp + d, sp);
    lemma_lowercase_concat(category + sp + device_type + sp + f + sp + d + sp, c);
}

/// The category ignores ASCII case: registry fields with ASCII description
/// texts that are equal field by field ignoring ASCII case (absent fields
/// matching absent ones) get the same category.
pub proof fn category_ignores_ascii_case(
    category_a: Seq<char>,
    device_type_a: Seq<char>,
    friendly_name_a: Option<String>,
    device_desc_a: Option<String>,
    class_a: Option<String>,
    category_b: Seq<char>,
    device_type_b: Seq<char>,
    friendly_name_b: Option<String>,
    device_desc_b: Option<String>,
    class_b: Option<String>,
)
    requires
        is_ascii_text(
            description_text(category_a, device_type_a, friendly_name_a, device_desc_a, class_a),
        ),
        is_ascii_text(
            description_text(category_b, device_type_b, friendly_name_b, device_desc_b, class_b),
        ),
        same_ignoring_ascii_case(category_a, category_b),
        same_ignoring_ascii_case(device_type_a, device_type_b),
        opt_same_ignoring_ascii_case(friendly_name_a, friendly_name_b),
        opt_same_ignoring_ascii_case(device_desc_a, device_desc_b),
        opt_same_ignoring_ascii_case(class_a, class_b),
    ensures
        ascii_category_of(category_a, device_type_a, friendly_name_a, device_desc_a, class_a)
            == ascii_category_of(category_b, device_type_b, friendly_name_b, device_desc_b, class_b),
{
    lemma_lowercase_description(category_a, device_type_a, friendly_name_a, device_desc_a, class_a);
    lemma_lowercase_description(category_b, device_type_b, friendly_name_b, device_desc_b, class_b);
    assert(ascii_lowercase(chars_or_empty(friendly_name_a)) == ascii_lowercase(
        chars_or_empty(friendly_name_b),
    ));
    assert(ascii_lowercase(chars_or_empty(device_desc_a)) == ascii_lowercase(
        chars_or_empty(device_desc_b),
    ));
    assert(ascii_lowercase(chars_or_empty(class_a)) == ascii_lowercase(chars_or_empty(class_b)));
}

/// The category of a device described by the (lowercase) text `text`.
pub fn category_of_text(text: &str) -> (r: DeviceCategory)
    ensures
        r == category_for_text(text@),
{
    let t = chars_of(text);
    if contains_str(&t, "storage") || contains_str(&t, "disk") || contains_str(&t, "drive")
        || contains_str(&t, "usbstor") || contains_str(&t, "mass storage") {
        return DeviceCategory::Storage;
    }
    if contains_str(&t, "audio") || contains_str(&t, "sound") || contains_str(&t, "microphone")
        || contains_str(&t, "headset") || contains_str(&t, "speaker") || contains_str(&t, "shure")
        || contains_str(&t, "g735") || contains_str(&t, "046d:0ad8") {
        return DeviceCategory::Audio;
    }
    if contains_str(&t, "keyboard") || contains_str(&t, "mouse") || contains_str(&t, "controller")
        || contains_str(&t, "gamepad") || contains_str(&t, "hid") || contains_str(&t, "input")
        || contains_str(&t, "razer") || contains_str(&t, "steelseries") || contains_str(
        &t,
        "logitech",
    ) || contains_str(&t, "xbox") {
        return DeviceCategory::Input;
    }
    if contains_str(&t, "mobile") || contains_str(&t, "phone") || contains_str(&t, "iphone")
        || contains_str(&t, "android") || contains_str(&t, "mtp") || contains_str(&t, "apple")
        || contains_str(&t, "oneplus") {
        return DeviceCategory::Mobile;
    }
    if contains_str(&t, "hub") {
        return DeviceCategory::Hub;
    }
    DeviceCategory::Other
}

/// Appends `o`, or nothing when it is `None`.
fn append_opt(s: &mut String, o: &Option<String>)
    ensures
        final(s)@ == old(s)@ + chars_or_empty(*o),
{
    match o {
        Some(x) => s.append(x.as_str()),
        None => {
            assert(old(s)@ + Seq::<char>::empty() =~= old(s)@);
        },
    }
}

/// A device whose history the scanner reports.
pub struct UsbDevice {
    /// The registry path group the device was found under.
    pub category: String,
    /// The device type key, such as `VID_0781&PID_5591`.
    pub vendor_product: String,
    pub serial_number: String,
    pub friendly_name: Option<String>,
    pub device_desc: Option<String>,
    pub class: Option<String>,
    pub vid: Option<String>,
    pub pid: Option<String>,
    pub vendor_name: Option<String>,
    pub install_time: Option<Timestamp>,
    pub drive_letter: Option<String>,
    pub device_category: DeviceCategory,
}

/// A copy of an optional string.
pub fn copy_opt(o: &Option<String>) -> (r: Option<String>)
    ensures
        r == *o,
{
    match o {
        Some(s) => Some(s.clone()),
        None => None,
    }
}

impl Clone for UsbDevice {
    fn clone(&self) -> (r: Self)
        ensures
            r == *self,
    {
        UsbDevice {
            category: self.category.clone(),
            vendor_product: self.vendor_product.clone(),
            serial_number: self.serial_number.clone(),
            friendly_name: copy_opt(&self.friendly_name),
            device_desc: copy_opt(&self.device_desc),
            class: copy_opt(&self.class),
            vid: copy_opt(&self.vid),
            pid: copy_opt(&self.pid),
            vendor_name: copy_opt(&self.vendor_name),
            install_time: self.install_time,
            drive_letter: copy_opt(&self.drive_letter),
            device_category: self.device_category,
        }
    }
}

/// `name` after its last `;`, trimmed; all of `name` when it has none.
pub open spec fn clean_name(name: Seq<char>) -> Seq<char> {
    match last_index_of(name, ';') {
        Some(i) => trim(name.subrange(i + 1, name.len() as int)),
        None => name,
    }
}

/// The readable part of a registry name such as
/// `@usb.inf,%usb.devicedesc%;USB Composite Device`.
pub fn clean_device_name(name: &str) -> (r: String)
    ensures
        r@ == clean_name(name@),
{
    let v = chars_of(name);
    match rfind_char(&v, ';') {
        Some(i) => {
            let (a, b) = trim_bounds(&v, i + 1, v.len());
            string_of(&v, a, b)
        },
        None => String::from_str(name),
    }
}

/// The bytes of a string.
pub open spec fn bytes_of(s: String) -> Seq<u8> {
    encode_utf8(s@)
}

/// Serials longer than this many bytes are shown cut.
pub const SERIAL_DISPLAY_BYTES: usize = 60;

/// A serial as displayed: its first 60 bytes and `...` when it is longer.
pub open spec fn shown_serial(serial: String) -> Seq<char> {
    let b = bytes_of(serial);
    if b.len() > 60 {
        decode_utf8(b.take(60)) + "..."@
    } else {
        serial@
    }
}

impl UsbDevice {
    /// A device read from the registry: the category of the registry path,
    /// the device type and serial keys, and the `FriendlyName`, `DeviceDesc`
    /// and `Class` values of the device's key. The vendor and product
    /// identifiers come from the device type, and the manufacturer's name is
    /// that of the vendor identifier in `vendors`.
    pub fn from_registry(
        category: String,
        device_type: String,
        serial: String,
        friendly_name: Option<String>,
        device_desc: Option<String>,
        class: Option<String>,
        vendors: &VendorTable,
    ) -> (r: Self)
        ensures
            r.category == category,
            r.vendor_product == device_type,
            r.serial_number == serial,
            r.friendly_name == friendly_name,
            r.device_desc == device_desc,
            r.class == class,
            match vid_pid(device_type@).0 {
                Some(x) => r.vid matches Some(s) && s@ == x,
                None => r.vid is None,
            },
            match vid_pid(device_type@).1 {
                Some(x) => r.pid matches Some(s) && s@ == x,
                None => r.pid is None,
            },
            r.vendor_name == vendor_of(vendors@, vid_pid(device_type@).0),
            r.install_time is None,
            r.drive_letter is None,
            r.device_category == device_category_of(
                category@,
                device_type@,
                friendly_name,
                device_desc,
                class,
            ),
            is_ascii_text(
                description_text(category@, device_type@, friendly_name, device_desc, class),
            ) ==> r.device_category == ascii_category_of(
                category@,
                device_type@,
                friendly_name,
                device_desc,
                class,
            ),
    {
        let (vid, pid) = parse_vid_pid(device_type.as_str());
        let vendor_name = match &vid {
            Some(v) => lookup_vendor(vendors, v),
            None => None,
        };
        let device_category = Self::categorize(
            category.as_str(),
            device_type.as_str(),
            &friendly_name,
            &device_desc,
            &class,
        );
        UsbDevice {
            category,
            vendor_product: device_type,
            serial_number: serial,
            friendly_name,
            device_desc,
            class,
            vid,
            pid,
            vendor_name,
            install_time: None,
            drive_letter: None,
            device_category,
        }
    }

    /// The category of a device from its registry fields.
    pub fn categorize(
        category: &str,
        device_type: &str,
        friendly_name: &Option<String>,
        device_desc: &Option<String>,
        class: &Option<String>,
    ) -> (r: DeviceCategory)
        ensures
            r == device_category_of(category@, device_type@, *friendly_name, *device_desc, *class),
            is_ascii_text(
                description_text(category@, device_type@, *friendly_name, *device_desc, *class),
            ) ==> r == ascii_category_of(
                category@,
                device_type@,
                *friendly_name,
                *device_desc,
                *class,
            ),
    {
        let mut full = String::from_str(category);
        full.append(" ");
        full.append(device_type);
        full.append(" ");
        append_opt(&mut full, friendly_name);
        full.append(" ");
        append_opt(&mut full, device_desc);
        full.append(" ");
        append_opt(&mut full, class);
        proof {
            reveal_strlit(" ");
            assert(full@ =~= description_text(
                category@,
                device_type@,
                *friendly_name,
                *device_desc,
                *class,
            ));
        }
        let lower = to_lowercase(full.as_str());
        category_of_text(lower.as_str())
    }

    /// The name shown for the device: its friendly name, or else its
    /// description, made readable.
    pub fn display_name(&self) -> (r: Option<String>)
        ensures
            match self.friendly_name {
                Some(n) => r matches Some(x) && x@ == clean_name(n@),
                None => match self.device_desc {
                    Some(d) => r matches Some(x) && x@ == clean_name(d@),
                    None => r is None,
                },
            },
    {
        match &self.friendly_name {
            Some(n) => Some(clean_device_name(n.as_str())),
            None => match &self.device_desc {
                Some(d) => Some(clean_device_name(d.as_str())),
                None => None,
            },
        }
    }

    /// The serial as shown: cut after 60 bytes, with `...`, when longer.
    /// The cut must fall between characters.
    pub fn display_serial(&self) -> (r: String)
        requires
            bytes_of(self.serial_number).len() <= 60 || is_char_boundary(
                bytes_of(self.serial_number),
                60,
            ),
        ensures
            r@ == shown_serial(self.serial_number),
    {
        let s = self.serial_number.as_str();
        if s.as_bytes().len() > SERIAL_DISPLAY_BYTES {
            let (head, _) = s.split_at(SERIAL_DISPLAY_BYTES);
            proof {
                assert(head.spec_bytes() =~= bytes_of(self.serial_number).take(60));
                encode_utf8_decode_utf8(head@);
            }
            let mut r = String::from_str(head);
            r.append("...");
            r
        } else {
            self.serial_number.clone()
        }
    }
}

} // verus!
