//! USB devices among the drive letters of the registry's MountedDevices.

use vstd::prelude::*;
use vstd::utf8::*;
use crate::text::{chars_of, contains, contains_str, starts_with, starts_with_str, string_of};
use crate::timestamps::StringMap;

verus! {

broadcast use vstd::string::group_string_axioms;

/// Name for the text `String::from_utf8_lossy` makes of bytes, invalid
/// sequences replaced by U+FFFD.
pub uninterp spec fn utf8_lossy(bytes: Seq<u8>) -> Seq<char>;

/// The text of raw registry data (`String::from_utf8_lossy`): the decoding
/// of valid UTF-8; for other bytes the result is named, not described.
#[verifier::external_body]
fn from_utf8_lossy(bytes: &[u8]) -> (r: String)
    ensures
        r@ == utf8_lossy(bytes@),
        valid_utf8(bytes@) ==> r@ == decode_utf8(bytes@),
{
    String::from_utf8_lossy(bytes).into_owned()
}

/// The drive of a MountedDevices value name `\DosDevices\X:`.
pub open spec fn dos_drive(name: Seq<char>) -> Option<Seq<char>> {
    if starts_with(name, "\\DosDevices\\"@) {
        Some(name.subrange(12, name.len() as int))
    } else {
        None
    }
}

/// A device path of a USB device.
pub open spec fn is_usb_path(path: Seq<char>) -> bool {
    contains(path, "USBSTOR"@) || contains(path, "USB"@)
}

/// The entry of a MountedDevices value: its device path and drive, for a
/// drive letter of a USB device.
pub open spec fn mounted_entry_of(name: Seq<char>, path: Seq<char>) -> Option<
    (Seq<char>, Seq<char>),
> {
    match dos_drive(name) {
        Some(drive) => if is_usb_path(path) {
            Some((path, drive))
        } else {
            None
        },
        None => None,
    }
}

/// The entry of the MountedDevices value `name` whose data reads as the
/// device path `device_path` (see `mounted_entry_of`).
pub fn mounted_entry(name: &str, device_path: &str) -> (r: Option<(String, String)>)
    ensures
        match mounted_entry_of(name@, device_path@) {
            Some((p, d)) => r matches Some((x, y)) && x@ == p && y@ == d,
            None => r is None,
        },
{
    let n = chars_of(name);
    if !starts_with_str(&n, "\\DosDevices\\") {
        return None;
    }
    proof {
        reveal_strlit("\\DosDevices\\");
    }
    let p = chars_of(device_path);
    if contains_str(&p, "USBSTOR") || contains_str(&p, "USB") {
        Some((String::from_str(device_path), string_of(&n, 12, n.len())))
    } else {
        None
    }
}

/// The USB devices with a drive letter among MountedDevices values, given
/// as names and raw data: device path to drive.
pub open spec fn mounted_scan(values: Seq<(String, Vec<u8>)>) -> Map<Seq<char>, Seq<char>>
    decreases values.len(),
{
    if values.len() == 0 {
        Map::empty()
    } else {
        let m = mounted_scan(values.drop_last());
        match mounted_entry_of(values.last().0@, utf8_lossy(values.last().1@)) {
            Some((p, d)) => m.insert(p, d),
            None => m,
        }
    }
}

/// The characters of each value of a map of strings.
pub open spec fn string_values(m: Map<Seq<char>, String>) -> Map<Seq<char>, Seq<char>> {
    m.map_values(|s: String| s@)
}

/// The drive letters of USB devices among MountedDevices values.
pub fn collect_mounted_devices(values: &Vec<(String, Vec<u8>)>) -> (r: StringMap<String>)
    ensures
        string_values(r@) == mounted_scan(values@),
{
    let mut m: StringMap<String> = StringMap::new();
    let mut i: usize = 0;
    proof {
        assert(string_values(m@) =~= mounted_scan(values@.take(0)));
    }
    while i < values.len()
        invariant
            i <= values.len(),
            string_values(m@) == mounted_scan(values@.take(i as int)),
        decreases values.len() - i,
    {
        proof {
            assert(values@.take(i + 1).drop_last() =~= values@.take(i as int));
        }
        let path = from_utf8_lossy(values[i].1.as_slice());
        match mounted_entry(values[i].0.as_str(), path.as_str()) {
            Some((p, d)) => {
                let ghost before = m@;
                m.insert(p, d);
                proof {
                    assert(string_values(m@) =~= string_values(before).insert(p@, d@));
                }
            },
            None => {},
        }
        i += 1;
    }
    proof {
        assert(values@.take(values@.len() as int) =~= values@);
    }
    m
}

} // verus!
