//! The device history report: system devices set apart, duplicates
//! merged, devices grouped by category, installation times matched.

use vstd::prelude::*;
use vstd::utf8::*;
use vstd::string::StringExecFns;
use crate::device::{DeviceCategory, UsbDevice, bytes_of, copy_opt};
use crate::text::{chars_of, contains, contains_str, starts_with};
use crate::timestamps::{Timestamp, TimestampMap};

verus! {

broadcast use {vstd::string::group_string_axioms, vstd::utf8::group_utf8_lib};

/// A system or composite device: a root hub, vendor `0000`, an interface
/// (`&MI_`) or a lamp array.
pub open spec fn is_system(d: UsbDevice) -> bool {
    let t = d.vendor_product@;
    ||| contains(t, "ROOT_HUB"@)
    ||| contains(t, "VID_0000"@)
    ||| contains(t, "&MI_"@)
    ||| contains(t, "&LAMPARRAY"@)
}

/// The system devices are exactly those whose device type names a root
/// hub, vendor `0000`, an interface (`&MI_`) or a lamp array.
pub proof fn system_device_names(d: UsbDevice)
    ensures
        is_system(d) <==> (contains(d.vendor_product@, "ROOT_HUB"@) || contains(
            d.vendor_product@,
            "VID_0000"@,
        ) || contains(d.vendor_product@, "&MI_"@) || contains(d.vendor_product@, "&LAMPARRAY"@)),
{
}

/// Outside verbose mode a device is set apart exactly when its device type
/// names a root hub, vendor `0000`, an interface (`&MI_`) or a lamp array,
/// and shown exactly when it names none of them.
pub proof fn split_by_device_type(devs: Seq<UsbDevice>, k: int)
    requires
        devs.len() <= usize::MAX,
        0 <= k < devs.len(),
    ensures
        ({
            let t = devs[k].vendor_product@;
            let named = contains(t, "ROOT_HUB"@) || contains(t, "VID_0000"@) || contains(t, "&MI_"@)
                || contains(t, "&LAMPARRAY"@);
            &&& indices_by_system(devs, false).contains(k as usize) <==> !named
            &&& indices_by_system(devs, true).contains(k as usize) <==> named
        }),
{
    split_partitions(devs, k as usize);
}

/// Whether `d` is a system or composite device.
pub fn is_system_device(d: &UsbDevice) -> (r: bool)
    ensures
        r == is_system(*d),
{
    let t = chars_of(d.vendor_product.as_str());
    contains_str(&t, "ROOT_HUB") || contains_str(&t, "VID_0000") || contains_str(&t, "&MI_")
        || contains_str(&t, "&LAMPARRAY")
}

/// The indices, in order, of the devices that are system devices
/// (`want`) or are not (`!want`).
pub open spec fn indices_by_system(devs: Seq<UsbDevice>, want: bool) -> Seq<usize>
    decreases devs.len(),
{
    if devs.len() == 0 {
        Seq::empty()
    } else {
        let r = indices_by_system(devs.drop_last(), want);
        if is_system(devs.last()) == want {
            r.push((devs.len() - 1) as usize)
        } else {
            r
        }
    }
}

/// The indices `0..n`.
pub open spec fn all_indices(n: nat) -> Seq<usize> {
    Seq::new(n, |i: int| i as usize)
}

/// Splits the devices into those shown and the system devices set apart:
/// in verbose mode all are shown and none set apart; otherwise the system
/// devices are set apart. Both lists hold indices in increasing order.
pub fn split_system_devices(devices: &Vec<UsbDevice>, verbose: bool) -> (r: (Vec<usize>, Vec<usize>))
    ensures
        verbose ==> r.0@ == all_indices(devices@.len()) && r.1@ == Seq::<usize>::empty(),
        !verbose ==> r.0@ == indices_by_system(devices@, false) && r.1@ == indices_by_system(
            devices@,
            true,
        ),
{
    let mut shown: Vec<usize> = Vec::new();
    let mut system: Vec<usize> = Vec::new();
    let mut i: usize = 0;
    while i < devices.len()
        invariant
            i <= devices.len(),
            verbose ==> shown@ == all_indices(i as nat) && system@ == Seq::<usize>::empty(),
            !verbose ==> shown@ == indices_by_system(devices@.take(i as int), false) && system@
                == indices_by_system(devices@.take(i as int), true),
        decreases devices.len() - i,
    {
        proof {
            assert(devices@.take(i + 1).drop_last() =~= devices@.take(i as int));
            assert(all_indices((i + 1) as nat) =~= all_indices(i as nat).push(i));
        }
        if verbose {
            shown.push(i);
        } else if is_system_device(&devices[i]) {
            system.push(i);
        } else {
            shown.push(i);
        }
        i += 1;
    }
    proof {
        assert(devices@.take(devices@.len() as int) =~= devices@);
    }
    (shown, system)
}

/// `p` is a prefix of `s`.
pub open spec fn is_prefix(p: Seq<char>, s: Seq<char>) -> bool {
    starts_with(s, p)
}

/// Whether two serials name the same device: when both have at least 20
/// bytes, one is a prefix of the other (serials are stored cut differently
/// under `USB` and `USBSTOR`); otherwise they are equal.
pub open spec fn serials_agree(a: String, b: String) -> bool {
    if bytes_of(a).len() >= 20 && bytes_of(b).len() >= 20 {
        is_prefix(b@, a@) || is_prefix(a@, b@)
    } else {
        a@ == b@
    }
}

/// The number of bytes of a string.
fn byte_len(s: &String) -> (r: usize)
    ensures
        r == bytes_of(*s).len(),
{
    s.as_str().as_bytes().len()
}

/// Whether `p` is a prefix of `s`.
fn prefix_of(p: &Vec<char>, s: &Vec<char>) -> (r: bool)
    ensures
        r == is_prefix(p@, s@),
{
    if p.len() > s.len() {
        return false;
    }
    let mut k: usize = 0;
    while k < p.len()
        invariant
            p.len() <= s.len(),
            k <= p.len(),
            s@.subrange(0, k as int) == p@.subrange(0, k as int),
        decreases p.len() - k,
    {
        if s[k] != p[k] {
            assert(s@.subrange(0, p@.len() as int)[k as int] != p@[k as int]);
            return false;
        }
        assert(s@.subrange(0, k + 1) =~= s@.subrange(0, k as int).push(s@[k as int]));
        assert(p@.subrange(0, k + 1) =~= p@.subrange(0, k as int).push(p@[k as int]));
        k += 1;
    }
    assert(p@.subrange(0, p@.len() as int) =~= p@);
    true
}

/// Whether two serials name the same device (see `serials_agree`).
pub fn serials_match(a: &String, b: &String) -> (r: bool)
    ensures
        r == serials_agree(*a, *b),
{
    if byte_len(a) >= 20 && byte_len(b) >= 20 {
        let av = chars_of(a.as_str());
        let bv = chars_of(b.as_str());
        prefix_of(&bv, &av) || prefix_of(&av, &bv)
    } else {
        *a == *b
    }
}

/// Matching serials is symmetric.
pub proof fn serials_agree_symmetric(a: String, b: String)
    ensures
        serials_agree(a, b) == serials_agree(b, a),
{
}

/// How informative a device's name is: 1 for a generic mass storage or
/// short `USB Device` name, else the name's length in bytes.
pub open spec fn quality(d: UsbDevice) -> nat {
    let (chars, len) = match d.friendly_name {
        Some(n) => (n@, bytes_of(n).len()),
        None => match d.device_desc {
            Some(x) => (x@, bytes_of(x).len()),
            None => (Seq::<char>::empty(), 0nat),
        },
    };
    if contains(chars, "Mass Storage"@) || (contains(chars, "USB Device"@) && len < 20) {
        1
    } else {
        len
    }
}

/// How informative a device's name is (see `quality`).
pub fn name_quality(d: &UsbDevice) -> (r: usize)
    ensures
        r == quality(*d),
{
    let name: &String = match &d.friendly_name {
        Some(n) => n,
        None => match &d.device_desc {
            Some(x) => x,
            None => {
                proof {
                    reveal_strlit("Mass Storage");
                    reveal_strlit("USB Device");
                }
                return 0;
            },
        },
    };
    let v = chars_of(name.as_str());
    let len = byte_len(name);
    if contains_str(&v, "Mass Storage") || (contains_str(&v, "USB Device") && len < 20) {
        1
    } else {
        len
    }
}

/// Merges the devices at `i` and `j`: the one with a vendor identifier is
/// kept (else the one at `j`), takes the other's names when they are more
/// informative and the other's serial when it is longer in bytes; the
/// other is removed.
pub open spec fn merge_pair(v: Seq<UsbDevice>, i: int, j: int) -> Seq<UsbDevice> {
    let keep = if v[i].vid is Some {
        i
    } else {
        j
    };
    let gone = if v[i].vid is Some {
        j
    } else {
        i
    };
    let k = v[keep];
    let m = v[gone];
    let k1 = if quality(m) > quality(k) {
        UsbDevice { friendly_name: m.friendly_name, device_desc: m.device_desc, ..k }
    } else {
        k
    };
    let k2 = if bytes_of(m.serial_number).len() > bytes_of(k1.serial_number).len() {
        UsbDevice { serial_number: m.serial_number, ..k1 }
    } else {
        k1
    };
    v.update(keep, k2).remove(gone)
}

/// Merging the matching pair `(i, j)`: the list loses one device, the one
/// without a vendor identifier when the earlier has none (else the later);
/// the others keep their order. The device kept keeps its identifiers, takes
/// the names of the removed one only when those are more informative, and
/// ends with the longer serial in bytes: its own unless the removed one's is
/// strictly longer.
pub proof fn merge_pair_survivor(v: Seq<UsbDevice>, i: int, j: int)
    requires
        0 <= i < j < v.len(),
    ensures
        ({
            let keep = if v[i].vid is Some {
                i
            } else {
                j
            };
            let gone = if v[i].vid is Some {
                j
            } else {
                i
            };
            let p = if keep < gone {
                keep
            } else {
                keep - 1
            };
            let r = merge_pair(v, i, j);
            let ks = v[keep].serial_number;
            let gs = v[gone].serial_number;
            &&& r.len() == v.len() - 1
            &&& forall|q: int|
                0 <= q < r.len() && q != p ==> #[trigger] r[q] == v[if q < gone {
                    q
                } else {
                    q + 1
                }]
            &&& r[p].category == v[keep].category
            &&& r[p].vendor_product == v[keep].vendor_product
            &&& r[p].vid == v[keep].vid
            &&& r[p].pid == v[keep].pid
            &&& r[p].install_time == v[keep].install_time
            &&& r[p].device_category == v[keep].device_category
            &&& (r[p].serial_number == ks || r[p].serial_number == gs)
            &&& bytes_of(r[p].serial_number).len() >= bytes_of(ks).len()
            &&& bytes_of(r[p].serial_number).len() >= bytes_of(gs).len()
            &&& r[p].serial_number != ks ==> bytes_of(gs).len() > bytes_of(ks).len()
            &&& quality(v[gone]) > quality(v[keep]) ==> r[p].friendly_name == v[gone].friendly_name
                && r[p].device_desc == v[gone].device_desc
            &&& quality(v[gone]) <= quality(v[keep]) ==> r[p].friendly_name
                == v[keep].friendly_name && r[p].device_desc == v[keep].device_desc
        }),
{
}

/// The merge from the pair `(i, j)` on: pairs are looked at in order, each
/// device with every later one; the first pair whose serials match is
/// merged, and the scan starts again from the first pair of the shortened
/// list, until no pair matches.
pub open spec fn merge_from(v: Seq<UsbDevice>, i: int, j: int) -> Seq<UsbDevice>
    decreases v.len(), v.len() - i, v.len() - j,
{
    if i < 0 || i >= v.len() {
        v
    } else if j <= i || j >= v.len() {
        merge_from(v, i + 1, i + 2)
    } else if serials_agree(v[i].serial_number, v[j].serial_number) {
        merge_from(merge_pair(v, i, j), 0, 1)
    } else {
        merge_from(v, i, j + 1)
    }
}

/// The devices with duplicates merged.
pub open spec fn merged(v: Seq<UsbDevice>) -> Seq<UsbDevice> {
    merge_from(v, 0, 1)
}

/// All pairs before `(i, j)` in scan order have serials that do not match.
pub open spec fn scanned_distinct(v: Seq<UsbDevice>, i: int, j: int) -> bool {
    forall|a: int, b: int|
        0 <= a < b < v.len() && (a < i || (a == i && b < j)) ==> !serials_agree(
            #[trigger] v[a].serial_number,
            #[trigger] v[b].serial_number,
        )
}

proof fn lemma_merge_from_result_distinct(v: Seq<UsbDevice>, i: int, j: int)
    requires
        0 <= i,
        i < j,
        scanned_distinct(v, i, j),
    ensures
        serials_distinct(merge_from(v, i, j)),
    decreases v.len(), v.len() - i, v.len() - j,
{
    if i >= v.len() {
    } else if j >= v.len() {
        lemma_merge_from_result_distinct(v, i + 1, i + 2);
    } else if serials_agree(v[i].serial_number, v[j].serial_number) {
        let w = merge_pair(v, i, j);
        assert(w.len() == v.len() - 1);
        lemma_merge_from_result_distinct(w, 0, 1);
    } else {
        lemma_merge_from_result_distinct(v, i, j + 1);
    }
}

/// After merging, no two devices have matching serials.
pub proof fn merged_has_no_duplicates(v: Seq<UsbDevice>)
    ensures
        serials_distinct(merged(v)),
{
    lemma_merge_from_result_distinct(v, 0, 1);
}

/// Merges duplicate devices, those whose serials match (see `merged`);
/// afterwards no two devices have matching serials.
pub fn merge_duplicates(devices: &mut Vec<UsbDevice>)
    ensures
        final(devices)@ == merged(old(devices)@),
        serials_distinct(final(devices)@),
{
    let ghost goal = merged(old(devices)@);
    proof {
        merged_has_no_duplicates(old(devices)@);
    }
    let mut i: usize = 0;
    let mut j: usize = 1;
    while i < devices.len()
        invariant
            i < j,
            i < devices@.len() ==> j <= devices@.len(),
            goal == merge_from(devices@, i as int, j as int),
            goal == merged(old(devices)@),
            serials_distinct(goal),
        decreases devices@.len(), devices@.len() - i, devices@.len() - j,
    {
        if j >= devices.len() {
            if i + 1 < devices.len() {
                i += 1;
                j = i + 1;
            } else {
                assert(merge_from(devices@, i + 1, i + 2) == devices@);
                return;
            }
        } else if serials_match(&devices[i].serial_number, &devices[j].serial_number) {
            let ghost before = devices@;
            let (keep, gone) = if devices[i].vid.is_some() {
                (i, j)
            } else {
                (j, i)
            };
            let gone_quality = name_quality(&devices[gone]);
            let keep_quality = name_quality(&devices[keep]);
            let mut kept = devices[keep].clone();
            if gone_quality > keep_quality {
                kept.friendly_name = copy_opt(&devices[gone].friendly_name);
                kept.device_desc = copy_opt(&devices[gone].device_desc);
            }
            if byte_len(&devices[gone].serial_number) > byte_len(&kept.serial_number) {
                kept.serial_number = devices[gone].serial_number.clone();
            }
            devices.set(keep, kept);
            devices.remove(gone);
            proof {
                assert(devices@ =~= merge_pair(before, i as int, j as int));
            }
            i = 0;
            j = 1;
        } else {
            j += 1;
        }
    }
}

/// The order in which categories are shown.
pub open spec fn category_order() -> Seq<DeviceCategory> {
    seq![
        DeviceCategory::Storage,
        DeviceCategory::Input,
        DeviceCategory::Audio,
        DeviceCategory::Mobile,
        DeviceCategory::Hub,
        DeviceCategory::Other,
    ]
}

/// The indices, in order, of the devices of category `c`.
pub open spec fn indices_of(devs: Seq<UsbDevice>, c: DeviceCategory) -> Seq<usize>
    decreases devs.len(),
{
    if devs.len() == 0 {
        Seq::empty()
    } else {
        let r = indices_of(devs.drop_last(), c);
        if devs.last().device_category == c {
            r.push((devs.len() - 1) as usize)
        } else {
            r
        }
    }
}

/// The groups of the first `k` categories in display order that have
/// devices: each category with the indices of its devices.
pub open spec fn groups_upto(devs: Seq<UsbDevice>, k: int) -> Seq<(DeviceCategory, Seq<usize>)>
    decreases k,
{
    if k <= 0 {
        Seq::empty()
    } else {
        let p = groups_upto(devs, k - 1);
        let c = category_order()[k - 1];
        let g = indices_of(devs, c);
        if g.len() > 0 {
            p.push((c, g))
        } else {
            p
        }
    }
}

/// The devices grouped by category in display order, empty groups left out.
pub open spec fn groups(devs: Seq<UsbDevice>) -> Seq<(DeviceCategory, Seq<usize>)> {
    groups_upto(devs, 6)
}

/// The indices of the devices of category `c`.
fn indices_of_category(devices: &Vec<UsbDevice>, c: DeviceCategory) -> (r: Vec<usize>)
    ensures
        r@ == indices_of(devices@, c),
{
    let mut r: Vec<usize> = Vec::new();
    let mut i: usize = 0;
    while i < devices.len()
        invariant
            i <= devices.len(),
            r@ == indices_of(devices@.take(i as int), c),
        decreases devices.len() - i,
    {
        proof {
            assert(devices@.take(i + 1).drop_last() =~= devices@.take(i as int));
        }
        if devices[i].device_category == c {
            r.push(i);
        }
        i += 1;
    }
    proof {
        assert(devices@.take(devices@.len() as int) =~= devices@);
    }
    r
}

/// The devices grouped by category in display order (see `groups`).
pub fn group_by_category(devices: &Vec<UsbDevice>) -> (r: Vec<(DeviceCategory, Vec<usize>)>)
    ensures
        r@.len() == groups(devices@).len(),
        forall|k: int|
            #![trigger r@[k]]
            0 <= k < r@.len() ==> r@[k].0 == groups(devices@)[k].0 && r@[k].1@ == groups(devices@)[k].1,
{
    let order = [
        DeviceCategory::Storage,
        DeviceCategory::Input,
        DeviceCategory::Audio,
        DeviceCategory::Mobile,
        DeviceCategory::Hub,
        DeviceCategory::Other,
    ];
    let mut r: Vec<(DeviceCategory, Vec<usize>)> = Vec::new();
    let mut k: usize = 0;
    while k < 6
        invariant
            k <= 6,
            order@ == category_order(),
            r@.len() == groups_upto(devices@, k as int).len(),
            forall|x: int|
                #![trigger r@[x]]
                0 <= x < r@.len() ==> r@[x].0 == groups_upto(devices@, k as int)[x].0 && r@[x].1@
                    == groups_upto(devices@, k as int)[x].1,
        decreases 6 - k,
    {
        let c = order[k];
        let g = indices_of_category(devices, c);
        if g.len() > 0 {
            r.push((c, g));
        }
        k += 1;
    }
    r
}

/// The key under which a device's installation time is recorded:
/// `VID_xxxx&PID_yyyy`, when both identifiers are known.
pub open spec fn timestamp_key(d: UsbDevice) -> Option<Seq<char>> {
    match (d.vid, d.pid) {
        (Some(v), Some(p)) => Some("VID_"@ + v@ + "&PID_"@ + p@),
        _ => None,
    }
}

/// The installation time found for a device: from the setupapi log when
/// it has one, else from the event logs.
pub open spec fn found_time(
    d: UsbDevice,
    setupapi: Map<Seq<char>, Timestamp>,
    events: Map<Seq<char>, Timestamp>,
) -> Option<Timestamp> {
    match timestamp_key(d) {
        Some(key) => if setupapi.dom().contains(key) {
            Some(setupapi[key])
        } else if events.dom().contains(key) {
            Some(events[key])
        } else {
            None
        },
        None => None,
    }
}

/// A device with the installation time found for it, if any.
pub open spec fn with_found_time(
    d: UsbDevice,
    setupapi: Map<Seq<char>, Timestamp>,
    events: Map<Seq<char>, Timestamp>,
) -> UsbDevice {
    match found_time(d, setupapi, events) {
        Some(t) => UsbDevice { install_time: Some(t), ..d },
        None => d,
    }
}

/// The setupapi log is preferred: a device whose key it holds gets its
/// time from it, whatever the event logs say; a device whose key neither
/// holds keeps the time it had.
pub proof fn setupapi_time_preferred(
    d: UsbDevice,
    setupapi: Map<Seq<char>, Timestamp>,
    events: Map<Seq<char>, Timestamp>,
)
    ensures
        timestamp_key(d) is Some && setupapi.dom().contains(timestamp_key(d)->0) ==> with_found_time(
            d,
            setupapi,
            events,
        ).install_time == Some(setupapi[timestamp_key(d)->0]),
        timestamp_key(d) is Some && !setupapi.dom().contains(timestamp_key(d)->0)
            && !events.dom().contains(timestamp_key(d)->0) ==> with_found_time(d, setupapi, events)
            == d,
        timestamp_key(d) is None ==> with_found_time(d, setupapi, events) == d,
{
}

/// How many of the devices have an installation time found.
pub open spec fn count_found(
    devs: Seq<UsbDevice>,
    setupapi: Map<Seq<char>, Timestamp>,
    events: Map<Seq<char>, Timestamp>,
) -> nat
    decreases devs.len(),
{
    if devs.len() == 0 {
        0
    } else {
        count_found(devs.drop_last(), setupapi, events) + if found_time(
            devs.last(),
            setupapi,
            events,
        ) is Some {
            1nat
        } else {
            0nat
        }
    }
}

proof fn lemma_count_found_bound(
    devs: Seq<UsbDevice>,
    setupapi: Map<Seq<char>, Timestamp>,
    events: Map<Seq<char>, Timestamp>,
)
    ensures
        count_found(devs, setupapi, events) <= devs.len(),
    decreases devs.len(),
{
    if devs.len() > 0 {
        lemma_count_found_bound(devs.drop_last(), setupapi, events);
    }
}

/// Sets the installation time of each device found in the setupapi log,
/// or else in the event logs; returns how many devices got one.
pub fn match_install_times(
    devices: &mut Vec<UsbDevice>,
    setupapi: &TimestampMap,
    events: &TimestampMap,
) -> (r: usize)
    ensures
        final(devices)@.len() == old(devices)@.len(),
        forall|i: int|
            0 <= i < old(devices)@.len() ==> #[trigger] final(devices)@[i] == with_found_time(
                old(devices)@[i],
                setupapi@,
                events@,
            ),
        r == count_found(old(devices)@, setupapi@, events@),
{
    let ghost orig = devices@;
    let mut count: usize = 0;
    let mut i: usize = 0;
    while i < devices.len()
        invariant
            devices@.len() == orig.len(),
            i <= orig.len(),
            forall|k: int|
                0 <= k < i ==> #[trigger] devices@[k] == with_found_time(
                    orig[k],
                    setupapi@,
                    events@,
                ),
            forall|k: int| i <= k < orig.len() ==> #[trigger] devices@[k] == orig[k],
            count == count_found(orig.take(i as int), setupapi@, events@),
        decreases orig.len() - i,
    {
        proof {
            assert(orig.take(i + 1).drop_last() =~= orig.take(i as int));
            lemma_count_found_bound(orig.take(i as int), setupapi@, events@);
        }
        let found = match (&devices[i].vid, &devices[i].pid) {
            (Some(v), Some(p)) => {
                let mut key = String::from_str("VID_");
                key.append(v.as_str());
                key.append("&PID_");
                key.append(p.as_str());
                match setupapi.get(&key) {
                    Some(t) => Some(*t),
                    None => match events.get(&key) {
                        Some(t) => Some(*t),
                        None => None,
                    },
                }
            },
            _ => None,
        };
        match found {
            Some(t) => {
                let mut d = devices[i].clone();
                d.install_time = Some(t);
                devices.set(i, d);
                count += 1;
            },
            None => {},
        }
        i += 1;
    }
    proof {
        assert(orig.take(orig.len() as int) =~= orig);
    }
    count
}

proof fn lemma_merge_from_len(v: Seq<UsbDevice>, i: int, j: int)
    ensures
        merge_from(v, i, j).len() <= v.len(),
        v.len() > 0 ==> merge_from(v, i, j).len() > 0,
    decreases v.len(), v.len() - i, v.len() - j,
{
    if i < 0 || i >= v.len() {
    } else if j <= i || j >= v.len() {
        lemma_merge_from_len(v, i + 1, i + 2);
    } else if serials_agree(v[i].serial_number, v[j].serial_number) {
        let w = merge_pair(v, i, j);
        assert(w.len() == v.len() - 1);
        lemma_merge_from_len(w, 0, 1);
    } else {
        lemma_merge_from_len(v, i, j + 1);
    }
}

/// Merging duplicates never adds devices, and leaves at least one device
/// when there was one.
pub proof fn merged_len(v: Seq<UsbDevice>)
    ensures
        merged(v).len() <= v.len(),
        v.len() > 0 ==> merged(v).len() > 0,
{
    lemma_merge_from_len(v, 0, 1);
}

/// No two of the devices have matching serials.
pub open spec fn serials_distinct(v: Seq<UsbDevice>) -> bool {
    forall|a: int, b: int|
        0 <= a < b < v.len() ==> !serials_agree(#[trigger] v[a].serial_number, #[trigger] v[b].serial_number)
}

proof fn lemma_merge_from_distinct(v: Seq<UsbDevice>, i: int, j: int)
    requires
        serials_distinct(v),
    ensures
        merge_from(v, i, j) == v,
    decreases v.len(), v.len() - i, v.len() - j,
{
    if i < 0 || i >= v.len() {
    } else if j <= i || j >= v.len() {
        lemma_merge_from_distinct(v, i + 1, i + 2);
    } else {
        assert(!serials_agree(v[i].serial_number, v[j].serial_number));
        lemma_merge_from_distinct(v, i, j + 1);
    }
}

/// Devices whose serials pairwise differ are left as they are.
pub proof fn merged_keeps_distinct(v: Seq<UsbDevice>)
    requires
        serials_distinct(v),
    ensures
        merged(v) == v,
{
    lemma_merge_from_distinct(v, 0, 1);
}

proof fn lemma_indices_by_system(devs: Seq<UsbDevice>, want: bool, i: usize)
    requires
        devs.len() <= usize::MAX,
    ensures
        indices_by_system(devs, want).contains(i) <==> (i < devs.len() && is_system(devs[i as int])
            == want),
    decreases devs.len(),
{
    if devs.len() > 0 {
        let t = devs.drop_last();
        lemma_indices_by_system(t, want, i);
        let r = indices_by_system(t, want);
        let full = indices_by_system(devs, want);
        if full.contains(i) {
            let k = choose|k: int| 0 <= k < full.len() && full[k] == i;
            if k < r.len() {
                assert(r[k] == i);
                assert(r.contains(i));
                assert(t[i as int] == devs[i as int]);
            } else {
                assert(i == devs.len() - 1);
            }
        }
        if i < devs.len() && is_system(devs[i as int]) == want {
            if i < devs.len() - 1 {
                assert(t[i as int] == devs[i as int]);
                let k = choose|k: int| 0 <= k < r.len() && r[k] == i;
                assert(full[k] == i);
            } else {
                assert(full[r.len() as int] == i);
            }
        }
    }
}

proof fn lemma_indices_by_system_len(devs: Seq<UsbDevice>)
    ensures
        indices_by_system(devs, false).len() + indices_by_system(devs, true).len() == devs.len(),
    decreases devs.len(),
{
    if devs.len() > 0 {
        lemma_indices_by_system_len(devs.drop_last());
    }
}

/// Outside verbose mode every device is either shown or set apart as a
/// system device, never both: an index is shown exactly when its device is
/// not a system device, and set apart exactly when it is.
pub proof fn split_partitions(devs: Seq<UsbDevice>, i: usize)
    requires
        devs.len() <= usize::MAX,
    ensures
        indices_by_system(devs, false).contains(i) <==> (i < devs.len() && !is_system(
            devs[i as int],
        )),
        indices_by_system(devs, true).contains(i) <==> (i < devs.len() && is_system(
            devs[i as int],
        )),
        indices_by_system(devs, false).len() + indices_by_system(devs, true).len() == devs.len(),
{
    lemma_indices_by_system(devs, false, i);
    lemma_indices_by_system(devs, true, i);
    lemma_indices_by_system_len(devs);
}

proof fn lemma_indices_of(devs: Seq<UsbDevice>, c: DeviceCategory, i: usize)
    requires
        devs.len() <= usize::MAX,
    ensures
        indices_of(devs, c).contains(i) <==> (i < devs.len() && devs[i as int].device_category
            == c),
    decreases devs.len(),
{
    if devs.len() > 0 {
        let t = devs.drop_last();
        lemma_indices_of(t, c, i);
        let r = indices_of(t, c);
        let full = indices_of(devs, c);
        if full.contains(i) {
            let k = choose|k: int| 0 <= k < full.len() && full[k] == i;
            if k < r.len() {
                assert(r[k] == i);
                assert(r.contains(i));
                assert(t[i as int] == devs[i as int]);
            } else {
                assert(i == devs.len() - 1);
            }
        }
        if i < devs.len() && devs[i as int].device_category == c {
            if i < devs.len() - 1 {
                assert(t[i as int] == devs[i as int]);
                let k = choose|k: int| 0 <= k < r.len() && r[k] == i;
                assert(full[k] == i);
            } else {
                assert(full[r.len() as int] == i);
            }
        }
    }
}

proof fn lemma_groups_upto_has(devs: Seq<UsbDevice>, k: int, m: int)
    requires
        0 <= m < k <= 6,
        indices_of(devs, category_order()[m]).len() > 0,
    ensures
        exists|x: int|
            0 <= x < groups_upto(devs, k).len() && #[trigger] groups_upto(devs, k)[x] == (
                category_order()[m],
                indices_of(devs, category_order()[m]),
            ),
    decreases k,
{
    let p = groups_upto(devs, k - 1);
    if m < k - 1 {
        lemma_groups_upto_has(devs, k - 1, m);
        let x = choose|x: int|
            0 <= x < p.len() && #[trigger] p[x] == (
                category_order()[m],
                indices_of(devs, category_order()[m]),
            );
        assert(groups_upto(devs, k)[x] == p[x]);
    } else {
        assert(groups_upto(devs, k)[p.len() as int] == (
            category_order()[m],
            indices_of(devs, category_order()[m]),
        ));
    }
}

/// Every device is shown in the group of its own category.
pub proof fn every_device_grouped(devs: Seq<UsbDevice>, i: usize)
    requires
        devs.len() <= usize::MAX,
        i < devs.len(),
    ensures
        exists|x: int|
            0 <= x < groups(devs).len() && #[trigger] groups(devs)[x].0 == devs[i as int].device_category
                && groups(devs)[x].1.contains(i),
{
    let c = devs[i as int].device_category;
    let m: int = match c {
        DeviceCategory::Storage => 0,
        DeviceCategory::Input => 1,
        DeviceCategory::Audio => 2,
        DeviceCategory::Mobile => 3,
        DeviceCategory::Hub => 4,
        DeviceCategory::Other => 5,
    };
    assert(category_order()[m] == c);
    lemma_indices_of(devs, c, i);
    lemma_groups_upto_has(devs, 6, m);
    let x = choose|x: int|
        0 <= x < groups_upto(devs, 6).len() && #[trigger] groups_upto(devs, 6)[x] == (
            category_order()[m],
            indices_of(devs, category_order()[m]),
        );
    assert(groups(devs)[x].0 == c);
}

} // verus!
