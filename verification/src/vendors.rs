//! Vendor and product identifiers in registry device-type names, and the
//! manufacturer table they are looked up in.

use vstd::prelude::*;
use crate::text::{chars_of, find, find_str, lemma_find_from, string_of};
use crate::timestamps::StringMap;

verus! {

/// The four characters after the first occurrence of `tag` in `t`, when
/// there are four.
pub open spec fn four_after(t: Seq<char>, tag: Seq<char>) -> Option<Seq<char>> {
    match find(t, tag) {
        Some(i) => if i + tag.len() + 4 <= t.len() {
            Some(t.subrange(i + tag.len(), i + tag.len() + 4))
        } else {
            None
        },
        None => None,
    }
}

/// The identifiers of a device type such as `VID_0781&PID_5591`.
pub open spec fn vid_pid(t: Seq<char>) -> (Option<Seq<char>>, Option<Seq<char>>) {
    (four_after(t, "VID_"@), four_after(t, "PID_"@))
}

/// The four characters after the first `tag` in `v`.
fn four_after_tag(v: &Vec<char>, tag: &str) -> (r: Option<String>)
    ensures
        match four_after(v@, tag@) {
            Some(x) => r matches Some(s) && s@ == x,
            None => r is None,
        },
{
    let n = crate::text::chars_of(tag).len();
    match find_str(v, tag) {
        Some(i) => {
            proof {
                lemma_find_from(v@, tag@, 0);
            }
            if n <= v.len() - i && 4 <= v.len() - i - n {
                Some(string_of(v, i + n, i + n + 4))
            } else {
                None
            }
        },
        None => None,
    }
}

/// The vendor (`VID_`) and product (`PID_`) identifiers of a device type:
/// the four characters after each tag.
pub fn parse_vid_pid(device_type: &str) -> (r: (Option<String>, Option<String>))
    ensures
        match vid_pid(device_type@).0 {
            Some(x) => r.0 matches Some(s) && s@ == x,
            None => r.0 is None,
        },
        match vid_pid(device_type@).1 {
            Some(x) => r.1 matches Some(s) && s@ == x,
            None => r.1 is None,
        },
{
    let v = chars_of(device_type);
    (four_after_tag(&v, "VID_"), four_after_tag(&v, "PID_"))
}

/// Manufacturer names keyed by vendor identifier, such as `0781` for
/// SanDisk.
pub type VendorTable = StringMap<String>;

/// The manufacturer that `table` names for the vendor identifier `vid`;
/// `None` when there is no identifier or the table has no entry for it.
pub open spec fn vendor_of(table: Map<Seq<char>, String>, vid: Option<Seq<char>>) -> Option<
    String,
> {
    match vid {
        Some(v) => if table.dom().contains(v) {
            Some(table[v])
        } else {
            None
        },
        None => None,
    }
}

/// The manufacturer that `vendors` names for the vendor identifier `vid`.
pub fn lookup_vendor(vendors: &VendorTable, vid: &String) -> (r: Option<String>)
    ensures
        r == vendor_of(vendors@, Some(vid@)),
{
    match vendors.get(vid) {
        Some(name) => Some(name.clone()),
        None => None,
    }
}

} // verus!
