//! Removable drives reported by WMI.

use vstd::prelude::*;
use crate::device::copy_opt;

verus! {

/// A row of the WMI class `Win32_LogicalDisk`.
#[allow(non_camel_case_types)]
#[derive(Debug)]
pub struct Win32_LogicalDisk {
    pub device_i_d: String,
    pub volume_name: Option<String>,
    pub description: Option<String>,
}

/// The drive, volume label and description of each disk, in order.
pub fn removable_drives(disks: &Vec<Win32_LogicalDisk>) -> (r: Vec<
    (String, Option<String>, Option<String>),
>)
    ensures
        r@.len() == disks@.len(),
        forall|i: int|
            0 <= i < r@.len() ==> #[trigger] r@[i] == (
                disks@[i].device_i_d,
                disks@[i].volume_name,
                disks@[i].description,
            ),
{
    let mut r: Vec<(String, Option<String>, Option<String>)> = Vec::new();
    let mut i: usize = 0;
    while i < disks.len()
        invariant
            i <= disks.len(),
            r@.len() == i,
            forall|k: int|
                0 <= k < i ==> #[trigger] r@[k] == (
                    disks@[k].device_i_d,
                    disks@[k].volume_name,
                    disks@[k].description,
                ),
        decreases disks.len() - i,
    {
        let d = &disks[i];
        r.push((d.device_i_d.clone(), copy_opt(&d.volume_name), copy_opt(&d.description)));
        i += 1;
    }
    r
}

} // verus!
