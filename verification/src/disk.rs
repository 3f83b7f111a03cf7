//! The disk usage reporter: the sizes of the volume that holds the system.
//!
//! The volumes are enumerated by the caller, once, and handed over as plain
//! values. The used space is never asked for: it is what the total leaves
//! once the available space is taken away.

use vstd::prelude::*;
use crate::text::{chars_of, has_prefix, starts_with};

verus! {

/// One volume as the host reports it.
#[derive(Clone, Debug)]
pub struct Volume {
    pub name: String,
    pub mount_point: String,
    pub total_bytes: u64,
    pub available_bytes: u64,
}

/// Sizes of one volume, in bytes.
#[derive(Clone, Copy, Debug, PartialEq, Eq, Structural)]
pub struct DiskInfo {
    pub total_bytes: u64,
    pub used_bytes: u64,
    pub available_bytes: u64,
}

/// Why no disk usage could be reported.
#[derive(Clone, Copy, Debug, PartialEq, Eq, Structural)]
pub enum DiskError {
    /// No volume holds the system.
    VolumeNotFound,
}

impl DiskInfo {
    /// Used and available space make up the total.
    pub open spec fn consistent(self) -> bool {
        self.used_bytes + self.available_bytes == self.total_bytes
    }
}

/// The drive that holds the system.
pub open spec fn system_root() -> Seq<char> {
    seq!['C', ':']
}

/// The volume's name or its mount point begins with the system drive.
pub open spec fn is_system_volume(v: Volume) -> bool {
    has_prefix(v.name@, system_root()) || has_prefix(v.mount_point@, system_root())
}

/// The sizes of `v`: total and available space as reported, and the used
/// space as their difference. A volume that reports more space available
/// than it has in total counts as unused.
pub open spec fn info_of(v: Volume) -> DiskInfo {
    DiskInfo {
        total_bytes: v.total_bytes,
        used_bytes: if v.available_bytes <= v.total_bytes {
            (v.total_bytes - v.available_bytes) as u64
        } else {
            0
        },
        available_bytes: v.available_bytes,
    }
}

/// `volumes[i]` is the first volume that holds the system.
pub open spec fn first_system_volume(volumes: Seq<Volume>, i: int) -> bool {
    &&& 0 <= i < volumes.len()
    &&& is_system_volume(volumes[i])
    &&& forall|j: int| 0 <= j < i ==> !is_system_volume(#[trigger] volumes[j])
}

/// Whether `v` holds the system.
pub fn holds_system(v: &Volume) -> (b: bool)
    ensures
        b == is_system_volume(*v),
{
    let mut root: Vec<char> = Vec::new();
    root.push('C');
    root.push(':');
    assert(root@ =~= system_root());
    starts_with(&chars_of(v.name.as_str()), &root) || starts_with(
        &chars_of(v.mount_point.as_str()),
        &root,
    )
}

/// The sizes of the first volume that holds the system.
pub fn get_disk_info(volumes: &Vec<Volume>) -> (r: Result<DiskInfo, DiskError>)
    ensures
        match r {
            Ok(info) => exists|i: int|
                first_system_volume(volumes@, i) && info == info_of(#[trigger] volumes@[i]),
            Err(e) => e == DiskError::VolumeNotFound && forall|i: int|
                0 <= i < volumes@.len() ==> !is_system_volume(#[trigger] volumes@[i]),
        },
        r matches Ok(info) ==> (info.available_bytes <= info.total_bytes ==> info.consistent()),
{
    let mut i: usize = 0;
    while i < volumes.len()
        invariant
            i <= volumes.len(),
            forall|j: int| 0 <= j < i ==> !is_system_volume(#[trigger] volumes@[j]),
        decreases volumes.len() - i,
    {
        let v = &volumes[i];
        if holds_system(v) {
            let used = if v.available_bytes <= v.total_bytes {
                v.total_bytes - v.available_bytes
            } else {
                0
            };
            return Ok(
                DiskInfo {
                    total_bytes: v.total_bytes,
                    used_bytes: used,
                    available_bytes: v.available_bytes,
                },
            );
        }
        i = i + 1;
    }
    Err(DiskError::VolumeNotFound)
}

} // verus!
