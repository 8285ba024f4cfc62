//! Tells whether two paths lie on the same storage volume.
//!
//! The operating system is asked elsewhere; this library holds what is done
//! with its answers: decoding the wide-character buffers it fills, keeping the
//! table from mount points to volume identifiers, and finding the volume that
//! owns a path by the longest mount point that is a prefix of it.

use vstd::prelude::*;

pub mod builder;
pub mod mount;
pub mod resolver;
pub mod table;
pub mod wide;

use crate::builder::{build_volume_map, rebuilt_count, rebuilt_table, EnumerationError, VolumeListing};
use crate::resolver::{get_volume_mount_point, mount_point_of, PathAnswer};
use crate::table::{lemma_mount_point_owns_itself, volume_of, TableModel, VolumeTable};

verus! {

/// The identifier of the volume that owns the path of `answer`.
pub open spec fn device_path(table: TableModel, answer: PathAnswer) -> Option<Seq<char>> {
    match mount_point_of(answer) {
        Ok(mount_point) => volume_of(table, mount_point),
        Err(_) => None,
    }
}

/// Whether the paths of `first` and `second` are both owned by a volume, and
/// by the same one.
pub open spec fn same_volume(table: TableModel, first: PathAnswer, second: PathAnswer) -> bool {
    device_path(table, first) is Some && device_path(table, first) == device_path(table, second)
}

/// The volume of a path depends on the system's answer only through the mount
/// point that the answer names: two answers that name the same mount point
/// resolve alike.
pub proof fn lemma_device_path_by_mount_point(table: TableModel, first: PathAnswer, second: PathAnswer)
    requires
        mount_point_of(first) == mount_point_of(second),
    ensures
        device_path(table, first) == device_path(table, second),
        same_volume(table, first, second) <==> device_path(table, first) is Some,
{
}

/// A path that resolves lies on the same volume as itself.
pub proof fn lemma_same_volume_reflexive(table: TableModel, answer: PathAnswer)
    requires
        device_path(table, answer) is Some,
    ensures
        same_volume(table, answer, answer),
{
}

/// Lying on the same volume does not depend on the order of the two paths.
pub proof fn lemma_same_volume_symmetric(table: TableModel, first: PathAnswer, second: PathAnswer)
    ensures
        same_volume(table, first, second) == same_volume(table, second, first),
{
}

/// Two paths whose mount points are both in the table, with different volumes
/// attached, do not lie on the same volume, even where one mount point is a
/// prefix of the other, as that of a host volume is of a volume mounted
/// inside it.
pub proof fn lemma_nested_volume_differs(table: TableModel, host: PathAnswer, nested: PathAnswer)
    requires
        mount_point_of(host) is Ok,
        mount_point_of(nested) is Ok,
        table.dom().contains(mount_point_of(host)->Ok_0),
        table.dom().contains(mount_point_of(nested)->Ok_0),
        table[mount_point_of(host)->Ok_0] != table[mount_point_of(nested)->Ok_0],
    ensures
        !same_volume(table, host, nested),
{
    lemma_mount_point_owns_itself(table, mount_point_of(host)->Ok_0);
    lemma_mount_point_owns_itself(table, mount_point_of(nested)->Ok_0);
}

/// Replaces `table` by the one that `listing` describes and returns the number
/// of its mount points. Where the volumes could not be enumerated, `table`
/// stays as it is and the error is returned.
pub fn reinitialize_volume_map(table: &mut VolumeTable, listing: &VolumeListing) -> (count: Result<
    usize,
    EnumerationError,
>)
    ensures
        final(table)@ == rebuilt_table(old(table)@, *listing),
        match count {
            Ok(n) => rebuilt_count(*listing) == Ok::<nat, EnumerationError>(n as nat),
            Err(error) => rebuilt_count(*listing) == Err::<nat, EnumerationError>(error),
        },
{
    match build_volume_map(listing) {
        Ok(built) => {
            let n: usize = built.len();
            *table = built;
            Ok(n)
        },
        Err(error) => Err(error),
    }
}

/// The identifier of the volume that owns the path of `answer`: the one
/// attached at the longest mount point of `table` that is a prefix of the
/// path's own mount point. `None` where the path has no mount point or the
/// table holds none for it.
pub fn resolve_device_path(table: &VolumeTable, answer: &PathAnswer) -> (volume: Option<String>)
    ensures
        match volume {
            Some(v) => device_path(table@, *answer) == Some(v@),
            None => device_path(table@, *answer) is None,
        },
{
    match get_volume_mount_point(answer) {
        Ok(mount_point) => table.lookup(&mount_point),
        Err(_) => None,
    }
}

/// Whether the paths of `first` and `second` lie on the same volume. `false`
/// where either cannot be resolved.
pub fn is_same_vol(table: &VolumeTable, first: &PathAnswer, second: &PathAnswer) -> (same: bool)
    ensures
        same == same_volume(table@, *first, *second),
{
    match (resolve_device_path(table, first), resolve_device_path(table, second)) {
        (Some(v1), Some(v2)) => v1 == v2,
        _ => false,
    }
}

} // verus!
