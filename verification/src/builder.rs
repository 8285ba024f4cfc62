//! Building the volume table from what the operating system lists: every
//! volume it knows, and for each the mount points at which it is attached.

use vstd::prelude::*;
use crate::mount::{is_normalized, lemma_normalized_is_normalized, normalized, MountPoint};
use crate::table::{keys_normalized, TableModel, VolumeTable};
use crate::wide::{decode_utf16, from_wide_buf, path_list, split_path_list, terminated, utf16_text, views};

verus! {

/// What the operating system said of one volume.
#[derive(Debug, Clone, PartialEq, Eq)]
pub struct VolumeRecord {
    /// The buffer into which the system wrote the volume's identifier.
    pub name: Vec<u16>,
    /// Whether the query for the volume's mount points succeeded.
    pub paths_found: bool,
    /// The length that the query reported for its answer.
    pub paths_len: u32,
    /// The buffer into which the query wrote the list of mount points.
    pub paths: Vec<u16>,
}

/// The outcome of enumerating the system's volumes.
#[derive(Debug, Clone, PartialEq, Eq)]
pub enum VolumeListing {
    /// The enumeration could not be started; `code` is the system's error
    /// code.
    Unavailable { code: i32 },
    /// The volumes, in the order in which the system listed them.
    Volumes { records: Vec<VolumeRecord> },
}

/// The enumeration of the volumes could not be started.
#[derive(Debug, Clone, Copy, PartialEq, Eq)]
pub struct EnumerationError {
    /// The system's error code.
    pub code: i32,
}

/// The mount point that `units` name: their text in normal form. `None` where
/// they do not decode.
pub open spec fn mount_point_named(units: Seq<u16>) -> Option<Seq<char>> {
    match utf16_text(units) {
        Some(text) => Some(normalized(text)),
        None => None,
    }
}

/// `table` after `volume` is attached at each mount point that `paths` name,
/// in order. A path that does not decode is passed over.
pub open spec fn with_paths(table: TableModel, volume: Seq<char>, paths: Seq<Seq<u16>>) -> TableModel
    decreases paths.len(),
{
    if paths.len() == 0 {
        table
    } else {
        let before = with_paths(table, volume, paths.drop_last());
        match mount_point_named(paths.last()) {
            Some(key) => before.insert(key, volume),
            None => before,
        }
    }
}

/// The identifier of the volume of `record`. `None` where it does not decode.
pub open spec fn volume_named(record: VolumeRecord) -> Option<Seq<char>> {
    utf16_text(terminated(record.name@))
}

/// The mount points that `record` lists: none where the query failed or
/// reported an empty answer.
pub open spec fn listed_paths(record: VolumeRecord) -> Seq<Seq<u16>> {
    if record.paths_found && record.paths_len > 0 {
        path_list(record.paths@)
    } else {
        Seq::empty()
    }
}

/// `table` after the volume of `record` is attached at its mount points. A
/// volume whose identifier does not decode is passed over.
pub open spec fn with_volume(table: TableModel, record: VolumeRecord) -> TableModel {
    match volume_named(record) {
        Some(volume) => with_paths(table, volume, listed_paths(record)),
        None => table,
    }
}

/// `table` after the volumes of `records` are attached, in order.
pub open spec fn with_volumes(table: TableModel, records: Seq<VolumeRecord>) -> TableModel
    decreases records.len(),
{
    if records.len() == 0 {
        table
    } else {
        with_volume(with_volumes(table, records.drop_last()), records.last())
    }
}

/// The table that a listing of `records` describes.
pub open spec fn listed_table(records: Seq<VolumeRecord>) -> TableModel {
    with_volumes(Map::empty(), records)
}

/// The table after a rebuild from `listing`: the one that the listing
/// describes, or `before` where the volumes could not be enumerated.
pub open spec fn rebuilt_table(before: TableModel, listing: VolumeListing) -> TableModel {
    match listing {
        VolumeListing::Unavailable { .. } => before,
        VolumeListing::Volumes { records } => listed_table(records@),
    }
}

/// What a rebuild from `listing` reports: the number of mount points in the
/// new table, or the error that stopped the enumeration.
pub open spec fn rebuilt_count(listing: VolumeListing) -> Result<nat, EnumerationError> {
    match listing {
        VolumeListing::Unavailable { code } => Err(EnumerationError { code }),
        VolumeListing::Volumes { records } => Ok(listed_table(records@).dom().len()),
    }
}

/// Whether one of `paths` names the mount point `key`.
pub open spec fn names(paths: Seq<Seq<u16>>, key: Seq<char>) -> bool {
    exists|j: int| 0 <= j < paths.len() && mount_point_named(#[trigger] paths[j]) == Some(key)
}

/// Whether `record` attaches its volume at the mount point `key`.
pub open spec fn attaches(record: VolumeRecord, key: Seq<char>) -> bool {
    volume_named(record) is Some && names(listed_paths(record), key)
}

/// After `volume` is attached at `paths`, the table holds the mount points
/// that it held and those that `paths` name; the latter belong to `volume`,
/// the others to the volume they belonged to.
pub proof fn lemma_with_paths(table: TableModel, volume: Seq<char>, paths: Seq<Seq<u16>>, key: Seq<char>)
    ensures
        with_paths(table, volume, paths).dom().contains(key) <==> table.dom().contains(key) || names(
            paths,
            key,
        ),
        names(paths, key) ==> with_paths(table, volume, paths)[key] == volume,
        !names(paths, key) ==> with_paths(table, volume, paths)[key] == table[key],
    decreases paths.len(),
{
    if paths.len() > 0 {
        let front = paths.drop_last();
        lemma_with_paths(table, volume, front, key);
        if names(front, key) {
            let j = choose|j: int| 0 <= j < front.len() && mount_point_named(#[trigger] front[j]) == Some(key);
            assert(mount_point_named(paths[j]) == Some(key));
        }
        if mount_point_named(paths.last()) == Some(key) {
            assert(mount_point_named(paths[paths.len() - 1]) == Some(key));
        }
        if names(paths, key) {
            let j = choose|j: int| 0 <= j < paths.len() && mount_point_named(#[trigger] paths[j]) == Some(key);
            if j < front.len() {
                assert(mount_point_named(front[j]) == Some(key));
            }
        }
    }
}

/// The table that a listing describes holds exactly the mount points at which
/// one of the listed volumes is attached, and each belongs to the last volume
/// that the listing attaches there.
pub proof fn lemma_listed_table(records: Seq<VolumeRecord>, key: Seq<char>)
    ensures
        listed_table(records).dom().contains(key) <==> exists|i: int|
            0 <= i < records.len() && attaches(#[trigger] records[i], key),
        forall|i: int|
            0 <= i < records.len() && attaches(#[trigger] records[i], key) && (forall|j: int|
                i < j < records.len() ==> !attaches(#[trigger] records[j], key))
                ==> listed_table(records)[key] == volume_named(records[i])->0,
    decreases records.len(),
{
    if records.len() > 0 {
        let front = records.drop_last();
        let last = records.last();
        lemma_listed_table(front, key);
        if volume_named(last) is Some {
            lemma_with_paths(listed_table(front), volume_named(last)->0, listed_paths(last), key);
        }
        if exists|i: int| 0 <= i < front.len() && attaches(#[trigger] front[i], key) {
            let i = choose|i: int| 0 <= i < front.len() && attaches(#[trigger] front[i], key);
            assert(attaches(records[i], key));
        }
        if attaches(last, key) {
            assert(attaches(records[records.len() - 1], key));
        }
        if exists|i: int| 0 <= i < records.len() && attaches(#[trigger] records[i], key) {
            let i = choose|i: int| 0 <= i < records.len() && attaches(#[trigger] records[i], key);
            if i < front.len() {
                assert(attaches(front[i], key));
            }
        }
        assert forall|i: int|
            0 <= i < records.len() && attaches(#[trigger] records[i], key) && (forall|j: int|
                i < j < records.len() ==> !attaches(#[trigger] records[j], key)) implies listed_table(
            records,
        )[key] == volume_named(records[i])->0 by {
            if i < front.len() {
                assert(attaches(front[i], key));
                assert(!attaches(records[records.len() - 1], key));
                assert forall|j: int| i < j < front.len() implies !attaches(#[trigger] front[j], key) by {
                    assert(!attaches(records[j], key));
                }
            }
        }
    }
}

/// Every mount point of the table that a listing describes is in normal form.
pub proof fn lemma_listed_table_normalized(records: Seq<VolumeRecord>)
    ensures
        keys_normalized(listed_table(records)),
{
    assert forall|key: Seq<char>| #[trigger]
        listed_table(records).dom().contains(key) implies is_normalized(key) by {
        lemma_listed_table(records, key);
        let i = choose|i: int| 0 <= i < records.len() && attaches(#[trigger] records[i], key);
        let paths = listed_paths(records[i]);
        let j = choose|j: int| 0 <= j < paths.len() && mount_point_named(#[trigger] paths[j]) == Some(key);
        lemma_normalized_is_normalized(utf16_text(paths[j])->0);
    }
}

/// The mount points at which the volumes of `records` are attached.
pub open spec fn attached_mount_points(records: Seq<VolumeRecord>) -> Set<Seq<char>> {
    Set::new(|key: Seq<char>| exists|i: int| 0 <= i < records.len() && attaches(#[trigger] records[i], key))
}

/// Attaching a volume at some paths keeps a finite table finite.
proof fn lemma_with_paths_finite(table: TableModel, volume: Seq<char>, paths: Seq<Seq<u16>>)
    requires
        table.dom().finite(),
    ensures
        with_paths(table, volume, paths).dom().finite(),
    decreases paths.len(),
{
    if paths.len() > 0 {
        lemma_with_paths_finite(table, volume, paths.drop_last());
    }
}

/// The mount points of the table that a listing describes are those at which
/// its volumes are attached, and there are finitely many.
pub proof fn lemma_listed_mount_points(records: Seq<VolumeRecord>)
    ensures
        listed_table(records).dom() == attached_mount_points(records),
        attached_mount_points(records).finite(),
{
    assert forall|key: Seq<char>|
        listed_table(records).dom().contains(key) <==> attached_mount_points(records).contains(key) by {
        lemma_listed_table(records, key);
    }
    assert(listed_table(records).dom() =~= attached_mount_points(records));
    lemma_listed_table_finite(records);
}

/// The table that a listing describes is finite.
proof fn lemma_listed_table_finite(records: Seq<VolumeRecord>)
    ensures
        listed_table(records).dom().finite(),
    decreases records.len(),
{
    if records.len() > 0 {
        lemma_listed_table_finite(records.drop_last());
        if volume_named(records.last()) is Some {
            lemma_with_paths_finite(
                listed_table(records.drop_last()),
                volume_named(records.last())->0,
                listed_paths(records.last()),
            );
        }
    }
}

/// Where the volumes could be enumerated, a rebuild reports the number of
/// distinct mount points at which they are attached.
pub proof fn lemma_rebuilt_count(listing: VolumeListing)
    requires
        listing is Volumes,
    ensures
        rebuilt_count(listing) == Ok::<nat, EnumerationError>(
            attached_mount_points(listing->records@).len(),
        ),
{
    lemma_listed_mount_points(listing->records@);
}

/// A rebuild does not depend on what the table held: from the same listing it
/// gives the same table whatever stood there, so a second rebuild from an
/// unchanged listing changes nothing.
pub proof fn lemma_rebuild_repeats(before: TableModel, other: TableModel, listing: VolumeListing)
    ensures
        listing is Volumes ==> rebuilt_table(before, listing) == rebuilt_table(other, listing),
        rebuilt_table(rebuilt_table(before, listing), listing) == rebuilt_table(before, listing),
{
}

/// Attaches `volume` at each of `paths` that decodes.
fn add_paths(table: &mut VolumeTable, volume: &String, paths: &Vec<Vec<u16>>)
    ensures
        final(table)@ == with_paths(old(table)@, volume@, views(paths@)),
{
    let n: usize = paths.len();
    let mut i: usize = 0;
    assert(views(paths@).take(0) =~= Seq::<Seq<u16>>::empty());
    while i < n
        invariant
            n == paths@.len(),
            i <= n,
            table@ == with_paths(old(table)@, volume@, views(paths@).take(i as int)),
        decreases n - i,
    {
        proof {
            let upto = views(paths@).take(i + 1);
            assert(upto.drop_last() =~= views(paths@).take(i as int));
            assert(upto.last() == paths@[i as int]@);
        }
        match decode_utf16(paths[i].as_slice()) {
            Some(path) => {
                table.insert(MountPoint::new(path.as_str()), volume.clone());
            },
            None => {},
        }
        i += 1;
    }
    assert(views(paths@).take(n as int) =~= views(paths@));
}

/// Attaches the volume of `record` at the mount points that it lists.
fn add_volume(table: &mut VolumeTable, record: &VolumeRecord)
    ensures
        final(table)@ == with_volume(old(table)@, *record),
{
    match from_wide_buf(record.name.as_slice()) {
        Ok(volume) => {
            let paths: Vec<Vec<u16>> = if record.paths_found && record.paths_len > 0 {
                split_path_list(record.paths.as_slice())
            } else {
                Vec::new()
            };
            assert(views(paths@) =~= listed_paths(*record));
            add_paths(table, &volume, &paths);
        },
        Err(_) => {},
    }
}

/// Builds the volume table from a listing of the system's volumes. Fails only
/// where the enumeration could not be started.
pub fn build_volume_map(listing: &VolumeListing) -> (built: Result<VolumeTable, EnumerationError>)
    ensures
        match *listing {
            VolumeListing::Unavailable { code } => built == Err::<VolumeTable, EnumerationError>(
                EnumerationError { code },
            ),
            VolumeListing::Volumes { records } => built is Ok && built->Ok_0@ == listed_table(records@),
        },
{
    match listing {
        VolumeListing::Unavailable { code } => Err(EnumerationError { code: *code }),
        VolumeListing::Volumes { records } => {
            let mut table = VolumeTable::new();
            let n: usize = records.len();
            let mut i: usize = 0;
            assert(records@.take(0) =~= Seq::<VolumeRecord>::empty());
            while i < n
                invariant
                    n == records@.len(),
                    i <= n,
                    table@ == listed_table(records@.take(i as int)),
                decreases n - i,
            {
                assert(records@.take(i + 1).drop_last() =~= records@.take(i as int));
                add_volume(&mut table, &records[i]);
                i += 1;
            }
            assert(records@.take(n as int) =~= records@);
            Ok(table)
        },
    }
}

/// The table with which a cache starts: the one that `listing` describes, or
/// an empty one where the volumes could not be enumerated.
pub fn initial_volume_map(listing: &VolumeListing) -> (table: VolumeTable)
    ensures
        table@ == rebuilt_table(Map::empty(), *listing),
{
    match build_volume_map(listing) {
        Ok(table) => table,
        Err(_) => VolumeTable::new(),
    }
}

} // verus!
