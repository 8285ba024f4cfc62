//! The volume table: which volume is attached at which mount point, and which
//! volume therefore owns a path.

use vstd::prelude::*;
use crate::mount::{is_normalized, MountPoint, SEPARATOR};

verus! {

/// The model of a table: volume identifiers by mount point path.
pub type TableModel = Map<Seq<char>, Seq<char>>;

/// Whether `key` is a mount point of `table` under which `path` lies.
pub open spec fn covers(table: TableModel, key: Seq<char>, path: Seq<char>) -> bool {
    table.dom().contains(key) && key.is_prefix_of(path)
}

/// Whether `key` is the longest mount point of `table` under which `path`
/// lies.
pub open spec fn owns(table: TableModel, key: Seq<char>, path: Seq<char>) -> bool {
    &&& covers(table, key, path)
    &&& forall|other: Seq<char>| covers(table, other, path) ==> other.len() <= key.len()
}

/// The volume that owns `path`: the one attached at the longest mount point
/// under which `path` lies, if it lies under any.
pub open spec fn volume_of(table: TableModel, path: Seq<char>) -> Option<Seq<char>> {
    if exists|key: Seq<char>| owns(table, key, path) {
        Some(table[choose|key: Seq<char>| owns(table, key, path)])
    } else {
        None
    }
}

/// Whether every mount point of `table` is in normal form.
pub open spec fn keys_normalized(table: TableModel) -> bool {
    forall|key: Seq<char>| #[trigger] table.dom().contains(key) ==> is_normalized(key)
}

/// A path has at most one longest mount point.
pub proof fn lemma_owner_unique(table: TableModel, first: Seq<char>, second: Seq<char>, path: Seq<char>)
    requires
        owns(table, first, path),
        owns(table, second, path),
    ensures
        first == second,
{
    assert(first.len() == second.len());
    assert(first =~= second);
}

/// The volume of a path is the one attached at its longest mount point.
pub proof fn lemma_volume_of_owner(table: TableModel, key: Seq<char>, path: Seq<char>)
    requires
        owns(table, key, path),
    ensures
        volume_of(table, path) == Some(table[key]),
{
    let chosen = choose|k: Seq<char>| owns(table, k, path);
    lemma_owner_unique(table, chosen, key, path);
}

/// Among the mount points under which `path` lies, none of them longer than
/// `bound`, there is a longest.
proof fn lemma_longest_cover(table: TableModel, path: Seq<char>, bound: int) -> (key: Seq<char>)
    requires
        0 <= bound <= path.len(),
        exists|k: Seq<char>| covers(table, k, path),
        forall|k: Seq<char>| covers(table, k, path) ==> k.len() <= bound,
    ensures
        owns(table, key, path),
    decreases bound,
{
    let candidate = path.take(bound);
    if table.dom().contains(candidate) {
        assert(candidate =~= path.subrange(0, candidate.len() as int));
        candidate
    } else {
        assert forall|k: Seq<char>| covers(table, k, path) implies k.len() <= bound - 1 by {
            if k.len() == bound {
                assert(k =~= candidate);
            }
        }
        if bound == 0 {
            choose|k: Seq<char>| covers(table, k, path)
        } else {
            lemma_longest_cover(table, path, bound - 1)
        }
    }
}

/// A path has a volume exactly where it lies under some mount point of the
/// table.
pub proof fn lemma_volume_of_some(table: TableModel, path: Seq<char>)
    ensures
        volume_of(table, path) is Some <==> exists|key: Seq<char>| covers(table, key, path),
{
    if exists|key: Seq<char>| covers(table, key, path) {
        let key = lemma_longest_cover(table, path, path.len() as int);
        lemma_volume_of_owner(table, key, path);
    }
}

/// A mount point of the table is owned by the volume attached at it, whatever
/// shorter mount points it lies under.
pub proof fn lemma_mount_point_owns_itself(table: TableModel, key: Seq<char>)
    requires
        table.dom().contains(key),
    ensures
        volume_of(table, key) == Some(table[key]),
{
    assert(key =~= key.subrange(0, key.len() as int));
    lemma_volume_of_owner(table, key, key);
}

/// A mount point in normal form under which `path` lies ends where a segment
/// of `path` ends: the character of `path` at its end is a separator. So a
/// mount point never claims a path of which it is only a prefix within a name.
pub proof fn lemma_cover_ends_at_separator(table: TableModel, key: Seq<char>, path: Seq<char>)
    requires
        keys_normalized(table),
        covers(table, key, path),
    ensures
        0 < key.len() <= path.len(),
        path[key.len() - 1] == SEPARATOR,
{
    assert(table.dom().contains(key));
    assert(is_normalized(key));
    assert(key.last() == path.subrange(0, key.len() as int)[key.len() - 1]);
}

/// Attaching a volume at a mount point under which `path` does not lie leaves
/// the volume of `path` as it was.
pub proof fn lemma_insert_elsewhere(table: TableModel, key: Seq<char>, volume: Seq<char>, path: Seq<char>)
    requires
        !key.is_prefix_of(path),
    ensures
        volume_of(table.insert(key, volume), path) == volume_of(table, path),
{
    let after = table.insert(key, volume);
    assert forall|k: Seq<char>| covers(after, k, path) <==> covers(table, k, path) by {}
    lemma_volume_of_some(table, path);
    lemma_volume_of_some(after, path);
    if volume_of(table, path) is Some {
        let owner = choose|k: Seq<char>| owns(table, k, path);
        assert(owns(after, owner, path));
        lemma_volume_of_owner(after, owner, path);
    }
}

/// One entry of the table.
#[derive(Debug, PartialEq, Eq)]
struct Entry {
    mount_point: MountPoint,
    volume: String,
}

/// The volume table. No mount point occurs twice in it.
#[derive(Debug, PartialEq, Eq)]
pub struct VolumeTable {
    entries: Vec<Entry>,
}

/// The mount points of `entries`, in order.
spec fn keys_of(entries: Seq<Entry>) -> Seq<Seq<char>> {
    Seq::new(entries.len(), |i: int| entries[i].mount_point@)
}

/// Whether `keys` are in normal form and pairwise distinct.
spec fn distinct_and_normalized(keys: Seq<Seq<char>>) -> bool {
    &&& keys.no_duplicates()
    &&& forall|i: int| 0 <= i < keys.len() ==> is_normalized(#[trigger] keys[i])
}

impl View for VolumeTable {
    type V = TableModel;

    closed spec fn view(&self) -> TableModel {
        Map::new(
            |key: Seq<char>| self.keys().contains(key),
            |key: Seq<char>| self.entries@[self.keys().index_of(key)].volume@,
        )
    }
}

impl VolumeTable {
    /// The mount points of the entries, in the order in which they are held.
    closed spec fn keys(&self) -> Seq<Seq<char>> {
        keys_of(self.entries@)
    }

    /// The invariant of the type: the mount points are in normal form and
    /// pairwise distinct.
    #[verifier::type_invariant]
    pub closed spec fn well_formed(self) -> bool {
        distinct_and_normalized(keys_of(self.entries@))
    }

    /// What the invariant means for the model: finitely many mount points,
    /// each in normal form.
    pub proof fn lemma_well_formed(self)
        requires
            self.well_formed(),
        ensures
            self@.dom().finite(),
            keys_normalized(self@),
    {
        assert(self@.dom() =~= self.keys().to_set());
        vstd::seq_lib::seq_to_set_is_finite(self.keys());
        assert forall|key: Seq<char>| self@.dom().contains(key) implies is_normalized(key) by {
            let i = self.keys().index_of(key);
            assert(self.keys()[i] == key);
        }
    }

    /// An empty table.
    pub fn new() -> (table: VolumeTable)
        ensures
            table@ == Map::<Seq<char>, Seq<char>>::empty(),
    {
        let table = VolumeTable { entries: Vec::new() };
        assert(table@ =~= Map::<Seq<char>, Seq<char>>::empty());
        table
    }

    /// The number of mount points in the table.
    pub fn len(&self) -> (n: usize)
        ensures
            self@.dom().finite(),
            n == self@.dom().len(),
    {
        proof {
            use_type_invariant(self);
            self.lemma_well_formed();
            assert(self@.dom() =~= self.keys().to_set());
            self.keys().unique_seq_to_set();
        }
        self.entries.len()
    }

    /// The place at which `mount_point` is held, if it is in the table.
    fn position(&self, mount_point: &MountPoint) -> (place: Option<usize>)
        ensures
            match place {
                Some(i) => i < self.entries@.len() && self.keys()[i as int] == mount_point@,
                None => !self.keys().contains(mount_point@),
            },
    {
        let n: usize = self.entries.len();
        let mut i: usize = 0;
        while i < n
            invariant
                n == self.entries@.len(),
                i <= n,
                forall|j: int| 0 <= j < i ==> self.keys()[j] != mount_point@,
            decreases n - i,
        {
            if self.entries[i].mount_point.same_as(mount_point) {
                return Some(i);
            }
            i += 1;
        }
        None
    }

    /// Attaches `volume` at `mount_point`. A volume attached there before is
    /// replaced.
    pub fn insert(&mut self, mount_point: MountPoint, volume: String)
        ensures
            final(self)@ == old(self)@.insert(mount_point@, volume@),
    {
        proof {
            use_type_invariant(&*self);
            use_type_invariant(&mount_point);
        }
        let ghost before = *self;
        let ghost key = mount_point@;
        let ghost value = volume@;
        let place = self.position(&mount_point);
        // The entries leave the table while they change: the table itself
        // is never seen in a state between two of its values.
        let mut entries: Vec<Entry> = Vec::new();
        core::mem::swap(&mut self.entries, &mut entries);
        match place {
            Some(i) => {
                entries.set(i, Entry { mount_point, volume });
                assert(keys_of(entries@) =~= before.keys());
                self.entries = entries;
                proof {
                    assert(self@ =~= before@.insert(key, value)) by {
                        assert forall|k: Seq<char>| self.keys().contains(k) implies #[trigger] self@[k]
                            == before@.insert(key, value)[k] by {
                            let j = self.keys().index_of(k);
                            assert(self.keys()[j] == k);
                            assert(before.keys()[j] == k);
                        }
                        assert(before.keys()[i as int] == key);
                    }
                }
            },
            None => {
                entries.push(Entry { mount_point, volume });
                assert(keys_of(entries@) =~= before.keys().push(key));
                self.entries = entries;
                proof {
                    assert(self@ =~= before@.insert(key, value)) by {
                        assert(self.keys()[before.keys().len() as int] == key);
                        assert forall|k: Seq<char>| self.keys().contains(k) implies (k == key
                            || before.keys().contains(k)) && #[trigger] self@[k] == before@.insert(
                            key,
                            value,
                        )[k] by {
                            let j = self.keys().index_of(k);
                            assert(self.keys()[j] == k);
                            if k != key {
                                assert(before.keys()[j] == k);
                                let j0 = before.keys().index_of(k);
                                assert(before.keys()[j0] == k);
                            }
                        }
                        assert forall|k: Seq<char>| before.keys().contains(k) implies self.keys().contains(k) by {
                            let j = before.keys().index_of(k);
                            assert(before.keys()[j] == k);
                            assert(self.keys()[j] == k);
                        }
                    }
                }
            },
        }
    }

    /// The volume that owns `path`: the one attached at the longest mount
    /// point that is a prefix of `path`. `None` where no mount point is.
    pub fn lookup(&self, path: &MountPoint) -> (volume: Option<String>)
        ensures
            match volume {
                Some(v) => volume_of(self@, path@) == Some(v@),
                None => volume_of(self@, path@) is None,
            },
    {
        proof {
            use_type_invariant(self);
        }
        let n: usize = self.entries.len();
        let mut best: Option<usize> = None;
        let mut i: usize = 0;
        while i < n
            invariant
                n == self.entries@.len(),
                i <= n,
                match best {
                    Some(b) => b < i && self.keys()[b as int].is_prefix_of(path@),
                    None => true,
                },
                forall|j: int|
                    0 <= j < i && (#[trigger] self.keys()[j]).is_prefix_of(path@) ==> best is Some
                        && self.keys()[j].len() <= self.keys()[best->0 as int].len(),
            decreases n - i,
        {
            let candidate: &MountPoint = &self.entries[i].mount_point;
            if candidate.is_prefix_of(path) {
                let longer: bool = match best {
                    Some(b) => candidate.len() >= self.entries[b].mount_point.len(),
                    None => true,
                };
                if longer {
                    best = Some(i);
                }
            }
            i += 1;
        }
        match best {
            Some(b) => {
                proof {
                    let key = self.keys()[b as int];
                    assert(self.keys().contains(key));
                    assert forall|other: Seq<char>| covers(self@, other, path@) implies other.len()
                        <= key.len() by {
                        let j = self.keys().index_of(other);
                        assert(self.keys()[j] == other);
                    }
                    lemma_volume_of_owner(self@, key, path@);
                    let at = self.keys().index_of(key);
                    assert(self.keys()[at] == key);
                }
                Some(self.entries[b].volume.clone())
            },
            None => {
                proof {
                    assert forall|key: Seq<char>| !owns(self@, key, path@) by {
                        if covers(self@, key, path@) {
                            let j = self.keys().index_of(key);
                            assert(self.keys()[j] == key);
                        }
                    }
                }
                None
            },
        }
    }
}

} // verus!
