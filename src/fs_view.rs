//! What a kernel file-system bridge presents of a volume: kinds of entries,
//! directory listings with external inode numbers, and the mapping of those
//! numbers back to clusters. External inode 1 is the root directory.
use crate::fat_dir::{entry_cluster, root_cluster};
use crate::fat_struct::FatDirectoryEntryContainer;
use crate::Fat;
use vstd::prelude::*;

verus! {

/// Kind of an entry as presented.
#[derive(PartialEq, Eq, Structural, Debug, Copy, Clone)]
pub enum EntryKind {
    Directory,
    RegularFile,
}

/// Kind of an entry by its attribute: a directory when the directory bit is
/// set, else a regular file when the archive bit is set, else none.
pub open spec fn kind_of(attribute: u8) -> Option<EntryKind> {
    if attribute & 0x10 != 0 {
        Some(EntryKind::Directory)
    } else if attribute & 0x20 != 0 {
        Some(EntryKind::RegularFile)
    } else {
        None
    }
}

/// Kind of an entry, as `kind_of` states.
pub fn entry_kind(attribute: u8) -> (r: Option<EntryKind>)
    ensures
        r == kind_of(attribute),
{
    if attribute & 0x10 != 0 {
        Some(EntryKind::Directory)
    } else if attribute & 0x20 != 0 {
        Some(EntryKind::RegularFile)
    } else {
        None
    }
}

/// Cluster number of an external inode: the root's for 1, the number itself
/// when it fits in 32 bits, none otherwise.
pub open spec fn cluster_of_external(fat: &Fat, ino: u64) -> Option<u32> {
    if ino == 1 {
        Some(root_cluster(fat))
    } else if ino <= 0xFFFF_FFFF {
        Some(ino as u32)
    } else {
        None
    }
}

/// External inode of a cluster: 1 for the root and for 0, else the cluster.
pub open spec fn external_of_cluster(root: u32, c: u32) -> u64 {
    if c == root || c == 0 {
        1
    } else {
        c as u64
    }
}

impl Fat {
    /// Cluster number of an external inode, as `cluster_of_external` states.
    pub fn cluster_of_inode(&self, ino: u64) -> (r: Option<u32>)
        ensures
            r == cluster_of_external(self, ino),
    {
        if ino == 1 {
            Some(self.get_root_cluster_number())
        } else if ino <= 0xFFFF_FFFF {
            Some(ino as u32)
        } else {
            None
        }
    }
}

/// The entry of `c` is presented: it is neither hidden nor a volume label,
/// and it is a directory or a regular file.
pub open spec fn is_presented(c: FatDirectoryEntryContainer) -> bool {
    c.short_entry.attribute & 0x02 == 0 && c.short_entry.attribute & 0x08 == 0 && kind_of(
        c.short_entry.attribute,
    ) is Some
}

/// The presented entries of `dir`, in order, as (external inode, kind, name).
pub open spec fn presented(dir: Seq<FatDirectoryEntryContainer>, root: u32) -> Seq<(u64, EntryKind, Seq<char>)>
    decreases dir.len(),
{
    if dir.len() == 0 {
        Seq::empty()
    } else {
        let c = dir.last();
        let rest = presented(dir.drop_last(), root);
        if is_presented(c) {
            rest.push(
                (
                    external_of_cluster(root, entry_cluster(c.short_entry)),
                    kind_of(c.short_entry.attribute)->Some_0,
                    c.cached_name@,
                ),
            )
        } else {
            rest
        }
    }
}

/// Number of entries ("." and "..") that a listing of the root starts with.
pub open spec fn head_len(is_root: bool) -> int {
    if is_root {
        2
    } else {
        0
    }
}

/// The entries that a listing of `dir` shows, as (external inode, kind,
/// name): "." and ".." first when `dir` is the root, then the presented
/// entries in directory order.
pub fn listing_entries(dir: &Vec<FatDirectoryEntryContainer>, is_root: bool, root: u32) -> (r: Vec<(u64, EntryKind, String)>)
    ensures
        r@.len() == head_len(is_root) + presented(dir@, root).len(),
        is_root ==> r@[0].0 == 1 && r@[0].1 == EntryKind::Directory && r@[0].2@ == "."@,
        is_root ==> r@[1].0 == 1 && r@[1].1 == EntryKind::Directory && r@[1].2@ == ".."@,
        forall|i: int|
            0 <= i < presented(dir@, root).len() ==> {
                &&& r@[i + head_len(is_root)].0 == (#[trigger] presented(dir@, root)[i]).0
                &&& r@[i + head_len(is_root)].1 == presented(dir@, root)[i].1
                &&& r@[i + head_len(is_root)].2@ == presented(dir@, root)[i].2
            },
{
    let mut out: Vec<(u64, EntryKind, String)> = Vec::new();
    if is_root {
        out.push((1, EntryKind::Directory, String::from_str(".")));
        out.push((1, EntryKind::Directory, String::from_str("..")));
    }
    let base: usize = if is_root {
        2
    } else {
        0
    };
    let mut i: usize = 0;
    while i < dir.len()
        invariant
            i <= dir@.len(),
            base == head_len(is_root),
            out@.len() == base + presented(dir@.subrange(0, i as int), root).len(),
            is_root ==> out@[0].0 == 1 && out@[0].1 == EntryKind::Directory && out@[0].2@ == "."@,
            is_root ==> out@[1].0 == 1 && out@[1].1 == EntryKind::Directory && out@[1].2@ == ".."@,
            forall|j: int|
                0 <= j < presented(dir@.subrange(0, i as int), root).len() ==> {
                    let p = presented(dir@.subrange(0, i as int), root);
                    &&& (#[trigger] out@[j + base]).0 == p[j].0
                    &&& out@[j + base].1 == p[j].1
                    &&& out@[j + base].2@ == p[j].2
                },
        decreases dir@.len() - i,
    {
        let c = &dir[i];
        let attr = c.attribute();
        proof {
            assert(dir@.subrange(0, i + 1).drop_last() =~= dir@.subrange(0, i as int));
            assert(dir@.subrange(0, i + 1).last() == dir@[i as int]);
        }
        if attr & 0x02 == 0 && attr & 0x08 == 0 {
            match entry_kind(attr) {
                Some(kind) => {
                    let cluster = c.cluster_number();
                    let ino: u64 = if cluster == root || cluster == 0 {
                        1
                    } else {
                        cluster as u64
                    };
                    out.push((ino, kind, c.get_name().clone()));
                },
                None => {},
            }
        }
        i = i + 1;
    }
    assert(dir@.subrange(0, dir@.len() as int) =~= dir@);
    out
}

} // verus!
