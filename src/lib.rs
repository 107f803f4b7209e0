//! Read-only access to FAT12, FAT16 and FAT32 volumes held as a byte image.
use std::collections::HashMap;
use vstd::prelude::*;

pub mod bytes;
pub mod fat_dir;
pub mod fat_helper;
pub mod fat_reserved;
pub mod fat_struct;
pub mod fs_view;
pub mod text;

use crate::fat_dir::{
    decoded_dir, find_child, get_dir, inode_entry, listing, parents_after, read_root_dir, root_cluster,
    root_dir_bytes,
};
use crate::fat_helper::{copy_range, lemma_same_volume, read_file_full};
use crate::fat_reserved::{mount_error, read_reserved, reserved_from};
use crate::fat_struct::{Fat32Ebpb, FatBpb, FatBs, FatEbpb, FatError, FatType};
use crate::text::{eq_ignore_ascii_case, fold_ascii, latin1, latin1_string};

pub use crate::fat_struct::{FatDirectoryEntryContainer, FatFileType};

verus! {

/// A mounted volume: the image, its parsed reserved region, and the caches of
/// decoded directories (by cluster) and of each child's parent directory.
#[derive(Debug)]
pub struct Fat {
    pub bs: FatBs,
    pub bpb: FatBpb,
    pub ebpb16: Option<FatEbpb>,
    pub ebpb32: Option<Fat32Ebpb>,
    /// The whole volume image.
    pub image: Vec<u8>,
    /// Decoded directories, keyed by the directory's first cluster.
    pub dir_cache: HashMap<u32, Vec<FatDirectoryEntryContainer>>,
    /// Parent directory of each child, both keyed by first cluster.
    pub inode_cache: HashMap<u32, u32>,
    pub fat_type: FatType,
}

/// Index of the first container of `cs`, from `i` on, whose name equals `q`
/// once both are folded to ASCII lower case.
pub open spec fn find_name(cs: Seq<FatDirectoryEntryContainer>, q: Seq<char>, i: int) -> Option<int>
    decreases cs.len() - i,
{
    if i < 0 || i >= cs.len() {
        None
    } else if fold_ascii(cs[i].cached_name@) == fold_ascii(q) {
        Some(i)
    } else {
        find_name(cs, q, i + 1)
    }
}

/// Index of the first container of `dir` named `name`, ignoring ASCII case,
/// as `find_name` states.
pub fn find_named(dir: &Vec<FatDirectoryEntryContainer>, name: &str) -> (r: Option<usize>)
    ensures
        match r {
            Some(i) => i < dir@.len() && find_name(dir@, name@, 0) == Some(i as int),
            None => find_name(dir@, name@, 0) is None,
        },
{
    let mut i: usize = 0;
    while i < dir.len()
        invariant
            i <= dir@.len(),
            find_name(dir@, name@, 0) == find_name(dir@, name@, i as int),
        decreases dir@.len() - i,
    {
        if eq_ignore_ascii_case(dir[i].get_name().as_str(), name) {
            return Some(i);
        }
        i = i + 1;
    }
    None
}

/// What a lookup of `q` in the cached directory `parent` finds.
pub open spec fn lookup_result(fat: &Fat, parent: u32, q: Seq<char>) -> Option<FatDirectoryEntryContainer> {
    if fat.dir_cache@.contains_key(parent) {
        let dir = fat.dir_cache@[parent]@;
        match find_name(dir, q, 0) {
            Some(i) => Some(dir[i]),
            None => None,
        }
    } else {
        None
    }
}

/// The bytes of a file: the raw content of its chain cut to the size its entry gives.
pub open spec fn file_content(fat: &Fat, inode: u32, size: u32) -> Seq<u8> {
    let raw = fat.file_bytes(inode as int);
    if size <= raw.len() {
        raw.subrange(0, size as int)
    } else {
        raw
    }
}

/// Up to `size` bytes of `content` from `offset`; empty when `offset` is past its end.
pub open spec fn data_range(content: Seq<u8>, offset: int, size: int) -> Seq<u8> {
    if offset > content.len() {
        Seq::empty()
    } else if offset + size > content.len() {
        content.subrange(offset, content.len() as int)
    } else {
        content.subrange(offset, offset + size)
    }
}

/// Name of a FAT type.
pub open spec fn fat_type_name(t: FatType) -> Seq<char> {
    match t {
        FatType::Fat12 => "FAT12"@,
        FatType::Fat16 => "FAT16"@,
        FatType::Fat32 => "FAT32"@,
    }
}

impl Fat {
    /// Mounts the volume held in `image`: reads and checks its reserved
    /// region, then decodes and caches the root directory. Fails exactly as
    /// `mount_error` states.
    pub fn mount_volume(image: Vec<u8>) -> (r: Result<Fat, FatError>)
        ensures
            match r {
                Ok(fat) => {
                    &&& mount_error(image@) is None
                    &&& fat.wf()
                    &&& fat.image@ == image@
                    &&& reserved_from(&fat, image@)
                    &&& fat.dir_cache@.contains_key(root_cluster(&fat))
                    &&& fat.dir_cache@ == Map::<u32, Vec<FatDirectoryEntryContainer>>::empty().insert(
                        root_cluster(&fat),
                        fat.dir_cache@[root_cluster(&fat)],
                    )
                    &&& decoded_dir(&fat, root_dir_bytes(&fat), 0, fat.dir_cache@[root_cluster(&fat)]@)
                    &&& fat.inode_cache@ == parents_after(
                        Map::empty(),
                        fat.dir_cache@[root_cluster(&fat)]@,
                        root_cluster(&fat),
                    )
                },
                Err(e) => mount_error(image@) == Some(e),
            },
    {
        let mut fat = match read_reserved(image) {
            Ok(fat) => fat,
            Err(e) => return Err(e),
        };
        let ghost before = fat;
        read_root_dir(&mut fat);
        proof {
            lemma_same_volume(&fat, &before);
            assert(root_dir_bytes(&fat) == root_dir_bytes(&before));
        }
        Ok(fat)
    }

    /// Cluster number of the root directory, as `root_cluster` states.
    pub fn get_root_cluster_number(&self) -> (r: u32)
        ensures
            r == root_cluster(self),
    {
        if self.fat_type == FatType::Fat32 {
            match &self.ebpb32 {
                Some(e) => e.root_cluster,
                None => 0,
            }
        } else {
            0
        }
    }

    /// Up to `size` bytes of the file `ino` from `offset`, cut at the file's
    /// size; none when `ino` is no known child.
    pub fn get_data(&self, ino: u32, offset: u64, size: u32) -> (r: Option<Vec<u8>>)
        requires
            self.wf(),
        ensures
            match inode_entry(self, ino) {
                None => r is None,
                Some(c) => r is Some && r->Some_0@ == data_range(
                    file_content(self, ino, c.short_entry.size),
                    offset as int,
                    size as int,
                ),
            },
    {
        let file_size = match self.get_inode(ino) {
            None => return None,
            Some(c) => c.size(),
        };
        let data = read_file_full(self, ino);
        let len: usize = if (file_size as usize) < data.len() {
            file_size as usize
        } else {
            data.len()
        };
        if offset > len as u64 {
            return Some(Vec::new());
        }
        let head = offset as usize;
        let tail: usize = if offset + size as u64 > len as u64 {
            len
        } else {
            head + size as usize
        };
        let out = copy_range(&data, head, tail);
        assert(out@ =~= data_range(file_content(self, ino, file_size), offset as int, size as int));
        Some(out)
    }

    /// The child of `parent_inode` named `name`, ignoring ASCII case; the
    /// parent is listed first when it is not cached. The first match in
    /// directory order wins.
    pub fn lookup(&mut self, parent_inode: u32, name: &str) -> (r: Option<&FatDirectoryEntryContainer>)
        requires
            old(self).wf(),
        ensures
            final(self).wf(),
            listing(old(self), final(self), parent_inode),
            match r {
                Some(c) => lookup_result(final(self), parent_inode, name@) == Some(*c),
                None => lookup_result(final(self), parent_inode, name@) is None,
            },
    {
        broadcast use vstd::std_specs::hash::group_hash_axioms;

        if !self.dir_cache.contains_key(&parent_inode) {
            let _ = get_dir(self, parent_inode);
        }
        match self.dir_cache.get(&parent_inode) {
            None => None,
            Some(dir) => match find_named(dir, name) {
                Some(i) => Some(&dir[i]),
                None => None,
            },
        }
    }

    /// The container of `inode`, as `inode_entry` states.
    pub fn get_inode(&self, inode: u32) -> (r: Option<&FatDirectoryEntryContainer>)
        ensures
            match r {
                Some(c) => inode_entry(self, inode) == Some(*c),
                None => inode_entry(self, inode) is None,
            },
    {
        broadcast use vstd::std_specs::hash::group_hash_axioms;

        match self.inode_cache.get(&inode) {
            None => None,
            Some(parent_inode) => match self.dir_cache.get(parent_inode) {
                None => None,
                Some(dir) => match find_child(dir, inode) {
                    Some(i) => Some(&dir[i]),
                    None => None,
                },
            },
        }
    }

    /// The directory `inode`, as `get_dir` gives it.
    pub fn list_directory(&mut self, inode: u32) -> (r: Option<&Vec<FatDirectoryEntryContainer>>)
        requires
            old(self).wf(),
        ensures
            final(self).wf(),
            listing(old(self), final(self), inode),
            r == (if final(self).dir_cache@.contains_key(inode) {
                Some(&final(self).dir_cache@[inode])
            } else {
                None
            }),
    {
        get_dir(self, inode)
    }

    /// The OEM name of the boot sector, one character per byte.
    pub fn oem_name(&self) -> (r: String)
        ensures
            r@ == latin1(self.bs.oem_name@),
    {
        let mut v: Vec<u8> = Vec::new();
        let mut i: usize = 0;
        while i < 8
            invariant
                i <= 8,
                self.bs.oem_name@.len() == 8,
                v@ =~= self.bs.oem_name@.subrange(0, i as int),
            decreases 8 - i,
        {
            v.push(self.bs.oem_name[i]);
            i = i + 1;
        }
        latin1_string(&v)
    }

    /// Name of the volume's FAT type: "FAT12", "FAT16" or "FAT32".
    pub fn fat_type(&self) -> (r: String)
        ensures
            r@ == fat_type_name(self.fat_type),
    {
        match self.fat_type {
            FatType::Fat12 => String::from_str("FAT12"),
            FatType::Fat16 => String::from_str("FAT16"),
            FatType::Fat32 => String::from_str("FAT32"),
        }
    }

    /// Whether the volume is FAT32.
    pub fn is_fat32(&self) -> (r: bool)
        ensures
            r == (self.fat_type == FatType::Fat32),
    {
        self.fat_type == FatType::Fat32
    }
}

} // verus!
