//! On-disk records of a FAT volume and the containers presented to callers.
use vstd::prelude::*;

verus! {

/// FAT variant of a volume, decided by its count of data clusters.
#[derive(PartialEq, Eq, Structural, Debug, Copy, Clone)]
pub enum FatType {
    Fat12,
    Fat16,
    Fat32,
}

/// Reasons for which a volume cannot be mounted.
#[derive(PartialEq, Eq, Structural, Debug, Copy, Clone)]
pub enum FatError {
    /// The backing image could not be opened or read.
    OpenFailed,
    /// Neither the boot sector nor its backup carries the 0x55 0xAA signature.
    CorruptBootSector,
    /// The declared geometry does not fit the image or contradicts itself.
    GeometryInconsistent,
    /// Bytes per sector or sectors per cluster outside the allowed powers of two.
    UnsupportedValue,
}

/// Boot sector head.
#[derive(Debug)]
pub struct FatBs {
    /// 0x00: jump instruction to the boot code.
    pub jump: [u8; 3],
    /// 0x03: OEM identifier.
    pub oem_name: [u8; 8],
}

/// BIOS parameter block.
#[derive(Debug, Clone, Copy)]
pub struct FatBpb {
    /// 0x0B: bytes per sector, 512/1024/2048/4096.
    pub bytes_per_sector: u16,
    /// 0x0D: sectors per cluster, a power of two up to 128.
    pub sectors_per_cluster: u8,
    /// 0x0E: number of reserved sectors before the first FAT.
    pub reserved_clusters: u16,
    /// 0x10: number of FAT copies.
    pub num_fats: u8,
    /// 0x11: number of root directory entries (0 on FAT32).
    pub root_entry_count: u16,
    /// 0x13: total sectors when it fits in 16 bits, else 0.
    pub total_sectors_16: u16,
    /// 0x15: media descriptor.
    pub media_descriptor: u8,
    /// 0x16: sectors per FAT on FAT12/16 (0 on FAT32).
    pub fat_size_16: u16,
    /// 0x18: sectors per track.
    pub sectors_per_track: u16,
    /// 0x1A: number of heads.
    pub heads: u16,
    /// 0x1C: number of hidden sectors.
    pub hidden_sectors_count: u32,
    /// 0x20: total sectors when the 16-bit field is 0.
    pub total_sectors_32: u32,
}

/// Extended BIOS parameter block of FAT12 and FAT16.
#[derive(Debug)]
pub struct FatEbpb {
    /// 0x24: drive number.
    pub drive_number: u8,
    /// 0x25: reserved.
    pub reserved: u8,
    /// 0x26: extended boot signature, 0x28 or 0x29.
    pub boot_signature: u8,
    /// 0x27: volume serial number.
    pub volume_id: [u8; 4],
    /// 0x2B: volume label, padded with blanks.
    pub volume_label: [u8; 11],
    /// 0x36: file system type, padded with blanks.
    pub fs_type: [u8; 8],
}

/// Extended BIOS parameter block of FAT32.
#[derive(Debug)]
pub struct Fat32Ebpb {
    /// 0x24: sectors per FAT.
    pub fat_size_32: u32,
    /// 0x28: mirroring flags; bit 7 set means only the FAT numbered by bits 0-3 is active.
    pub flags: u16,
    /// 0x2A: version.
    pub version: u16,
    /// 0x2C: first cluster of the root directory.
    pub root_cluster: u32,
    /// 0x30: sector of the FSInfo structure.
    pub fsinfo_sector: u16,
    /// 0x32: sector of the backup boot sector.
    pub backup_sector: u16,
    /// 0x34: reserved.
    pub reserved: [u8; 12],
    /// 0x40: drive number.
    pub drive_number: u8,
    /// 0x41: reserved flags.
    pub reserved_flags: u8,
    /// 0x42: signature, 0x28 or 0x29.
    pub signature: u8,
    /// 0x43: volume serial number.
    pub volume_id: [u8; 4],
    /// 0x47: volume label, padded with blanks.
    pub volume_label: [u8; 11],
    /// 0x52: file system type, padded with blanks.
    pub fs_type: [u8; 8],
}

/// FAT32 FSInfo sector.
pub struct Fat32FsInfo {
    /// 0x000: lead signature.
    pub lead_signature: u32,
    /// 0x004: reserved.
    pub reserved: [u8; 480],
    /// 0x1E4: structure signature.
    pub struct_sig: u32,
    /// 0x1E8: last known free cluster count.
    pub free_count: u32,
    /// 0x1EC: hint for the next free cluster.
    pub next_free: u32,
    /// 0x1F0: reserved.
    pub reserved2: [u8; 12],
    /// 0x1FC: trail signature.
    pub trail_signature: u32,
}

/// Short (8.3) directory entry, 32 bytes on disk.
#[derive(Debug)]
pub struct FatDirectoryEntry {
    /// 0x00: name, 8 bytes of base and 3 of extension, padded with 0x20.
    pub name: [u8; 11],
    /// 0x0B: attribute bits.
    pub attribute: u8,
    /// 0x0C: reserved for Windows NT.
    pub nt_reserved: u8,
    /// 0x0D: creation time, tenths of a second (0-199).
    pub created_time_tenth: u8,
    /// 0x0E: creation time.
    pub created_time: u16,
    /// 0x10: creation date.
    pub created_date: u16,
    /// 0x12: last access date.
    pub last_accessed: u16,
    /// 0x14: high word of the first cluster.
    pub first_cluster_hi: u16,
    /// 0x16: last write time.
    pub write_time: u16,
    /// 0x18: last write date.
    pub write_date: u16,
    /// 0x1A: low word of the first cluster.
    pub first_cluster_low: u16,
    /// 0x1C: size in bytes.
    pub size: u32,
}

/// Attribute bits of a directory entry.
#[derive(PartialEq, Eq, Structural, Debug, Copy, Clone)]
pub enum FatFileType {
    AttrReadOnly,
    AttrHidden,
    AttrSystem,
    AttrVolumeId,
    AttrDirectory,
    AttrArchive,
    /// Read-only, hidden, system and volume-id together: a long-name fragment.
    AttrLongname,
}

/// Bit mask of an attribute.
pub open spec fn attr_bits(t: FatFileType) -> u8 {
    match t {
        FatFileType::AttrReadOnly => 0x01,
        FatFileType::AttrHidden => 0x02,
        FatFileType::AttrSystem => 0x04,
        FatFileType::AttrVolumeId => 0x08,
        FatFileType::AttrDirectory => 0x10,
        FatFileType::AttrArchive => 0x20,
        FatFileType::AttrLongname => 0x0F,
    }
}

impl FatFileType {
    /// The attribute's bit mask.
    pub fn bits(self) -> (r: u8)
        ensures
            r == attr_bits(self),
    {
        match self {
            FatFileType::AttrReadOnly => 0x01,
            FatFileType::AttrHidden => 0x02,
            FatFileType::AttrSystem => 0x04,
            FatFileType::AttrVolumeId => 0x08,
            FatFileType::AttrDirectory => 0x10,
            FatFileType::AttrArchive => 0x20,
            FatFileType::AttrLongname => 0x0F,
        }
    }
}

/// Long-name directory entry, 32 bytes on disk.
#[derive(Debug)]
pub struct FatLongDirectoryEntry {
    /// 0x00: fragment number in bits 0-5; bit 6 marks the last fragment.
    pub order: u8,
    /// 0x01: UTF-16 units 1-5.
    pub name1: [u16; 5],
    /// 0x0B: attribute, always the long-name combination.
    pub attr: u8,
    /// 0x0C: type, 0.
    pub dir_type: u8,
    /// 0x0D: checksum of the short name this fragment belongs to.
    pub checksum: u8,
    /// 0x0E: UTF-16 units 6-11.
    pub name2: [u16; 6],
    /// 0x1A: first cluster, 0.
    pub first_cluster_low: u16,
    /// 0x1C: UTF-16 units 12-13.
    pub name3: [u16; 2],
}

/// A file or directory as presented to callers: its short entry, the long-name
/// fragments that belong to it (in the order they were stored), its presentable
/// name and the length of its cluster chain.
#[derive(Debug)]
pub struct FatDirectoryEntryContainer {
    pub short_entry: FatDirectoryEntry,
    pub long_entries: Vec<FatLongDirectoryEntry>,
    pub cached_name: String,
    pub cached_cluster_count: u32,
}

} // verus!
