//! The reserved region: boot sector, BIOS parameter block and its extensions,
//! the checks made at mount time and the choice of FAT type.
use crate::bytes::{le_u16, le_u32, read_u16_at, read_u32_at};
use crate::fat_helper::{
    classify, fat32_layout, geometry_error, spec_cluster_count, spec_first_data_sector, spec_total_sectors,
    supported_geometry,
};
use crate::fat_helper::copy_range;
use crate::fat_struct::{Fat32Ebpb, FatBpb, FatBs, FatEbpb, FatError, FatType};
use crate::Fat;
use std::collections::HashMap;
use vstd::prelude::*;

verus! {

/// The parameter block stored in the boot sector `b`.
pub open spec fn bpb_from(b: Seq<u8>) -> FatBpb {
    FatBpb {
        bytes_per_sector: le_u16(b, 11) as u16,
        sectors_per_cluster: b[13],
        reserved_clusters: le_u16(b, 14) as u16,
        num_fats: b[16],
        root_entry_count: le_u16(b, 17) as u16,
        total_sectors_16: le_u16(b, 19) as u16,
        media_descriptor: b[21],
        fat_size_16: le_u16(b, 22) as u16,
        sectors_per_track: le_u16(b, 24) as u16,
        heads: le_u16(b, 26) as u16,
        hidden_sectors_count: le_u32(b, 28) as u32,
        total_sectors_32: le_u32(b, 32) as u32,
    }
}

/// `bs` holds the boot sector head of `b`.
pub open spec fn bs_from(bs: FatBs, b: Seq<u8>) -> bool {
    bs.jump@ == b.subrange(0, 3) && bs.oem_name@ == b.subrange(3, 11)
}

/// `e` holds the FAT12/16 extension stored in the boot sector `b`.
pub open spec fn ebpb_from(e: FatEbpb, b: Seq<u8>) -> bool {
    &&& e.drive_number == b[36]
    &&& e.reserved == b[37]
    &&& e.boot_signature == b[38]
    &&& e.volume_id@ == b.subrange(39, 43)
    &&& e.volume_label@ == b.subrange(43, 54)
    &&& e.fs_type@ == b.subrange(54, 62)
}

/// `e` holds the FAT32 extension stored in the boot sector `b`.
pub open spec fn ebpb32_from(e: Fat32Ebpb, b: Seq<u8>) -> bool {
    &&& e.fat_size_32 as int == le_u32(b, 36)
    &&& e.flags as int == le_u16(b, 40)
    &&& e.version as int == le_u16(b, 42)
    &&& e.root_cluster as int == le_u32(b, 44)
    &&& e.fsinfo_sector as int == le_u16(b, 48)
    &&& e.backup_sector as int == le_u16(b, 50)
    &&& e.reserved@ == b.subrange(52, 64)
    &&& e.drive_number == b[64]
    &&& e.reserved_flags == b[65]
    &&& e.signature == b[66]
    &&& e.volume_id@ == b.subrange(67, 71)
    &&& e.volume_label@ == b.subrange(71, 82)
    &&& e.fs_type@ == b.subrange(82, 90)
}

/// The 512 bytes at `off` end with the signature 0x55 0xAA.
pub open spec fn has_signature(img: Seq<u8>, off: int) -> bool {
    off + 512 <= img.len() && img[off + 510] == 0x55 && img[off + 511] == 0xAA
}

/// Where the boot sector is read: sector 0 when it is signed, else the backup
/// in sector 6 when that one is signed.
pub open spec fn boot_offset(img: Seq<u8>) -> Option<int> {
    if has_signature(img, 0) {
        Some(0)
    } else if has_signature(img, 3072) {
        Some(3072)
    } else {
        None
    }
}

/// The boot sector chosen by `boot_offset`.
pub open spec fn boot_sector(img: Seq<u8>, off: int) -> Seq<u8> {
    img.subrange(off, off + 512)
}

/// Sectors per FAT announced by the FAT32 extension of `b`, or 0 without it.
pub open spec fn fat_size_32_from(b: Seq<u8>) -> u32 {
    if fat32_layout(bpb_from(b)) {
        le_u32(b, 36) as u32
    } else {
        0
    }
}

/// Why the image cannot be mounted, if it cannot.
pub open spec fn mount_error(img: Seq<u8>) -> Option<FatError> {
    match boot_offset(img) {
        None => Some(FatError::CorruptBootSector),
        Some(off) => {
            let b = boot_sector(img, off);
            geometry_error(bpb_from(b), fat_size_32_from(b), img.len() as int)
        },
    }
}

/// The bytes `b[off..off + N]` as an array.
fn bytes_array<const N: usize>(b: &[u8], off: usize) -> (r: [u8; N])
    requires
        off + N <= b@.len(),
    ensures
        r@ == b@.subrange(off as int, off + N),
{
    let len = b.len();
    let mut r: [u8; N] = [0u8; N];
    let mut i: usize = 0;
    while i < N
        invariant
            off + N <= b@.len(),
            len == b@.len(),
            i <= N,
            r@.len() == N,
            forall|j: int| 0 <= j < i ==> r@[j] == b@[off + j],
        decreases N - i,
    {
        r[i] = b[off + i];
        i = i + 1;
    }
    assert(r@ =~= b@.subrange(off as int, off + N));
    r
}

impl FatBs {
    /// Reads the boot sector head.
    pub fn new(boot_record: &[u8]) -> (r: FatBs)
        requires
            boot_record@.len() >= 512,
        ensures
            bs_from(r, boot_record@),
    {
        FatBs { jump: bytes_array(boot_record, 0), oem_name: bytes_array(boot_record, 3) }
    }
}

impl FatBpb {
    /// Reads the BIOS parameter block.
    pub fn new(boot_record: &[u8]) -> (r: FatBpb)
        requires
            boot_record@.len() >= 512,
        ensures
            r == bpb_from(boot_record@),
    {
        FatBpb {
            bytes_per_sector: read_u16_at(boot_record, 11),
            sectors_per_cluster: boot_record[13],
            reserved_clusters: read_u16_at(boot_record, 14),
            num_fats: boot_record[16],
            root_entry_count: read_u16_at(boot_record, 17),
            total_sectors_16: read_u16_at(boot_record, 19),
            media_descriptor: boot_record[21],
            fat_size_16: read_u16_at(boot_record, 22),
            sectors_per_track: read_u16_at(boot_record, 24),
            heads: read_u16_at(boot_record, 26),
            hidden_sectors_count: read_u32_at(boot_record, 28),
            total_sectors_32: read_u32_at(boot_record, 32),
        }
    }
}

impl FatEbpb {
    /// Reads the FAT12/16 extension.
    pub fn new(boot_record: &[u8]) -> (r: FatEbpb)
        requires
            boot_record@.len() >= 512,
        ensures
            ebpb_from(r, boot_record@),
    {
        FatEbpb {
            drive_number: boot_record[36],
            reserved: boot_record[37],
            boot_signature: boot_record[38],
            volume_id: bytes_array(boot_record, 39),
            volume_label: bytes_array(boot_record, 43),
            fs_type: bytes_array(boot_record, 54),
        }
    }
}

impl Fat32Ebpb {
    /// Reads the FAT32 extension.
    pub fn new(boot_record: &[u8]) -> (r: Fat32Ebpb)
        requires
            boot_record@.len() >= 512,
        ensures
            ebpb32_from(r, boot_record@),
    {
        Fat32Ebpb {
            fat_size_32: read_u32_at(boot_record, 36),
            flags: read_u16_at(boot_record, 40),
            version: read_u16_at(boot_record, 42),
            root_cluster: read_u32_at(boot_record, 44),
            fsinfo_sector: read_u16_at(boot_record, 48),
            backup_sector: read_u16_at(boot_record, 50),
            reserved: bytes_array(boot_record, 52),
            drive_number: boot_record[64],
            reserved_flags: boot_record[65],
            signature: boot_record[66],
            volume_id: bytes_array(boot_record, 67),
            volume_label: bytes_array(boot_record, 71),
            fs_type: bytes_array(boot_record, 82),
        }
    }
}

/// FAT type by cluster count, as `classify` states.
pub fn determine_fat_type(cluster_count: u32) -> (r: FatType)
    ensures
        r == classify(cluster_count as int),
{
    if cluster_count < 4085 {
        FatType::Fat12
    } else if cluster_count < 65525 {
        FatType::Fat16
    } else {
        FatType::Fat32
    }
}

/// The reserved region of `fat` is the one of the boot sector that
/// `boot_offset` chooses in `img`: head, parameter block, the extension that
/// the parameter block announces, and the type its cluster count gives.
pub open spec fn reserved_from(fat: &Fat, img: Seq<u8>) -> bool {
    match boot_offset(img) {
        None => false,
        Some(off) => {
            let b = boot_sector(img, off);
            &&& bs_from(fat.bs, b)
            &&& fat.bpb == bpb_from(b)
            &&& match fat.ebpb16 {
                Some(e) => ebpb_from(e, b),
                None => true,
            }
            &&& match fat.ebpb32 {
                Some(e) => ebpb32_from(e, b),
                None => true,
            }
            &&& fat.fat_type == classify(spec_cluster_count(bpb_from(b), fat_size_32_from(b)))
        },
    }
}

/// Checks the geometry of a parameter block against an image of `len`
/// bytes, as `geometry_error` states; on success, the FAT type.
fn check_geometry(bpb: &FatBpb, fat_size_32: u32, len: usize) -> (r: Result<FatType, FatError>)
    ensures
        match r {
            Ok(t) => geometry_error(*bpb, fat_size_32, len as int) is None && t == classify(
                spec_cluster_count(*bpb, fat_size_32),
            ),
            Err(e) => geometry_error(*bpb, fat_size_32, len as int) == Some(e),
        },
{
    let bps = bpb.bytes_per_sector;
    let spc = bpb.sectors_per_cluster;
    if !((bps == 512 || bps == 1024 || bps == 2048 || bps == 4096) && (spc == 1 || spc == 2 || spc == 4 || spc
        == 8 || spc == 16 || spc == 32 || spc == 64 || spc == 128)) {
        return Err(FatError::UnsupportedValue);
    }
    if bpb.num_fats < 2 {
        return Err(FatError::GeometryInconsistent);
    }
    let total: u32 = if bpb.total_sectors_16 != 0 {
        bpb.total_sectors_16 as u32
    } else {
        bpb.total_sectors_32
    };
    if (len as u64) < total as u64 * bps as u64 {
        return Err(FatError::GeometryInconsistent);
    }
    let fat_size: u32 = if bpb.fat_size_16 != 0 {
        bpb.fat_size_16 as u32
    } else {
        fat_size_32
    };
    let rds: u32 = (bpb.root_entry_count as u32 * 32 + bps as u32 - 1) / bps as u32;
    assert(bpb.num_fats * fat_size <= 255 * 0xFFFF_FFFFu64) by (nonlinear_arith)
        requires
            bpb.num_fats <= 255,
            fat_size <= 0xFFFF_FFFFu64,
    ;
    let fds: u64 = bpb.reserved_clusters as u64 + bpb.num_fats as u64 * fat_size as u64 + rds as u64;
    if fds > total as u64 {
        return Err(FatError::GeometryInconsistent);
    }
    let cluster_count = ((total as u64 - fds) / spc as u64) as u32;
    let fat_type = determine_fat_type(cluster_count);
    let layout32 = bpb.fat_size_16 == 0 && bpb.total_sectors_16 == 0 && bpb.total_sectors_32 != 0;
    if layout32 != (fat_type == FatType::Fat32) {
        return Err(FatError::GeometryInconsistent);
    }
    Ok(fat_type)
}

/// Offset of the boot sector in the image, as `boot_offset` states.
fn find_boot_sector(image: &Vec<u8>) -> (r: Option<usize>)
    ensures
        match r {
            Some(off) => boot_offset(image@) == Some(off as int),
            None => boot_offset(image@) is None,
        },
{
    let len = image.len();
    if len >= 512 && image[510] == 0x55 && image[511] == 0xAA {
        Some(0)
    } else if len >= 3584 && image[3582] == 0x55 && image[3583] == 0xAA {
        Some(3072)
    } else {
        None
    }
}

/// Reads the reserved region of the image and checks its geometry; the
/// caches of the volume start empty.
pub fn read_reserved(image: Vec<u8>) -> (r: Result<Fat, FatError>)
    ensures
        match r {
            Ok(fat) => {
                &&& mount_error(image@) is None
                &&& fat.wf()
                &&& fat.image@ == image@
                &&& reserved_from(&fat, image@)
                &&& fat.dir_cache@ == Map::<u32, Vec<crate::fat_struct::FatDirectoryEntryContainer>>::empty()
                &&& fat.inode_cache@ == Map::<u32, u32>::empty()
            },
            Err(e) => mount_error(image@) == Some(e),
        },
{
    let off = match find_boot_sector(&image) {
        Some(off) => off,
        None => return Err(FatError::CorruptBootSector),
    };
    let boot = copy_range(&image, off, off + 512);
    let ghost b = boot@;
    assert(b == boot_sector(image@, off as int));
    let bs = FatBs::new(boot.as_slice());
    let bpb = FatBpb::new(boot.as_slice());
    let layout32 = bpb.fat_size_16 == 0 && bpb.total_sectors_16 == 0 && bpb.total_sectors_32 != 0;
    let mut ebpb16: Option<FatEbpb> = None;
    let mut ebpb32: Option<Fat32Ebpb> = None;
    let mut fat_size_32: u32 = 0;
    if layout32 {
        let e = Fat32Ebpb::new(boot.as_slice());
        fat_size_32 = e.fat_size_32;
        ebpb32 = Some(e);
    } else {
        ebpb16 = Some(FatEbpb::new(boot.as_slice()));
    }
    assert(fat_size_32 == fat_size_32_from(b));
    let fat_type = match check_geometry(&bpb, fat_size_32, image.len()) {
        Ok(t) => t,
        Err(e) => return Err(e),
    };
    let fat = Fat {
        bs,
        bpb,
        ebpb16,
        ebpb32,
        image,
        dir_cache: HashMap::new(),
        inode_cache: HashMap::new(),
        fat_type,
    };
    assert(fat.fat_size_32() == fat_size_32);
    Ok(fat)
}

} // verus!
