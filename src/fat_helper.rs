//! Volume geometry, the File Allocation Table reader and cluster-chain I/O.
use crate::bytes::{le_u16, le_u32, read_u16_at, read_u32_at};
use crate::fat_struct::{FatBpb, FatType};
use crate::Fat;
use vstd::arithmetic::div_mod::{lemma_fundamental_div_mod, lemma_mod_pos_bound};
use vstd::arithmetic::mul::lemma_mul_inequality;
use vstd::prelude::*;

verus! {

/// Bytes per sector and sectors per cluster are powers of two in the allowed sets.
pub open spec fn supported_geometry(bpb: FatBpb) -> bool {
    &&& (bpb.bytes_per_sector == 512 || bpb.bytes_per_sector == 1024 || bpb.bytes_per_sector == 2048
        || bpb.bytes_per_sector == 4096)
    &&& (bpb.sectors_per_cluster == 1 || bpb.sectors_per_cluster == 2 || bpb.sectors_per_cluster == 4
        || bpb.sectors_per_cluster == 8 || bpb.sectors_per_cluster == 16 || bpb.sectors_per_cluster
        == 32 || bpb.sectors_per_cluster == 64 || bpb.sectors_per_cluster == 128)
}

/// The parameter block announces the FAT32 extension: no 16-bit FAT size, no
/// 16-bit sector count, a 32-bit sector count.
pub open spec fn fat32_layout(bpb: FatBpb) -> bool {
    bpb.fat_size_16 == 0 && bpb.total_sectors_16 == 0 && bpb.total_sectors_32 != 0
}

/// Sectors of the FAT12/16 root directory: ceil(entries × 32 / bytes per sector).
pub open spec fn spec_root_dir_sectors(bpb: FatBpb) -> int {
    (bpb.root_entry_count * 32 + bpb.bytes_per_sector - 1) / (bpb.bytes_per_sector as int)
}

/// Sectors per FAT: the 16-bit field when nonzero, else the 32-bit one.
pub open spec fn spec_fat_size(bpb: FatBpb, fat_size_32: u32) -> int {
    if bpb.fat_size_16 != 0 {
        bpb.fat_size_16 as int
    } else {
        fat_size_32 as int
    }
}

/// First sector of the data region (of cluster 2).
pub open spec fn spec_first_data_sector(bpb: FatBpb, fat_size_32: u32) -> int {
    bpb.reserved_clusters + bpb.num_fats * spec_fat_size(bpb, fat_size_32) + spec_root_dir_sectors(bpb)
}

/// Sectors of the volume: the 16-bit count when nonzero, else the 32-bit one.
pub open spec fn spec_total_sectors(bpb: FatBpb) -> int {
    if bpb.total_sectors_16 != 0 {
        bpb.total_sectors_16 as int
    } else {
        bpb.total_sectors_32 as int
    }
}

/// Number of data clusters.
pub open spec fn spec_cluster_count(bpb: FatBpb, fat_size_32: u32) -> int {
    (spec_total_sectors(bpb) - spec_first_data_sector(bpb, fat_size_32)) / (bpb.sectors_per_cluster as int)
}

/// FAT type by cluster count: under 4085 FAT12, under 65525 FAT16, else FAT32.
pub open spec fn classify(cluster_count: int) -> FatType {
    if cluster_count < 4085 {
        FatType::Fat12
    } else if cluster_count < 65525 {
        FatType::Fat16
    } else {
        FatType::Fat32
    }
}

/// Why a parameter block cannot be mounted over an image of `len` bytes, if it cannot.
pub open spec fn geometry_error(bpb: FatBpb, fat_size_32: u32, len: int) -> Option<crate::fat_struct::FatError> {
    if !supported_geometry(bpb) {
        Some(crate::fat_struct::FatError::UnsupportedValue)
    } else if bpb.num_fats < 2 || len < spec_total_sectors(bpb) * bpb.bytes_per_sector
        || spec_first_data_sector(bpb, fat_size_32) > spec_total_sectors(bpb)
        || fat32_layout(bpb) != (classify(spec_cluster_count(bpb, fat_size_32)) == FatType::Fat32) {
        Some(crate::fat_struct::FatError::GeometryInconsistent)
    } else {
        None
    }
}

/// End-of-chain threshold of a FAT type.
pub open spec fn eoc_threshold(t: FatType) -> int {
    match t {
        FatType::Fat12 => 0x0FF8,
        FatType::Fat16 => 0xFFF8,
        FatType::Fat32 => 0x0FFF_FFF8,
    }
}

/// Byte offset of a cluster's entry within a FAT.
pub open spec fn spec_fat_offset(t: FatType, c: int) -> int {
    match t {
        FatType::Fat12 => c + c / 2,
        FatType::Fat16 => 2 * c,
        FatType::Fat32 => 4 * c,
    }
}

impl Fat {
    pub open spec fn bps(&self) -> int {
        self.bpb.bytes_per_sector as int
    }

    pub open spec fn spc(&self) -> int {
        self.bpb.sectors_per_cluster as int
    }

    /// The FAT32 extension's sectors per FAT, 0 without that extension.
    pub open spec fn fat_size_32(&self) -> u32 {
        match self.ebpb32 {
            Some(e) => e.fat_size_32,
            None => 0,
        }
    }

    pub open spec fn spec_fat_size(&self) -> int {
        spec_fat_size(self.bpb, self.fat_size_32())
    }

    pub open spec fn first_data_sector(&self) -> int {
        spec_first_data_sector(self.bpb, self.fat_size_32())
    }

    pub open spec fn total_sectors(&self) -> int {
        spec_total_sectors(self.bpb)
    }

    /// Number of data clusters; valid cluster numbers are 2 to this plus 1.
    pub open spec fn data_clusters(&self) -> int {
        spec_cluster_count(self.bpb, self.fat_size_32())
    }

    /// The volume is consistent: supported geometry, at least two FATs, a data
    /// region inside an image that holds every declared sector, a type that
    /// matches the cluster count, and the extension that goes with it.
    pub open spec fn wf(&self) -> bool {
        &&& supported_geometry(self.bpb)
        &&& self.bpb.num_fats >= 2
        &&& self.first_data_sector() <= self.total_sectors()
        &&& self.total_sectors() * self.bps() <= self.image@.len()
        &&& self.fat_type == classify(self.data_clusters())
        &&& self.ebpb32.is_some() == fat32_layout(self.bpb)
        &&& self.ebpb16.is_some() == !fat32_layout(self.bpb)
        &&& fat32_layout(self.bpb) == (self.fat_type == FatType::Fat32)
    }

    pub open spec fn is_valid_cluster(&self, c: int) -> bool {
        2 <= c <= self.data_clusters() + 1
    }

    /// Which FAT copy is read: on FAT32 with mirroring off (flags bit 7), the
    /// one numbered by flags bits 0-3; else the first.
    pub open spec fn active_fat(&self) -> int {
        match self.ebpb32 {
            Some(e) => if self.fat_type == FatType::Fat32 && e.flags & 0x80 != 0 {
                (e.flags & 0x0F) as int
            } else {
                0
            },
            None => 0,
        }
    }

    /// Sector that holds (the first byte of) the FAT entry of cluster `c`.
    pub open spec fn entry_sector(&self, c: int) -> int {
        self.bpb.reserved_clusters + spec_fat_offset(self.fat_type, c) / self.bps() + self.active_fat()
            * self.spec_fat_size()
    }

    /// Offset of that entry within its sector.
    pub open spec fn entry_offset(&self, c: int) -> int {
        spec_fat_offset(self.fat_type, c) % self.bps()
    }

    /// Position of that entry in the image.
    pub open spec fn entry_pos(&self, c: int) -> int {
        self.entry_sector(c) * self.bps() + self.entry_offset(c)
    }

    /// Bytes read for one entry: two (FAT12 and FAT16) or four (FAT32). A
    /// FAT12 entry whose first byte ends a sector takes its second byte from
    /// the start of the next sector, which is the next byte of the image.
    pub open spec fn entry_width(&self) -> int {
        if self.fat_type == FatType::Fat32 {
            4
        } else {
            2
        }
    }

    /// The entry lies in the reserved region, before the first data sector.
    pub open spec fn entry_readable(&self, c: int) -> bool {
        self.entry_pos(c) + self.entry_width() <= self.first_data_sector() * self.bps()
    }

    /// Value of the FAT entry of cluster `c`: FAT12 takes the high 12 bits of
    /// the 16 read for an odd cluster and the low 12 for an even one; FAT32
    /// drops the 4 reserved high bits.
    pub open spec fn fat_entry(&self, c: int) -> int {
        let p = self.entry_pos(c);
        match self.fat_type {
            FatType::Fat12 => if c % 2 == 1 {
                le_u16(self.image@, p) / 16
            } else {
                le_u16(self.image@, p) % 4096
            },
            FatType::Fat16 => le_u16(self.image@, p),
            FatType::Fat32 => le_u32(self.image@, p) % 0x1000_0000,
        }
    }

    /// The cluster after `c` in its chain: none when the entry cannot be read,
    /// marks the end of the chain, is free (0), or points outside the data clusters.
    pub open spec fn next_cluster(&self, c: int) -> Option<int> {
        if !self.entry_readable(c) {
            None
        } else {
            let v = self.fat_entry(c);
            if v >= eoc_threshold(self.fat_type) || !self.is_valid_cluster(v) {
                None
            } else {
                Some(v)
            }
        }
    }

    /// The chain from `c`, at most `fuel` clusters long.
    pub open spec fn chain_from(&self, c: int, fuel: nat) -> Seq<int>
        decreases fuel,
    {
        if fuel == 0 || !self.is_valid_cluster(c) {
            Seq::empty()
        } else {
            match self.next_cluster(c) {
                Some(n) => seq![c] + self.chain_from(n, (fuel - 1) as nat),
                None => seq![c],
            }
        }
    }

    /// The clusters of the chain that starts at `start`, in order. It is empty
    /// when `start` is no data cluster (0 for an empty file), and it stops after
    /// as many clusters as the volume has, so a looping table cannot make it endless.
    pub open spec fn cluster_chain(&self, start: int) -> Seq<int> {
        self.chain_from(start, self.data_clusters() as nat)
    }

    /// First sector of data cluster `c`.
    pub open spec fn cluster_first_sector(&self, c: int) -> int {
        (c - 2) * self.spc() + self.first_data_sector()
    }

    /// The bytes of `n` sectors from sector `s`.
    pub open spec fn sectors_bytes(&self, s: int, n: int) -> Seq<u8> {
        self.image@.subrange(s * self.bps(), (s + n) * self.bps())
    }

    /// The bytes of data cluster `c`.
    pub open spec fn cluster_bytes(&self, c: int) -> Seq<u8> {
        self.sectors_bytes(self.cluster_first_sector(c), self.spc())
    }

    /// The bytes of the clusters `cs`, one after the other.
    pub open spec fn clusters_bytes(&self, cs: Seq<int>) -> Seq<u8>
        decreases cs.len(),
    {
        if cs.len() == 0 {
            Seq::empty()
        } else {
            self.clusters_bytes(cs.drop_last()) + self.cluster_bytes(cs.last())
        }
    }

    /// Raw, cluster-aligned content of the chain that starts at `start`.
    pub open spec fn file_bytes(&self, start: int) -> Seq<u8> {
        self.clusters_bytes(self.cluster_chain(start))
    }
}

/// A valid cluster lies inside the declared sectors, and so inside the image.
pub proof fn lemma_cluster_in_image(fat: &Fat, c: int)
    requires
        fat.wf(),
        fat.is_valid_cluster(c),
    ensures
        fat.first_data_sector() <= fat.cluster_first_sector(c),
        fat.cluster_first_sector(c) + fat.spc() <= fat.total_sectors(),
        (fat.cluster_first_sector(c) + fat.spc()) * fat.bps() <= fat.image@.len(),
        fat.cluster_first_sector(c) * fat.bps() >= 0,
{
    let d = fat.total_sectors() - fat.first_data_sector();
    let spc = fat.spc();
    let cc = fat.data_clusters();
    lemma_fundamental_div_mod(d, spc);
    lemma_mod_pos_bound(d, spc);
    assert(cc * spc <= d);
    lemma_mul_inequality(c - 1, cc, spc);
    assert((c - 1) * spc == (c - 2) * spc + spc) by (nonlinear_arith);
    assert((c - 2) * spc >= 0) by (nonlinear_arith)
        requires
            c >= 2,
            spc > 0,
    ;
    lemma_mul_inequality(fat.cluster_first_sector(c) + spc, fat.total_sectors(), fat.bps());
    assert(fat.cluster_first_sector(c) * fat.bps() >= 0) by (nonlinear_arith)
        requires
            fat.cluster_first_sector(c) >= 0,
            fat.bps() > 0,
    ;
}

/// The bytes `img[from..to]`.
pub(crate) fn copy_range(img: &Vec<u8>, from: usize, to: usize) -> (r: Vec<u8>)
    requires
        from <= to <= img@.len(),
    ensures
        r@ == img@.subrange(from as int, to as int),
{
    let mut r: Vec<u8> = Vec::new();
    let mut i: usize = from;
    while i < to
        invariant
            from <= i <= to <= img@.len(),
            r@ =~= img@.subrange(from as int, i as int),
        decreases to - i,
    {
        r.push(img[i]);
        i = i + 1;
    }
    r
}

/// Reads sector `sector_number` of the image.
pub fn read_sector(fat: &Fat, sector_number: u32) -> (r: Vec<u8>)
    requires
        (sector_number + 1) * fat.bps() <= fat.image@.len(),
    ensures
        r@ == fat.sectors_bytes(sector_number as int, 1),
{
    let len = fat.image.len();
    let bps = fat.bpb.bytes_per_sector as usize;
    proof {
        let n = sector_number as int;
        assert((n + 1) * bps == n * bps + bps) by (nonlinear_arith);
        assert(n * bps >= 0) by (nonlinear_arith)
            requires
                n >= 0,
                bps >= 0,
        ;
    }
    let from = sector_number as usize * bps;
    copy_range(&fat.image, from, from + bps)
}

/// Reads the cluster whose first sector is `first_sector`.
pub fn read_cluster(fat: &Fat, first_sector: u32) -> (r: Vec<u8>)
    requires
        (first_sector + fat.spc()) * fat.bps() <= fat.image@.len(),
    ensures
        r@ == fat.sectors_bytes(first_sector as int, fat.spc()),
{
    let len = fat.image.len();
    let bps = fat.bpb.bytes_per_sector as usize;
    let spc = fat.bpb.sectors_per_cluster as usize;
    proof {
        let fs = first_sector as int;
        assert((fs + spc) * bps == fs * bps + spc * bps) by (nonlinear_arith);
        assert(spc * bps >= 0) by (nonlinear_arith)
            requires
                spc >= 0,
                bps >= 0,
        ;
        assert(fs * bps >= 0) by (nonlinear_arith)
            requires
                fs >= 0,
                bps >= 0,
        ;
    }
    let from = first_sector as usize * bps;
    copy_range(&fat.image, from, from + spc * bps)
}

/// Sectors of the FAT12/16 root directory.
pub fn root_dir_sectors(fat: &Fat) -> (r: u32)
    requires
        supported_geometry(fat.bpb),
    ensures
        r == spec_root_dir_sectors(fat.bpb),
{
    let bps = fat.bpb.bytes_per_sector as u32;
    (fat.bpb.root_entry_count as u32 * 32 + bps - 1) / bps
}

/// Sectors per FAT.
pub fn calculate_fat_size(fat: &Fat) -> (r: u32)
    ensures
        r == fat.spec_fat_size(),
{
    if fat.bpb.fat_size_16 != 0 {
        fat.bpb.fat_size_16 as u32
    } else {
        match &fat.ebpb32 {
            Some(e) => e.fat_size_32,
            None => 0,
        }
    }
}

/// First sector of the data region.
pub fn first_data_sector(fat: &Fat) -> (r: u64)
    requires
        supported_geometry(fat.bpb),
    ensures
        r == fat.first_data_sector(),
        r <= 0xFFFF + 255 * 0xFFFF_FFFFu64 + 0xFFFF_FFFFu64,
{
    let fat_size = calculate_fat_size(fat);
    let rds = root_dir_sectors(fat);
    assert(fat.bpb.num_fats * fat_size <= 255 * 0xFFFF_FFFF) by (nonlinear_arith)
        requires
            fat.bpb.num_fats <= 255,
            fat_size <= 0xFFFF_FFFF,
    ;
    fat.bpb.reserved_clusters as u64 + fat.bpb.num_fats as u64 * fat_size as u64 + rds as u64
}

/// Number of data clusters of the volume.
pub fn data_clusters(fat: &Fat) -> (r: u32)
    requires
        fat.wf(),
    ensures
        r == fat.data_clusters(),
{
    let total: u32 = if fat.bpb.total_sectors_16 != 0 {
        fat.bpb.total_sectors_16 as u32
    } else {
        fat.bpb.total_sectors_32
    };
    let fds = first_data_sector(fat);
    ((total as u64 - fds) / fat.bpb.sectors_per_cluster as u64) as u32
}

/// First sector of data cluster `cluster_number`.
pub fn first_sector_of_cluster(fat: &Fat, cluster_number: u32) -> (r: u64)
    requires
        supported_geometry(fat.bpb),
        cluster_number >= 2,
    ensures
        r == fat.cluster_first_sector(cluster_number as int),
{
    let fds = first_data_sector(fat);
    let spc = fat.bpb.sectors_per_cluster as u64;
    assert((cluster_number - 2) * spc <= 0xFFFF_FFFFu64 * 128) by (nonlinear_arith)
        requires
            2 <= cluster_number <= 0xFFFF_FFFFu64,
            spc <= 128,
    ;
    assert(fds <= 0xFFFF + 255 * 0xFFFF_FFFFu64 + 0xFFFF_FFFFu64);
    (cluster_number as u64 - 2) * spc + fds
}

/// Sector and in-sector offset of the FAT entry of `cluster_number`, in the
/// active FAT.
pub fn determine_fat_entry_offset(fat: &Fat, cluster_number: u32) -> (r: (u64, u32))
    requires
        fat.wf(),
    ensures
        r.0 == fat.entry_sector(cluster_number as int),
        r.1 == fat.entry_offset(cluster_number as int),
{
    let c = cluster_number as u64;
    let fat_offset: u64 = match fat.fat_type {
        FatType::Fat16 => c * 2,
        FatType::Fat32 => c * 4,
        FatType::Fat12 => c + c / 2,
    };
    let bps = fat.bpb.bytes_per_sector as u64;
    let sector = fat.bpb.reserved_clusters as u64 + fat_offset / bps;
    let offset = (fat_offset % bps) as u32;
    let active: u64 = match &fat.ebpb32 {
        Some(e) => if fat.fat_type == FatType::Fat32 && e.flags & 0x80 != 0 {
            (e.flags & 0x0F) as u64
        } else {
            0
        },
        None => 0,
    };
    assert(forall|f: u16| #[trigger] (f & 0x0F) <= 15) by (bit_vector);
    let fat_size = calculate_fat_size(fat) as u64;
    assert(active * fat_size <= 15 * 0xFFFF_FFFFu64) by (nonlinear_arith)
        requires
            active <= 15,
            fat_size <= 0xFFFF_FFFFu64,
    ;
    (sector + active * fat_size, offset)
}

/// Value of the FAT entry of `cluster_number`, found at the given sector and offset.
pub fn read_fat_entry(fat: &Fat, cluster_number: u32, fat_sector_number: u64, fat_entry_offset: u32) -> (r: u32)
    requires
        fat.wf(),
        fat_sector_number == fat.entry_sector(cluster_number as int),
        fat_entry_offset == fat.entry_offset(cluster_number as int),
        fat.entry_readable(cluster_number as int),
    ensures
        r == fat.fat_entry(cluster_number as int),
{
    let bps = fat.bpb.bytes_per_sector as u64;
    proof {
        let fds = fat.first_data_sector();
        lemma_mul_inequality(fds, fat.total_sectors(), fat.bps());
        assert(fat_sector_number * bps >= 0) by (nonlinear_arith)
            requires
                fat_sector_number >= 0,
                bps >= 0,
        ;
        assert(fat.total_sectors() * fat.bps() <= 0xFFFF_FFFFu64 * 4096) by (nonlinear_arith)
            requires
                fat.total_sectors() <= 0xFFFF_FFFFu64,
                fat.bps() <= 4096,
        ;
    }
    let len = fat.image.len();
    assert(fat_sector_number * bps + fat_entry_offset + fat.entry_width() <= len);
    let pos = (fat_sector_number * bps + fat_entry_offset as u64) as usize;
    match fat.fat_type {
        FatType::Fat12 => {
            let v = read_u16_at(fat.image.as_slice(), pos);
            if cluster_number % 2 == 1 {
                (v / 16) as u32
            } else {
                (v % 4096) as u32
            }
        },
        FatType::Fat16 => read_u16_at(fat.image.as_slice(), pos) as u32,
        FatType::Fat32 => read_u32_at(fat.image.as_slice(), pos) % 0x1000_0000,
    }
}

/// Whether a FAT entry value marks the end of a chain.
pub fn is_eof(fat: &Fat, fat_entry: u32) -> (r: bool)
    ensures
        r == (fat_entry >= eoc_threshold(fat.fat_type)),
{
    match fat.fat_type {
        FatType::Fat12 => fat_entry >= 0x0FF8,
        FatType::Fat16 => fat_entry >= 0xFFF8,
        FatType::Fat32 => fat_entry >= 0x0FFF_FFF8,
    }
}

/// The cluster after `cluster_number` in its chain, as `next_cluster` states.
pub fn next_cluster(fat: &Fat, cluster_number: u32) -> (r: Option<u32>)
    requires
        fat.wf(),
    ensures
        match r {
            Some(n) => fat.next_cluster(cluster_number as int) == Some(n as int),
            None => fat.next_cluster(cluster_number as int) is None,
        },
{
    let (sector, offset) = determine_fat_entry_offset(fat, cluster_number);
    let bps = fat.bpb.bytes_per_sector as u64;
    let width: u64 = if fat.fat_type == FatType::Fat32 {
        4
    } else {
        2
    };
    let fds = first_data_sector(fat);
    if sector >= fds {
        proof {
            lemma_mul_inequality(fds as int, sector as int, bps as int);
        }
        return None;
    }
    proof {
        assert(sector * bps <= 0xFFFF_FFFFu64 * 4096) by (nonlinear_arith)
            requires
                sector <= 0xFFFF_FFFFu64,
                bps <= 4096,
        ;
        assert(fds * bps <= 0xFFFF_FFFFu64 * 4096) by (nonlinear_arith)
            requires
                fds <= 0xFFFF_FFFFu64,
                bps <= 4096,
        ;
    }
    if sector * bps + offset as u64 + width > fds * bps {
        return None;
    }
    let v = read_fat_entry(fat, cluster_number, sector, offset);
    let cc = data_clusters(fat);
    if is_eof(fat, v) || v < 2 || v as u64 > cc as u64 + 1 {
        None
    } else {
        Some(v)
    }
}

/// Number of clusters in the chain that starts at `cluster_number`: 0 for 0.
pub fn file_cluster_count(fat: &Fat, cluster_number: u32) -> (r: u32)
    requires
        fat.wf(),
    ensures
        r == fat.cluster_chain(cluster_number as int).len(),
{
    let cc = data_clusters(fat);
    let mut cur = cluster_number;
    let mut fuel: u32 = cc;
    let mut n: u32 = 0;
    while fuel > 0 && cur >= 2 && cur as u64 <= cc as u64 + 1
        invariant
            fat.wf(),
            cc == fat.data_clusters(),
            n + fuel <= cc,
            n + fat.chain_from(cur as int, fuel as nat).len() == fat.cluster_chain(cluster_number as int).len(),
        decreases fuel,
    {
        n = n + 1;
        match next_cluster(fat, cur) {
            Some(x) => {
                cur = x;
                fuel = fuel - 1;
            },
            None => {
                fuel = 0;
            },
        }
    }
    n
}

/// The cluster `cluster_number` and the cluster after it: empty bytes and
/// none when it is no data cluster.
pub fn read_data(fat: &Fat, cluster_number: u32) -> (r: (Vec<u8>, Option<u32>))
    requires
        fat.wf(),
    ensures
        fat.is_valid_cluster(cluster_number as int) ==> r.0@ == fat.cluster_bytes(cluster_number as int) && match r.1 {
            Some(n) => fat.next_cluster(cluster_number as int) == Some(n as int),
            None => fat.next_cluster(cluster_number as int) is None,
        },
        !fat.is_valid_cluster(cluster_number as int) ==> r.0@.len() == 0 && r.1 is None,
{
    let cc = data_clusters(fat);
    if cluster_number < 2 || cluster_number as u64 > cc as u64 + 1 {
        return (Vec::new(), None);
    }
    proof {
        lemma_cluster_in_image(fat, cluster_number as int);
    }
    let sector_number = first_sector_of_cluster(fat, cluster_number) as u32;
    let data = read_cluster(fat, sector_number);
    (data, next_cluster(fat, cluster_number))
}

/// Raw content of the chain that starts at `cluster_number`, every cluster
/// whole; empty for 0.
pub fn read_file_full(fat: &Fat, cluster_number: u32) -> (r: Vec<u8>)
    requires
        fat.wf(),
    ensures
        r@ == fat.file_bytes(cluster_number as int),
{
    let cc = data_clusters(fat);
    let mut data: Vec<u8> = Vec::new();
    let mut cur = cluster_number;
    let mut fuel: u32 = cc;
    let ghost mut visited: Seq<int> = Seq::empty();
    while fuel > 0 && cur >= 2 && cur as u64 <= cc as u64 + 1
        invariant
            fat.wf(),
            cc == fat.data_clusters(),
            visited + fat.chain_from(cur as int, fuel as nat) == fat.cluster_chain(cluster_number as int),
            data@ == fat.clusters_bytes(visited),
        decreases fuel,
    {
        let (mut block, next) = read_data(fat, cur);
        data.append(&mut block);
        proof {
            assert(visited.push(cur as int).drop_last() =~= visited);
            let tail = fat.chain_from(cur as int, fuel as nat);
            assert(tail[0] == cur as int);
            visited = visited.push(cur as int);
        }
        match next {
            Some(x) => {
                assert(visited + fat.chain_from(x as int, (fuel - 1) as nat) =~= fat.cluster_chain(cluster_number as int));
                cur = x;
                fuel = fuel - 1;
            },
            None => {
                assert(visited + fat.chain_from(cur as int, 0) =~= fat.cluster_chain(cluster_number as int));
                fuel = 0;
            },
        }
    }
    assert(visited =~= fat.cluster_chain(cluster_number as int));
    data
}

impl Fat {
    /// `self` and `other` describe the same volume; only their caches may differ.
    pub open spec fn same_volume(&self, other: &Fat) -> bool {
        &&& self.bs == other.bs
        &&& self.bpb == other.bpb
        &&& self.ebpb16 == other.ebpb16
        &&& self.ebpb32 == other.ebpb32
        &&& self.image@ == other.image@
        &&& self.fat_type == other.fat_type
    }
}

proof fn lemma_same_chain_from(a: &Fat, b: &Fat, c: int, fuel: nat)
    requires
        a.same_volume(b),
    ensures
        a.chain_from(c, fuel) == b.chain_from(c, fuel),
    decreases fuel,
{
    if fuel > 0 && a.is_valid_cluster(c) {
        assert(a.next_cluster(c) == b.next_cluster(c));
        match a.next_cluster(c) {
            Some(n) => lemma_same_chain_from(a, b, n, (fuel - 1) as nat),
            None => {},
        }
    }
}

proof fn lemma_same_clusters_bytes(a: &Fat, b: &Fat, cs: Seq<int>)
    requires
        a.same_volume(b),
    ensures
        a.clusters_bytes(cs) == b.clusters_bytes(cs),
    decreases cs.len(),
{
    if cs.len() > 0 {
        lemma_same_clusters_bytes(a, b, cs.drop_last());
    }
}

/// Two handles on the same volume agree on its consistency and on every chain.
pub proof fn lemma_same_volume(a: &Fat, b: &Fat)
    requires
        a.same_volume(b),
    ensures
        a.wf() == b.wf(),
        forall|c: int| #[trigger] a.cluster_chain(c) == b.cluster_chain(c),
        forall|c: int| #[trigger] a.file_bytes(c) == b.file_bytes(c),
{
    assert forall|c: int| #[trigger] a.cluster_chain(c) == b.cluster_chain(c) by {
        lemma_same_chain_from(a, b, c, a.data_clusters() as nat);
    }
    assert forall|c: int| #[trigger] a.file_bytes(c) == b.file_bytes(c) by {
        lemma_same_chain_from(a, b, c, a.data_clusters() as nat);
        lemma_same_clusters_bytes(a, b, a.cluster_chain(c));
    }
}

proof fn lemma_chain_valid(fat: &Fat, c: int, fuel: nat)
    ensures
        forall|i: int| 0 <= i < fat.chain_from(c, fuel).len() ==> fat.is_valid_cluster(#[trigger] fat.chain_from(c, fuel)[i]),
        fat.chain_from(c, fuel).len() <= fuel,
    decreases fuel,
{
    if fuel > 0 && fat.is_valid_cluster(c) {
        match fat.next_cluster(c) {
            Some(n) => {
                lemma_chain_valid(fat, n, (fuel - 1) as nat);
                let t = fat.chain_from(n, (fuel - 1) as nat);
                assert forall|i: int| 0 <= i < fat.chain_from(c, fuel).len() implies fat.is_valid_cluster(
                    #[trigger] fat.chain_from(c, fuel)[i],
                ) by {
                    if i > 0 {
                        assert(fat.chain_from(c, fuel)[i] == t[i - 1]);
                    }
                }
            },
            None => {},
        }
    }
}

proof fn lemma_clusters_bytes_len(fat: &Fat, cs: Seq<int>)
    requires
        fat.wf(),
        forall|i: int| 0 <= i < cs.len() ==> fat.is_valid_cluster(#[trigger] cs[i]),
    ensures
        fat.clusters_bytes(cs).len() == cs.len() * (fat.spc() * fat.bps()),
    decreases cs.len(),
{
    if cs.len() > 0 {
        let c = cs.last();
        assert(fat.is_valid_cluster(cs[cs.len() - 1]));
        lemma_clusters_bytes_len(fat, cs.drop_last());
        lemma_cluster_in_image(fat, c);
        let fs = fat.cluster_first_sector(c);
        let spc = fat.spc();
        let bps = fat.bps();
        assert((fs + spc) * bps == fs * bps + spc * bps) by (nonlinear_arith);
        assert(fat.cluster_bytes(c).len() == spc * bps);
        let k = cs.len();
        assert((k - 1) * (spc * bps) + spc * bps == k * (spc * bps)) by (nonlinear_arith);
    }
}

/// The raw content of a chain is as long as its clusters: the chain's length
/// times sectors per cluster times bytes per sector.
pub proof fn lemma_read_full_length(fat: &Fat, start: int)
    requires
        fat.wf(),
    ensures
        fat.file_bytes(start).len() == fat.cluster_chain(start).len() * fat.spc() * fat.bps(),
{
    let cs = fat.cluster_chain(start);
    lemma_chain_valid(fat, start, fat.data_clusters() as nat);
    lemma_clusters_bytes_len(fat, cs);
    assert(cs.len() * (fat.spc() * fat.bps()) == cs.len() * fat.spc() * fat.bps()) by (nonlinear_arith);
}

} // verus!
