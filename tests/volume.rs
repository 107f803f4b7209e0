use lib_fat::fat_dir::{chksum, parse_date, parse_time};
use lib_fat::fat_helper::{
    determine_fat_entry_offset, first_sector_of_cluster, file_cluster_count, next_cluster, read_file_full, read_sector,
};
use lib_fat::fat_reserved::determine_fat_type;
use lib_fat::fat_struct::{FatDirectoryEntry, FatLongDirectoryEntry, FatDirectoryEntryContainer, FatError, FatType};
use lib_fat::fs_view::{entry_kind, listing_entries, EntryKind};
use lib_fat::Fat;

const FLOPPY_ROOT: usize = 19 * 512;
const FLOPPY_DATA: usize = 33 * 512;

fn put16(img: &mut [u8], off: usize, v: u16) {
    img[off] = (v & 0xFF) as u8;
    img[off + 1] = (v >> 8) as u8;
}

fn put32(img: &mut [u8], off: usize, v: u32) {
    put16(img, off, (v & 0xFFFF) as u16);
    put16(img, off + 2, (v >> 16) as u16);
}

/// A blank 1.44 MB FAT12 floppy: 512-byte sectors, one sector per cluster,
/// one reserved sector, two FATs of 9 sectors, 224 root entries.
fn floppy() -> Vec<u8> {
    let mut img = vec![0u8; 2880 * 512];
    img[0] = 0xEB;
    img[1] = 0x3C;
    img[2] = 0x90;
    img[3..11].copy_from_slice(b"MSDOS5.0");
    put16(&mut img, 11, 512);
    img[13] = 1;
    put16(&mut img, 14, 1);
    img[16] = 2;
    put16(&mut img, 17, 224);
    put16(&mut img, 19, 2880);
    img[21] = 0xF0;
    put16(&mut img, 22, 9);
    put16(&mut img, 24, 18);
    put16(&mut img, 26, 2);
    img[510] = 0x55;
    img[511] = 0xAA;
    for fat in 0..2 {
        let base = 512 + fat * 9 * 512;
        img[base] = 0xF0;
        img[base + 1] = 0xFF;
        img[base + 2] = 0xFF;
    }
    img
}

fn set_fat12(img: &mut [u8], c: usize, v: u16) {
    for fat in 0..2 {
        let off = 512 + fat * 9 * 512 + c + c / 2;
        if c % 2 == 1 {
            img[off] = (img[off] & 0x0F) | (((v & 0x0F) as u8) << 4);
            img[off + 1] = (v >> 4) as u8;
        } else {
            img[off] = (v & 0xFF) as u8;
            img[off + 1] = (img[off + 1] & 0xF0) | ((v >> 8) as u8 & 0x0F);
        }
    }
}

fn short_entry(img: &mut [u8], off: usize, name: &[u8; 11], attr: u8, cluster: u32, size: u32) {
    img[off..off + 11].copy_from_slice(name);
    img[off + 11] = attr;
    put16(img, off + 20, (cluster >> 16) as u16);
    put16(img, off + 26, (cluster & 0xFFFF) as u16);
    put32(img, off + 28, size);
}

fn long_entry(img: &mut [u8], off: usize, order: u8, units: &[u16; 13], checksum: u8) {
    img[off] = order;
    for i in 0..5 {
        put16(img, off + 1 + 2 * i, units[i]);
    }
    img[off + 11] = 0x0F;
    img[off + 12] = 0;
    img[off + 13] = checksum;
    for i in 0..6 {
        put16(img, off + 14 + 2 * i, units[5 + i]);
    }
    put16(img, off + 26, 0);
    for i in 0..2 {
        put16(img, off + 28 + 2 * i, units[11 + i]);
    }
}

/// Thirteen units of a long name fragment: the text, a 0 terminator when it
/// ends early, then 0xFFFF padding.
fn fragment(text: &str) -> [u16; 13] {
    let mut units = [0xFFFFu16; 13];
    let v: Vec<u16> = text.encode_utf16().collect();
    for (i, u) in v.iter().enumerate() {
        units[i] = *u;
    }
    if v.len() < 13 {
        units[v.len()] = 0;
    }
    units
}

fn hello_floppy() -> Vec<u8> {
    let mut img = floppy();
    short_entry(&mut img, FLOPPY_ROOT, b"HELLO   TXT", 0x20, 2, 13);
    set_fat12(&mut img, 2, 0xFFF);
    img[FLOPPY_DATA..FLOPPY_DATA + 13].copy_from_slice(b"Hello, world!");
    img
}

fn long_name_floppy(second_checksum_ok: bool) -> Vec<u8> {
    let mut img = floppy();
    let sum = chksum(b"HELLO~1 TXT");
    let bad = sum.wrapping_add(1);
    long_entry(&mut img, FLOPPY_ROOT, 0x42, &fragment("xt"), sum);
    long_entry(&mut img, FLOPPY_ROOT + 32, 0x01, &fragment("Hello World.t"), if second_checksum_ok { sum } else { bad });
    short_entry(&mut img, FLOPPY_ROOT + 64, b"HELLO~1 TXT", 0x20, 2, 13);
    set_fat12(&mut img, 2, 0xFFF);
    img[FLOPPY_DATA..FLOPPY_DATA + 13].copy_from_slice(b"Hello, world!");
    img
}

#[test]
fn floppy_mount_list_and_read() {
    let mut fat = Fat::mount_volume(hello_floppy()).unwrap();
    assert_eq!(fat.fat_type(), "FAT12");
    assert!(!fat.is_fat32());
    assert_eq!(fat.get_root_cluster_number(), 0);
    assert_eq!(fat.oem_name(), "MSDOS5.0");
    {
        let dir = fat.list_directory(0).unwrap();
        assert_eq!(dir.len(), 1);
        assert_eq!(dir[0].get_name(), "HELLO.TXT");
        assert_eq!(dir[0].size(), 13);
        assert_eq!(dir[0].cluster_number(), 2);
        assert_eq!(dir[0].attribute(), 0x20);
        assert_eq!(dir[0].cluster_count(false), 1);
    }
    assert_eq!(fat.get_data(2, 0, 13).unwrap(), b"Hello, world!".to_vec());
    assert_eq!(fat.get_data(2, 5, 100).unwrap(), b", world!".to_vec());
    assert_eq!(fat.get_data(2, 14, 10).unwrap(), Vec::<u8>::new());
    assert_eq!(fat.get_data(2, 13, 10).unwrap(), Vec::<u8>::new());
    assert!(fat.get_data(3, 0, 10).is_none());
}

#[test]
fn floppy_lookup_ignores_ascii_case() {
    let mut fat = Fat::mount_volume(hello_floppy()).unwrap();
    assert_eq!(fat.lookup(0, "hello.txt").unwrap().cluster_number(), 2);
    assert_eq!(fat.lookup(0, "HeLLo.TxT").unwrap().size(), 13);
    assert!(fat.lookup(0, "hello.txt2").is_none());
    assert!(fat.lookup(77, "hello.txt").is_none());
}

#[test]
fn floppy_get_inode_and_parent() {
    let fat = Fat::mount_volume(hello_floppy()).unwrap();
    let c = fat.get_inode(2).unwrap();
    assert_eq!(c.get_name(), "HELLO.TXT");
    assert_eq!(fat.inode_cache.get(&2), Some(&0));
    assert!(fat.get_inode(5).is_none());
}

#[test]
fn long_name_with_valid_checksums() {
    let mut fat = Fat::mount_volume(long_name_floppy(true)).unwrap();
    let dir = fat.list_directory(0).unwrap();
    assert_eq!(dir.len(), 1);
    assert_eq!(dir[0].get_name(), "Hello World.txt");
    assert_eq!(dir[0].long_entries.len(), 2);
}

#[test]
fn long_name_with_wrong_checksum_falls_back() {
    let mut fat = Fat::mount_volume(long_name_floppy(false)).unwrap();
    let dir = fat.list_directory(0).unwrap();
    assert_eq!(dir.len(), 1);
    assert_eq!(dir[0].get_name(), "HELLO~1.TXT");
    assert_eq!(dir[0].long_entries.len(), 0);
}

#[test]
fn long_name_with_wrong_order_falls_back() {
    let mut img = long_name_floppy(true);
    img[FLOPPY_ROOT + 32] = 0x03;
    let mut fat = Fat::mount_volume(img).unwrap();
    assert_eq!(fat.list_directory(0).unwrap()[0].get_name(), "HELLO~1.TXT");
}

#[test]
fn long_name_decodes_utf16() {
    let mut img = floppy();
    let sum = chksum(b"CAFE    TXT");
    let text: Vec<u16> = "Café😀".encode_utf16().collect();
    let mut units = [0xFFFFu16; 13];
    units[..text.len()].copy_from_slice(&text);
    units[text.len()] = 0;
    long_entry(&mut img, FLOPPY_ROOT, 0x41, &units, sum);
    short_entry(&mut img, FLOPPY_ROOT + 32, b"CAFE    TXT", 0x20, 0, 0);
    let mut fat = Fat::mount_volume(img).unwrap();
    assert_eq!(fat.list_directory(0).unwrap()[0].get_name(), "Café😀");
}

#[test]
fn long_name_unpaired_surrogate_is_replaced() {
    let mut img = floppy();
    let sum = chksum(b"ODD     TXT");
    let mut units = [0xFFFFu16; 13];
    units[0] = 0x41;
    units[1] = 0xD800;
    units[2] = 0x42;
    units[3] = 0;
    long_entry(&mut img, FLOPPY_ROOT, 0x41, &units, sum);
    short_entry(&mut img, FLOPPY_ROOT + 32, b"ODD     TXT", 0x20, 0, 0);
    let mut fat = Fat::mount_volume(img).unwrap();
    assert_eq!(fat.list_directory(0).unwrap()[0].get_name(), "A\u{FFFD}B");
}

#[test]
fn directory_scan_skips_free_and_stops_at_zero() {
    let mut img = floppy();
    short_entry(&mut img, FLOPPY_ROOT, b"FIRST   TXT", 0x20, 0, 0);
    short_entry(&mut img, FLOPPY_ROOT + 32, b"GONE    TXT", 0x20, 0, 0);
    img[FLOPPY_ROOT + 32] = 0xE5;
    short_entry(&mut img, FLOPPY_ROOT + 64, b"BAD     TXT", 0x18, 0, 0);
    short_entry(&mut img, FLOPPY_ROOT + 96, b"LABEL      ", 0x08, 0, 0);
    short_entry(&mut img, FLOPPY_ROOT + 128, b"SUB        ", 0x10, 0, 0);
    short_entry(&mut img, FLOPPY_ROOT + 192, b"AFTER   TXT", 0x20, 0, 0);
    let mut fat = Fat::mount_volume(img).unwrap();
    let names: Vec<String> = fat.list_directory(0).unwrap().iter().map(|c| c.get_name().clone()).collect();
    assert_eq!(names, vec!["FIRST.TXT".to_string(), "LABEL".to_string(), "SUB".to_string()]);
}

#[test]
fn subdirectory_is_listed_on_demand() {
    let mut img = floppy();
    short_entry(&mut img, FLOPPY_ROOT, b"SUB        ", 0x10, 5, 0);
    set_fat12(&mut img, 5, 0xFFF);
    let sub = FLOPPY_DATA + 3 * 512;
    short_entry(&mut img, sub, b".          ", 0x10, 5, 0);
    short_entry(&mut img, sub + 32, b"..         ", 0x10, 0, 0);
    short_entry(&mut img, sub + 64, b"INNER   BIN", 0x20, 6, 3);
    set_fat12(&mut img, 6, 0xFFF);
    img[FLOPPY_DATA + 4 * 512..FLOPPY_DATA + 4 * 512 + 3].copy_from_slice(b"abc");
    let mut fat = Fat::mount_volume(img).unwrap();
    assert!(fat.list_directory(6).is_none());
    {
        let dir = fat.list_directory(5).unwrap();
        assert_eq!(dir.len(), 3);
        assert_eq!(dir[2].get_name(), "INNER.BIN");
    }
    assert_eq!(fat.inode_cache.get(&6), Some(&5));
    assert_eq!(fat.get_data(6, 0, 10).unwrap(), b"abc".to_vec());
    assert!(fat.list_directory(6).is_none());
    assert_eq!(fat.lookup(5, "inner.bin").unwrap().size(), 3);
}

#[test]
fn fat12_entry_straddling_sectors() {
    let mut img = floppy();
    // The entry of cluster 341 starts at byte 511 of the first FAT sector.
    set_fat12(&mut img, 341, 342);
    set_fat12(&mut img, 342, 0xFFF);
    short_entry(&mut img, FLOPPY_ROOT, b"SPLIT   BIN", 0x20, 341, 1024);
    let fat = Fat::mount_volume(img).unwrap();
    assert_eq!(determine_fat_entry_offset(&fat, 341), (1, 511));
    assert_eq!(next_cluster(&fat, 341), Some(342));
    assert_eq!(next_cluster(&fat, 342), None);
    assert_eq!(file_cluster_count(&fat, 341), 2);
    assert_eq!(fat.get_inode(341).unwrap().cached_cluster_count, 2);
}

#[test]
fn read_full_length_is_cluster_multiple() {
    let mut img = floppy();
    set_fat12(&mut img, 2, 3);
    set_fat12(&mut img, 3, 4);
    set_fat12(&mut img, 4, 0xFFF);
    let fat = Fat::mount_volume(img).unwrap();
    assert_eq!(file_cluster_count(&fat, 2), 3);
    assert_eq!(read_file_full(&fat, 2).len(), 3 * 512);
    assert_eq!(file_cluster_count(&fat, 0), 0);
    assert_eq!(read_file_full(&fat, 0).len(), 0);
}

#[test]
fn looping_chain_is_cut() {
    let mut img = floppy();
    set_fat12(&mut img, 2, 3);
    set_fat12(&mut img, 3, 2);
    let fat = Fat::mount_volume(img).unwrap();
    assert_eq!(file_cluster_count(&fat, 2), 2847);
}

#[test]
fn out_of_range_pointer_ends_chain() {
    let mut img = floppy();
    set_fat12(&mut img, 2, 0xF00);
    set_fat12(&mut img, 3, 0);
    let fat = Fat::mount_volume(img).unwrap();
    assert_eq!(file_cluster_count(&fat, 2), 1);
    assert_eq!(file_cluster_count(&fat, 3), 1);
}

#[test]
fn read_sector_returns_sector_bytes() {
    let fat = Fat::mount_volume(hello_floppy()).unwrap();
    let s = read_sector(&fat, 33);
    assert_eq!(s.len(), 512);
    assert_eq!(&s[..13], b"Hello, world!");
}

#[test]
fn backup_boot_sector_is_used() {
    let mut img = hello_floppy();
    let boot: Vec<u8> = img[..512].to_vec();
    img[6 * 512..7 * 512].copy_from_slice(&boot);
    img[510] = 0;
    // The backup sector lies inside the FAT region here; only the boot sector matters.
    let fat = Fat::mount_volume(img);
    assert!(fat.is_ok());
}

#[test]
fn missing_signature_is_corrupt() {
    let mut img = hello_floppy();
    img[511] = 0;
    assert_eq!(Fat::mount_volume(img).err(), Some(FatError::CorruptBootSector));
    assert_eq!(Fat::mount_volume(vec![0u8; 100]).err(), Some(FatError::CorruptBootSector));
}

#[test]
fn single_fat_is_inconsistent() {
    let mut img = hello_floppy();
    img[16] = 1;
    assert_eq!(Fat::mount_volume(img).err(), Some(FatError::GeometryInconsistent));
}

#[test]
fn short_image_is_inconsistent() {
    let mut img = hello_floppy();
    img.truncate(2879 * 512);
    assert_eq!(Fat::mount_volume(img).err(), Some(FatError::GeometryInconsistent));
}

#[test]
fn odd_sector_size_is_unsupported() {
    let mut img = hello_floppy();
    put16(&mut img, 11, 500);
    assert_eq!(Fat::mount_volume(img).err(), Some(FatError::UnsupportedValue));
    let mut img = hello_floppy();
    img[13] = 3;
    assert_eq!(Fat::mount_volume(img).err(), Some(FatError::UnsupportedValue));
}

#[test]
fn fat_type_thresholds() {
    assert_eq!(determine_fat_type(0), FatType::Fat12);
    assert_eq!(determine_fat_type(4084), FatType::Fat12);
    assert_eq!(determine_fat_type(4085), FatType::Fat16);
    assert_eq!(determine_fat_type(65524), FatType::Fat16);
    assert_eq!(determine_fat_type(65525), FatType::Fat32);
    assert_eq!(determine_fat_type(u32::MAX), FatType::Fat32);
}

#[test]
fn checksum_reference_values() {
    assert_eq!(chksum(b"HELLO~1 TXT"), 0xED);
    assert_eq!(chksum(b"TEST    TXT"), 0x8F);
    assert_eq!(chksum(b"FOO        "), 0x88);
    assert_eq!(chksum(b"README  TXT"), 0x73);
    assert_eq!(chksum(b""), 0);
}

fn entry_named(name: &[u8; 11]) -> FatDirectoryEntry {
    let mut rec = [0u8; 32];
    rec[..11].copy_from_slice(name);
    FatDirectoryEntry::new(&rec)
}

#[test]
fn short_names_are_presented() {
    let none = Vec::new();
    assert_eq!(FatDirectoryEntryContainer::parse_name(&entry_named(b"TEST    TXT"), &none), "TEST.TXT");
    assert_eq!(FatDirectoryEntryContainer::parse_name(&entry_named(b"FOO        "), &none), "FOO");
    assert_eq!(FatDirectoryEntryContainer::parse_name(&entry_named(b"A       C  "), &none), "A.C");
    assert_eq!(FatDirectoryEntryContainer::parse_name(&entry_named(b"\x05BC     D  "), &none), "\u{E5}BC.D");
}

#[test]
fn entry_fields_are_little_endian() {
    let mut rec = [0u8; 32];
    rec[..11].copy_from_slice(b"DATA    BIN");
    rec[11] = 0x21;
    put16(&mut rec, 20, 0x0001);
    put16(&mut rec, 26, 0x0203);
    put32(&mut rec, 28, 0x0A0B0C0D);
    put16(&mut rec, 24, 20657);
    put16(&mut rec, 22, 28079);
    let e = FatDirectoryEntry::new(&rec);
    assert_eq!(e.cluster_number(), 0x0001_0203);
    assert_eq!(e.size, 0x0A0B0C0D);
    assert_eq!(e.attribute, 0x21);
    assert_eq!(e.write_date, 20657);
}

#[test]
fn date_and_time_fields() {
    assert_eq!(parse_date(0), (1980, 0, 0));
    assert_eq!(parse_date(20657), (2020, 5, 17));
    assert_eq!(parse_time(28079), (13, 45, 30));
    assert_eq!(parse_time(0), (0, 0, 0));
}

#[test]
fn entry_kinds_by_attribute() {
    assert_eq!(entry_kind(0x10), Some(EntryKind::Directory));
    assert_eq!(entry_kind(0x30), Some(EntryKind::Directory));
    assert_eq!(entry_kind(0x20), Some(EntryKind::RegularFile));
    assert_eq!(entry_kind(0x01), None);
}

#[test]
fn root_listing_for_the_bridge() {
    let mut img = floppy();
    short_entry(&mut img, FLOPPY_ROOT, b"VOLUME     ", 0x08, 0, 0);
    short_entry(&mut img, FLOPPY_ROOT + 32, b"HIDDEN  TXT", 0x22, 7, 1);
    short_entry(&mut img, FLOPPY_ROOT + 64, b"DOCS       ", 0x10, 9, 0);
    short_entry(&mut img, FLOPPY_ROOT + 96, b"PLAIN   TXT", 0x00, 11, 1);
    short_entry(&mut img, FLOPPY_ROOT + 128, b"NOTE    TXT", 0x20, 12, 1);
    short_entry(&mut img, FLOPPY_ROOT + 160, b"EMPTY   TXT", 0x20, 0, 0);
    let mut fat = Fat::mount_volume(img).unwrap();
    assert_eq!(fat.cluster_of_inode(1), Some(0));
    assert_eq!(fat.cluster_of_inode(12), Some(12));
    assert_eq!(fat.cluster_of_inode(1 << 40), None);
    let root = fat.get_root_cluster_number();
    let dir = fat.list_directory(0).unwrap();
    let entries = listing_entries(dir, true, root);
    let expected = vec![
        (1u64, EntryKind::Directory, ".".to_string()),
        (1u64, EntryKind::Directory, "..".to_string()),
        (9u64, EntryKind::Directory, "DOCS".to_string()),
        (12u64, EntryKind::RegularFile, "NOTE.TXT".to_string()),
        (1u64, EntryKind::RegularFile, "EMPTY.TXT".to_string()),
    ];
    assert_eq!(entries, expected);
    let sub = listing_entries(dir, false, root);
    assert_eq!(sub.len(), 3);
    assert_eq!(sub[0].2, "DOCS");
}

fn long_record(order: u8, units: &[u16; 13], checksum: u8) -> FatLongDirectoryEntry {
    let mut rec = [0u8; 32];
    long_entry(&mut rec, 0, order, units, checksum);
    FatLongDirectoryEntry::new(&rec)
}

#[test]
fn long_name_fragments_are_placed_by_number() {
    let short = entry_named(b"HELLO~1 TXT");
    let highest_first = vec![long_record(0x42, &fragment("xt"), 0), long_record(0x01, &fragment("Hello World.t"), 0)];
    let lowest_first = vec![long_record(0x01, &fragment("Hello World.t"), 0), long_record(0x42, &fragment("xt"), 0)];
    assert_eq!(FatDirectoryEntryContainer::parse_name(&short, &highest_first), "Hello World.txt");
    assert_eq!(FatDirectoryEntryContainer::parse_name(&short, &lowest_first), "Hello World.txt");
}

#[test]
fn long_name_missing_slot_ends_name() {
    let short = entry_named(b"HELLO~1 TXT");
    // Numbers 2 and 7: slot 1 is empty, so the name ends before it starts.
    let gap = vec![long_record(0x42, &fragment("xt"), 0), long_record(0x07, &fragment("Hello World.t"), 0)];
    assert_eq!(FatDirectoryEntryContainer::parse_name(&short, &gap), "");
    // A full 13-unit fragment without terminator gives its 13 characters.
    let full = vec![long_record(0x41, &fragment("ABCDEFGHIJKLM"), 0)];
    assert_eq!(FatDirectoryEntryContainer::parse_name(&short, &full), "ABCDEFGHIJKLM");
}

#[test]
fn first_sector_of_any_cluster() {
    let fat = Fat::mount_volume(hello_floppy()).unwrap();
    assert_eq!(first_sector_of_cluster(&fat, 2), 33);
    assert_eq!(first_sector_of_cluster(&fat, 10), 41);
    assert_eq!(first_sector_of_cluster(&fat, u32::MAX), 4294967293 + 33);
}
