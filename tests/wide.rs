use lib_fat::fat_helper::{determine_fat_entry_offset, file_cluster_count, next_cluster, read_file_full};
use lib_fat::fat_struct::FatError;
use lib_fat::Fat;

fn put16(img: &mut [u8], off: usize, v: u16) {
    img[off] = (v & 0xFF) as u8;
    img[off + 1] = (v >> 8) as u8;
}

fn put32(img: &mut [u8], off: usize, v: u32) {
    put16(img, off, (v & 0xFFFF) as u16);
    put16(img, off + 2, (v >> 16) as u16);
}

fn short_entry(img: &mut [u8], off: usize, name: &[u8; 11], attr: u8, cluster: u32, size: u32) {
    img[off..off + 11].copy_from_slice(name);
    img[off + 11] = attr;
    put16(img, off + 20, (cluster >> 16) as u16);
    put16(img, off + 26, (cluster & 0xFFFF) as u16);
    put32(img, off + 28, size);
}

// FAT16: 8000 sectors of 512 bytes, one per cluster, one reserved sector,
// two FATs of 32 sectors, 512 root entries (32 sectors); data from sector 97.
const F16_ROOT: usize = 65 * 512;
const F16_DATA: usize = 97 * 512;

fn fat16_image() -> Vec<u8> {
    let mut img = vec![0u8; 8000 * 512];
    img[3..11].copy_from_slice(b"TESTFS16");
    put16(&mut img, 11, 512);
    img[13] = 1;
    put16(&mut img, 14, 1);
    img[16] = 2;
    put16(&mut img, 17, 512);
    put16(&mut img, 19, 8000);
    img[21] = 0xF8;
    put16(&mut img, 22, 32);
    img[510] = 0x55;
    img[511] = 0xAA;
    img
}

fn set_fat16(img: &mut [u8], c: usize, v: u16) {
    for fat in 0..2 {
        put16(img, 512 + fat * 32 * 512 + 2 * c, v);
    }
}

#[test]
fn fat16_zero_write_date_gives_month_zero() {
    let mut img = fat16_image();
    short_entry(&mut img, F16_ROOT, b"ZERO    DAT", 0x20, 2, 4);
    set_fat16(&mut img, 2, 0xFFFF);
    img[F16_DATA..F16_DATA + 4].copy_from_slice(b"data");
    let mut fat = Fat::mount_volume(img).unwrap();
    assert_eq!(fat.fat_type(), "FAT16");
    let dir = fat.list_directory(0).unwrap();
    assert_eq!(dir.len(), 1);
    let (year, month, day, hour, minute, second) = dir[0].get_write_time();
    assert_eq!((year, month, day, hour, minute, second), (1980, 0, 0, 0, 0, 0));
    assert_eq!(dir[0].get_last_accessed_date(), (1980, 0, 0));
    assert_eq!(dir[0].get_creation_time(), (1980, 0, 0, 0, 0, 0));
}

#[test]
fn fat16_chain_across_clusters() {
    let mut img = fat16_image();
    short_entry(&mut img, F16_ROOT, b"TWO     DAT", 0x20, 10, 700);
    set_fat16(&mut img, 10, 11);
    set_fat16(&mut img, 11, 0xFFF8);
    for i in 0..1024 {
        img[F16_DATA + 8 * 512 + i] = (i % 251) as u8;
    }
    let fat = Fat::mount_volume(img).unwrap();
    assert_eq!(file_cluster_count(&fat, 10), 2);
    assert_eq!(read_file_full(&fat, 10).len(), 1024);
    let data = fat.get_data(10, 500, 1000).unwrap();
    assert_eq!(data.len(), 200);
    assert_eq!(data[0], (500 % 251) as u8);
    assert_eq!(data[199], (699 % 251) as u8);
}

// FAT32: 66700 sectors of 512 bytes, one per cluster, 32 reserved sectors,
// two FATs of 520 sectors; data (cluster 2, the root) from sector 1072.
const F32_FAT: usize = 32 * 512;
const F32_FAT_LEN: usize = 520 * 512;
const F32_DATA: usize = 1072 * 512;

fn fat32_image(flags: u16) -> Vec<u8> {
    let mut img = vec![0u8; 66700 * 512];
    img[3..11].copy_from_slice(b"TESTFS32");
    put16(&mut img, 11, 512);
    img[13] = 1;
    put16(&mut img, 14, 32);
    img[16] = 2;
    img[21] = 0xF8;
    put32(&mut img, 32, 66700);
    put32(&mut img, 36, 520);
    put16(&mut img, 40, flags);
    put32(&mut img, 44, 2);
    img[510] = 0x55;
    img[511] = 0xAA;
    img
}

fn set_fat32(img: &mut [u8], fat: usize, c: usize, v: u32) {
    put32(img, F32_FAT + fat * F32_FAT_LEN + 4 * c, v);
}

#[test]
fn fat32_reads_active_fat_when_mirroring_is_off() {
    let mut img = fat32_image(0x0081);
    // Second FAT: root is cluster 2 alone, the file runs 3 -> 4.
    set_fat32(&mut img, 1, 2, 0x0FFF_FFFF);
    set_fat32(&mut img, 1, 3, 4);
    set_fat32(&mut img, 1, 4, 0x0FFF_FFFF);
    // First FAT, deliberately wrong.
    set_fat32(&mut img, 0, 2, 9);
    set_fat32(&mut img, 0, 3, 0x0FFF_FFFF);
    set_fat32(&mut img, 0, 9, 0x0FFF_FFFF);
    short_entry(&mut img, F32_DATA, b"BIG     TXT", 0x20, 3, 600);
    img[F32_DATA + 512..F32_DATA + 1024].copy_from_slice(&[b'a'; 512]);
    img[F32_DATA + 1024..F32_DATA + 1536].copy_from_slice(&[b'b'; 512]);
    let mut fat = Fat::mount_volume(img).unwrap();
    assert!(fat.is_fat32());
    assert_eq!(fat.fat_type(), "FAT32");
    assert_eq!(fat.get_root_cluster_number(), 2);
    assert_eq!(determine_fat_entry_offset(&fat, 3), (32 + 520, 12));
    assert_eq!(next_cluster(&fat, 3), Some(4));
    assert_eq!(file_cluster_count(&fat, 2), 1);
    assert_eq!(file_cluster_count(&fat, 3), 2);
    {
        let dir = fat.list_directory(2).unwrap();
        assert_eq!(dir.len(), 1);
        assert_eq!(dir[0].get_name(), "BIG.TXT");
        assert_eq!(dir[0].cluster_count(true), 2);
    }
    let data = fat.get_data(3, 510, 4).unwrap();
    assert_eq!(data, b"aabb".to_vec());
    assert_eq!(fat.get_data(3, 0, 1000).unwrap().len(), 600);
}

#[test]
fn fat32_mirrored_reads_first_fat() {
    let mut img = fat32_image(0x0001);
    set_fat32(&mut img, 0, 2, 0x0FFF_FFFF);
    set_fat32(&mut img, 0, 3, 0x0FFF_FFFF);
    set_fat32(&mut img, 1, 3, 4);
    let fat = Fat::mount_volume(img).unwrap();
    assert_eq!(determine_fat_entry_offset(&fat, 3), (32, 12));
    assert_eq!(file_cluster_count(&fat, 3), 1);
}

#[test]
fn fat32_reserved_high_bits_are_ignored() {
    let mut img = fat32_image(0);
    set_fat32(&mut img, 0, 2, 0xF000_0005);
    set_fat32(&mut img, 0, 5, 0xFFFF_FFFF);
    let fat = Fat::mount_volume(img).unwrap();
    assert_eq!(next_cluster(&fat, 2), Some(5));
    assert_eq!(file_cluster_count(&fat, 2), 2);
}

#[test]
fn fat32_layout_with_few_clusters_is_inconsistent() {
    let mut img = fat32_image(0);
    put32(&mut img, 32, 5000);
    img.truncate(5000 * 512);
    assert_eq!(Fat::mount_volume(img).err(), Some(FatError::GeometryInconsistent));
}
