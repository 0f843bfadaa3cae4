//! The FAT driver against synthetic volumes built in memory.

use kernel::block_device::BlockDevice;
use kernel::errors::KernelError;
use kernel::fat::{
    fat12_entry, fat_type_of, FatBootSector, FatError, FatFileSystem, FatType,
};
use kernel::ramdisk::RamDisk;
use kernel::tempfs::TempFs;
use kernel::vfs::{FileHandle, FsInstance, NodeType, VfsManager, FLAG_READ, FLAG_WRITE};

#[test]
fn fat_type_classification_by_cluster_count() {
    assert_eq!(fat_type_of(4000), FatType::Fat12);
    assert_eq!(fat_type_of(50000), FatType::Fat16);
    assert_eq!(fat_type_of(100000), FatType::Fat32);
    // the exact thresholds
    assert_eq!(fat_type_of(4084), FatType::Fat12);
    assert_eq!(fat_type_of(4085), FatType::Fat16);
    assert_eq!(fat_type_of(65524), FatType::Fat16);
    assert_eq!(fat_type_of(65525), FatType::Fat32);
}

#[test]
fn fat12_entry_decode_even_and_odd() {
    // entries 0x123 (even slot) and 0x456 (odd slot) pack into three bytes
    // 0x23, 0x61, 0x45
    assert_eq!(fat12_entry(0x23, 0x61, true), 0x123);
    assert_eq!(fat12_entry(0x61, 0x45, false), 0x456);
}

/// Builds a tiny FAT12 volume: 16 sectors of 512 bytes, 1 reserved sector,
/// 1 FAT sector, 16 root entries (1 sector), data from sector 3.
fn synthetic_fat12() -> RamDisk {
    let mut sector0 = vec![0u8; 512];
    sector0[11] = 0;
    sector0[12] = 2; // 512 bytes per sector
    sector0[13] = 1; // 1 sector per cluster
    sector0[14] = 1; // 1 reserved sector
    sector0[16] = 1; // 1 FAT
    sector0[17] = 16; // 16 root entries
    sector0[19] = 16; // 16 total sectors
    sector0[22] = 1; // 1 sector per FAT
    sector0[66] = 0x29; // extended boot signature

    let mut fat = vec![0u8; 512];
    // clusters 2 and 3 hold the packed entries 0x123 and 0x456
    fat[3] = 0x23;
    fat[4] = 0x61;
    fat[5] = 0x45;
    // cluster 5 (the file below) ends its chain: entry 0xFFF in the odd slot
    // of the pair (4,5): bytes 6..9 cover clusters 4 and 5
    fat[7] = 0xF0;
    fat[8] = 0xFF;

    let mut root = vec![0u8; 512];
    // one 8.3 entry: HELLO.TXT, regular file, cluster 5, size 5
    let name: &[u8; 11] = b"HELLO   TXT";
    root[..11].copy_from_slice(name);
    root[11] = 0x20; // archive attribute
    root[26] = 5; // cluster low
    root[28] = 5; // size
    // a volume label that listings must skip
    let label: &[u8; 11] = b"MYVOLUME   ";
    root[32..43].copy_from_slice(label);
    root[43] = 0x08;

    let mut data5 = vec![0u8; 512];
    data5[..5].copy_from_slice(b"hello");

    let mut disk = RamDisk::with_size(16 * 512, 512).unwrap();
    disk.write_block(0, &sector0).unwrap();
    disk.write_block(1, &fat).unwrap();
    disk.write_block(2, &root).unwrap();
    // cluster 5 starts at sector 3 + (5 - 2) * 1 = 6
    disk.write_block(6, &data5).unwrap();
    disk
}

#[test]
fn fat12_mount_derives_parameters() {
    let fs = FatFileSystem::new(synthetic_fat12()).unwrap();
    assert_eq!(fs.fat_type(), FatType::Fat12);
    assert_eq!(fs.name(), "FAT12");
    // 16 sectors - 3 (reserved + fat + root) = 13 data clusters
    assert_eq!(fs.total_space(), 13 * 512);
    assert_eq!(fs.available_space(), 13 * 512 / 2);
}

#[test]
fn fat12_fat_entries_read_back() {
    let fs = FatFileSystem::new(synthetic_fat12()).unwrap();
    assert_eq!(fs.read_fat_entry(2).unwrap(), 0x123);
    assert_eq!(fs.read_fat_entry(3).unwrap(), 0x456);
}

#[test]
fn fat_root_listing_and_metadata() {
    let fs = FatFileSystem::new(synthetic_fat12()).unwrap();
    let listing = fs.read_dir("/").unwrap();
    assert_eq!(listing.len(), 1, "the volume label is skipped");
    assert_eq!(listing[0].name, "HELLO.TXT");
    assert_eq!(listing[0].node_type, NodeType::File);

    let meta = fs.metadata("/hello.txt").unwrap();
    assert_eq!(meta.node_type, NodeType::File);
    assert_eq!(meta.size, 5);

    let root_meta = fs.metadata("/").unwrap();
    assert_eq!(root_meta.node_type, NodeType::Directory);

    assert_eq!(fs.metadata("/nope.txt"), Err(KernelError::NotFound));
}

#[test]
fn fat_reads_file_content_through_the_chain() {
    let fs = FatFileSystem::new(synthetic_fat12()).unwrap();
    let mut buf = vec![0u8; 5];
    let n = fs.read_file(5, &mut buf).unwrap();
    assert_eq!(n, 5);
    assert_eq!(&buf, b"hello");
}

#[test]
fn fat_rejects_bad_signature() {
    let mut sector0 = vec![0u8; 512];
    sector0[66] = 0x28; // wrong extended boot signature
    let mut disk = RamDisk::with_size(4 * 512, 512).unwrap();
    disk.write_block(0, &sector0).unwrap();
    assert_eq!(
        FatFileSystem::new(disk).err().unwrap(),
        KernelError::InvalidData
    );
}

#[test]
fn fat_rejects_unreadable_device() {
    // a device with 256-byte blocks cannot serve 512-byte sectors
    let disk = RamDisk::with_size(1024, 256).unwrap();
    assert_eq!(FatFileSystem::new(disk).err().unwrap(), KernelError::ReadError);
}

#[test]
fn fat_mutations_are_not_implemented() {
    let mut fs = FatFileSystem::new(synthetic_fat12()).unwrap();
    assert_eq!(fs.create_file("/x"), Err(KernelError::NotImplemented));
    assert_eq!(fs.create_directory("/x"), Err(KernelError::NotImplemented));
    assert_eq!(fs.remove("/hello.txt"), Err(KernelError::NotImplemented));
    assert_eq!(fs.rename("/hello.txt", "/y"), Err(KernelError::NotImplemented));
    assert!(matches!(fs.open("/hello.txt", false), Err(KernelError::NotImplemented)));
}

#[test]
fn boot_sector_parse_reads_little_endian_fields() {
    let mut b = vec![0u8; 512];
    b[11] = 0x00;
    b[12] = 0x02; // 512
    b[13] = 4;
    b[14] = 2;
    b[16] = 2;
    b[17] = 0x40; // 64 root entries
    b[19] = 0x20; // 32 sectors
    b[22] = 3;
    b[44] = 7; // root cluster (FAT32 field)
    b[66] = 0x29;
    let parsed = FatBootSector::parse(&b);
    assert_eq!(parsed.bytes_per_sector, 512);
    assert_eq!(parsed.sectors_per_cluster, 4);
    assert_eq!(parsed.reserved_sectors, 2);
    assert_eq!(parsed.fat_count, 2);
    assert_eq!(parsed.root_entry_count, 64);
    assert_eq!(parsed.total_sectors_16, 32);
    assert_eq!(parsed.sectors_per_fat_16, 3);
    assert_eq!(parsed.root_cluster, 7);
    assert_eq!(parsed.boot_signature, 0x29);
}

#[test]
fn fat_errors_map_to_kernel_errors() {
    assert_eq!(KernelError::from(FatError::InvalidSignature), KernelError::InvalidData);
    assert_eq!(KernelError::from(FatError::UnsupportedFat), KernelError::UnsupportedFeature);
    assert_eq!(KernelError::from(FatError::ReadError), KernelError::ReadError);
    assert_eq!(KernelError::from(FatError::NotFound), KernelError::NotFound);
    assert_eq!(KernelError::from(FatError::NotADirectory), KernelError::NotADirectory);
}

#[test]
fn handle_falls_back_on_backends_without_offset_io() {
    // a FAT volume offers no offset reads or writes through a handle; the
    // handle degrades to the fixed two-byte stub read and a no-op write
    let mut vfs = VfsManager::new();
    vfs.mount("/", FsInstance::Fat(FatFileSystem::new(synthetic_fat12()).unwrap()))
        .unwrap();
    let mut h = FileHandle::new("/hello.txt", FLAG_READ);
    let mut buf = vec![0u8; 4];
    let n = h.read(&vfs, &mut buf).unwrap();
    assert_eq!(n, 2);
    assert_eq!(&buf[..2], b"Hi");
    assert_eq!(h.position, 2);
    let mut w = FileHandle::new("/hello.txt", FLAG_WRITE);
    let n = w.write(&mut vfs, b"ignored").unwrap();
    assert_eq!(n, 7);
    assert_eq!(w.position, 7);
    // opening through the manager reports the missing support
    assert!(matches!(
        vfs.open("/hello.txt", FLAG_READ),
        Err(KernelError::NotImplemented)
    ));
}

#[test]
fn handle_rejects_positions_past_the_address_space() {
    let mut vfs = VfsManager::new();
    vfs.mount("/", FsInstance::Temp(TempFs::new("t"))).unwrap();
    let mut h = FileHandle::new("/f", FLAG_READ);
    h.seek(u64::MAX).unwrap();
    let mut buf = vec![0u8; 2];
    assert_eq!(h.read(&vfs, &mut buf), Err(KernelError::InvalidParameter));
}

#[test]
fn ramdisk_checks_arguments() {
    assert!(RamDisk::with_size(0, 512).is_err());
    assert!(RamDisk::with_size(1024, 0).is_err());
    assert!(RamDisk::with_size(1000, 512).is_err());
    let mut disk = RamDisk::with_size(1024, 512).unwrap();
    assert_eq!(disk.block_size(), 512);
    assert_eq!(disk.block_count(), 2);
    let mut buf = vec![0u8; 511];
    assert!(disk.read_block(0, &mut buf).is_err());
    let mut buf = vec![0u8; 512];
    assert!(disk.read_block(2, &mut buf).is_err());
    assert!(disk.write_block(2, &buf).is_err());
    let pattern = vec![0x5Au8; 512];
    disk.write_block(1, &pattern).unwrap();
    let mut back = vec![0u8; 512];
    disk.read_block(1, &mut back).unwrap();
    assert_eq!(back, pattern);
}
