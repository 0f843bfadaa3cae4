//! End-to-end behaviour of the storage stack: the in-memory filesystem, the
//! VFS manager, handles and descriptors.

use kernel::errors::KernelError;
use kernel::fd::FdTable;
use kernel::storage;
use kernel::tempfs::TempFs;
use kernel::vfs::{FsInstance, NodeType, VfsManager, FLAG_READ, FLAG_WRITE};

#[test]
fn write_then_read_round_trips() {
    let mut fs = TempFs::new("t");
    fs.create_file("/data.bin").unwrap();
    let payload = vec![1u8, 2, 3, 4, 5, 6, 7, 8, 9];
    let written = fs.write_at("/data.bin", 0, &payload).unwrap();
    assert_eq!(written, payload.len());
    let mut buf = vec![0u8; payload.len()];
    let read = fs.read_at("/data.bin", 0, &mut buf).unwrap();
    assert_eq!(read, payload.len());
    assert_eq!(buf, payload);
}

#[test]
fn sparse_write_zero_fills_gap() {
    let mut fs = TempFs::new("t");
    fs.create_file("/sparse").unwrap();
    fs.write_at("/sparse", 0, &[0xAAu8, 0xBB]).unwrap();
    // write at offset 10 of a 2-byte file: bytes 2..10 become zero
    fs.write_at("/sparse", 10, &[0xCCu8, 0xDD]).unwrap();
    let meta = fs.metadata("/sparse").unwrap();
    assert_eq!(meta.size, 12);
    let mut gap = vec![0xFFu8; 8];
    let read = fs.read_at("/sparse", 2, &mut gap).unwrap();
    assert_eq!(read, 8);
    assert_eq!(gap, vec![0u8; 8]);
    let mut tail = vec![0u8; 2];
    fs.read_at("/sparse", 10, &mut tail).unwrap();
    assert_eq!(tail, vec![0xCC, 0xDD]);
}

#[test]
fn read_past_end_returns_zero_bytes() {
    let mut fs = TempFs::new("t");
    fs.create_file("/short").unwrap();
    fs.write_at("/short", 0, &[1u8, 2, 3]).unwrap();
    let mut buf = vec![9u8; 4];
    let read = fs.read_at("/short", 3, &mut buf).unwrap();
    assert_eq!(read, 0);
    assert_eq!(buf, vec![9u8; 4]);
    let read = fs.read_at("/short", 100, &mut buf).unwrap();
    assert_eq!(read, 0);
}

#[test]
fn remove_guards_non_empty_directories() {
    let mut fs = TempFs::new("t");
    fs.create_directory("/d").unwrap();
    fs.create_file("/d/child").unwrap();
    assert_eq!(fs.remove("/d"), Err(KernelError::DirectoryNotEmpty));
    fs.remove("/d/child").unwrap();
    fs.remove("/d").unwrap();
    assert!(!fs.path_exists("/d"));
}

#[test]
fn remove_rejects_root_and_missing_paths() {
    let mut fs = TempFs::new("t");
    assert_eq!(fs.remove("/"), Err(KernelError::InvalidOperation));
    assert_eq!(fs.remove("/nope"), Err(KernelError::NotFound));
}

#[test]
fn create_directory_materializes_ancestors() {
    let mut fs = TempFs::new("t");
    fs.create_directory("/a/b/c").unwrap();
    assert!(fs.path_exists("/a"));
    assert!(fs.path_exists("/a/b"));
    assert!(fs.path_exists("/a/b/c"));
    // an existing node at the path, of any kind, is refused
    assert_eq!(fs.create_directory("/a/b/c"), Err(KernelError::AlreadyExists));
    fs.create_file("/a/b/c/f").unwrap();
    assert_eq!(fs.create_directory("/a/b/c/f"), Err(KernelError::AlreadyExists));
    // a file in the way of an ancestor is refused
    assert_eq!(fs.create_directory("/a/b/c/f/g"), Err(KernelError::NotADirectory));
}

#[test]
fn ensure_path_exists_is_idempotent_for_directories() {
    let mut fs = TempFs::new("t");
    fs.ensure_path_exists("/p/q").unwrap();
    fs.ensure_path_exists("/p/q").unwrap();
    assert!(fs.path_exists("/p/q"));
    fs.create_file("/p/f").unwrap();
    // an existing file at the path is not a directory
    assert_eq!(fs.ensure_path_exists("/p/f"), Err(KernelError::NotADirectory));
}

#[test]
fn create_file_errors() {
    let mut fs = TempFs::new("t");
    fs.create_file("/x").unwrap();
    assert_eq!(fs.create_file("/x"), Err(KernelError::AlreadyExists));
    assert_eq!(fs.create_file("//x"), Err(KernelError::AlreadyExists));
    // parent exists but is a file
    assert_eq!(fs.create_file("/x/y"), Err(KernelError::NotADirectory));
    // parent does not exist at all: the immediate parent is required
    assert_eq!(fs.create_file("/nodir/y"), Err(KernelError::NotFound));
    assert_eq!(fs.write_at("/missing", 0, &[1u8]), Err(KernelError::NotFound));
    assert_eq!(fs.write_at("/", 0, &[1u8]), Err(KernelError::NotAFile));
}

#[test]
fn open_nonexistent_fails_not_found_and_directory_is_not_a_file() {
    let fs = TempFs::new("t");
    match fs.open("/missing", false) {
        Err(KernelError::NotFound) => {},
        other => panic!("unexpected: {:?}", other),
    }
    match fs.open("/", false) {
        Err(KernelError::NotAFile) => {},
        other => panic!("unexpected: {:?}", other),
    }
}

#[test]
fn read_dir_lists_children_with_kinds() {
    let mut fs = TempFs::new("t");
    fs.create_directory("/dir").unwrap();
    fs.create_file("/dir/file.txt").unwrap();
    fs.create_directory("/dir/sub").unwrap();
    let entries = fs.read_dir("/dir").unwrap();
    assert_eq!(entries.len(), 2);
    let mut names: Vec<String> = entries.iter().map(|e| e.name.clone()).collect();
    names.sort();
    assert_eq!(names, vec!["file.txt".to_string(), "sub".to_string()]);
    for e in &entries {
        if e.name == "file.txt" {
            assert_eq!(e.node_type, NodeType::File);
        } else {
            assert_eq!(e.node_type, NodeType::Directory);
        }
    }
    assert!(matches!(fs.read_dir("/nope"), Err(KernelError::NotFound)));
    assert!(matches!(fs.read_dir("/dir/file.txt"), Err(KernelError::NotADirectory)));
}

#[test]
fn read_dir_lists_in_ascending_name_order() {
    let mut fs = TempFs::new("t");
    fs.create_directory("/dir").unwrap();
    fs.create_file("/dir/zeta").unwrap();
    fs.create_file("/dir/alpha").unwrap();
    fs.create_file("/dir/mu").unwrap();
    let entries = fs.read_dir("/dir").unwrap();
    let names: Vec<&str> = entries.iter().map(|e| e.name.as_str()).collect();
    assert_eq!(names, vec!["alpha", "mu", "zeta"]);
}

#[test]
fn direct_create_directory_skips_ancestors() {
    let mut fs = TempFs::new("t");
    fs.direct_create_directory("/deep/orphan").unwrap();
    assert!(fs.path_exists("/deep/orphan"));
    assert!(!fs.path_exists("/deep"));
    // idempotent
    fs.direct_create_directory("/deep/orphan").unwrap();
}

#[test]
fn tempfs_reports_name_and_space() {
    let fs = TempFs::new("scratch");
    assert_eq!(fs.name(), "scratch");
    assert_eq!(fs.total_space(), 10 * 1024 * 1024);
    assert_eq!(fs.available_space(), 10 * 1024 * 1024);
}

#[test]
fn rename_moves_a_file() {
    let mut fs = TempFs::new("t");
    fs.create_file("/old.txt").unwrap();
    fs.write_at("/old.txt", 0, b"payload").unwrap();
    fs.rename("/old.txt", "/new.txt").unwrap();
    assert!(!fs.path_exists("/old.txt"));
    let mut buf = vec![0u8; 7];
    let n = fs.read_at("/new.txt", 0, &mut buf).unwrap();
    assert_eq!(n, 7);
    assert_eq!(&buf, b"payload");
}

#[test]
fn rename_moves_a_directory_subtree() {
    let mut fs = TempFs::new("t");
    fs.create_directory("/a/b").unwrap();
    fs.create_file("/a/b/f").unwrap();
    fs.rename("/a", "/z").unwrap();
    assert!(!fs.path_exists("/a"));
    assert!(!fs.path_exists("/a/b/f"));
    assert!(fs.path_exists("/z"));
    assert!(fs.path_exists("/z/b"));
    assert!(fs.path_exists("/z/b/f"));
    let listing = fs.read_dir("/z/b").unwrap();
    assert_eq!(listing.len(), 1);
    assert_eq!(listing[0].name, "f");
}

#[test]
fn rename_refuses_bad_moves() {
    let mut fs = TempFs::new("t");
    fs.create_file("/x").unwrap();
    fs.create_file("/y").unwrap();
    assert_eq!(fs.rename("/", "/r"), Err(KernelError::InvalidOperation));
    assert_eq!(fs.rename("/missing", "/m"), Err(KernelError::NotFound));
    assert_eq!(fs.rename("/x", "/y"), Err(KernelError::AlreadyExists));
    // a node under the destination blocks the move too
    fs.create_directory("/d/sub").unwrap();
    assert_eq!(fs.rename("/x", "/d"), Err(KernelError::AlreadyExists));
}

#[test]
fn find_fs_picks_longest_matching_prefix() {
    let mut vfs = VfsManager::new();
    vfs.mount("/", FsInstance::Temp(TempFs::new("root"))).unwrap();
    vfs.mount("/data", FsInstance::Temp(TempFs::new("data"))).unwrap();
    assert_eq!(vfs.find_fs("/data/x").unwrap(), 1);
    assert_eq!(vfs.find_fs("/other").unwrap(), 0);
    assert_eq!(vfs.find_fs("/data").unwrap(), 1);
    // mounting order does not hide the longer prefix
    let mut vfs2 = VfsManager::new();
    vfs2.mount("/data", FsInstance::Temp(TempFs::new("data"))).unwrap();
    vfs2.mount("/", FsInstance::Temp(TempFs::new("root"))).unwrap();
    assert_eq!(vfs2.find_fs("/data/x").unwrap(), 0);
    assert_eq!(vfs2.find_fs("/other").unwrap(), 1);
}

#[test]
fn vfs_routes_operations_to_the_right_store() {
    let mut vfs = VfsManager::new();
    vfs.mount("/", FsInstance::Temp(TempFs::new("root"))).unwrap();
    vfs.mount("/data", FsInstance::Temp(TempFs::new("data"))).unwrap();
    // the store sees the full path, so its parent directory must exist in it
    vfs.create_directory("/data").unwrap();
    vfs.create_file("/data/f").unwrap();
    // the file lives in the /data store under its full path
    assert!(vfs.metadata("/data/f").is_ok());
    // and the root store does not see it
    let root_list = vfs.read_dir("/").unwrap();
    assert!(root_list.iter().all(|e| e.name != "data"));
    vfs.create_file("/nope").unwrap();
}

#[test]
fn vfs_without_matching_mount_fails_not_found() {
    let mut vfs = VfsManager::new();
    vfs.mount("/data", FsInstance::Temp(TempFs::new("data"))).unwrap();
    assert_eq!(vfs.create_file("/other/f"), Err(KernelError::NotFound));
    assert_eq!(vfs.remove("/other/f"), Err(KernelError::NotFound));
    assert_eq!(vfs.metadata("/other/f"), Err(KernelError::NotFound));
}

#[test]
fn vfs_rename_stays_within_one_store() {
    let mut vfs = VfsManager::new();
    vfs.mount("/", FsInstance::Temp(TempFs::new("root"))).unwrap();
    vfs.mount("/data", FsInstance::Temp(TempFs::new("data"))).unwrap();
    vfs.create_file("/a").unwrap();
    // both paths resolve to the root store: the store renames the node
    vfs.rename("/a", "/a2").unwrap();
    assert!(vfs.metadata("/a2").is_ok());
    assert_eq!(vfs.metadata("/a"), Err(KernelError::NotFound));
    // source and destination on different stores: not implemented
    assert_eq!(vfs.rename("/a2", "/data/a"), Err(KernelError::NotImplemented));
}

#[test]
fn vfs_unmount_removes_the_mount() {
    let mut vfs = VfsManager::new();
    vfs.mount("/", FsInstance::Temp(TempFs::new("root"))).unwrap();
    vfs.unmount("/").unwrap();
    assert_eq!(vfs.unmount("/"), Err(KernelError::NotFound));
    assert_eq!(vfs.metadata("/x"), Err(KernelError::NotFound));
}

#[test]
fn descriptor_round_trip() {
    let mut s = storage::init().unwrap();
    s.vfs.create_file("/test.txt").unwrap();
    let mut fds = FdTable::new();
    let fd = fds.open(&s.vfs, "/test.txt", FLAG_WRITE).unwrap();
    assert_eq!(fd, 3);
    let data = b"Hello, File System!";
    let written = fds.write(&mut s.vfs, fd, data).unwrap();
    assert_eq!(written, data.len());
    assert_eq!(fds.tell(fd).unwrap(), data.len() as u64);
    fds.close(fd).unwrap();
    assert_eq!(fds.close(fd), Err(KernelError::InvalidHandle));

    let fd2 = fds.open(&s.vfs, "/test.txt", FLAG_READ).unwrap();
    assert_eq!(fd2, 4, "descriptor numbers are never reused");
    let mut buf = vec![0u8; data.len()];
    let read = fds.read(&s.vfs, fd2, &mut buf).unwrap();
    assert_eq!(read, data.len());
    assert_eq!(&buf, data);
    fds.seek(fd2, 7).unwrap();
    assert_eq!(fds.tell(fd2).unwrap(), 7);
    let mut rest = vec![0u8; 4];
    fds.read(&s.vfs, fd2, &mut rest).unwrap();
    assert_eq!(&rest, b"File");
    fds.close(fd2).unwrap();
}

#[test]
fn descriptor_respects_open_flags() {
    let mut s = storage::init().unwrap();
    s.vfs.create_file("/f").unwrap();
    let mut fds = FdTable::new();
    let rd = fds.open(&s.vfs, "/f", FLAG_READ).unwrap();
    assert_eq!(fds.write(&mut s.vfs, rd, b"x"), Err(KernelError::InvalidOperation));
    let wr = fds.open(&s.vfs, "/f", FLAG_WRITE).unwrap();
    let mut buf = vec![0u8; 1];
    assert_eq!(fds.read(&s.vfs, wr, &mut buf), Err(KernelError::InvalidOperation));
}

#[test]
fn end_to_end_scenario() {
    // mount an in-memory filesystem, build a tree, write, list, remove
    let mut s = storage::init().unwrap();
    s.vfs.create_directory("/a/b/c").unwrap();
    assert!(s.vfs.metadata("/a").is_ok());
    assert!(s.vfs.metadata("/a/b").is_ok());
    assert!(s.vfs.metadata("/a/b/c").is_ok());
    s.vfs.create_file("/a/b/c/f.txt").unwrap();
    let twenty = [7u8; 20];
    let written = s.vfs.write_at("/a/b/c/f.txt", 0, &twenty).unwrap();
    assert_eq!(written, 20);
    let listing = s.vfs.read_dir("/a/b/c").unwrap();
    assert_eq!(listing.len(), 1);
    assert_eq!(listing[0].name, "f.txt");
    assert_eq!(listing[0].node_type, NodeType::File);
    assert_eq!(s.vfs.remove("/a/b/c"), Err(KernelError::DirectoryNotEmpty));
    s.vfs.remove("/a/b/c/f.txt").unwrap();
    s.vfs.remove("/a/b/c").unwrap();
    assert_eq!(s.vfs.metadata("/a/b/c"), Err(KernelError::NotFound));
}

#[test]
fn direct_file_io_helpers() {
    let mut s = storage::init().unwrap();
    s.vfs.create_file("/direct").unwrap();
    let n = storage::direct_write_file(&mut s.vfs, "/direct", b"abc").unwrap();
    assert_eq!(n, 3);
    let mut buf = vec![0u8; 3];
    let n = storage::direct_read_file(&s.vfs, "/direct", &mut buf).unwrap();
    assert_eq!(n, 3);
    assert_eq!(&buf, b"abc");
}

#[test]
fn handle_seek_and_position() {
    let mut s = storage::init().unwrap();
    s.vfs.create_file("/pos").unwrap();
    s.vfs.write_at("/pos", 0, b"0123456789").unwrap();
    let mut h = s.vfs.open("/pos", FLAG_READ).unwrap();
    h.seek(4).unwrap();
    let mut buf = vec![0u8; 3];
    let n = h.read(&s.vfs, &mut buf).unwrap();
    assert_eq!(n, 3);
    assert_eq!(&buf, b"456");
    assert_eq!(h.position, 7);
    h.close().unwrap();
}
