//! Virtual-filesystem value types: node kinds, metadata, directory entries,
//! permission bits and open flags, plus the mount table that resolves a path
//! to its backing store and dispatches every filesystem operation.

use vstd::prelude::*;
use crate::errors::KernelError;

verus! {

// Permission bits.  The owner/group/other read-write-execute layout is
// packed into a `u8`, so the "other read" bit is shifted out and the mask
// values below are what the stored bitmask actually holds.
pub const PERM_READ: u8 = 0b0000_0100;
pub const PERM_WRITE: u8 = 0b0000_0010;
pub const PERM_EXECUTE: u8 = 0b0000_0001;
pub const PERM_OWNER_ALL: u8 = 0b0000_0111;
pub const PERM_GROUP_READ: u8 = 0b0010_0000;
pub const PERM_GROUP_WRITE: u8 = 0b0001_0000;
pub const PERM_GROUP_EXEC: u8 = 0b0000_1000;
pub const PERM_GROUP_ALL: u8 = 0b0011_1000;
pub const PERM_OTHERS_READ: u8 = 0b0000_0000;
pub const PERM_OTHERS_WRITE: u8 = 0b1000_0000;
pub const PERM_OTHERS_EXEC: u8 = 0b0100_0000;
pub const PERM_OTHERS_ALL: u8 = 0b1100_0000;
pub const PERM_ALL: u8 = 0b1111_1111;

// File-open flags.
pub const FLAG_READ: u8 = 0b0000_0001;
pub const FLAG_WRITE: u8 = 0b0000_0010;
pub const FLAG_APPEND: u8 = 0b0000_0100;
pub const FLAG_CREATE: u8 = 0b0000_1000;
pub const FLAG_TRUNCATE: u8 = 0b0001_0000;

/// Kinds of filesystem nodes.
#[derive(Debug, Clone, Copy, PartialEq, Eq, Structural)]
pub enum NodeType {
    File,
    Directory,
    SymbolicLink,
    BlockDevice,
    CharacterDevice,
    FIFO,
    Socket,
}

/// Per-node metadata, copied out on every query.
#[derive(Debug, Clone, Copy, PartialEq, Eq, Structural)]
pub struct Metadata {
    pub node_type: NodeType,
    pub size: u64,
    pub permissions: u8,
    pub created_at: u64,
    pub modified_at: u64,
    pub accessed_at: u64,
}

impl Metadata {
    /// Fresh metadata for a newly created regular file.
    pub fn new_file() -> (r: Metadata)
        ensures
            r == Metadata::file_spec(),
    {
        Metadata {
            node_type: NodeType::File,
            size: 0,
            permissions: 0b0010_0111,
            created_at: 0,
            modified_at: 0,
            accessed_at: 0,
        }
    }

    /// Fresh metadata for a newly created directory.
    pub fn new_directory() -> (r: Metadata)
        ensures
            r == Metadata::directory_spec(),
    {
        Metadata {
            node_type: NodeType::Directory,
            size: 0,
            permissions: 0b0111_1111,
            created_at: 0,
            modified_at: 0,
            accessed_at: 0,
        }
    }

    /// The metadata `new_file` returns.
    pub open spec fn file_spec() -> Metadata {
        Metadata {
            node_type: NodeType::File,
            size: 0,
            permissions: 0b0010_0111,
            created_at: 0,
            modified_at: 0,
            accessed_at: 0,
        }
    }

    /// The metadata `new_directory` returns.
    pub open spec fn directory_spec() -> Metadata {
        Metadata {
            node_type: NodeType::Directory,
            size: 0,
            permissions: 0b0111_1111,
            created_at: 0,
            modified_at: 0,
            accessed_at: 0,
        }
    }
}

/// One result row of a directory listing: a value, not a live reference
/// into the backing store.
#[derive(Debug, Clone)]
pub struct DirEntry {
    pub name: String,
    pub node_type: NodeType,
    pub inode: usize,
}

impl DirEntry {
    /// Builds a listing row from a name, a node kind and an inode number.
    pub fn new(name: &str, node_type: NodeType, inode: usize) -> (r: DirEntry)
        ensures
            r.name@ == name@,
            r.node_type == node_type,
            r.inode == inode,
    {
        DirEntry { name: name.to_owned(), node_type, inode }
    }
}

/// An open file: the canonical path it names, the open flags, and the
/// current read/write position.  Operations on a handle go through the
/// manager that owns the backing stores.
#[derive(Debug, Clone)]
pub struct FileHandle {
    pub path: String,
    pub position: u64,
    pub flags: u8,
}

impl FileHandle {
    /// Builds a handle at position zero.
    pub fn new(path: &str, flags: u8) -> (r: FileHandle)
        ensures
            r.path@ == path@,
            r.position == 0,
            r.flags == flags,
    {
        FileHandle { path: path.to_owned(), position: 0, flags }
    }

    /// Moves the position to `position`.
    pub fn seek(&mut self, position: u64) -> (r: Result<(), KernelError>)
        ensures
            r is Ok,
            final(self).position == position,
            final(self).path == old(self).path,
            final(self).flags == old(self).flags,
    {
        self.position = position;
        Ok(())
    }

    /// Releases the handle; nothing is buffered at this layer, so there is
    /// nothing to flush.
    pub fn close(&mut self) -> (r: Result<(), KernelError>)
        ensures
            r is Ok,
            *final(self) == *old(self),
    {
        Ok(())
    }

    /// Reads from the file at the current position and advances it by the
    /// bytes actually read.
    pub fn read(&mut self, vfs: &VfsManager, buffer: &mut Vec<u8>)
        -> (r: Result<usize, KernelError>)
        requires
            vfs.wf(),
        ensures
            handle_read_post(vfs.mounts(), *old(self), *final(self), old(buffer)@,
                final(buffer)@, r),
    {
        if self.flags & FLAG_READ == 0 {
            return Err(KernelError::InvalidOperation);
        }
        if self.position > u64::MAX - (buffer.len() as u64) {
            return Err(KernelError::InvalidParameter);
        }
        let res = vfs.read_at(self.path.as_str(), self.position, buffer);
        match res {
            Ok(bytes_read) => {
                proof {
                    let ms = vfs.mounts();
                    let p = old(self).path@;
                    assert(!no_mount_for(ms, p));
                    let i = choose|i: int| is_best_mount(ms, p, i);
                    assert(is_best_mount(ms, p, i));
                    match ms[i].fs {
                        FsInstance::Temp(t) => {
                            assert(bytes_read <= old(buffer)@.len());
                        },
                        FsInstance::Fat(_) => {
                            assert(false);
                        },
                    }
                }
                self.position = self.position + bytes_read as u64;
                Ok(bytes_read)
            },
            Err(KernelError::NotImplemented) => {
                // degradation path for backends without offset reads
                proof {
                    let ms = vfs.mounts();
                    let p = old(self).path@;
                    assert(!no_mount_for(ms, p));
                    let i = choose|i: int| is_best_mount(ms, p, i);
                    assert(is_best_mount(ms, p, i));
                    match ms[i].fs {
                        FsInstance::Temp(t) => {
                            assert(false);
                        },
                        FsInstance::Fat(_) => {},
                    }
                    assert(buffer@ == old(buffer)@);
                }
                if buffer.len() > 0 {
                    buffer[0] = 72;
                }
                if buffer.len() > 1 {
                    buffer[1] = 105;
                }
                let bytes_read: usize = if buffer.len() < 2 { buffer.len() } else { 2 };
                self.position = self.position + bytes_read as u64;
                proof {
                    assert(final(buffer)@ =~= stub_read_bytes(old(buffer)@));
                }
                Ok(bytes_read)
            },
            Err(e) => Err(e),
        }
    }

    /// Writes at the current position and advances it by the bytes actually
    /// written.
    pub fn write(&mut self, vfs: &mut VfsManager, buffer: &[u8])
        -> (r: Result<usize, KernelError>)
        requires
            old(vfs).wf(),
        ensures
            final(vfs).wf(),
            handle_write_post(old(vfs).mounts(), final(vfs).mounts(), *old(self),
                *final(self), buffer@, r),
    {
        if self.flags & FLAG_WRITE == 0 {
            return Err(KernelError::InvalidOperation);
        }
        if self.position > (usize::MAX as u64) - (buffer.len() as u64) {
            return Err(KernelError::InvalidParameter);
        }
        let res = vfs.write_at(self.path.as_str(), self.position, buffer);
        match res {
            Ok(bytes_written) => {
                proof {
                    let ms = old(vfs).mounts();
                    let p = old(self).path@;
                    assert(!no_mount_for(ms, p));
                    let i = choose|i: int| is_best_mount(ms, p, i);
                    assert(is_best_mount(ms, p, i));
                    match ms[i].fs {
                        FsInstance::Temp(t) => {
                            assert(bytes_written <= buffer@.len());
                        },
                        FsInstance::Fat(_) => {
                            assert(false);
                        },
                    }
                }
                self.position = self.position + bytes_written as u64;
                Ok(bytes_written)
            },
            Err(KernelError::NotImplemented) => {
                // degradation path for backends without offset writes
                self.position = self.position + buffer.len() as u64;
                Ok(buffer.len())
            },
            Err(e) => Err(e),
        }
    }
}

/// A mounted backing store: an in-memory filesystem, or the read-only FAT
/// driver over a RAM-backed block device.
pub enum FsInstance {
    Temp(crate::tempfs::TempFs),
    Fat(crate::fat::FatFileSystem<crate::ramdisk::RamDisk>),
}

impl FsInstance {
    /// A usable store: whichever backend it is, its invariant holds.
    pub open spec fn wf(&self) -> bool {
        match self {
            FsInstance::Temp(t) => t.wf(),
            FsInstance::Fat(f) => f.wf(),
        }
    }
}

impl FsInstance {
    /// Creates a file on whichever backend this is; the FAT driver is
    /// read-only and refuses.
    pub fn create_file(&mut self, path: &str) -> (r: Result<(), KernelError>)
        requires
            old(self).wf(),
        ensures
            final(self).wf(),
            (*old(self)) is Temp <==> (*final(self)) is Temp,
            match *old(self) {
                FsInstance::Temp(t) => (*final(self)) is Temp
                    && crate::tempfs::create_file_post(t.view(),
                        final(self)->Temp_0.view(), path@, r),
                FsInstance::Fat(_) => *final(self) == *old(self)
                    && r == Result::<(), KernelError>::Err(KernelError::NotImplemented),
            },
    {
        match self {
            FsInstance::Temp(t) => t.create_file(path),
            FsInstance::Fat(f) => f.create_file(path),
        }
    }

    /// Creates a directory, ancestors included, on this backend.
    pub fn create_directory(&mut self, path: &str) -> (r: Result<(), KernelError>)
        requires
            old(self).wf(),
        ensures
            final(self).wf(),
            (*old(self)) is Temp <==> (*final(self)) is Temp,
            match *old(self) {
                FsInstance::Temp(t) => (*final(self)) is Temp
                    && crate::tempfs::create_dir_post(t.view(),
                        final(self)->Temp_0.view(), path@, r),
                FsInstance::Fat(_) => *final(self) == *old(self)
                    && r == Result::<(), KernelError>::Err(KernelError::NotImplemented),
            },
    {
        match self {
            FsInstance::Temp(t) => t.create_directory(path),
            FsInstance::Fat(f) => f.create_directory(path),
        }
    }

    /// Removes a file or empty directory on this backend.
    pub fn remove(&mut self, path: &str) -> (r: Result<(), KernelError>)
        requires
            old(self).wf(),
        ensures
            final(self).wf(),
            (*old(self)) is Temp <==> (*final(self)) is Temp,
            match *old(self) {
                FsInstance::Temp(t) => (*final(self)) is Temp
                    && crate::tempfs::remove_post(t.view(),
                        final(self)->Temp_0.view(), path@, r),
                FsInstance::Fat(_) => *final(self) == *old(self)
                    && r == Result::<(), KernelError>::Err(KernelError::NotImplemented),
            },
    {
        match self {
            FsInstance::Temp(t) => t.remove(path),
            FsInstance::Fat(f) => f.remove(path),
        }
    }

    /// Renames a node (a subtree, for a directory) on this backend; the
    /// read-only FAT driver refuses.
    pub fn rename(&mut self, from: &str, to: &str) -> (r: Result<(), KernelError>)
        requires
            old(self).wf(),
        ensures
            final(self).wf(),
            (*old(self)) is Temp <==> (*final(self)) is Temp,
            match *old(self) {
                FsInstance::Temp(t) => (*final(self)) is Temp
                    && crate::tempfs::rename_post(t.view(),
                        final(self)->Temp_0.view(), from@, to@, r),
                FsInstance::Fat(_) => *final(self) == *old(self)
                    && r == Result::<(), KernelError>::Err(KernelError::NotImplemented),
            },
    {
        match self {
            FsInstance::Temp(t) => t.rename(from, to),
            FsInstance::Fat(f) => f.rename(from, to),
        }
    }

    /// Opens a file on this backend.
    pub fn open(&self, path: &str, write: bool) -> (r: Result<FileHandle, KernelError>)
        requires
            self.wf(),
        ensures
            match self {
                FsInstance::Temp(t) => crate::tempfs::open_post(t.view(), path@, write, r),
                FsInstance::Fat(_) => r is Err
                    && r->Err_0 == KernelError::NotImplemented,
            },
    {
        match self {
            FsInstance::Temp(t) => t.open(path, write),
            FsInstance::Fat(f) => f.open(path, write),
        }
    }

    /// Queries metadata on this backend.
    pub fn metadata(&self, path: &str) -> (r: Result<Metadata, KernelError>)
        requires
            self.wf(),
        ensures
            match self {
                FsInstance::Temp(t) => crate::tempfs::metadata_post(t.view(), path@, r),
                FsInstance::Fat(f) => match r {
                    Ok(m) => exists|ev: crate::fat::FatDirEntryView|
                        #[trigger] crate::fat::fat_path_entry(f.disk(), f.boot_bytes(),
                            path@, ev) && m == crate::fat::fat_metadata_spec(ev),
                    Err(e) => (e == KernelError::NotFound
                        || e == KernelError::NotADirectory
                        || e == KernelError::ReadError || e == KernelError::InvalidData)
                        && crate::fat::fat_path_err(f.disk(), f.boot_bytes(), path@, e),
                },
            },
    {
        match self {
            FsInstance::Temp(t) => t.metadata(path),
            FsInstance::Fat(f) => f.metadata(path),
        }
    }

    /// Lists a directory on this backend.
    pub fn read_dir(&self, path: &str) -> (r: Result<Vec<DirEntry>, KernelError>)
        requires
            self.wf(),
        ensures
            match self {
                FsInstance::Temp(t) => crate::tempfs::read_dir_post(t.view(), path@, r),
                FsInstance::Fat(f) => match r {
                    Ok(v) => exists|ev: crate::fat::FatDirEntryView,
                        listing: Seq<crate::fat::FatDirEntryView>|
                        {
                            &&& crate::fat::fat_path_entry(f.disk(), f.boot_bytes(),
                                path@, ev)
                            &&& ev.attr & 0x10 != 0
                            &&& #[trigger] crate::fat::fat_dir_listing(f.disk(),
                                f.boot_bytes(), path@, ev, listing)
                            &&& crate::fat::dir_rows(v@)
                                == crate::fat::visible_rows(listing)
                        },
                    Err(e) => (e == KernelError::NotFound
                        || e == KernelError::NotADirectory
                        || e == KernelError::ReadError || e == KernelError::InvalidData)
                        && crate::fat::fat_read_dir_err(f.disk(), f.boot_bytes(),
                            path@, e),
                },
            },
    {
        match self {
            FsInstance::Temp(t) => t.read_dir(path),
            FsInstance::Fat(f) => f.read_dir(path),
        }
    }

    /// Reads at an offset on this backend; the FAT driver does not offer
    /// offset reads through this interface.
    pub fn read_at(&self, path: &str, offset: u64, buffer: &mut Vec<u8>)
        -> (r: Result<usize, KernelError>)
        requires
            self.wf(),
        ensures
            final(buffer)@.len() == old(buffer)@.len(),
            match self {
                FsInstance::Temp(t) => crate::tempfs::read_at_post(t.view(), path@,
                    offset as nat, old(buffer)@, final(buffer)@, r),
                FsInstance::Fat(_) => r is Err
                    && r->Err_0 == KernelError::NotImplemented
                    && final(buffer)@ == old(buffer)@,
            },
    {
        match self {
            FsInstance::Temp(t) => t.read_at(path, offset, buffer),
            FsInstance::Fat(_) => Err(KernelError::NotImplemented),
        }
    }

    /// Writes at an offset on this backend; the FAT driver does not offer
    /// offset writes through this interface.
    pub fn write_at(&mut self, path: &str, offset: u64, buffer: &[u8])
        -> (r: Result<usize, KernelError>)
        requires
            old(self).wf(),
            offset + buffer@.len() <= usize::MAX,
        ensures
            final(self).wf(),
            (*old(self)) is Temp <==> (*final(self)) is Temp,
            match *old(self) {
                FsInstance::Temp(t) => (*final(self)) is Temp
                    && crate::tempfs::write_at_post(t.view(),
                        final(self)->Temp_0.view(), path@, offset as nat, buffer@, r),
                FsInstance::Fat(_) => *final(self) == *old(self)
                    && r == Result::<usize, KernelError>::Err(
                        KernelError::NotImplemented),
            },
    {
        match self {
            FsInstance::Temp(t) => t.write_at(path, offset, buffer),
            FsInstance::Fat(_) => Err(KernelError::NotImplemented),
        }
    }

    /// The backend's display name.
    pub fn name(&self) -> (r: &str)
        requires
            self.wf(),
        ensures
            self is Temp ==> r@ == self->Temp_0.name_spec(),
    {
        match self {
            FsInstance::Temp(t) => t.name(),
            FsInstance::Fat(f) => f.name(),
        }
    }

    /// Total capacity of the backend.
    pub fn total_space(&self) -> (r: u64)
        requires
            self.wf(),
        ensures
            self is Temp ==> r == 10485760u64,
    {
        match self {
            FsInstance::Temp(t) => t.total_space(),
            FsInstance::Fat(f) => f.total_space(),
        }
    }

    /// Available capacity of the backend.
    pub fn available_space(&self) -> (r: u64)
        requires
            self.wf(),
        ensures
            self is Temp ==> r == 10485760u64,
    {
        match self {
            FsInstance::Temp(t) => t.available_space(),
            FsInstance::Fat(f) => f.available_space(),
        }
    }
}

/// One mount: a path prefix and the store serving it.
pub struct MountPoint {
    pub path: String,
    pub fs: FsInstance,
}

/// Whether mount `i` is the one serving `path`: its mount path is the
/// longest prefix of `path` among all mounts, and the first such mount
/// wins a tie.
pub open spec fn is_best_mount(ms: Seq<MountPoint>, path: Seq<char>, i: int) -> bool {
    &&& 0 <= i < ms.len()
    &&& ms[i].path@.is_prefix_of(path)
    &&& forall|j: int|
        0 <= j < ms.len() && (#[trigger] ms[j].path@).is_prefix_of(path)
            ==> ms[j].path@.len() <= ms[i].path@.len()
                && (ms[j].path@.len() == ms[i].path@.len() ==> i <= j)
}

/// The virtual-filesystem manager: an ordered list of mount points, each
/// owning its backing store.  Every operation resolves the path to the
/// best-matching mount and forwards to that store.
pub struct VfsManager {
    mounts: Vec<MountPoint>,
}

impl VfsManager {
    /// The mount table.
    pub closed spec fn mounts(&self) -> Seq<MountPoint> {
        self.mounts@
    }

    /// Every mounted store is well formed.
    pub open spec fn wf(&self) -> bool {
        forall|j: int| 0 <= j < self.mounts().len() ==> (#[trigger] self.mounts()[j]).fs.wf()
    }

    /// A manager with no mounts.
    pub fn new() -> (r: VfsManager)
        ensures
            r.wf(),
            r.mounts() =~= Seq::<MountPoint>::empty(),
    {
        VfsManager { mounts: Vec::new() }
    }

    /// Mounts a store at a path: the store's mount hook runs, then the pair
    /// is appended to the table.
    pub fn mount(&mut self, path: &str, fs: FsInstance) -> (r: Result<(), KernelError>)
        requires
            old(self).wf(),
            fs.wf(),
        ensures
            final(self).wf(),
            r is Ok,
            final(self).mounts().len() == old(self).mounts().len() + 1,
            forall|j: int| 0 <= j < old(self).mounts().len()
                ==> #[trigger] final(self).mounts()[j] == old(self).mounts()[j],
            final(self).mounts().last().path@ == path@,
            final(self).mounts().last().fs.wf(),
            final(self).mounts().last().fs == fs,
    {
        let mut fs = fs;
        match &mut fs {
            FsInstance::Temp(t) => {
                let _unused = t.mount();
            },
            FsInstance::Fat(f) => {
                let _unused = f.mount();
            },
        }
        self.mounts.push(MountPoint { path: path.to_owned(), fs });
        Ok(())
    }

    /// Unmounts the first mount whose path equals `path` exactly.
    pub fn unmount(&mut self, path: &str) -> (r: Result<(), KernelError>)
        requires
            old(self).wf(),
        ensures
            final(self).wf(),
            match r {
                Ok(_) => exists|j: int|
                    {
                        &&& 0 <= j < old(self).mounts().len()
                        &&& (#[trigger] old(self).mounts()[j]).path@ == path@
                        &&& final(self).mounts()
                            == old(self).mounts().remove(j)
                    },
                Err(e) => e == KernelError::NotFound
                    && final(self).mounts() == old(self).mounts()
                    && forall|j: int| 0 <= j < old(self).mounts().len()
                        ==> (#[trigger] old(self).mounts()[j]).path@ != path@,
            },
    {
        let n = self.mounts.len();
        let mut i: usize = 0;
        while i < n
            invariant
                self.wf(),
                *self == *old(self),
                n == self.mounts().len(),
                i <= n,
                forall|j: int| 0 <= j < i
                    ==> (#[trigger] self.mounts()[j]).path@ != path@,
            decreases n - i,
        {
            if crate::strutil::str_eq(self.mounts[i].path.as_str(), path) {
                let mut removed = self.mounts.remove(i);
                match &mut removed.fs {
                    FsInstance::Temp(t) => {
                        let _unused = t.unmount();
                    },
                    FsInstance::Fat(f) => {
                        let _unused = f.unmount();
                    },
                }
                proof {
                    assert forall|a: int| 0 <= a < self.mounts().len()
                        implies (#[trigger] self.mounts()[a]).fs.wf() by {
                        if a < i as int {
                            assert(self.mounts()[a] == old(self).mounts()[a]);
                        } else {
                            assert(self.mounts()[a] == old(self).mounts()[a + 1]);
                        }
                    }
                }
                return Ok(());
            }
            i = i + 1;
        }
        Err(KernelError::NotFound)
    }

    /// Resolves a path to the mount that serves it: the mount with the
    /// longest path prefixing the path, the earliest of equals.
    pub fn find_fs(&self, path: &str) -> (r: Result<usize, KernelError>)
        ensures
            match r {
                Ok(i) => is_best_mount(self.mounts(), path@, i as int),
                Err(e) => e == KernelError::NotFound
                    && forall|j: int| 0 <= j < self.mounts().len()
                        ==> !(#[trigger] self.mounts()[j].path@).is_prefix_of(path@),
            },
    {
        let n = self.mounts.len();
        let mut best: Option<usize> = None;
        let mut i: usize = 0;
        while i < n
            invariant
                n == self.mounts().len(),
                i <= n,
                match best {
                    Some(b) => {
                        &&& b < i
                        &&& self.mounts()[b as int].path@.is_prefix_of(path@)
                        &&& forall|j: int|
                            0 <= j < i && (#[trigger] self.mounts()[j].path@)
                                .is_prefix_of(path@)
                                ==> self.mounts()[j].path@.len()
                                    <= self.mounts()[b as int].path@.len()
                                    && (self.mounts()[j].path@.len()
                                        == self.mounts()[b as int].path@.len()
                                        ==> b <= j)
                    },
                    None => forall|j: int| 0 <= j < i
                        ==> !(#[trigger] self.mounts()[j].path@).is_prefix_of(path@),
                },
            decreases n - i,
        {
            if crate::strutil::str_is_prefix(self.mounts[i].path.as_str(), path) {
                let better = match best {
                    None => true,
                    Some(b) => {
                        let bl = self.mounts[b].path.as_str().unicode_len();
                        let il = self.mounts[i].path.as_str().unicode_len();
                        il > bl
                    },
                };
                if better {
                    best = Some(i);
                }
            }
            i = i + 1;
        }
        match best {
            Some(b) => Ok(b),
            None => Err(KernelError::NotFound),
        }
    }

    /// Opens a file through the mount that serves the path.
    pub fn open(&self, path: &str, flags: u8) -> (r: Result<FileHandle, KernelError>)
        requires
            self.wf(),
        ensures
            no_mount_for(self.mounts(), path@)
                || exists|i: int| is_best_mount(self.mounts(), path@, i),
            no_mount_for(self.mounts(), path@)
                ==> r == Result::<FileHandle, KernelError>::Err(KernelError::NotFound),
            open_post_for(self.mounts(), path@, flags, r),
            forall|i: int| is_best_mount(self.mounts(), path@, i)
                ==> match #[trigger] self.mounts()[i].fs {
                    FsInstance::Temp(t) => crate::tempfs::open_post(t.view(), path@,
                        flags & FLAG_WRITE != 0, r),
                    FsInstance::Fat(_) => r is Err
                        && r->Err_0 == KernelError::NotImplemented,
                },
    {
        let i = match self.find_fs(path) {
            Ok(i) => i,
            Err(e) => {
                return Err(e);
            },
        };
        let write = flags & FLAG_WRITE != 0;
        proof {
            lemma_best_mount_unique(self.mounts(), path@);
        }
        self.mounts[i].fs.open(path, write)
    }

    /// Creates a file through the mount that serves the path.
    pub fn create_file(&mut self, path: &str) -> (r: Result<(), KernelError>)
        requires
            old(self).wf(),
        ensures
            final(self).wf(),
            final(self).mounts().len() == old(self).mounts().len(),
            no_mount_for(old(self).mounts(), path@)
                || exists|i: int| is_best_mount(old(self).mounts(), path@, i),
            no_mount_for(old(self).mounts(), path@)
                ==> r == Result::<(), KernelError>::Err(KernelError::NotFound)
                    && final(self).mounts() == old(self).mounts(),
            forall|i: int| is_best_mount(old(self).mounts(), path@, i) ==> {
                &&& forall|j: int|
                    0 <= j < old(self).mounts().len() && j != i
                        ==> #[trigger] final(self).mounts()[j] == old(self).mounts()[j]
                &&& final(self).mounts()[i].path == old(self).mounts()[i].path
                &&& match #[trigger] old(self).mounts()[i].fs {
                    FsInstance::Temp(t) => final(self).mounts()[i].fs is Temp
                        && crate::tempfs::create_file_post(t.view(),
                            final(self).mounts()[i].fs->Temp_0.view(), path@, r),
                    FsInstance::Fat(_) => final(self).mounts()[i].fs
                        == old(self).mounts()[i].fs
                        && r == Result::<(), KernelError>::Err(
                            KernelError::NotImplemented),
                }
            },
    {
        let i = match self.find_fs(path) {
            Ok(i) => i,
            Err(e) => {
                return Err(e);
            },
        };
        proof {
            lemma_best_mount_unique(self.mounts(), path@);
        }
        let r = self.mounts[i].fs.create_file(path);
        proof {
            lemma_wf_after_update(old(self).mounts(), self.mounts(), i as int);
        }
        r
    }

    /// Creates a directory through the mount that serves the path.
    pub fn create_directory(&mut self, path: &str) -> (r: Result<(), KernelError>)
        requires
            old(self).wf(),
        ensures
            final(self).wf(),
            final(self).mounts().len() == old(self).mounts().len(),
            no_mount_for(old(self).mounts(), path@)
                || exists|i: int| is_best_mount(old(self).mounts(), path@, i),
            no_mount_for(old(self).mounts(), path@)
                ==> r == Result::<(), KernelError>::Err(KernelError::NotFound)
                    && final(self).mounts() == old(self).mounts(),
            forall|i: int| is_best_mount(old(self).mounts(), path@, i) ==> {
                &&& forall|j: int|
                    0 <= j < old(self).mounts().len() && j != i
                        ==> #[trigger] final(self).mounts()[j] == old(self).mounts()[j]
                &&& final(self).mounts()[i].path == old(self).mounts()[i].path
                &&& match #[trigger] old(self).mounts()[i].fs {
                    FsInstance::Temp(t) => final(self).mounts()[i].fs is Temp
                        && crate::tempfs::create_dir_post(t.view(),
                            final(self).mounts()[i].fs->Temp_0.view(), path@, r),
                    FsInstance::Fat(_) => final(self).mounts()[i].fs
                        == old(self).mounts()[i].fs
                        && r == Result::<(), KernelError>::Err(
                            KernelError::NotImplemented),
                }
            },
    {
        let i = match self.find_fs(path) {
            Ok(i) => i,
            Err(e) => {
                return Err(e);
            },
        };
        proof {
            lemma_best_mount_unique(self.mounts(), path@);
        }
        let r = self.mounts[i].fs.create_directory(path);
        proof {
            lemma_wf_after_update(old(self).mounts(), self.mounts(), i as int);
        }
        r
    }

    /// Removes a file or empty directory through the mount that serves the
    /// path.
    pub fn remove(&mut self, path: &str) -> (r: Result<(), KernelError>)
        requires
            old(self).wf(),
        ensures
            final(self).wf(),
            final(self).mounts().len() == old(self).mounts().len(),
            no_mount_for(old(self).mounts(), path@)
                || exists|i: int| is_best_mount(old(self).mounts(), path@, i),
            no_mount_for(old(self).mounts(), path@)
                ==> r == Result::<(), KernelError>::Err(KernelError::NotFound)
                    && final(self).mounts() == old(self).mounts(),
            forall|i: int| is_best_mount(old(self).mounts(), path@, i) ==> {
                &&& forall|j: int|
                    0 <= j < old(self).mounts().len() && j != i
                        ==> #[trigger] final(self).mounts()[j] == old(self).mounts()[j]
                &&& final(self).mounts()[i].path == old(self).mounts()[i].path
                &&& match #[trigger] old(self).mounts()[i].fs {
                    FsInstance::Temp(t) => final(self).mounts()[i].fs is Temp
                        && crate::tempfs::remove_post(t.view(),
                            final(self).mounts()[i].fs->Temp_0.view(), path@, r),
                    FsInstance::Fat(_) => final(self).mounts()[i].fs
                        == old(self).mounts()[i].fs
                        && r == Result::<(), KernelError>::Err(
                            KernelError::NotImplemented),
                }
            },
    {
        let i = match self.find_fs(path) {
            Ok(i) => i,
            Err(e) => {
                return Err(e);
            },
        };
        proof {
            lemma_best_mount_unique(self.mounts(), path@);
        }
        let r = self.mounts[i].fs.remove(path);
        proof {
            lemma_wf_after_update(old(self).mounts(), self.mounts(), i as int);
        }
        r
    }

    /// Queries metadata through the mount that serves the path.
    pub fn metadata(&self, path: &str) -> (r: Result<Metadata, KernelError>)
        requires
            self.wf(),
        ensures
            no_mount_for(self.mounts(), path@)
                || exists|i: int| is_best_mount(self.mounts(), path@, i),
            no_mount_for(self.mounts(), path@)
                ==> r == Result::<Metadata, KernelError>::Err(KernelError::NotFound),
            forall|i: int| is_best_mount(self.mounts(), path@, i)
                ==> match #[trigger] self.mounts()[i].fs {
                    FsInstance::Temp(t) => crate::tempfs::metadata_post(t.view(),
                        path@, r),
                    FsInstance::Fat(f) => match r {
                        Ok(m) => exists|ev: crate::fat::FatDirEntryView|
                            #[trigger] crate::fat::fat_path_entry(f.disk(),
                                f.boot_bytes(), path@, ev)
                                && m == crate::fat::fat_metadata_spec(ev),
                        Err(e) => e == KernelError::NotFound
                            || e == KernelError::NotADirectory
                            || e == KernelError::ReadError
                            || e == KernelError::InvalidData,
                    },
                },
    {
        let i = match self.find_fs(path) {
            Ok(i) => i,
            Err(e) => {
                return Err(e);
            },
        };
        proof {
            lemma_best_mount_unique(self.mounts(), path@);
        }
        self.mounts[i].fs.metadata(path)
    }

    /// Lists a directory through the mount that serves the path.
    pub fn read_dir(&self, path: &str) -> (r: Result<Vec<DirEntry>, KernelError>)
        requires
            self.wf(),
        ensures
            no_mount_for(self.mounts(), path@)
                || exists|i: int| is_best_mount(self.mounts(), path@, i),
            no_mount_for(self.mounts(), path@)
                ==> r is Err && r->Err_0 == KernelError::NotFound,
            forall|i: int| is_best_mount(self.mounts(), path@, i)
                ==> match #[trigger] self.mounts()[i].fs {
                    FsInstance::Temp(t) => crate::tempfs::read_dir_post(t.view(),
                        path@, r),
                    FsInstance::Fat(f) => match r {
                        Ok(v) => exists|ev: crate::fat::FatDirEntryView,
                            listing: Seq<crate::fat::FatDirEntryView>|
                            {
                                &&& crate::fat::fat_path_entry(f.disk(),
                                    f.boot_bytes(), path@, ev)
                                &&& ev.attr & 0x10 != 0
                                &&& #[trigger] crate::fat::fat_dir_listing(f.disk(),
                                    f.boot_bytes(), path@, ev, listing)
                                &&& crate::fat::dir_rows(v@)
                                    == crate::fat::visible_rows(listing)
                            },
                        Err(e) => e == KernelError::NotFound
                            || e == KernelError::NotADirectory
                            || e == KernelError::ReadError
                            || e == KernelError::InvalidData,
                    },
                },
    {
        let i = match self.find_fs(path) {
            Ok(i) => i,
            Err(e) => {
                return Err(e);
            },
        };
        proof {
            lemma_best_mount_unique(self.mounts(), path@);
        }
        self.mounts[i].fs.read_dir(path)
    }

    /// Renames within one backing store; a rename whose source and target
    /// resolve to different mounts is not implemented.
    pub fn rename(&mut self, from: &str, to: &str) -> (r: Result<(), KernelError>)
        requires
            old(self).wf(),
        ensures
            final(self).wf(),
            final(self).mounts().len() == old(self).mounts().len(),
            no_mount_for(old(self).mounts(), from@)
                || no_mount_for(old(self).mounts(), to@)
                ==> r == Result::<(), KernelError>::Err(KernelError::NotFound)
                    && final(self).mounts() == old(self).mounts(),
            forall|i: int, j: int|
                is_best_mount(old(self).mounts(), from@, i)
                    && is_best_mount(old(self).mounts(), to@, j) && i != j
                    ==> r == Result::<(), KernelError>::Err(KernelError::NotImplemented)
                        && final(self).mounts() == old(self).mounts(),
            forall|i: int|
                is_best_mount(old(self).mounts(), from@, i)
                    && #[trigger] is_best_mount(old(self).mounts(), to@, i) ==> {
                    &&& forall|j: int|
                        0 <= j < old(self).mounts().len() && j != i
                            ==> #[trigger] final(self).mounts()[j]
                                == old(self).mounts()[j]
                    &&& final(self).mounts()[i].path == old(self).mounts()[i].path
                    &&& match #[trigger] old(self).mounts()[i].fs {
                        FsInstance::Temp(t) => final(self).mounts()[i].fs is Temp
                            && crate::tempfs::rename_post(t.view(),
                                final(self).mounts()[i].fs->Temp_0.view(), from@,
                                to@, r),
                        FsInstance::Fat(_) => final(self).mounts()[i].fs
                            == old(self).mounts()[i].fs
                            && r == Result::<(), KernelError>::Err(
                                KernelError::NotImplemented),
                    }
                },
    {
        let i = match self.find_fs(from) {
            Ok(i) => i,
            Err(e) => {
                return Err(e);
            },
        };
        let j = match self.find_fs(to) {
            Ok(j) => j,
            Err(e) => {
                return Err(e);
            },
        };
        proof {
            lemma_best_mount_unique(self.mounts(), from@);
            lemma_best_mount_unique(self.mounts(), to@);
        }
        if i == j {
            let r = self.mounts[i].fs.rename(from, to);
            proof {
                lemma_wf_after_update(old(self).mounts(), self.mounts(), i as int);
            }
            r
        } else {
            Err(KernelError::NotImplemented)
        }
    }

    /// Reads at a byte offset through the mount that serves the path.
    pub fn read_at(&self, path: &str, offset: u64, buffer: &mut Vec<u8>)
        -> (r: Result<usize, KernelError>)
        requires
            self.wf(),
        ensures
            final(buffer)@.len() == old(buffer)@.len(),
            no_mount_for(self.mounts(), path@)
                || exists|i: int| is_best_mount(self.mounts(), path@, i),
            no_mount_for(self.mounts(), path@)
                ==> r == Result::<usize, KernelError>::Err(KernelError::NotFound)
                    && final(buffer)@ == old(buffer)@,
            forall|i: int| is_best_mount(self.mounts(), path@, i)
                ==> match #[trigger] self.mounts()[i].fs {
                    FsInstance::Temp(t) => crate::tempfs::read_at_post(t.view(), path@,
                        offset as nat, old(buffer)@, final(buffer)@, r),
                    FsInstance::Fat(_) => r is Err
                        && r->Err_0 == KernelError::NotImplemented
                        && final(buffer)@ == old(buffer)@,
                },
    {
        let i = match self.find_fs(path) {
            Ok(i) => i,
            Err(e) => {
                return Err(e);
            },
        };
        proof {
            lemma_best_mount_unique(self.mounts(), path@);
        }
        self.mounts[i].fs.read_at(path, offset, buffer)
    }

    /// Writes at a byte offset through the mount that serves the path.
    pub fn write_at(&mut self, path: &str, offset: u64, buffer: &[u8])
        -> (r: Result<usize, KernelError>)
        requires
            old(self).wf(),
            offset + buffer@.len() <= usize::MAX,
        ensures
            final(self).wf(),
            final(self).mounts().len() == old(self).mounts().len(),
            no_mount_for(old(self).mounts(), path@)
                || exists|i: int| is_best_mount(old(self).mounts(), path@, i),
            no_mount_for(old(self).mounts(), path@)
                ==> r == Result::<usize, KernelError>::Err(KernelError::NotFound)
                    && final(self).mounts() == old(self).mounts(),
            forall|i: int| is_best_mount(old(self).mounts(), path@, i) ==> {
                &&& forall|j: int|
                    0 <= j < old(self).mounts().len() && j != i
                        ==> #[trigger] final(self).mounts()[j] == old(self).mounts()[j]
                &&& final(self).mounts()[i].path == old(self).mounts()[i].path
                &&& match #[trigger] old(self).mounts()[i].fs {
                    FsInstance::Temp(t) => final(self).mounts()[i].fs is Temp
                        && crate::tempfs::write_at_post(t.view(),
                            final(self).mounts()[i].fs->Temp_0.view(), path@,
                            offset as nat, buffer@, r),
                    FsInstance::Fat(_) => final(self).mounts()[i].fs
                        == old(self).mounts()[i].fs
                        && r == Result::<usize, KernelError>::Err(
                            KernelError::NotImplemented),
                }
            },
    {
        let i = match self.find_fs(path) {
            Ok(i) => i,
            Err(e) => {
                return Err(e);
            },
        };
        proof {
            lemma_best_mount_unique(self.mounts(), path@);
        }
        let r = self.mounts[i].fs.write_at(path, offset, buffer);
        proof {
            lemma_wf_after_update(old(self).mounts(), self.mounts(), i as int);
        }
        r
    }
}

/// The bytes the fallback read hands back for a backend without offset
/// reads: at most the two bytes `'H'`, `'i'` at the front of the buffer.
pub open spec fn stub_read_bytes(oldbuf: Seq<u8>) -> Seq<u8> {
    if oldbuf.len() == 0 {
        oldbuf
    } else if oldbuf.len() == 1 {
        seq![72u8]
    } else {
        seq![72u8, 105u8] + oldbuf.skip(2)
    }
}

/// What reading through a handle does: the backing store's offset read at
/// the handle's position, the position advanced by the bytes read; a
/// backend without offset reads degrades to the fixed two-byte stub.
pub open spec fn handle_read_post(
    ms: Seq<MountPoint>,
    pre: FileHandle,
    post: FileHandle,
    oldbuf: Seq<u8>,
    newbuf: Seq<u8>,
    r: Result<usize, KernelError>,
) -> bool {
    &&& post.path@ == pre.path@
    &&& post.flags == pre.flags
    &&& newbuf.len() == oldbuf.len()
    &&& if pre.flags & FLAG_READ == 0 {
        r == Result::<usize, KernelError>::Err(KernelError::InvalidOperation)
            && post.position == pre.position && newbuf == oldbuf
    } else if pre.position + oldbuf.len() > u64::MAX {
        r == Result::<usize, KernelError>::Err(KernelError::InvalidParameter)
            && post.position == pre.position && newbuf == oldbuf
    } else {
        &&& (no_mount_for(ms, pre.path@)
            ==> r == Result::<usize, KernelError>::Err(KernelError::NotFound)
                && post.position == pre.position && newbuf == oldbuf)
        &&& forall|i: int| is_best_mount(ms, pre.path@, i)
            ==> match #[trigger] ms[i].fs {
                FsInstance::Temp(t) => match r {
                    Ok(n) => crate::tempfs::read_at_post(t.view(), pre.path@,
                        pre.position as nat, oldbuf, newbuf, Ok(n))
                        && post.position == pre.position + n,
                    Err(e) => crate::tempfs::read_at_post(t.view(), pre.path@,
                        pre.position as nat, oldbuf, newbuf, Err(e))
                        && post.position == pre.position,
                },
                FsInstance::Fat(_) => {
                    let n = if oldbuf.len() < 2 { oldbuf.len() } else { 2 };
                    r == Result::<usize, KernelError>::Ok(n as usize)
                        && newbuf == stub_read_bytes(oldbuf)
                        && post.position == pre.position + n
                },
            }
    }
}

/// What writing through a handle does: the backing store's offset write at
/// the handle's position, the position advanced by the bytes written; a
/// backend without offset writes degrades to a no-op that reports success.
pub open spec fn handle_write_post(
    pre_ms: Seq<MountPoint>,
    post_ms: Seq<MountPoint>,
    pre: FileHandle,
    post: FileHandle,
    buffer: Seq<u8>,
    r: Result<usize, KernelError>,
) -> bool {
    &&& post.path@ == pre.path@
    &&& post.flags == pre.flags
    &&& post_ms.len() == pre_ms.len()
    &&& if pre.flags & FLAG_WRITE == 0 {
        r == Result::<usize, KernelError>::Err(KernelError::InvalidOperation)
            && post.position == pre.position && post_ms == pre_ms
    } else if pre.position + buffer.len() > usize::MAX {
        r == Result::<usize, KernelError>::Err(KernelError::InvalidParameter)
            && post.position == pre.position && post_ms == pre_ms
    } else {
        &&& (no_mount_for(pre_ms, pre.path@)
            ==> r == Result::<usize, KernelError>::Err(KernelError::NotFound)
                && post.position == pre.position && post_ms == pre_ms)
        &&& forall|i: int| is_best_mount(pre_ms, pre.path@, i) ==> {
            &&& (forall|j: int| 0 <= j < pre_ms.len() && j != i
                ==> #[trigger] post_ms[j] == pre_ms[j])
            &&& post_ms[i].path == pre_ms[i].path
            &&& match #[trigger] pre_ms[i].fs {
                FsInstance::Temp(t) => match r {
                    Ok(n) => post_ms[i].fs is Temp
                        && crate::tempfs::write_at_post(t.view(),
                            post_ms[i].fs->Temp_0.view(), pre.path@,
                            pre.position as nat, buffer, Ok(n))
                        && post.position == pre.position + n,
                    Err(e) => post_ms[i].fs is Temp
                        && crate::tempfs::write_at_post(t.view(),
                            post_ms[i].fs->Temp_0.view(), pre.path@,
                            pre.position as nat, buffer, Err(e))
                        && post.position == pre.position,
                },
                FsInstance::Fat(_) => post_ms[i].fs == pre_ms[i].fs
                    && r == Result::<usize, KernelError>::Ok(buffer.len() as usize)
                    && post.position == pre.position + buffer.len(),
            }
        }
    }
}

/// What opening through the manager returns, as a function of the mount
/// table: resolution failure, the backend's own answer, or refusal by a
/// backend without handles.
pub open spec fn open_post_for(
    ms: Seq<MountPoint>,
    path: Seq<char>,
    flags: u8,
    r: Result<FileHandle, KernelError>,
) -> bool {
    &&& (no_mount_for(ms, path)
        ==> r == Result::<FileHandle, KernelError>::Err(KernelError::NotFound))
    &&& forall|i: int| is_best_mount(ms, path, i)
        ==> match #[trigger] ms[i].fs {
            FsInstance::Temp(t) => crate::tempfs::open_post(t.view(), path,
                flags & FLAG_WRITE != 0, r),
            FsInstance::Fat(_) => r is Err && r->Err_0 == KernelError::NotImplemented,
        }
}

/// No mount path prefixes `path`.
pub open spec fn no_mount_for(ms: Seq<MountPoint>, path: Seq<char>) -> bool {
    forall|j: int| 0 <= j < ms.len() ==> !(#[trigger] ms[j].path@).is_prefix_of(path)
}

/// At most one mount is the best match for a path.
pub proof fn lemma_best_mount_unique(ms: Seq<MountPoint>, path: Seq<char>)
    ensures
        forall|i: int, j: int|
            is_best_mount(ms, path, i) && is_best_mount(ms, path, j) ==> i == j,
{
    assert forall|i: int, j: int|
        is_best_mount(ms, path, i) && is_best_mount(ms, path, j) implies i == j by {
        assert(ms[i].path@.len() <= ms[j].path@.len());
        assert(ms[j].path@.len() <= ms[i].path@.len());
    }
}

/// A mount table stays well formed when one entry is replaced by a well
/// formed one.
proof fn lemma_wf_after_update(pre: Seq<MountPoint>, post: Seq<MountPoint>, i: int)
    requires
        pre.len() == post.len(),
        forall|j: int| 0 <= j < pre.len() && j != i ==> post[j] == pre[j],
        forall|j: int| 0 <= j < pre.len() ==> (#[trigger] pre[j]).fs.wf(),
        0 <= i < post.len() ==> post[i].fs.wf(),
    ensures
        forall|j: int| 0 <= j < post.len() ==> (#[trigger] post[j]).fs.wf(),
{
}

} // verus!
