//! Boot-time assembly of the storage stack: one context object holding the
//! VFS manager and the descriptor table, handed to every subsystem that
//! needs filesystem access.

use vstd::prelude::*;
use crate::errors::KernelError;
use crate::fd::FdTable;
use crate::path::root_path;
use crate::tempfs::TempFs;
use crate::vfs::{is_best_mount, no_mount_for, FsInstance, VfsManager};

verus! {

/// The storage context: the mount table and the descriptor table.
pub struct Storage {
    pub vfs: VfsManager,
    pub fds: FdTable,
}

impl Storage {
    /// The whole context is usable.
    pub open spec fn wf(&self) -> bool {
        self.vfs.wf() && self.fds.wf()
    }
}

/// Initializes the storage subsystem: a fresh VFS with an in-memory
/// filesystem mounted at the root, and an empty descriptor table.
pub fn init() -> (r: Result<Storage, KernelError>)
    ensures
        match r {
            Ok(s) => {
                &&& s.wf()
                &&& s.vfs.mounts().len() == 1
                &&& s.vfs.mounts()[0].path@ == root_path()
                &&& s.vfs.mounts()[0].fs is Temp
                &&& s.vfs.mounts()[0].fs->Temp_0.view()
                    == Map::<Seq<char>, crate::tempfs::TempNodeView>::empty().insert(
                    root_path(),
                    crate::tempfs::TempNodeView {
                        inode: 1,
                        meta: crate::vfs::Metadata::directory_spec(),
                        is_dir: true,
                        data: Seq::empty(),
                    },
                )
                &&& s.fds.descriptors() == Seq::<crate::fd::FileDescriptor>::empty()
                &&& s.fds.next_fd_spec() == 3
            },
            Err(_) => false,
        },
{
    let mut vfs = VfsManager::new();
    let fds = FdTable::new();
    let tempfs = TempFs::new("root");
    proof {
        reveal_strlit("/");
        assert("/"@ =~= root_path());
    }
    let mounted = vfs.mount("/", FsInstance::Temp(tempfs));
    proof {
        assert(vfs.mounts()[0] == vfs.mounts().last());
    }
    match mounted {
        Ok(_) => Ok(Storage { vfs, fds }),
        Err(_) => Err(KernelError::InitializationFailed),
    }
}

/// Writes `data` at offset zero of an existing file, bypassing the
/// descriptor layer.
pub fn direct_write_file(vfs: &mut VfsManager, path: &str, data: &[u8])
    -> (r: Result<usize, KernelError>)
    requires
        old(vfs).wf(),
        data@.len() <= usize::MAX,
    ensures
        final(vfs).wf(),
        final(vfs).mounts().len() == old(vfs).mounts().len(),
        no_mount_for(old(vfs).mounts(), path@)
            ==> r == Result::<usize, KernelError>::Err(KernelError::NotFound)
                && final(vfs).mounts() == old(vfs).mounts(),
        forall|i: int| is_best_mount(old(vfs).mounts(), path@, i) ==> {
            &&& forall|j: int|
                0 <= j < old(vfs).mounts().len() && j != i
                    ==> #[trigger] final(vfs).mounts()[j] == old(vfs).mounts()[j]
            &&& match #[trigger] old(vfs).mounts()[i].fs {
                FsInstance::Temp(t) => final(vfs).mounts()[i].fs is Temp
                    && crate::tempfs::write_at_post(t.view(),
                        final(vfs).mounts()[i].fs->Temp_0.view(), path@, 0, data@, r),
                FsInstance::Fat(_) => final(vfs).mounts()[i].fs
                    == old(vfs).mounts()[i].fs
                    && r == Result::<usize, KernelError>::Err(
                        KernelError::NotImplemented),
            }
        },
{
    vfs.write_at(path, 0, data)
}

/// Reads from offset zero of a file into `buffer`, bypassing the
/// descriptor layer.
pub fn direct_read_file(vfs: &VfsManager, path: &str, buffer: &mut Vec<u8>)
    -> (r: Result<usize, KernelError>)
    requires
        vfs.wf(),
    ensures
        final(buffer)@.len() == old(buffer)@.len(),
        no_mount_for(vfs.mounts(), path@)
            ==> r == Result::<usize, KernelError>::Err(KernelError::NotFound)
                && final(buffer)@ == old(buffer)@,
        forall|i: int| is_best_mount(vfs.mounts(), path@, i)
            ==> match #[trigger] vfs.mounts()[i].fs {
                FsInstance::Temp(t) => crate::tempfs::read_at_post(t.view(), path@, 0,
                    old(buffer)@, final(buffer)@, r),
                FsInstance::Fat(_) => r is Err
                    && r->Err_0 == KernelError::NotImplemented
                    && final(buffer)@ == old(buffer)@,
            },
{
    vfs.read_at(path, 0, buffer)
}

} // verus!
