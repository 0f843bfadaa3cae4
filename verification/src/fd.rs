//! Process-facing numeric file descriptors layered on the VFS: a table of
//! open handles with monotonically assigned descriptor numbers that are
//! never reused while the table lives.

use vstd::prelude::*;
use crate::errors::KernelError;
use crate::vfs::{
    handle_read_post, handle_write_post, is_best_mount, no_mount_for, open_post_for,
    FileHandle, VfsManager,
};

verus! {

/// One open file: its numeric descriptor and the handle behind it.
pub struct FileDescriptor {
    pub fd: u32,
    pub handle: FileHandle,
}

/// The table of open descriptors.  Numbers start above the conventional
/// stdin/stdout/stderr range and only grow.
pub struct FdTable {
    descriptors: Vec<FileDescriptor>,
    next_fd: u32,
}

impl FdTable {
    /// The open descriptors, in the order they were opened.
    pub closed spec fn descriptors(&self) -> Seq<FileDescriptor> {
        self.descriptors@
    }

    /// The next descriptor number that will be handed out.
    pub closed spec fn next_fd_spec(&self) -> nat {
        self.next_fd as nat
    }

    /// Every stored descriptor number is below the next one to assign, so
    /// numbers are never reused.
    pub open spec fn wf(&self) -> bool {
        &&& self.next_fd_spec() >= 3
        &&& forall|i: int|
            0 <= i < self.descriptors().len()
                ==> (#[trigger] self.descriptors()[i].fd as nat) < self.next_fd_spec()
        &&& forall|i: int, j: int|
            0 <= i < j < self.descriptors().len()
                ==> (#[trigger] self.descriptors()[i].fd)
                    != (#[trigger] self.descriptors()[j].fd)
    }

    /// An empty table; numbering starts at three, after the conventional
    /// standard streams.
    pub fn new() -> (r: FdTable)
        ensures
            r.wf(),
            r.descriptors() =~= Seq::<FileDescriptor>::empty(),
            r.next_fd_spec() == 3,
    {
        FdTable { descriptors: Vec::new(), next_fd: 3 }
    }

    /// Opens a path through the VFS and stores the handle under a fresh
    /// descriptor number.
    pub fn open(&mut self, vfs: &VfsManager, path: &str, flags: u8)
        -> (r: Result<u32, KernelError>)
        requires
            old(self).wf(),
            vfs.wf(),
        ensures
            final(self).wf(),
            match r {
                Ok(fd) => {
                    &&& fd as nat == old(self).next_fd_spec()
                    &&& final(self).next_fd_spec() == old(self).next_fd_spec() + 1
                    &&& final(self).descriptors().len()
                        == old(self).descriptors().len() + 1
                    &&& forall|i: int| 0 <= i < old(self).descriptors().len()
                        ==> #[trigger] final(self).descriptors()[i]
                            == old(self).descriptors()[i]
                    &&& final(self).descriptors().last().fd == fd
                    &&& open_post_for(vfs.mounts(), path@, flags,
                        Ok(final(self).descriptors().last().handle))
                },
                Err(e) => {
                    &&& *final(self) == *old(self)
                    &&& (e == KernelError::OutOfMemory
                        ==> old(self).next_fd_spec() == u32::MAX)
                    &&& (e != KernelError::OutOfMemory
                        ==> open_post_for(vfs.mounts(), path@,
                            flags, Err(e)))
                },
            },
    {
        if self.next_fd == u32::MAX {
            // the descriptor space is exhausted; numbers are never reused
            return Err(KernelError::OutOfMemory);
        }
        let handle = match vfs.open(path, flags) {
            Ok(h) => h,
            Err(e) => {
                proof {
                    assert(e != KernelError::OutOfMemory) by {
                        if !no_mount_for(vfs.mounts(), path@) {
                            let i = choose|i: int|
                                is_best_mount(vfs.mounts(), path@, i);
                            assert(is_best_mount(vfs.mounts(), path@, i));
                        }
                    }
                }
                return Err(e);
            },
        };
        let fd = self.next_fd;
        self.next_fd = self.next_fd + 1;
        self.descriptors.push(FileDescriptor { fd, handle });
        Ok(fd)
    }

    /// Finds the table index of a descriptor number.
    fn find_fd(&self, fd: u32) -> (r: Option<usize>)
        ensures
            match r {
                Some(i) => i < self.descriptors().len()
                    && self.descriptors()[i as int].fd == fd,
                None => forall|i: int|
                    0 <= i < self.descriptors().len()
                        ==> (#[trigger] self.descriptors()[i].fd) != fd,
            },
    {
        let n = self.descriptors.len();
        let mut i: usize = 0;
        while i < n
            invariant
                n == self.descriptors().len(),
                i <= n,
                forall|j: int| 0 <= j < i
                    ==> (#[trigger] self.descriptors()[j].fd) != fd,
            decreases n - i,
        {
            if self.descriptors[i].fd == fd {
                return Some(i);
            }
            i = i + 1;
        }
        None
    }

    /// Closes a descriptor: the entry leaves the table.
    pub fn close(&mut self, fd: u32) -> (r: Result<(), KernelError>)
        requires
            old(self).wf(),
        ensures
            final(self).wf(),
            final(self).next_fd_spec() == old(self).next_fd_spec(),
            match r {
                Ok(_) => exists|i: int|
                    {
                        &&& 0 <= i < old(self).descriptors().len()
                        &&& (#[trigger] old(self).descriptors()[i].fd) == fd
                        &&& final(self).descriptors()
                            == old(self).descriptors().remove(i)
                    },
                Err(e) => e == KernelError::InvalidHandle
                    && *final(self) == *old(self)
                    && forall|i: int|
                        0 <= i < old(self).descriptors().len()
                            ==> (#[trigger] old(self).descriptors()[i].fd) != fd,
            },
    {
        let i = match self.find_fd(fd) {
            Some(i) => i,
            None => {
                return Err(KernelError::InvalidHandle);
            },
        };
        let mut entry = self.descriptors.remove(i);
        let _closed = entry.handle.close();
        proof {
            let pre = old(self).descriptors();
            let post = final(self).descriptors();
            assert forall|a: int| 0 <= a < post.len()
                implies (#[trigger] post[a].fd as nat) < final(self).next_fd_spec() by {
                if a < i as int {
                    assert(post[a] == pre[a]);
                } else {
                    assert(post[a] == pre[a + 1]);
                }
            }
            assert forall|a: int, b: int| 0 <= a < b < post.len()
                implies (#[trigger] post[a].fd) != (#[trigger] post[b].fd) by {
                if a < i as int {
                    assert(post[a] == pre[a]);
                } else {
                    assert(post[a] == pre[a + 1]);
                }
                if b < i as int {
                    assert(post[b] == pre[b]);
                } else {
                    assert(post[b] == pre[b + 1]);
                }
            }
        }
        Ok(())
    }

    /// Reads through a descriptor's handle at its current position.
    pub fn read(&mut self, vfs: &VfsManager, fd: u32, buffer: &mut Vec<u8>)
        -> (r: Result<usize, KernelError>)
        requires
            old(self).wf(),
            vfs.wf(),
        ensures
            final(self).wf(),
            final(self).next_fd_spec() == old(self).next_fd_spec(),
            final(self).descriptors().len() == old(self).descriptors().len(),
            final(buffer)@.len() == old(buffer)@.len(),
            (forall|i: int|
                0 <= i < old(self).descriptors().len()
                    ==> (#[trigger] old(self).descriptors()[i].fd) != fd)
                ==> r == Result::<usize, KernelError>::Err(KernelError::InvalidHandle)
                    && *final(self) == *old(self) && final(buffer)@ == old(buffer)@,
            forall|i: int|
                0 <= i < old(self).descriptors().len()
                    && (#[trigger] old(self).descriptors()[i].fd) == fd
                    && (forall|j: int|
                        0 <= j < i ==> (#[trigger] old(self).descriptors()[j].fd) != fd)
                ==> {
                    &&& forall|j: int|
                        0 <= j < old(self).descriptors().len() && j != i
                            ==> #[trigger] final(self).descriptors()[j]
                                == old(self).descriptors()[j]
                    &&& final(self).descriptors()[i].fd == fd
                    &&& handle_read_post(vfs.mounts(),
                        old(self).descriptors()[i].handle,
                        final(self).descriptors()[i].handle, old(buffer)@,
                        final(buffer)@, r)
                },
    {
        let i = match self.find_fd(fd) {
            Some(i) => i,
            None => {
                return Err(KernelError::InvalidHandle);
            },
        };
        let r = self.descriptors[i].handle.read(vfs, buffer);
        proof {
            assert forall|a: int, b: int|
                0 <= a < b < final(self).descriptors().len()
                implies (#[trigger] final(self).descriptors()[a].fd)
                    != (#[trigger] final(self).descriptors()[b].fd) by {
                assert(old(self).descriptors()[a].fd != old(self).descriptors()[b].fd);
            }
        }
        r
    }

    /// Writes through a descriptor's handle at its current position.
    pub fn write(&mut self, vfs: &mut VfsManager, fd: u32, buffer: &[u8])
        -> (r: Result<usize, KernelError>)
        requires
            old(self).wf(),
            old(vfs).wf(),
        ensures
            final(self).wf(),
            final(vfs).wf(),
            final(self).next_fd_spec() == old(self).next_fd_spec(),
            final(self).descriptors().len() == old(self).descriptors().len(),
            (forall|i: int|
                0 <= i < old(self).descriptors().len()
                    ==> (#[trigger] old(self).descriptors()[i].fd) != fd)
                ==> r == Result::<usize, KernelError>::Err(KernelError::InvalidHandle)
                    && *final(self) == *old(self)
                    && final(vfs).mounts() == old(vfs).mounts(),
            forall|i: int|
                0 <= i < old(self).descriptors().len()
                    && (#[trigger] old(self).descriptors()[i].fd) == fd
                    && (forall|j: int|
                        0 <= j < i ==> (#[trigger] old(self).descriptors()[j].fd) != fd)
                ==> {
                    &&& forall|j: int|
                        0 <= j < old(self).descriptors().len() && j != i
                            ==> #[trigger] final(self).descriptors()[j]
                                == old(self).descriptors()[j]
                    &&& final(self).descriptors()[i].fd == fd
                    &&& handle_write_post(old(vfs).mounts(), final(vfs).mounts(),
                        old(self).descriptors()[i].handle,
                        final(self).descriptors()[i].handle, buffer@, r)
                },
    {
        let i = match self.find_fd(fd) {
            Some(i) => i,
            None => {
                return Err(KernelError::InvalidHandle);
            },
        };
        let r = self.descriptors[i].handle.write(vfs, buffer);
        proof {
            assert forall|a: int, b: int|
                0 <= a < b < final(self).descriptors().len()
                implies (#[trigger] final(self).descriptors()[a].fd)
                    != (#[trigger] final(self).descriptors()[b].fd) by {
                assert(old(self).descriptors()[a].fd != old(self).descriptors()[b].fd);
            }
        }
        r
    }

    /// Moves a descriptor's position.
    pub fn seek(&mut self, fd: u32, position: u64) -> (r: Result<(), KernelError>)
        requires
            old(self).wf(),
        ensures
            final(self).wf(),
            final(self).next_fd_spec() == old(self).next_fd_spec(),
            final(self).descriptors().len() == old(self).descriptors().len(),
            match r {
                Ok(_) => exists|i: int|
                    {
                        &&& 0 <= i < old(self).descriptors().len()
                        &&& (#[trigger] old(self).descriptors()[i].fd) == fd
                        &&& final(self).descriptors()[i].handle.position == position
                        &&& final(self).descriptors()[i].handle.path
                            == old(self).descriptors()[i].handle.path
                        &&& final(self).descriptors()[i].fd == fd
                        &&& forall|j: int|
                            0 <= j < old(self).descriptors().len() && j != i
                                ==> #[trigger] final(self).descriptors()[j]
                                    == old(self).descriptors()[j]
                    },
                Err(e) => e == KernelError::InvalidHandle
                    && *final(self) == *old(self)
                    && forall|i: int|
                        0 <= i < old(self).descriptors().len()
                            ==> (#[trigger] old(self).descriptors()[i].fd) != fd,
            },
    {
        let i = match self.find_fd(fd) {
            Some(i) => i,
            None => {
                return Err(KernelError::InvalidHandle);
            },
        };
        let r = self.descriptors[i].handle.seek(position);
        proof {
            assert forall|a: int, b: int|
                0 <= a < b < final(self).descriptors().len()
                implies (#[trigger] final(self).descriptors()[a].fd)
                    != (#[trigger] final(self).descriptors()[b].fd) by {
                assert(old(self).descriptors()[a].fd != old(self).descriptors()[b].fd);
            }
        }
        r
    }

    /// Reports a descriptor's current position.
    pub fn tell(&self, fd: u32) -> (r: Result<u64, KernelError>)
        ensures
            match r {
                Ok(p) => exists|i: int|
                    0 <= i < self.descriptors().len()
                        && (#[trigger] self.descriptors()[i].fd) == fd
                        && p == self.descriptors()[i].handle.position,
                Err(e) => e == KernelError::InvalidHandle
                    && forall|i: int|
                        0 <= i < self.descriptors().len()
                            ==> (#[trigger] self.descriptors()[i].fd) != fd,
            },
    {
        match self.find_fd(fd) {
            Some(i) => Ok(self.descriptors[i].handle.position),
            None => Err(KernelError::InvalidHandle),
        }
    }
}

} // verus!
