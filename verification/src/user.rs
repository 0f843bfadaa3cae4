//! User accounts: names, numeric ids, home directories, and the manager
//! that owns them and materializes home-directory trees on the VFS.

use vstd::prelude::*;
use crate::errors::KernelError;
use crate::strutil::{append_str, str_eq};
use crate::vfs::VfsManager;

verus! {

/// One user account.
#[derive(Debug, Clone)]
pub struct User {
    pub username: String,
    pub uid: u32,
    pub gid: u32,
    pub home_dir: String,
    pub full_name: String,
}

impl User {
    /// A fresh account: the primary group is the user id, the home
    /// directory lives under `/Users`, and the full name defaults to the
    /// login name.
    pub fn new(username: &str, uid: u32) -> (r: User)
        ensures
            r.username@ == username@,
            r.uid == uid,
            r.gid == uid,
            r.home_dir@ == "/Users/"@ + username@,
            r.full_name@ == username@,
    {
        let mut home = String::new();
        append_str(&mut home, "/Users/");
        append_str(&mut home, username);
        User {
            username: username.to_owned(),
            uid,
            gid: uid,
            home_dir: home,
            full_name: username.to_owned(),
        }
    }
}

/// The account registry: users, the next free user id, and the signed-in
/// user.
pub struct UserManager {
    users: Vec<User>,
    next_uid: u32,
    current_user: Option<u32>,
}

impl UserManager {
    /// The registered users, oldest first.
    pub closed spec fn users(&self) -> Seq<User> {
        self.users@
    }

    /// The next user id that will be handed out; ordinary users start at
    /// one thousand.
    pub closed spec fn next_uid_spec(&self) -> nat {
        self.next_uid as nat
    }

    /// The signed-in user's id, if any.
    pub closed spec fn current_user_spec(&self) -> Option<u32> {
        self.current_user
    }

    /// An empty registry.
    pub fn new() -> (r: UserManager)
        ensures
            r.users() =~= Seq::<User>::empty(),
            r.next_uid_spec() == 1000,
            r.current_user_spec() is None,
    {
        UserManager { users: Vec::new(), next_uid: 1000, current_user: None }
    }

    /// Registers the built-in system accounts `root` and `system`.
    pub fn init(&mut self) -> (r: Result<(), KernelError>)
        ensures
            r is Ok,
            final(self).users().len() == old(self).users().len() + 2,
            forall|i: int| 0 <= i < old(self).users().len()
                ==> #[trigger] final(self).users()[i] == old(self).users()[i],
            final(self).users()[final(self).users().len() - 2].username@ == "root"@,
            final(self).users()[final(self).users().len() - 2].uid == 0,
            final(self).users().last().username@ == "system"@,
            final(self).users().last().uid == 1,
            final(self).next_uid_spec() == old(self).next_uid_spec(),
            final(self).current_user_spec() == old(self).current_user_spec(),
    {
        let root = User {
            username: {
                let mut s = String::new();
                append_str(&mut s, "root");
                s
            },
            uid: 0,
            gid: 0,
            home_dir: {
                let mut s = String::new();
                append_str(&mut s, "/root");
                s
            },
            full_name: {
                let mut s = String::new();
                append_str(&mut s, "System Administrator");
                s
            },
        };
        self.users.push(root);
        let system = User {
            username: {
                let mut s = String::new();
                append_str(&mut s, "system");
                s
            },
            uid: 1,
            gid: 1,
            home_dir: {
                let mut s = String::new();
                append_str(&mut s, "/System");
                s
            },
            full_name: {
                let mut s = String::new();
                append_str(&mut s, "System Services");
                s
            },
        };
        self.users.push(system);
        Ok(())
    }

    /// Creates the standard subdirectories of a user's home directory.
    fn create_user_directories(&self, vfs: &mut VfsManager, user: &User)
        -> (r: Result<(), KernelError>)
        requires
            old(vfs).wf(),
        ensures
            final(vfs).wf(),
            final(vfs).mounts().len() == old(vfs).mounts().len(),
    {
        vfs.create_directory(user.home_dir.as_str())?;
        let subdirs = [
            "Documents", "Downloads", "Desktop", "Pictures", "Music", "Movies",
            "Library", "Library/Preferences", "Library/Application Support",
        ];
        let mut i: usize = 0;
        while i < 9
            invariant
                vfs.wf(),
                vfs.mounts().len() == old(vfs).mounts().len(),
            decreases 9 - i,
        {
            let mut path = String::new();
            append_str(&mut path, user.home_dir.as_str());
            append_str(&mut path, "/");
            append_str(&mut path, subdirs[i]);
            vfs.create_directory(path.as_str())?;
            i = i + 1;
        }
        Ok(())
    }

    /// Registers a new user and materializes the standard home-directory
    /// tree.  A second user of the same name is refused.
    pub fn add_user(&mut self, vfs: &mut VfsManager, username: &str, full_name: &str)
        -> (r: Result<(), KernelError>)
        requires
            old(vfs).wf(),
        ensures
            final(vfs).wf(),
            final(vfs).mounts().len() == old(vfs).mounts().len(),
            final(self).current_user_spec() == old(self).current_user_spec(),
            (exists|i: int| 0 <= i < old(self).users().len()
                && (#[trigger] old(self).users()[i]).username@ == username@)
                ==> r == Result::<(), KernelError>::Err(KernelError::AlreadyExists)
                    && *final(self) == *old(self)
                    && final(vfs).mounts() == old(vfs).mounts(),
            match r {
                Ok(_) => {
                    &&& forall|i: int| 0 <= i < old(self).users().len()
                        ==> (#[trigger] old(self).users()[i]).username@ != username@
                    &&& final(self).users().len() == old(self).users().len() + 1
                    &&& forall|i: int| 0 <= i < old(self).users().len()
                        ==> #[trigger] final(self).users()[i] == old(self).users()[i]
                    &&& final(self).users().last().username@ == username@
                    &&& final(self).users().last().uid as nat
                        == old(self).next_uid_spec()
                    &&& final(self).users().last().full_name@ == full_name@
                    &&& final(self).next_uid_spec() == old(self).next_uid_spec() + 1
                },
                Err(_) => final(self).users() == old(self).users(),
            },
    {
        let n = self.users.len();
        let mut i: usize = 0;
        while i < n
            invariant
                n == self.users().len(),
                i <= n,
                *self == *old(self),
                *vfs == *old(vfs),
                old(vfs).wf(),
                forall|j: int| 0 <= j < i
                    ==> (#[trigger] self.users()[j]).username@ != username@,
            decreases n - i,
        {
            if str_eq(self.users[i].username.as_str(), username) {
                return Err(KernelError::AlreadyExists);
            }
            i = i + 1;
        }
        if self.next_uid == u32::MAX {
            return Err(KernelError::InvalidParameter);
        }
        let uid = self.next_uid;
        self.next_uid = self.next_uid + 1;
        let mut user = User::new(username, uid);
        user.full_name = full_name.to_owned();
        self.create_user_directories(vfs, &user)?;
        self.users.push(user);
        Ok(())
    }

    /// Signs in the user with id `uid`; the id must be registered.
    pub fn set_current_user(&mut self, uid: u32) -> (r: Result<(), KernelError>)
        ensures
            final(self).users() == old(self).users(),
            final(self).next_uid_spec() == old(self).next_uid_spec(),
            match r {
                Ok(_) => final(self).current_user_spec() == Some(uid)
                    && exists|i: int| 0 <= i < old(self).users().len()
                        && (#[trigger] old(self).users()[i]).uid == uid,
                Err(e) => e == KernelError::NotFound
                    && final(self).current_user_spec() == old(self).current_user_spec()
                    && forall|i: int| 0 <= i < old(self).users().len()
                        ==> (#[trigger] old(self).users()[i]).uid != uid,
            },
    {
        let n = self.users.len();
        let mut i: usize = 0;
        while i < n
            invariant
                n == self.users().len(),
                i <= n,
                *self == *old(self),
                forall|j: int| 0 <= j < i
                    ==> (#[trigger] self.users()[j]).uid != uid,
            decreases n - i,
        {
            if self.users[i].uid == uid {
                self.current_user = Some(uid);
                return Ok(());
            }
            i = i + 1;
        }
        Err(KernelError::NotFound)
    }

    /// The signed-in user, if any.
    pub fn get_current_user(&self) -> (r: Option<&User>)
        ensures
            match r {
                Some(u) => self.current_user_spec() is Some
                    && exists|i: int| 0 <= i < self.users().len()
                        && #[trigger] self.users()[i] == *u
                        && u.uid == self.current_user_spec()->0,
                None => self.current_user_spec() is None
                    || forall|i: int| 0 <= i < self.users().len()
                        ==> (#[trigger] self.users()[i]).uid
                            != self.current_user_spec()->0,
            },
    {
        let uid = match self.current_user {
            Some(uid) => uid,
            None => {
                return None;
            },
        };
        let n = self.users.len();
        let mut i: usize = 0;
        while i < n
            invariant
                n == self.users().len(),
                i <= n,
                self.current_user_spec() == Some(uid),
                forall|j: int| 0 <= j < i
                    ==> (#[trigger] self.users()[j]).uid != uid,
            decreases n - i,
        {
            if self.users[i].uid == uid {
                return Some(&self.users[i]);
            }
            i = i + 1;
        }
        None
    }

    /// Looks a user up by login name.
    pub fn get_user_by_name(&self, username: &str) -> (r: Option<&User>)
        ensures
            match r {
                Some(u) => exists|i: int| 0 <= i < self.users().len()
                    && #[trigger] self.users()[i] == *u
                    && u.username@ == username@,
                None => forall|i: int| 0 <= i < self.users().len()
                    ==> (#[trigger] self.users()[i]).username@ != username@,
            },
    {
        let n = self.users.len();
        let mut i: usize = 0;
        while i < n
            invariant
                n == self.users().len(),
                i <= n,
                forall|j: int| 0 <= j < i
                    ==> (#[trigger] self.users()[j]).username@ != username@,
            decreases n - i,
        {
            if str_eq(self.users[i].username.as_str(), username) {
                return Some(&self.users[i]);
            }
            i = i + 1;
        }
        None
    }

    /// Looks a user up by id.
    pub fn get_user_by_id(&self, uid: u32) -> (r: Option<&User>)
        ensures
            match r {
                Some(u) => exists|i: int| 0 <= i < self.users().len()
                    && #[trigger] self.users()[i] == *u && u.uid == uid,
                None => forall|i: int| 0 <= i < self.users().len()
                    ==> (#[trigger] self.users()[i]).uid != uid,
            },
    {
        let n = self.users.len();
        let mut i: usize = 0;
        while i < n
            invariant
                n == self.users().len(),
                i <= n,
                forall|j: int| 0 <= j < i ==> (#[trigger] self.users()[j]).uid != uid,
            decreases n - i,
        {
            if self.users[i].uid == uid {
                return Some(&self.users[i]);
            }
            i = i + 1;
        }
        None
    }

    /// Registers a new user with default settings.
    pub fn create_user(&mut self, vfs: &mut VfsManager, username: &str, full_name: &str)
        -> (r: Result<(), KernelError>)
        requires
            old(vfs).wf(),
        ensures
            final(vfs).wf(),
            final(vfs).mounts().len() == old(vfs).mounts().len(),
    {
        self.add_user(vfs, username, full_name)?;
        Ok(())
    }

    /// First-boot setup: creates the default user `user` if it does not
    /// exist yet and signs it in.
    pub fn run_new_user_setup(&mut self, vfs: &mut VfsManager)
        -> (r: Result<(), KernelError>)
        requires
            old(vfs).wf(),
        ensures
            final(vfs).wf(),
            final(vfs).mounts().len() == old(vfs).mounts().len(),
    {
        match self.add_user(vfs, "user", "Default User") {
            Ok(_) => {
                self.set_current_user(1000)?;
            },
            Err(KernelError::AlreadyExists) => {},
            Err(e) => {
                return Err(e);
            },
        }
        Ok(())
    }
}

/// Creates the essential top-level directories and the welcome file;
/// creation failures of single entries are tolerated, as boot continues
/// without them.
pub fn setup_filesystem(vfs: &mut VfsManager) -> (r: Result<(), KernelError>)
    requires
        old(vfs).wf(),
    ensures
        final(vfs).wf(),
        final(vfs).mounts().len() == old(vfs).mounts().len(),
        r is Ok,
{
    let top_dirs = ["/System", "/Library", "/Applications", "/Users", "/root", "/tmp"];
    let mut i: usize = 0;
    while i < 6
        invariant
            vfs.wf(),
            vfs.mounts().len() == old(vfs).mounts().len(),
        decreases 6 - i,
    {
        let _ignored = vfs.create_directory(top_dirs[i]);
        i = i + 1;
    }
    let created = vfs.create_file("/welcome.txt");
    if created.is_ok() {
        let message: [u8; 23] = [
            87, 101, 108, 99, 111, 109, 101, 32, 116, 111, 32, 116, 104, 101, 32, 107,
            101, 114, 110, 101, 108, 33, 10,
        ];
        let _written = crate::storage::direct_write_file(vfs, "/welcome.txt",
            message.as_slice());
    }
    Ok(())
}

} // verus!
