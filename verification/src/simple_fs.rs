//! A minimal flat filesystem: named entries carrying content bytes and a
//! directory flag, stored in one table keyed by the entry's path-like name.

use vstd::prelude::*;
use crate::path::{last_slash_index, lemma_last_slash_general};
use crate::ramdisk::RamDisk;
use crate::strutil::{find_char, str_eq, str_is_prefix};
use vstd::string::StrSliceExecFns;

verus! {

/// One node of the flat store: its path-like name, its size, its bytes and
/// whether it is a directory.
pub struct FileEntry {
    name: String,
    size: usize,
    content: Vec<u8>,
    is_directory: bool,
}

impl FileEntry {
    /// The entry's name.
    pub closed spec fn name_spec(&self) -> Seq<char> {
        self.name@
    }

    /// The entry's content bytes.
    pub closed spec fn content_spec(&self) -> Seq<u8> {
        self.content@
    }

    /// Whether the entry is a directory.
    pub closed spec fn is_directory_spec(&self) -> bool {
        self.is_directory
    }

    /// The recorded size always equals the content length.
    pub closed spec fn wf(&self) -> bool {
        self.size == self.content@.len()
    }

    /// A fresh empty file.
    pub fn new_file(name: &str) -> (r: FileEntry)
        ensures
            r.wf(),
            r.name_spec() == name@,
            r.content_spec() == Seq::<u8>::empty(),
            !r.is_directory_spec(),
    {
        FileEntry { name: name.to_owned(), size: 0, content: Vec::new(), is_directory: false }
    }

    /// A fresh empty directory.
    pub fn new_directory(name: &str) -> (r: FileEntry)
        ensures
            r.wf(),
            r.name_spec() == name@,
            r.content_spec() == Seq::<u8>::empty(),
            r.is_directory_spec(),
    {
        FileEntry { name: name.to_owned(), size: 0, content: Vec::new(), is_directory: true }
    }

    /// The entry's name.
    pub fn name(&self) -> (r: &str)
        ensures
            r@ == self.name_spec(),
    {
        self.name.as_str()
    }

    /// The entry's size in bytes.
    pub fn size(&self) -> (r: usize)
        requires
            self.wf(),
        ensures
            r == self.content_spec().len(),
    {
        self.size
    }

    /// Whether the entry is a directory.
    pub fn is_directory(&self) -> (r: bool)
        ensures
            r == self.is_directory_spec(),
    {
        self.is_directory
    }

    /// The entry's content bytes.
    pub fn content(&self) -> (r: &Vec<u8>)
        ensures
            r@ == self.content_spec(),
    {
        &self.content
    }

    /// Replaces the content with `data`.
    pub fn write(&mut self, data: &[u8])
        ensures
            final(self).wf(),
            final(self).name_spec() == old(self).name_spec(),
            final(self).is_directory_spec() == old(self).is_directory_spec(),
            final(self).content_spec() == data@,
    {
        let mut content: Vec<u8> = Vec::new();
        content.extend_from_slice(data);
        proof {
            assert(content@ =~= data@);
        }
        let size = content.len();
        self.content = content;
        self.size = size;
    }

    /// Appends `data` to the content.
    pub fn append(&mut self, data: &[u8])
        requires
            old(self).wf(),
            old(self).content_spec().len() + data@.len() <= usize::MAX,
        ensures
            final(self).wf(),
            final(self).name_spec() == old(self).name_spec(),
            final(self).is_directory_spec() == old(self).is_directory_spec(),
            final(self).content_spec() == old(self).content_spec() + data@,
    {
        self.content.extend_from_slice(data);
        let size = self.content.len();
        self.size = size;
    }
}

/// The path of the directory holding `p`: everything before the last
/// slash, empty for a top-level or slashless name.
pub open spec fn simple_parent(p: Seq<char>) -> Seq<char> {
    if last_slash_index(p) > 0 {
        p.take(last_slash_index(p))
    } else {
        Seq::empty()
    }
}

/// The entry stored under `name`, if any.
pub open spec fn sfs_lookup(es: Seq<FileEntry>, name: Seq<char>) -> Option<FileEntry>
    decreases es.len(),
{
    if es.len() == 0 {
        None
    } else if es[0].name_spec() == name {
        Some(es[0])
    } else {
        sfs_lookup(es.drop_first(), name)
    }
}

/// Whether `k` names a direct child of the directory named `d`: it extends
/// `d` by a slash and one further slashless component.
pub open spec fn simple_child_of(k: Seq<char>, d: Seq<char>) -> bool {
    let pw = if d.len() > 0 && d.last() == '/' { d } else { d + seq!['/'] };
    &&& k != d
    &&& pw.is_prefix_of(k)
    &&& forall|m: int| pw.len() <= m < k.len() ==> k[m] != '/'
}

/// Whether `k` lies anywhere below the directory named `d`.
pub open spec fn simple_descendant_of(k: Seq<char>, d: Seq<char>) -> bool {
    let pw = if d.len() > 0 && d.last() == '/' { d } else { d + seq!['/'] };
    k != d && pw.is_prefix_of(k)
}

/// The simple filesystem: a block device it may later persist to, and the
/// in-memory table of entries.
pub struct SimpleFileSystem {
    device: RamDisk,
    files: Vec<FileEntry>,
}

impl SimpleFileSystem {
    /// The stored entries, in insertion order.
    pub closed spec fn entries(&self) -> Seq<FileEntry> {
        self.files@
    }

    /// Names are never stored twice, and every entry's recorded size is
    /// its content length.
    pub open spec fn wf(&self) -> bool {
        &&& forall|i: int, j: int|
            0 <= i < j < self.entries().len()
                ==> (#[trigger] self.entries()[i].name_spec())
                    != (#[trigger] self.entries()[j].name_spec())
        &&& forall|i: int|
            0 <= i < self.entries().len() ==> (#[trigger] self.entries()[i]).wf()
    }

    proof fn lemma_lookup_update(
        pre: Seq<FileEntry>,
        post: Seq<FileEntry>,
        i: int,
        name: Seq<char>,
    )
        requires
            pre.len() == post.len(),
            0 <= i < pre.len(),
            pre[i].name_spec() == name,
            post[i].name_spec() == name,
            forall|j: int| 0 <= j < pre.len() && j != i ==> post[j] == pre[j],
            forall|j: int| 0 <= j < i ==> (#[trigger] pre[j].name_spec()) != name,
        ensures
            sfs_lookup(post, name) == Some(post[i]),
            forall|k: Seq<char>| k != name
                ==> #[trigger] sfs_lookup(post, k) == sfs_lookup(pre, k),
        decreases pre.len(),
    {
        if i == 0 {
            assert forall|k: Seq<char>| k != name
                implies #[trigger] sfs_lookup(post, k) == sfs_lookup(pre, k) by {
                assert(post.drop_first() =~= pre.drop_first());
            }
        } else {
            Self::lemma_lookup_update(pre.drop_first(), post.drop_first(), i - 1, name);
            assert(post[0] == pre[0]);
            assert(pre[0].name_spec() != name);
            assert(post.drop_first()[i - 1] == post[i]);
            assert forall|k: Seq<char>| k != name
                implies #[trigger] sfs_lookup(post, k) == sfs_lookup(pre, k) by {
                assert(sfs_lookup(post.drop_first(), k)
                    == sfs_lookup(pre.drop_first(), k));
            }
        }
    }

    proof fn lemma_lookup_push(pre: Seq<FileEntry>, e: FileEntry, name: Seq<char>)
        requires
            e.name_spec() == name,
            forall|j: int| 0 <= j < pre.len() ==> (#[trigger] pre[j].name_spec()) != name,
        ensures
            sfs_lookup(pre.push(e), name) == Some(e),
            forall|k: Seq<char>| k != name
                ==> #[trigger] sfs_lookup(pre.push(e), k) == sfs_lookup(pre, k),
        decreases pre.len(),
    {
        if pre.len() == 0 {
            assert(pre.push(e)[0] == e);
            assert forall|k: Seq<char>| k != name
                implies #[trigger] sfs_lookup(pre.push(e), k) == sfs_lookup(pre, k) by {
                assert(pre.push(e).drop_first() =~= Seq::<FileEntry>::empty());
                assert(sfs_lookup(Seq::<FileEntry>::empty(), k) is None);
                assert(sfs_lookup(pre, k) is None);
                assert(sfs_lookup(pre.push(e), k) is None);
            }
        } else {
            assert forall|j: int| 0 <= j < pre.drop_first().len()
                implies (#[trigger] pre.drop_first()[j].name_spec()) != name by {
                assert(pre[j + 1].name_spec() != name);
            }
            Self::lemma_lookup_push(pre.drop_first(), e, name);
            assert(pre.push(e)[0] == pre[0]);
            assert(pre.push(e).drop_first() =~= pre.drop_first().push(e));
            assert(pre[0].name_spec() != name);
            assert(sfs_lookup(pre.push(e), name) == Some(e));
            assert forall|k: Seq<char>| k != name
                implies #[trigger] sfs_lookup(pre.push(e), k)
                    == sfs_lookup(pre, k) by {
                assert(sfs_lookup(pre.drop_first().push(e), k)
                    == sfs_lookup(pre.drop_first(), k));
            }
        }
    }

    proof fn lemma_lookup_remove(pre: Seq<FileEntry>, i: int, name: Seq<char>)
        requires
            0 <= i < pre.len(),
            pre[i].name_spec() == name,
            forall|a: int, b: int| 0 <= a < b < pre.len()
                ==> (#[trigger] pre[a].name_spec()) != (#[trigger] pre[b].name_spec()),
        ensures
            sfs_lookup(pre.remove(i), name) is None,
            forall|k: Seq<char>| k != name
                ==> #[trigger] sfs_lookup(pre.remove(i), k) == sfs_lookup(pre, k),
        decreases pre.len(),
    {
        if i == 0 {
            assert(pre.remove(0) =~= pre.drop_first());
            assert forall|j: int| 0 <= j < pre.drop_first().len()
                implies (#[trigger] pre.drop_first()[j].name_spec()) != name by {
                assert(pre[0].name_spec() != pre[j + 1].name_spec());
            }
            Self::lemma_lookup_absent(pre.drop_first(), name);
        } else {
            assert forall|a: int, b: int| 0 <= a < b < pre.drop_first().len()
                implies (#[trigger] pre.drop_first()[a].name_spec())
                    != (#[trigger] pre.drop_first()[b].name_spec()) by {
                assert(pre[a + 1].name_spec() != pre[b + 1].name_spec());
            }
            assert(pre.drop_first()[i - 1].name_spec() == name);
            Self::lemma_lookup_remove(pre.drop_first(), i - 1, name);
            assert(pre.remove(i)[0] == pre[0]);
            assert(pre.remove(i).drop_first() =~= pre.drop_first().remove(i - 1));
            assert(pre[0].name_spec() != name) by {
                assert(pre[0].name_spec() != pre[i].name_spec());
            }
            assert(sfs_lookup(pre.remove(i), name) is None);
            assert forall|k: Seq<char>| k != name
                implies #[trigger] sfs_lookup(pre.remove(i), k)
                    == sfs_lookup(pre, k) by {
                assert(sfs_lookup(pre.drop_first().remove(i - 1), k)
                    == sfs_lookup(pre.drop_first(), k));
            }
        }
    }

    proof fn lemma_lookup_absent(es: Seq<FileEntry>, name: Seq<char>)
        requires
            forall|j: int| 0 <= j < es.len() ==> (#[trigger] es[j].name_spec()) != name,
        ensures
            sfs_lookup(es, name) is None,
        decreases es.len(),
    {
        if es.len() > 0 {
            assert forall|j: int| 0 <= j < es.drop_first().len()
                implies (#[trigger] es.drop_first()[j].name_spec()) != name by {
                assert(es[j + 1].name_spec() != name);
            }
            Self::lemma_lookup_absent(es.drop_first(), name);
        }
    }

    /// Finds the index of a name.
    fn find_name(&self, name: &str) -> (r: Option<usize>)
        ensures
            match r {
                Some(i) => i < self.entries().len()
                    && self.entries()[i as int].name_spec() == name@
                    && sfs_lookup(self.entries(), name@)
                        == Some(self.entries()[i as int])
                    && forall|j: int| 0 <= j < i
                        ==> (#[trigger] self.entries()[j].name_spec()) != name@,
                None => sfs_lookup(self.entries(), name@) is None
                    && forall|j: int| 0 <= j < self.entries().len()
                        ==> (#[trigger] self.entries()[j].name_spec()) != name@,
            },
    {
        let n = self.files.len();
        let mut i: usize = 0;
        proof {
            assert(self.entries().skip(0) =~= self.entries());
        }
        while i < n
            invariant
                n == self.entries().len(),
                i <= n,
                sfs_lookup(self.entries(), name@)
                    == sfs_lookup(self.entries().skip(i as int), name@),
                forall|j: int| 0 <= j < i
                    ==> (#[trigger] self.entries()[j].name_spec()) != name@,
            decreases n - i,
        {
            proof {
                assert(self.entries().skip(i as int)[0] == self.entries()[i as int]);
                assert(self.entries().skip(i as int).drop_first()
                    =~= self.entries().skip(i + 1));
            }
            if str_eq(self.files[i].name.as_str(), name) {
                return Some(i);
            }
            i = i + 1;
        }
        proof {
            assert(self.entries().skip(n as int) =~= Seq::<FileEntry>::empty());
        }
        None
    }

    /// The parent directory name of `path`.
    fn parent_of_name(path: &str) -> (r: String)
        ensures
            r@ == simple_parent(path@),
    {
        proof {
            lemma_last_slash_general(path@);
        }
        let n = path.unicode_len();
        let mut k: usize = n;
        while k > 0 && path.get_char(k - 1) != '/'
            invariant
                n == path@.len(),
                k <= n,
                forall|j: int| k <= j < n ==> path@[j] != '/',
                last_slash_index(path@) < k,
                -1 <= last_slash_index(path@) < n,
                last_slash_index(path@) >= 0
                    ==> path@[last_slash_index(path@)] == '/',
                forall|j: int| last_slash_index(path@) < j < n ==> path@[j] != '/',
            decreases k,
        {
            k = k - 1;
        }
        if k <= 1 {
            proof {
                if k == 1 {
                    assert(path@[0] == '/');
                    assert(last_slash_index(path@) == 0);
                } else {
                    assert(last_slash_index(path@) == -1);
                }
            }
            String::new()
        } else {
            proof {
                assert(path@[k - 1] == '/');
                assert(last_slash_index(path@) == k - 1);
            }
            let r = path.substring_char(0, k - 1).to_owned();
            proof {
                assert(r@ =~= simple_parent(path@));
            }
            r
        }
    }

    /// A fresh filesystem on `device`, holding the root, the standard
    /// top-level directories, and a version file.
    pub fn new(device: RamDisk) -> (r: Result<SimpleFileSystem, &'static str>)
        ensures
            match r {
                Ok(fs) => {
                    &&& fs.wf()
                    &&& sfs_lookup(fs.entries(), "/"@) matches Some(e)
                        && e.is_directory_spec()
                    &&& sfs_lookup(fs.entries(), "/home"@) matches Some(e)
                        && e.is_directory_spec()
                    &&& sfs_lookup(fs.entries(), "/bin"@) matches Some(e)
                        && e.is_directory_spec()
                    &&& sfs_lookup(fs.entries(), "/etc"@) matches Some(e)
                        && e.is_directory_spec()
                    &&& sfs_lookup(fs.entries(), "/etc/version"@) matches Some(e)
                        && !e.is_directory_spec() && e.content_spec().len() == 11
                },
                Err(_) => false,
            },
    {
        let mut fs = SimpleFileSystem { device, files: Vec::new() };
        let root = FileEntry::new_directory("/");
        fs.files.push(root);
        proof {
            reveal_strlit("/");
            reveal_strlit("/home");
            reveal_strlit("/bin");
            reveal_strlit("/etc");
            reveal_strlit("/etc/version");
            assert("/"@.len() == 1);
            assert("/home"@.len() == 5);
            assert("/bin"@.len() == 4);
            assert("/etc"@.len() == 4);
            assert("/etc/version"@.len() == 12);
            assert("/bin"@[0] == '/' && "/bin"@[1] == 'b' && "/bin"@[2] == 'i'
                && "/bin"@[3] == 'n');
            assert("/etc"@[0] == '/' && "/etc"@[1] == 'e' && "/etc"@[2] == 't'
                && "/etc"@[3] == 'c');
            assert("/home"@[0] == '/' && "/home"@[1] == 'h' && "/home"@[2] == 'o'
                && "/home"@[3] == 'm' && "/home"@[4] == 'e');
            assert("/etc/version"@[4] == '/' && "/etc/version"@[5] == 'v'
                && "/etc/version"@[6] == 'e' && "/etc/version"@[7] == 'r'
                && "/etc/version"@[8] == 's' && "/etc/version"@[9] == 'i'
                && "/etc/version"@[10] == 'o' && "/etc/version"@[11] == 'n');
            assert("/etc/version"@[0] == '/' && "/etc/version"@[1] == 'e'
                && "/etc/version"@[2] == 't' && "/etc/version"@[3] == 'c');
            assert(simple_parent("/home"@) =~= Seq::<char>::empty()) by {
                lemma_last_slash_general("/home"@);
                assert(last_slash_index("/home"@) == 0) by {
                    if last_slash_index("/home"@) > 0 {
                        assert("/home"@[last_slash_index("/home"@)] == '/');
                    }
                }
            }
            assert(simple_parent("/bin"@) =~= Seq::<char>::empty()) by {
                lemma_last_slash_general("/bin"@);
                assert(last_slash_index("/bin"@) == 0) by {
                    if last_slash_index("/bin"@) > 0 {
                        assert("/bin"@[last_slash_index("/bin"@)] == '/');
                    }
                }
            }
            assert(simple_parent("/etc"@) =~= Seq::<char>::empty()) by {
                lemma_last_slash_general("/etc"@);
                assert(last_slash_index("/etc"@) == 0) by {
                    if last_slash_index("/etc"@) > 0 {
                        assert("/etc"@[last_slash_index("/etc"@)] == '/');
                    }
                }
            }
            assert(simple_parent("/etc/version"@) =~= "/etc"@) by {
                lemma_last_slash_general("/etc/version"@);
                assert(last_slash_index("/etc/version"@) == 4) by {
                    if last_slash_index("/etc/version"@) > 4 {
                        assert("/etc/version"@[last_slash_index("/etc/version"@)]
                            == '/');
                    }
                }
            }
            assert(fs.entries()[0].name_spec() == "/"@);
            assert(sfs_lookup(fs.entries(), "/"@) == Some(fs.entries()[0]));
            assert(fs.wf());
            assert(fs.entries().drop_first() =~= Seq::<FileEntry>::empty());
            assert(sfs_lookup(Seq::<FileEntry>::empty(), "/home"@) is None);
            assert(sfs_lookup(Seq::<FileEntry>::empty(), "/bin"@) is None);
            assert(sfs_lookup(Seq::<FileEntry>::empty(), "/etc"@) is None);
            assert(sfs_lookup(Seq::<FileEntry>::empty(), "/etc/version"@) is None);
            assert(sfs_lookup(fs.entries(), "/home"@) is None);
            assert(sfs_lookup(fs.entries(), "/bin"@) is None);
            assert(sfs_lookup(fs.entries(), "/etc"@) is None);
            assert(sfs_lookup(fs.entries(), "/etc/version"@) is None);
        }
        let r1 = fs.mkdir("/home");
        let r2 = fs.mkdir("/bin");
        let r3 = fs.mkdir("/etc");
        let version: [u8; 11] = [66, 101, 97, 114, 79, 83, 32, 118, 48, 46, 49];
        let r4 = fs.write_file("/etc/version", version.as_slice());
        proof {
            assert(r1 is Ok);
            assert(r2 is Ok);
            assert(r3 is Ok);
            assert(r4 is Ok);
        }
        match (r1, r2, r3, r4) {
            (Ok(_), Ok(_), Ok(_), Ok(_)) => Ok(fs),
            _ => Err("Failed to initialize the filesystem"),
        }
    }

    /// Creates a directory entry.  The name must be new and its parent
    /// (when the name has one) must already exist.
    pub fn mkdir(&mut self, path: &str) -> (r: Result<(), &'static str>)
        requires
            old(self).wf(),
        ensures
            final(self).wf(),
            match r {
                Ok(_) => {
                    &&& sfs_lookup(old(self).entries(), path@) is None
                    &&& (simple_parent(path@).len() == 0
                        || sfs_lookup(old(self).entries(), simple_parent(path@)) is Some)
                    &&& sfs_lookup(final(self).entries(), path@) matches Some(e)
                        && e.is_directory_spec() && e.name_spec() == path@
                    &&& forall|k: Seq<char>| k != path@
                        ==> #[trigger] sfs_lookup(final(self).entries(), k)
                            == sfs_lookup(old(self).entries(), k)
                },
                Err(e) => {
                    &&& final(self).entries() == old(self).entries()
                    &&& (e@ == "Directory already exists"@
                        || e@ == "Parent directory does not exist"@)
                    &&& (e@ == "Directory already exists"@
                        <==> sfs_lookup(old(self).entries(), path@) is Some)
                    &&& (e@ == "Parent directory does not exist"@
                        <==> sfs_lookup(old(self).entries(), path@) is None
                            && simple_parent(path@).len() != 0
                            && sfs_lookup(old(self).entries(),
                                simple_parent(path@)) is None)
                },
            },
    {
        proof {
            reveal_strlit("Directory already exists");
            reveal_strlit("Parent directory does not exist");
            assert("Directory already exists"@.len() == 24);
            assert("Parent directory does not exist"@.len() == 31);
        }
        if self.find_name(path).is_some() {
            return Err("Directory already exists");
        }
        let parent = Self::parent_of_name(path);
        if parent.as_str().unicode_len() != 0 {
            if self.find_name(parent.as_str()).is_none() {
                return Err("Parent directory does not exist");
            }
        }
        let entry = FileEntry::new_directory(path);
        proof {
            Self::lemma_lookup_push(self.entries(), entry, path@);
        }
        self.files.push(entry);
        proof {
            assert(final(self).wf()) by {
                let ns = self.entries();
                let os = old(self).entries();
                assert forall|a: int, b: int| 0 <= a < b < ns.len()
                    implies (#[trigger] ns[a].name_spec())
                        != (#[trigger] ns[b].name_spec()) by {
                    assert(ns[a] == os[a]);
                    if b < os.len() {
                        assert(ns[b] == os[b]);
                    }
                }
                assert forall|a: int| 0 <= a < ns.len()
                    implies (#[trigger] ns[a]).wf() by {
                    if a < os.len() {
                        assert(ns[a] == os[a]);
                    }
                }
            }
        }
        Ok(())
    }

    /// Creates or overwrites a file with `content`; the parent (when the
    /// name has one) must already exist.
    pub fn write_file(&mut self, path: &str, content: &[u8])
        -> (r: Result<(), &'static str>)
        requires
            old(self).wf(),
        ensures
            final(self).wf(),
            match r {
                Ok(_) => {
                    &&& (simple_parent(path@).len() == 0
                        || sfs_lookup(old(self).entries(), simple_parent(path@)) is Some)
                    &&& sfs_lookup(final(self).entries(), path@) matches Some(e)
                        && !e.is_directory_spec() && e.name_spec() == path@
                        && e.content_spec() == content@
                    &&& forall|k: Seq<char>| k != path@
                        ==> #[trigger] sfs_lookup(final(self).entries(), k)
                            == sfs_lookup(old(self).entries(), k)
                },
                Err(e) => {
                    &&& final(self).entries() == old(self).entries()
                    &&& e@ == "Parent directory does not exist"@
                    &&& simple_parent(path@).len() != 0
                    &&& sfs_lookup(old(self).entries(), simple_parent(path@)) is None
                },
            },
    {
        let parent = Self::parent_of_name(path);
        if parent.as_str().unicode_len() != 0 {
            if self.find_name(parent.as_str()).is_none() {
                return Err("Parent directory does not exist");
            }
        }
        let mut entry = FileEntry::new_file(path);
        entry.write(content);
        match self.find_name(path) {
            Some(i) => {
                proof {
                    assert(old(self).entries()[i as int].name_spec() == path@);
                }
                self.files[i] = entry;
                proof {
                    Self::lemma_lookup_update(old(self).entries(),
                        final(self).entries(), i as int, path@);
                    assert(final(self).wf()) by {
                        let ns = self.entries();
                        let os = old(self).entries();
                        assert forall|a: int, b: int| 0 <= a < b < ns.len()
                            implies (#[trigger] ns[a].name_spec())
                                != (#[trigger] ns[b].name_spec()) by {
                            assert(os[a].name_spec() != os[b].name_spec());
                        }
                        assert forall|a: int| 0 <= a < ns.len()
                            implies (#[trigger] ns[a]).wf() by {
                            if a != i as int {
                                assert(ns[a] == os[a]);
                            }
                        }
                    }
                }
            },
            None => {
                proof {
                    Self::lemma_lookup_push(self.entries(), entry, path@);
                }
                self.files.push(entry);
                proof {
                    assert(final(self).wf()) by {
                        let ns = self.entries();
                        let os = old(self).entries();
                        assert forall|a: int, b: int| 0 <= a < b < ns.len()
                            implies (#[trigger] ns[a].name_spec())
                                != (#[trigger] ns[b].name_spec()) by {
                            assert(ns[a] == os[a]);
                            if b < os.len() {
                                assert(ns[b] == os[b]);
                            }
                        }
                        assert forall|a: int| 0 <= a < ns.len()
                            implies (#[trigger] ns[a]).wf() by {
                            if a < os.len() {
                                assert(ns[a] == os[a]);
                            }
                        }
                    }
                }
            },
        }
        Ok(())
    }

    /// The content of the file named `path`.
    pub fn read_file(&self, path: &str) -> (r: Result<&Vec<u8>, &'static str>)
        ensures
            match r {
                Ok(v) => sfs_lookup(self.entries(), path@) matches Some(e)
                    && !e.is_directory_spec() && v@ == e.content_spec(),
                Err(e) => {
                    &&& (e@ == "Path is a directory"@ || e@ == "File not found"@)
                    &&& (e@ == "Path is a directory"@
                        <==> (sfs_lookup(self.entries(), path@) matches Some(en)
                            && en.is_directory_spec()))
                    &&& (e@ == "File not found"@
                        <==> sfs_lookup(self.entries(), path@) is None)
                },
            },
    {
        proof {
            reveal_strlit("Path is a directory");
            reveal_strlit("File not found");
            assert("Path is a directory"@.len() == 19);
            assert("File not found"@.len() == 14);
        }
        match self.find_name(path) {
            Some(i) => {
                if self.files[i].is_directory() {
                    Err("Path is a directory")
                } else {
                    Ok(self.files[i].content())
                }
            },
            None => Err("File not found"),
        }
    }

    /// The full names of the direct children of the directory `path`.
    pub fn list_directory(&self, path: &str) -> (r: Result<Vec<String>, &'static str>)
        requires
            self.wf(),
        ensures
            match r {
                Ok(v) => {
                    &&& sfs_lookup(self.entries(), path@) matches Some(e)
                        && e.is_directory_spec()
                    &&& forall|a: int| 0 <= a < v@.len()
                        ==> sfs_lookup(self.entries(), (#[trigger] v@[a])@) is Some
                            && simple_child_of(v@[a]@, path@)
                    &&& forall|a: int, b: int| 0 <= a < b < v@.len()
                        ==> (#[trigger] v@[a])@ != (#[trigger] v@[b])@
                    &&& forall|j: int|
                        0 <= j < self.entries().len()
                            && simple_child_of(
                                (#[trigger] self.entries()[j]).name_spec(), path@)
                            ==> exists|a: int|
                                0 <= a < v@.len()
                                    && (#[trigger] v@[a])@
                                        == self.entries()[j].name_spec()
                },
                Err(e) => {
                    &&& (e@ == "Path is not a directory"@
                        || e@ == "Directory not found"@)
                    &&& (e@ == "Path is not a directory"@
                        <==> (sfs_lookup(self.entries(), path@) matches Some(en)
                            && !en.is_directory_spec()))
                    &&& (e@ == "Directory not found"@
                        <==> sfs_lookup(self.entries(), path@) is None)
                },
            },
    {
        proof {
            reveal_strlit("Path is not a directory");
            reveal_strlit("Directory not found");
            assert("Path is not a directory"@.len() == 23);
            assert("Directory not found"@.len() == 19);
        }
        let found = match self.find_name(path) {
            Some(i) => i,
            None => {
                return Err("Directory not found");
            },
        };
        if !self.files[found].is_directory() {
            return Err("Path is not a directory");
        }
        // the directory name followed by a slash
        let plen = path.unicode_len();
        let mut pw = String::new();
        crate::strutil::append_str(&mut pw, path);
        if plen == 0 || path.get_char(plen - 1) != '/' {
            crate::strutil::push_char(&mut pw, '/');
        }
        let ghost pws = if path@.len() > 0 && path@.last() == '/' {
            path@
        } else {
            path@ + seq!['/']
        };
        proof {
            assert(pw@ =~= pws);
        }
        let pwlen = pw.as_str().unicode_len();
        let n = self.files.len();
        let mut out: Vec<String> = Vec::new();
        let ghost mut idxs: Seq<int> = Seq::empty();
        let mut j: usize = 0;
        while j < n
            invariant
                self.wf(),
                n == self.entries().len(),
                j <= n,
                pw@ == pws,
                pws == if path@.len() > 0 && path@.last() == '/' {
                    path@
                } else {
                    path@ + seq!['/']
                },
                pwlen == pws.len(),
                out@.len() == idxs.len(),
                forall|a: int, b: int|
                    0 <= a < b < idxs.len() ==> #[trigger] idxs[a] != #[trigger] idxs[b],
                forall|a: int| 0 <= a < idxs.len() ==> 0 <= #[trigger] idxs[a] < j,
                forall|a: int| 0 <= a < idxs.len()
                    ==> (#[trigger] out@[a])@ == self.entries()[idxs[a]].name_spec()
                        && simple_child_of(out@[a]@, path@),
                forall|jj: int|
                    0 <= jj < j && simple_child_of(
                        (#[trigger] self.entries()[jj]).name_spec(), path@)
                        ==> exists|a: int| 0 <= a < idxs.len() && idxs[a] == jj,
            decreases n - j,
        {
            let name = &self.files[j].name;
            let nlen = name.as_str().unicode_len();
            let is_child = !str_eq(name.as_str(), path)
                && str_is_prefix(pw.as_str(), name.as_str())
                && {
                    let sfx = name.as_str().substring_char(pwlen, nlen);
                    find_char(sfx, '/').is_none()
                };
            proof {
                let k = self.entries()[j as int].name_spec();
                if pws.is_prefix_of(k) {
                    assert(k.subrange(pwlen as int, nlen as int)
                        =~= k.skip(pwlen as int));
                    assert forall|m: int| pwlen <= m < k.len() && is_child
                        implies k[m] != '/' by {
                        assert(k.skip(pwlen as int)[m - pwlen] == k[m]);
                    }
                    if !is_child && k != path@
                        && (forall|m: int| pwlen <= m < k.len() ==> k[m] != '/') {
                        assert forall|m: int| 0 <= m < k.skip(pwlen as int).len()
                            implies k.skip(pwlen as int)[m] != '/' by {
                            assert(k.skip(pwlen as int)[m] == k[m + pwlen]);
                        }
                    }
                }
            }
            if is_child {
                let ghost idxs0 = idxs;
                out.push(name.clone());
                proof {
                    idxs = idxs.push(j as int);
                    assert(idxs[idxs.len() - 1] == j as int);
                    assert forall|jj: int|
                        0 <= jj < j + 1 && simple_child_of(
                            (#[trigger] self.entries()[jj]).name_spec(), path@)
                        implies exists|a: int|
                            0 <= a < idxs.len() && idxs[a] == jj by {
                        if jj == j as int {
                            assert(idxs[idxs.len() - 1] == jj);
                        } else {
                            let a = choose|a: int|
                                0 <= a < idxs0.len() && #[trigger] idxs0[a] == jj;
                            assert(idxs[a] == jj);
                        }
                    }
                }
            } else {
                proof {
                    let idxs0 = idxs;
                    assert forall|jj: int|
                        0 <= jj < j + 1 && simple_child_of(
                            (#[trigger] self.entries()[jj]).name_spec(), path@)
                        implies exists|a: int|
                            0 <= a < idxs.len() && idxs[a] == jj by {
                        let a = choose|a: int|
                            0 <= a < idxs0.len() && #[trigger] idxs0[a] == jj;
                        assert(idxs[a] == jj);
                    }
                }
            }
            j = j + 1;
        }
        proof {
            assert forall|a: int| 0 <= a < out@.len()
                implies sfs_lookup(self.entries(), (#[trigger] out@[a])@) is Some
                    && simple_child_of(out@[a]@, path@) by {
                Self::lemma_lookup_index(self.entries(), idxs[a]);
            }
            assert forall|a: int, b: int| 0 <= a < b < out@.len()
                implies (#[trigger] out@[a])@ != (#[trigger] out@[b])@ by {
                assert(self.entries()[idxs[a]].name_spec()
                    != self.entries()[idxs[b]].name_spec());
            }
            assert forall|jj: int|
                0 <= jj < self.entries().len()
                    && simple_child_of(
                        (#[trigger] self.entries()[jj]).name_spec(), path@)
                implies exists|a: int|
                    0 <= a < out@.len()
                        && (#[trigger] out@[a])@
                            == self.entries()[jj].name_spec() by {
                let a = choose|a: int| 0 <= a < idxs.len() && #[trigger] idxs[a] == jj;
                assert(out@[a]@ == self.entries()[jj].name_spec());
            }
        }
        Ok(out)
    }

    proof fn lemma_lookup_index(es: Seq<FileEntry>, i: int)
        requires
            0 <= i < es.len(),
        ensures
            sfs_lookup(es, es[i].name_spec()) is Some,
        decreases es.len(),
    {
        if i > 0 && es[0].name_spec() != es[i].name_spec() {
            assert(es.drop_first()[i - 1] == es[i]);
            Self::lemma_lookup_index(es.drop_first(), i - 1);
        }
    }

    /// Removes a file, or a directory with nothing below it.  The root
    /// cannot be removed.
    pub fn delete(&mut self, path: &str) -> (r: Result<(), &'static str>)
        requires
            old(self).wf(),
        ensures
            final(self).wf(),
            match r {
                Ok(_) => {
                    &&& sfs_lookup(old(self).entries(), path@) is Some
                    &&& sfs_lookup(final(self).entries(), path@) is None
                    &&& forall|k: Seq<char>| k != path@
                        ==> #[trigger] sfs_lookup(final(self).entries(), k)
                            == sfs_lookup(old(self).entries(), k)
                },
                Err(e) => {
                    &&& final(self).entries() == old(self).entries()
                    &&& (e@ == "Cannot delete root directory"@
                        || e@ == "Directory not empty"@
                        || e@ == "File or directory not found"@)
                    &&& (e@ == "Cannot delete root directory"@ ==> path@ == "/"@)
                    &&& (e@ == "Directory not empty"@
                        ==> (sfs_lookup(old(self).entries(), path@) matches Some(en)
                            && en.is_directory_spec())
                            && exists|j: int|
                                0 <= j < old(self).entries().len()
                                    && simple_descendant_of(
                                        (#[trigger] old(self).entries()[j]).name_spec(),
                                        path@))
                    &&& (e@ == "File or directory not found"@
                        ==> sfs_lookup(old(self).entries(), path@) is None)
                },
            },
    {
        proof {
            reveal_strlit("/");
            reveal_strlit("Cannot delete root directory");
            reveal_strlit("Directory not empty");
            reveal_strlit("File or directory not found");
            assert("Cannot delete root directory"@.len() == 28);
            assert("Directory not empty"@.len() == 19);
            assert("File or directory not found"@.len() == 27);
        }
        if str_eq(path, "/") {
            return Err("Cannot delete root directory");
        }
        let i = match self.find_name(path) {
            Some(i) => i,
            None => {
                return Err("File or directory not found");
            },
        };
        if self.files[i].is_directory() {
            // a directory with anything below it stays
            let plen = path.unicode_len();
            let mut pw = String::new();
            crate::strutil::append_str(&mut pw, path);
            if plen == 0 || path.get_char(plen - 1) != '/' {
                crate::strutil::push_char(&mut pw, '/');
            }
            let ghost pws = if path@.len() > 0 && path@.last() == '/' {
                path@
            } else {
                path@ + seq!['/']
            };
            proof {
                assert(pw@ =~= pws);
            }
            let n = self.files.len();
            let mut j: usize = 0;
            while j < n
                invariant
                    self.wf(),
                    *self == *old(self),
                    n == self.entries().len(),
                    j <= n,
                    i < n,
                    pw@ == pws,
                    pws == if path@.len() > 0 && path@.last() == '/' {
                        path@
                    } else {
                        path@ + seq!['/']
                    },
                    sfs_lookup(self.entries(), path@)
                        == Some(self.entries()[i as int]),
                    self.entries()[i as int].is_directory_spec(),
                    forall|jj: int| 0 <= jj < j
                        ==> !simple_descendant_of(
                            (#[trigger] self.entries()[jj]).name_spec(), path@),
                decreases n - j,
            {
                if !str_eq(self.files[j].name.as_str(), path)
                    && str_is_prefix(pw.as_str(), self.files[j].name.as_str()) {
                    proof {
                        reveal_strlit("Cannot delete root directory");
                        reveal_strlit("Directory not empty");
                        reveal_strlit("File or directory not found");
                        assert("Cannot delete root directory"@.len() == 28);
                        assert("Directory not empty"@.len() == 19);
                        assert("File or directory not found"@.len() == 27);
                        assert(simple_descendant_of(
                            self.entries()[j as int].name_spec(), path@));
                    }
                    return Err("Directory not empty");
                }
                j = j + 1;
            }
        }
        proof {
            Self::lemma_lookup_remove(old(self).entries(), i as int, path@);
        }
        self.files.remove(i);
        proof {
            assert(final(self).wf()) by {
                let ns = self.entries();
                let os = old(self).entries();
                assert forall|a: int, b: int| 0 <= a < b < ns.len()
                    implies (#[trigger] ns[a].name_spec())
                        != (#[trigger] ns[b].name_spec()) by {
                    if a < i as int {
                        assert(ns[a] == os[a]);
                    } else {
                        assert(ns[a] == os[a + 1]);
                    }
                    if b < i as int {
                        assert(ns[b] == os[b]);
                    } else {
                        assert(ns[b] == os[b + 1]);
                    }
                }
                assert forall|a: int| 0 <= a < ns.len()
                    implies (#[trigger] ns[a]).wf() by {
                    if a < i as int {
                        assert(ns[a] == os[a]);
                    } else {
                        assert(ns[a] == os[a + 1]);
                    }
                }
            }
        }
        Ok(())
    }

    /// Persisting to the block device is not yet implemented; the call is
    /// accepted and changes nothing.
    pub fn sync(&self) -> (r: Result<(), &'static str>)
        ensures
            r is Ok,
    {
        Ok(())
    }
}

} // verus!
