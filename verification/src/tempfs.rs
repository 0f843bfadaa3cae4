//! In-memory filesystem.  A flat table maps canonical absolute paths to
//! nodes; every lookup goes through path canonicalization, so equivalent
//! spellings of a path reach the same entry.  Directory contents are the
//! table entries whose parent path is the directory.

use vstd::prelude::*;
use crate::errors::KernelError;
use crate::path::{
    basename_of, canon, canon_path, canon_wf, is_ancestor_path, join, lemma_ancestor_facts,
    lemma_canon_wf, lemma_join_wf, lemma_parent_basename,
    parent_of, root_path, split_parent,
};
use crate::strutil::str_eq;
use crate::vfs::{DirEntry, FileHandle, Metadata, NodeType, FLAG_READ, FLAG_WRITE};

verus! {

/// The bytes of a file after writing `b` at offset `o`: the file is
/// zero-extended up to `o` first, then `b` overwrites or extends it.
pub open spec fn file_write(d: Seq<u8>, o: nat, b: Seq<u8>) -> Seq<u8> {
    let padded = if o > d.len() {
        d + Seq::new((o - d.len()) as nat, |i: int| 0u8)
    } else {
        d
    };
    let n = if padded.len() > o + b.len() {
        padded.len()
    } else {
        o + b.len()
    };
    Seq::new(n as nat, |i: int|
        if o <= i < o + b.len() {
            b[i - o]
        } else {
            padded[i]
        })
}

/// The bytes an offset read returns: up to `len` bytes starting at `o`,
/// empty at or past the end of the file.
pub open spec fn file_read(d: Seq<u8>, o: nat, len: nat) -> Seq<u8> {
    if o >= d.len() {
        Seq::empty()
    } else if o + len <= d.len() {
        d.subrange(o as int, (o + len) as int)
    } else {
        d.subrange(o as int, d.len() as int)
    }
}

/// Writing bytes `b` to an empty file at offset zero and reading `b.len()`
/// bytes back from offset zero returns exactly `b`.
pub proof fn lemma_write_read_round_trip(b: Seq<u8>)
    ensures
        file_read(file_write(Seq::empty(), 0, b), 0, b.len()) == b,
{
    assert(file_write(Seq::empty(), 0, b) =~= b);
    if b.len() > 0 {
        assert(file_read(b, 0, b.len()) =~= b);
    }
}

/// Writing at an offset past the end of the file zero-fills the gap: the
/// old bytes keep their values, every byte of the gap is zero, and a read
/// of the gap returns exactly those zeros.
pub proof fn lemma_sparse_write_zero_fill(d: Seq<u8>, o: nat, b: Seq<u8>)
    requires
        o > d.len(),
    ensures
        file_write(d, o, b).len() == o + b.len(),
        file_write(d, o, b).subrange(0, d.len() as int) == d,
        forall|i: int| d.len() <= i < o ==> file_write(d, o, b)[i] == 0u8,
        file_read(file_write(d, o, b), d.len(), (o - d.len()) as nat)
            == Seq::new((o - d.len()) as nat, |i: int| 0u8),
        forall|i: int| 0 <= i < b.len() ==> file_write(d, o, b)[o + i] == b[i],
{
    let w = file_write(d, o, b);
    assert(w.subrange(0, d.len() as int) =~= d);
    if d.len() < w.len() {
        assert(file_read(w, d.len(), (o - d.len()) as nat)
            =~= Seq::new((o - d.len()) as nat, |i: int| 0u8));
    }
}

/// What making sure a directory path exists does to the table: nothing
/// when a directory already stands at the canonical path; otherwise every
/// missing ancestor appears as a fresh directory.  An existing file at the
/// path or at any ancestor is `NotADirectory`; a table whose identifier
/// space is exhausted may stop part-way with `OutOfMemory`.
pub open spec fn ensure_path_post(
    pre: Map<Seq<char>, TempNodeView>,
    post: Map<Seq<char>, TempNodeView>,
    path: Seq<char>,
    r: Result<(), KernelError>,
) -> bool {
    match r {
        Ok(_) => {
            if pre.contains_key(canon(path)) {
                pre[canon(path)].is_dir && post == pre
            } else {
                &&& forall|q: Seq<char>|
                    #[trigger] post.contains_key(q)
                        <==> pre.contains_key(q) || is_ancestor_path(q, canon(path))
                &&& forall|q: Seq<char>|
                    #[trigger] pre.contains_key(q) ==> post[q] == pre[q]
                &&& forall|q: Seq<char>|
                    #[trigger] post.contains_key(q) && !pre.contains_key(q)
                        ==> post[q].is_dir && post[q].meta == Metadata::directory_spec()
                &&& forall|q: Seq<char>|
                    is_ancestor_path(q, canon(path)) ==> #[trigger] post[q].is_dir
            }
        },
        Err(KernelError::NotADirectory) => {
            &&& post == pre
            &&& exists|q: Seq<char>|
                is_ancestor_path(q, canon(path)) && #[trigger] pre.contains_key(q)
                    && !pre[q].is_dir
        },
        Err(KernelError::OutOfMemory) => {
            &&& forall|q: Seq<char>|
                #[trigger] post.contains_key(q)
                    ==> pre.contains_key(q) || is_ancestor_path(q, canon(path))
            &&& forall|q: Seq<char>|
                #[trigger] pre.contains_key(q) ==> post.contains_key(q)
                    && post[q] == pre[q]
            &&& forall|q: Seq<char>|
                #[trigger] post.contains_key(q) && !pre.contains_key(q)
                    ==> post[q].is_dir && post[q].meta == Metadata::directory_spec()
        },
        Err(_) => false,
    }
}

/// What creating a directory does to the table: an existing node at the
/// canonical path, file or directory, is `AlreadyExists`; otherwise every
/// missing ancestor appears as a fresh directory, a file standing at an
/// ancestor is `NotADirectory`, and an exhausted identifier space may stop
/// part-way with `OutOfMemory`.
pub open spec fn create_dir_post(
    pre: Map<Seq<char>, TempNodeView>,
    post: Map<Seq<char>, TempNodeView>,
    path: Seq<char>,
    r: Result<(), KernelError>,
) -> bool {
    match r {
        Ok(_) => {
            &&& !pre.contains_key(canon(path))
            &&& forall|q: Seq<char>|
                #[trigger] post.contains_key(q)
                    <==> pre.contains_key(q) || is_ancestor_path(q, canon(path))
            &&& forall|q: Seq<char>|
                #[trigger] pre.contains_key(q) ==> post[q] == pre[q]
            &&& forall|q: Seq<char>|
                #[trigger] post.contains_key(q) && !pre.contains_key(q)
                    ==> post[q].is_dir && post[q].meta == Metadata::directory_spec()
            &&& forall|q: Seq<char>|
                is_ancestor_path(q, canon(path)) ==> #[trigger] post[q].is_dir
        },
        Err(KernelError::AlreadyExists) => post == pre
            && pre.contains_key(canon(path)),
        Err(KernelError::NotADirectory) => {
            &&& post == pre
            &&& !pre.contains_key(canon(path))
            &&& exists|q: Seq<char>|
                is_ancestor_path(q, canon(path)) && #[trigger] pre.contains_key(q)
                    && !pre[q].is_dir
        },
        Err(KernelError::OutOfMemory) => {
            &&& !pre.contains_key(canon(path))
            &&& forall|q: Seq<char>|
                #[trigger] post.contains_key(q)
                    ==> pre.contains_key(q) || is_ancestor_path(q, canon(path))
            &&& forall|q: Seq<char>|
                #[trigger] pre.contains_key(q) ==> post.contains_key(q)
                    && post[q] == pre[q]
            &&& forall|q: Seq<char>|
                #[trigger] post.contains_key(q) && !pre.contains_key(q)
                    ==> post[q].is_dir && post[q].meta == Metadata::directory_spec()
        },
        Err(_) => false,
    }
}

/// What creating a file does to the table: a fresh empty file node at the
/// canonical path, whose inode no earlier node carries.  The immediate
/// parent must already exist (`NotFound` otherwise) and must be a
/// directory (`NotADirectory` otherwise); an existing node at the path is
/// `AlreadyExists`.
pub open spec fn create_file_post(
    pre: Map<Seq<char>, TempNodeView>,
    post: Map<Seq<char>, TempNodeView>,
    path: Seq<char>,
    r: Result<(), KernelError>,
) -> bool {
    let c = canon(path);
    match r {
        Ok(_) => {
            &&& !pre.contains_key(c)
            &&& pre.contains_key(parent_of(c))
            &&& pre[parent_of(c)].is_dir
            &&& post.dom() == pre.dom().insert(c)
            &&& !post[c].is_dir
            &&& post[c].meta == Metadata::file_spec()
            &&& post[c].data == Seq::<u8>::empty()
            &&& forall|q: Seq<char>|
                #[trigger] pre.contains_key(q) ==> post[q] == pre[q]
            &&& forall|q: Seq<char>|
                #[trigger] pre.contains_key(q) ==> post[c].inode != pre[q].inode
        },
        Err(KernelError::AlreadyExists) => post == pre && pre.contains_key(c),
        Err(KernelError::NotFound) => post == pre && !pre.contains_key(c)
            && !pre.contains_key(parent_of(c)),
        Err(KernelError::NotADirectory) => post == pre && !pre.contains_key(c)
            && pre.contains_key(parent_of(c)) && !pre[parent_of(c)].is_dir,
        Err(KernelError::OutOfMemory) => post == pre,
        Err(_) => false,
    }
}

/// No two nodes of the table share an inode number.
pub open spec fn inodes_distinct(m: Map<Seq<char>, TempNodeView>) -> bool {
    forall|k1: Seq<char>, k2: Seq<char>|
        #[trigger] m.contains_key(k1) && #[trigger] m.contains_key(k2) && k1 != k2
            ==> m[k1].inode != m[k2].inode
}

/// What removing a path does to the table: the node disappears, unless the
/// path is the root, missing, or a directory that still has a child.
pub open spec fn remove_post(
    pre: Map<Seq<char>, TempNodeView>,
    post: Map<Seq<char>, TempNodeView>,
    path: Seq<char>,
    r: Result<(), KernelError>,
) -> bool {
    match r {
        Ok(_) => {
            let c = canon(path);
            &&& c != root_path()
            &&& pre.contains_key(c)
            &&& (pre[c].is_dir ==> !exists|k: Seq<char>|
                #[trigger] pre.contains_key(k) && k != root_path() && parent_of(k) == c)
            &&& post == pre.remove(c)
        },
        Err(KernelError::InvalidOperation) => post == pre && canon(path) == root_path(),
        Err(KernelError::NotFound) => post == pre && canon(path) != root_path()
            && !pre.contains_key(canon(path)),
        Err(KernelError::DirectoryNotEmpty) => {
            let c = canon(path);
            &&& post == pre
            &&& c != root_path()
            &&& pre.contains_key(c)
            &&& pre[c].is_dir
            &&& exists|k: Seq<char>|
                #[trigger] pre.contains_key(k) && k != root_path() && parent_of(k) == c
        },
        Err(_) => false,
    }
}

/// What an offset write does to the table: the file's bytes become
/// `file_write(old bytes, offset, buffer)` and its size follows.
pub open spec fn write_at_post(
    pre: Map<Seq<char>, TempNodeView>,
    post: Map<Seq<char>, TempNodeView>,
    path: Seq<char>,
    offset: nat,
    buffer: Seq<u8>,
    r: Result<usize, KernelError>,
) -> bool {
    match r {
        Ok(n) => {
            let c = canon(path);
            let v = pre[c];
            &&& pre.contains_key(c)
            &&& !v.is_dir
            &&& n == buffer.len()
            &&& post == pre.insert(c, TempNodeView {
                inode: v.inode,
                meta: Metadata { size: file_write(v.data, offset, buffer).len() as u64,
                    ..v.meta },
                is_dir: false,
                data: file_write(v.data, offset, buffer),
            })
        },
        Err(KernelError::NotFound) => post == pre && !pre.contains_key(canon(path)),
        Err(KernelError::NotAFile) => post == pre && pre.contains_key(canon(path))
            && pre[canon(path)].is_dir,
        Err(_) => false,
    }
}

/// What an offset read returns: `file_read` of the file's bytes into the
/// front of the buffer, zero bytes at or past end of file.
pub open spec fn read_at_post(
    m: Map<Seq<char>, TempNodeView>,
    path: Seq<char>,
    offset: nat,
    oldbuf: Seq<u8>,
    newbuf: Seq<u8>,
    r: Result<usize, KernelError>,
) -> bool {
    newbuf.len() == oldbuf.len() && match r {
        Ok(n) => {
            let c = canon(path);
            let d = m[c].data;
            &&& m.contains_key(c)
            &&& !m[c].is_dir
            &&& n as nat == file_read(d, offset, oldbuf.len()).len()
            &&& newbuf == file_read(d, offset, oldbuf.len()) + oldbuf.skip(n as int)
        },
        Err(KernelError::NotFound) => !m.contains_key(canon(path)) && newbuf == oldbuf,
        Err(KernelError::NotAFile) => m.contains_key(canon(path))
            && m[canon(path)].is_dir && newbuf == oldbuf,
        Err(_) => false,
    }
}

/// What opening a path returns: a fresh handle on the file's canonical
/// path, `NotFound` for a missing path, `NotAFile` for a directory.
pub open spec fn open_post(
    m: Map<Seq<char>, TempNodeView>,
    path: Seq<char>,
    write: bool,
    r: Result<FileHandle, KernelError>,
) -> bool {
    match r {
        Ok(h) => {
            &&& m.contains_key(canon(path))
            &&& !m[canon(path)].is_dir
            &&& h.path@ == canon(path)
            &&& h.position == 0
            &&& h.flags == if write { FLAG_WRITE } else { FLAG_READ }
        },
        Err(KernelError::NotFound) => !m.contains_key(canon(path)),
        Err(KernelError::NotAFile) => m.contains_key(canon(path))
            && m[canon(path)].is_dir,
        Err(_) => false,
    }
}

/// What a metadata query returns.
pub open spec fn metadata_post(
    m: Map<Seq<char>, TempNodeView>,
    path: Seq<char>,
    r: Result<Metadata, KernelError>,
) -> bool {
    match r {
        Ok(md) => m.contains_key(canon(path)) && md == m[canon(path)].meta,
        Err(e) => e == KernelError::NotFound && !m.contains_key(canon(path)),
    }
}

/// What a directory listing returns: one row per child of the canonical
/// path, with matching name, kind and inode, no name repeated, and no
/// child missing.
pub open spec fn read_dir_post(
    m: Map<Seq<char>, TempNodeView>,
    path: Seq<char>,
    r: Result<Vec<DirEntry>, KernelError>,
) -> bool {
    match r {
        Ok(v) => {
            let c = canon(path);
            &&& m.contains_key(c)
            &&& m[c].is_dir
            &&& forall|a: int| 0 <= a < v@.len() ==> {
                let k = join(c, (#[trigger] v@[a]).name@);
                &&& crate::path::valid_name(v@[a].name@)
                &&& m.contains_key(k)
                &&& v@[a].inode as nat == m[k].inode
                &&& (v@[a].node_type == NodeType::Directory <==> m[k].is_dir)
                &&& (v@[a].node_type == NodeType::Directory
                    || v@[a].node_type == NodeType::File)
            }
            &&& forall|a: int, b: int|
                0 <= a < b < v@.len()
                    ==> (#[trigger] v@[a]).name@ != (#[trigger] v@[b]).name@
            &&& forall|a: int, b: int|
                0 <= a < b < v@.len()
                    ==> crate::strutil::lex_le((#[trigger] v@[a]).name@,
                        (#[trigger] v@[b]).name@)
            &&& forall|k: Seq<char>|
                #[trigger] m.contains_key(k) && k != root_path() && parent_of(k) == c
                    ==> exists|a: int|
                        0 <= a < v@.len() && (#[trigger] v@[a]).name@ == basename_of(k)
        },
        Err(KernelError::NotFound) => !m.contains_key(canon(path)),
        Err(KernelError::NotADirectory) => m.contains_key(canon(path))
            && !m[canon(path)].is_dir,
        Err(_) => false,
    }
}

/// Whether `k` is `f` itself or lies in the subtree under it.
pub open spec fn subtree_key(f: Seq<char>, k: Seq<char>) -> bool {
    k == f || (k.len() > f.len() && k.take(f.len() as int) == f
        && k[f.len() as int] == '/')
}

/// The key `k` after the subtree under `f` moves under `t`: keys outside
/// the subtree keep their spelling.
pub open spec fn rekey(f: Seq<char>, t: Seq<char>, k: Seq<char>) -> Seq<char> {
    if subtree_key(f, k) {
        t + k.skip(f.len() as int)
    } else {
        k
    }
}

/// What renaming does to the table: the node at the old canonical path and
/// everything under it move under the new canonical path; the root cannot
/// move, a missing source or an occupied destination is refused.
pub open spec fn rename_post(
    pre: Map<Seq<char>, TempNodeView>,
    post: Map<Seq<char>, TempNodeView>,
    from: Seq<char>,
    to: Seq<char>,
    r: Result<(), KernelError>,
) -> bool {
    let f = canon(from);
    let t = canon(to);
    match r {
        Ok(_) => {
            &&& f != root_path()
            &&& pre.contains_key(f)
            &&& !(exists|k: Seq<char>| #[trigger] pre.contains_key(k)
                && subtree_key(t, k))
            &&& forall|k: Seq<char>| #[trigger] pre.contains_key(k)
                ==> post.contains_key(rekey(f, t, k)) && post[rekey(f, t, k)] == pre[k]
            &&& forall|k2: Seq<char>| #[trigger] post.contains_key(k2)
                ==> exists|k: Seq<char>| #[trigger] pre.contains_key(k)
                    && rekey(f, t, k) == k2
        },
        Err(KernelError::InvalidOperation) => post == pre && f == root_path(),
        Err(KernelError::NotFound) => post == pre && f != root_path()
            && !pre.contains_key(f),
        Err(KernelError::AlreadyExists) => {
            &&& post == pre
            &&& f != root_path()
            &&& pre.contains_key(f)
            &&& exists|k: Seq<char>| #[trigger] pre.contains_key(k) && subtree_key(t, k)
        },
        Err(_) => false,
    }
}

/// A subtree key moved under a well-formed destination is well formed.
pub proof fn lemma_rekey_wf(f: Seq<char>, t: Seq<char>, k: Seq<char>)
    requires
        canon_wf(f),
        canon_wf(t),
        canon_wf(k),
        f != root_path(),
        t != root_path(),
        subtree_key(f, k),
    ensures
        canon_wf(rekey(f, t, k)),
        subtree_key(t, rekey(f, t, k)),
    decreases 0int,
{
    let s = k.skip(f.len() as int);
    let r = t + s;
    if k == f {
        assert(s =~= Seq::<char>::empty());
        assert(r =~= t);
    } else {
        assert(s[0] == '/');
        assert(s.len() >= 2) by {
            if s.len() == 1 {
                assert(k.last() == '/');
            }
        }
        assert(r[0] == t[0]);
        assert(r.last() == k.last());
        assert(t.len() > 1 ==> t.last() != '/');
        assert(t.len() == 1 ==> t == root_path());
        assert forall|x: int| 0 <= x < r.len() - 1
            implies !(#[trigger] r[x] == '/' && r[x + 1] == '/') by {
            if x < t.len() - 1 {
                assert(!(t[x] == '/' && t[x + 1] == '/'));
            } else if x == t.len() - 1 {
                assert(r[x] == t.last());
            } else {
                assert(r[x] == k[x - t.len() + f.len()]);
                assert(r[x + 1] == k[x + 1 - t.len() + f.len()]);
            }
        }
        assert(r.take(t.len() as int) =~= t);
        assert(subtree_key(t, r));
    }
}

/// Moving one subtree keeps distinct keys distinct.
pub proof fn lemma_rekey_distinct(f: Seq<char>, t: Seq<char>, k1: Seq<char>, k2: Seq<char>)
    requires
        canon_wf(f),
        canon_wf(t),
        canon_wf(k1),
        canon_wf(k2),
        f != root_path(),
        t != root_path(),
        k1 != k2,
        !subtree_key(t, k1),
        !subtree_key(t, k2),
    ensures
        rekey(f, t, k1) != rekey(f, t, k2),
{
    if subtree_key(f, k1) && subtree_key(f, k2) {
        if rekey(f, t, k1) == rekey(f, t, k2) {
            assert(k1.skip(f.len() as int) =~= k2.skip(f.len() as int)) by {
                let s1 = k1.skip(f.len() as int);
                let s2 = k2.skip(f.len() as int);
                assert((t + s1).len() == (t + s2).len());
                assert(s1.len() == s2.len());
                assert forall|x: int| 0 <= x < s1.len()
                    implies s1[x] == s2[x] by {
                    assert((t + s1)[t.len() + x] == (t + s2)[t.len() + x]);
                }
            }
            assert(k1 =~= k2) by {
                assert(k1.take(f.len() as int) =~= k2.take(f.len() as int));
                assert(k1 =~= k1.take(f.len() as int) + k1.skip(f.len() as int));
                assert(k2 =~= k2.take(f.len() as int) + k2.skip(f.len() as int));
            }
        }
    } else if subtree_key(f, k1) {
        lemma_rekey_wf(f, t, k1);
        assert(rekey(f, t, k2) == k2);
    } else if subtree_key(f, k2) {
        lemma_rekey_wf(f, t, k2);
        assert(rekey(f, t, k1) == k1);
    }
}

/// Payload of a node: file bytes, or a directory.

pub enum NodeData {
    File(Vec<u8>),
    Directory,
}

struct TempFsNode {
    path: String,
    inode: usize,
    metadata: Metadata,
    data: NodeData,
}

/// The mathematical image of one node.
pub ghost struct TempNodeView {
    pub inode: nat,
    pub meta: Metadata,
    pub is_dir: bool,
    pub data: Seq<u8>,
}

/// In-memory filesystem for temporary storage.
pub struct TempFs {
    name: String,
    root_inode: usize,
    next_inode: usize,
    nodes: Vec<TempFsNode>,
}

spec fn node_view(n: TempFsNode) -> TempNodeView {
    TempNodeView {
        inode: n.inode as nat,
        meta: n.metadata,
        is_dir: n.data is Directory,
        data: match n.data {
            NodeData::File(d) => d@,
            NodeData::Directory => Seq::empty(),
        },
    }
}

spec fn map_of(ns: Seq<TempFsNode>) -> Map<Seq<char>, TempNodeView>
    decreases ns.len(),
{
    if ns.len() == 0 {
        Map::empty()
    } else {
        map_of(ns.drop_last()).insert(ns.last().path@, node_view(ns.last()))
    }
}

impl TempFs {
    /// The table of this filesystem: canonical path to node image.
    pub closed spec fn view(&self) -> Map<Seq<char>, TempNodeView> {
        map_of(self.nodes@)
    }

    /// The filesystem's display name.
    pub closed spec fn name_spec(&self) -> Seq<char> {
        self.name@
    }

    /// The next inode number that will be handed out.
    pub closed spec fn next_inode_spec(&self) -> nat {
        self.next_inode as nat
    }

    spec fn keys_distinct(ns: Seq<TempFsNode>) -> bool {
        forall|i: int, j: int|
            0 <= i < j < ns.len() ==> (#[trigger] ns[i].path@) != (#[trigger] ns[j].path@)
    }

    spec fn node_ok(n: TempFsNode) -> bool {
        &&& canon_wf(n.path@)
        &&& (match n.data {
            NodeData::File(d) => n.metadata.node_type == NodeType::File
                && n.metadata.size == d@.len(),
            NodeData::Directory => n.metadata.node_type == NodeType::Directory,
        })
    }

    /// Well-formedness: all keys are canonical and distinct, the root is
    /// present as a directory, and metadata agrees with each node's payload.
    pub closed spec fn wf(&self) -> bool {
        &&& Self::keys_distinct(self.nodes@)
        &&& forall|i: int|
            0 <= i < self.nodes@.len() ==> Self::node_ok(#[trigger] self.nodes@[i])
        &&& forall|i: int|
            0 <= i < self.nodes@.len()
                ==> (#[trigger] self.nodes@[i].inode) < self.next_inode
        &&& forall|i: int, j: int|
            0 <= i < j < self.nodes@.len()
                ==> (#[trigger] self.nodes@[i].inode)
                    != (#[trigger] self.nodes@[j].inode)
        &&& self.view().contains_key(root_path())
        &&& self.view()[root_path()].is_dir
        &&& self.root_inode == 1
        &&& self.next_inode >= 2
    }

    /// A well-formed table assigns every node a distinct inode.
    pub proof fn lemma_inodes_distinct(&self)
        requires
            self.wf(),
        ensures
            inodes_distinct(self.view()),
    {
        assert forall|k1: Seq<char>, k2: Seq<char>|
            #[trigger] self.view().contains_key(k1)
                && #[trigger] self.view().contains_key(k2) && k1 != k2
            implies self.view()[k1].inode != self.view()[k2].inode by {
            Self::lemma_map_of_contains(self.nodes@, k1);
            Self::lemma_map_of_contains(self.nodes@, k2);
            let i1 = choose|i: int|
                0 <= i < self.nodes@.len() && #[trigger] self.nodes@[i].path@ == k1;
            let i2 = choose|i: int|
                0 <= i < self.nodes@.len() && #[trigger] self.nodes@[i].path@ == k2;
            Self::lemma_map_of_index(self.nodes@, i1);
            Self::lemma_map_of_index(self.nodes@, i2);
            assert(self.nodes@[i1].inode != self.nodes@[i2].inode);
        }
    }

    /// Appending a node with a fresh key and the next inode keeps every
    /// table invariant.
    proof fn lemma_push_invariants(ns: Seq<TempFsNode>, n: TempFsNode, bound: usize)
        requires
            Self::keys_distinct(ns),
            forall|i: int| 0 <= i < ns.len() ==> Self::node_ok(#[trigger] ns[i]),
            forall|i: int| 0 <= i < ns.len() ==> (#[trigger] ns[i].inode) < bound,
            forall|i: int, j: int|
                0 <= i < j < ns.len()
                    ==> (#[trigger] ns[i].inode) != (#[trigger] ns[j].inode),
            forall|i: int| 0 <= i < ns.len() ==> (#[trigger] ns[i].path@) != n.path@,
            Self::node_ok(n),
            n.inode == bound,
            bound < usize::MAX,
        ensures
            Self::keys_distinct(ns.push(n)),
            forall|i: int|
                0 <= i < ns.push(n).len() ==> Self::node_ok(#[trigger] ns.push(n)[i]),
            forall|i: int|
                0 <= i < ns.push(n).len()
                    ==> (#[trigger] ns.push(n)[i].inode) < bound + 1,
            forall|i: int, j: int|
                0 <= i < j < ns.push(n).len()
                    ==> (#[trigger] ns.push(n)[i].inode)
                        != (#[trigger] ns.push(n)[j].inode),
    {
        let ns2 = ns.push(n);
        assert forall|a: int, b: int| 0 <= a < b < ns2.len()
            implies (#[trigger] ns2[a].path@) != (#[trigger] ns2[b].path@) by {
            assert(ns2[a] == ns[a]);
            if b < ns.len() {
                assert(ns2[b] == ns[b]);
            }
        }
        assert forall|a: int| 0 <= a < ns2.len()
            implies Self::node_ok(#[trigger] ns2[a]) by {
            if a < ns.len() {
                assert(ns2[a] == ns[a]);
            }
        }
        assert forall|a: int| 0 <= a < ns2.len()
            implies (#[trigger] ns2[a].inode) < bound + 1 by {
            if a < ns.len() {
                assert(ns2[a] == ns[a]);
            }
        }
        assert forall|a: int, b: int| 0 <= a < b < ns2.len()
            implies (#[trigger] ns2[a].inode) != (#[trigger] ns2[b].inode) by {
            assert(ns2[a] == ns[a]);
            if b < ns.len() {
                assert(ns2[b] == ns[b]);
            }
        }
    }

    proof fn lemma_map_of_index(ns: Seq<TempFsNode>, i: int)
        requires
            Self::keys_distinct(ns),
            0 <= i < ns.len(),
        ensures
            map_of(ns).contains_key(ns[i].path@),
            map_of(ns)[ns[i].path@] == node_view(ns[i]),
        decreases ns.len(),
    {
        if i < ns.len() - 1 {
            assert(Self::keys_distinct(ns.drop_last())) by {
                assert forall|a: int, b: int| 0 <= a < b < ns.drop_last().len()
                    implies (#[trigger] ns.drop_last()[a].path@)
                        != (#[trigger] ns.drop_last()[b].path@) by {
                    assert(ns.drop_last()[a] == ns[a]);
                    assert(ns.drop_last()[b] == ns[b]);
                }
            }
            Self::lemma_map_of_index(ns.drop_last(), i);
            assert(ns[ns.len() - 1].path@ != ns[i].path@);
        }
    }

    proof fn lemma_map_of_contains(ns: Seq<TempFsNode>, k: Seq<char>)
        requires
            map_of(ns).contains_key(k),
        ensures
            exists|i: int| 0 <= i < ns.len() && #[trigger] ns[i].path@ == k,
        decreases ns.len(),
    {
        if ns.len() > 0 {
            if ns.last().path@ == k {
                assert(ns[ns.len() - 1].path@ == k);
            } else {
                Self::lemma_map_of_contains(ns.drop_last(), k);
                let i = choose|i: int|
                    0 <= i < ns.drop_last().len() && #[trigger] ns.drop_last()[i].path@ == k;
                assert(ns[i].path@ == k);
            }
        }
    }

    proof fn lemma_map_of_not_contains(ns: Seq<TempFsNode>, k: Seq<char>)
        requires
            forall|i: int| 0 <= i < ns.len() ==> (#[trigger] ns[i].path@) != k,
        ensures
            !map_of(ns).contains_key(k),
        decreases ns.len(),
    {
        if ns.len() > 0 {
            assert forall|i: int| 0 <= i < ns.drop_last().len()
                implies (#[trigger] ns.drop_last()[i].path@) != k by {
                assert(ns.drop_last()[i] == ns[i]);
            }
            Self::lemma_map_of_not_contains(ns.drop_last(), k);
        }
    }

    proof fn lemma_map_of_update(ns: Seq<TempFsNode>, i: int, n: TempFsNode)
        requires
            Self::keys_distinct(ns),
            0 <= i < ns.len(),
            n.path@ == ns[i].path@,
        ensures
            map_of(ns.update(i, n)) == map_of(ns).insert(n.path@, node_view(n)),
        decreases ns.len(),
    {
        let ns2 = ns.update(i, n);
        if i == ns.len() - 1 {
            assert(ns2.drop_last() =~= ns.drop_last());
            assert(ns2.last() == n);
            assert(map_of(ns2) =~= map_of(ns).insert(n.path@, node_view(n)));
        } else {
            assert(ns2.drop_last() =~= ns.drop_last().update(i, n));
            assert(ns2.last() == ns.last());
            Self::lemma_map_of_update(ns.drop_last(), i, n);
            assert(ns.last().path@ != n.path@);
            assert(map_of(ns2) =~= map_of(ns).insert(n.path@, node_view(n)));
        }
    }

    proof fn lemma_map_of_remove(ns: Seq<TempFsNode>, i: int)
        requires
            Self::keys_distinct(ns),
            0 <= i < ns.len(),
        ensures
            map_of(ns.remove(i)) == map_of(ns).remove(ns[i].path@),
        decreases ns.len(),
    {
        let ns2 = ns.remove(i);
        assert(Self::keys_distinct(ns.drop_last())) by {
            assert forall|a: int, b: int| 0 <= a < b < ns.drop_last().len()
                implies (#[trigger] ns.drop_last()[a].path@)
                    != (#[trigger] ns.drop_last()[b].path@) by {
                assert(ns.drop_last()[a] == ns[a]);
                assert(ns.drop_last()[b] == ns[b]);
            }
        }
        if i == ns.len() - 1 {
            assert(ns2 =~= ns.drop_last());
            assert forall|a: int| 0 <= a < ns.drop_last().len()
                implies (#[trigger] ns.drop_last()[a].path@) != ns[i].path@ by {
                assert(ns.drop_last()[a] == ns[a]);
            }
            Self::lemma_map_of_not_contains_helper(ns.drop_last(), ns[i].path@);
            assert(map_of(ns2) =~= map_of(ns).remove(ns[i].path@));
        } else {
            assert(ns2.drop_last() =~= ns.drop_last().remove(i));
            assert(ns2.last() == ns.last());
            Self::lemma_map_of_remove(ns.drop_last(), i);
            assert(ns.last().path@ != ns[i].path@);
            assert(map_of(ns2) =~= map_of(ns).remove(ns[i].path@));
        }
    }

    proof fn lemma_map_of_not_contains_helper(ns: Seq<TempFsNode>, k: Seq<char>)
        requires
            forall|i: int| 0 <= i < ns.len() ==> (#[trigger] ns[i].path@) != k,
        ensures
            map_of(ns).remove(k) == map_of(ns),
            !map_of(ns).contains_key(k),
        decreases ns.len(),
    {
        Self::lemma_map_of_not_contains(ns, k);
        assert(map_of(ns).remove(k) =~= map_of(ns));
    }

    /// Creates a fresh filesystem holding only the root directory.
    pub fn new(name: &str) -> (r: TempFs)
        ensures
            r.wf(),
            r.name_spec() == name@,
            r.view() == Map::<Seq<char>, TempNodeView>::empty().insert(
                root_path(),
                TempNodeView {
                    inode: 1,
                    meta: Metadata::directory_spec(),
                    is_dir: true,
                    data: Seq::empty(),
                },
            ),
            r.next_inode_spec() == 2,
    {
        let mut root_key = String::new();
        crate::strutil::push_char(&mut root_key, '/');
        proof {
            assert(root_key@ =~= root_path());
        }
        let root_node = TempFsNode {
            path: root_key,
            inode: 1,
            metadata: Metadata::new_directory(),
            data: NodeData::Directory,
        };
        let mut nodes: Vec<TempFsNode> = Vec::new();
        nodes.push(root_node);
        let r = TempFs { name: name.to_owned(), root_inode: 1, next_inode: 2, nodes };
        proof {
            assert(r.nodes@.drop_last() =~= Seq::<TempFsNode>::empty());
            assert(map_of(Seq::<TempFsNode>::empty())
                == Map::<Seq<char>, TempNodeView>::empty());
            assert(r.view() == map_of(r.nodes@.drop_last()).insert(
                r.nodes@.last().path@,
                node_view(r.nodes@.last()),
            ));
            assert(r.view() =~= Map::<Seq<char>, TempNodeView>::empty().insert(
                root_path(),
                TempNodeView {
                    inode: 1,
                    meta: Metadata::directory_spec(),
                    is_dir: true,
                    data: Seq::empty(),
                },
            ));
            assert(r.wf()) by {
                assert(r.nodes@[0].path@ == root_path());
                Self::lemma_map_of_index(r.nodes@, 0);
            }
        }
        r
    }

    /// The canonical form of `path`: leading slash ensured, repeated slashes
    /// collapsed, trailing slash stripped except for the root.
    pub fn normalize_path_canonical(&self, path: &str) -> (r: String)
        ensures
            r@ == canon(path@),
    {
        canon_path(path)
    }

    /// Finds the table index of a canonical key.
    fn find_idx(&self, key: &str) -> (r: Option<usize>)
        requires
            self.wf(),
        ensures
            match r {
                Some(i) => i < self.nodes@.len() && self.nodes@[i as int].path@ == key@
                    && self.view().contains_key(key@)
                    && self.view()[key@] == node_view(self.nodes@[i as int]),
                None => !self.view().contains_key(key@),
            },
    {
        let n = self.nodes.len();
        let mut i: usize = 0;
        while i < n
            invariant
                self.wf(),
                n == self.nodes@.len(),
                i <= n,
                forall|j: int| 0 <= j < i ==> (#[trigger] self.nodes@[j].path@) != key@,
            decreases n - i,
        {
            if str_eq(self.nodes[i].path.as_str(), key) {
                proof {
                    Self::lemma_map_of_index(self.nodes@, i as int);
                }
                return Some(i);
            }
            i = i + 1;
        }
        proof {
            Self::lemma_map_of_not_contains(self.nodes@, key@);
        }
        None
    }

    /// Whether a node exists at the canonical form of `path`.
    pub fn path_exists(&self, path: &str) -> (r: bool)
        requires
            self.wf(),
        ensures
            r == self.view().contains_key(canon(path@)),
    {
        let canonical = self.normalize_path_canonical(path);
        self.find_idx(canonical.as_str()).is_some()
    }

    /// Looks up the metadata stored for a path.
    pub fn metadata(&self, path: &str) -> (r: Result<Metadata, KernelError>)
        requires
            self.wf(),
        ensures
            match r {
                Ok(m) => self.view().contains_key(canon(path@))
                    && m == self.view()[canon(path@)].meta,
                Err(e) => e == KernelError::NotFound
                    && !self.view().contains_key(canon(path@)),
            },
    {
        let canonical = self.normalize_path_canonical(path);
        match self.find_idx(canonical.as_str()) {
            Some(i) => Ok(self.nodes[i].metadata),
            None => Err(KernelError::NotFound),
        }
    }

    /// Whether every ancestor of `c` that exists in the table is a
    /// directory, so that directories can be created all the way down to
    /// `c` without running into a file.
    fn ancestors_clear(&self, c: &str) -> (r: bool)
        requires
            self.wf(),
            canon_wf(c@),
        ensures
            r == forall|q: Seq<char>|
                is_ancestor_path(q, c@) && #[trigger] self.view().contains_key(q)
                    ==> self.view()[q].is_dir,
        decreases c@.len(),
    {
        let ok_here = match self.find_idx(c) {
            Some(i) => match &self.nodes[i].data {
                NodeData::Directory => true,
                NodeData::File(_) => false,
            },
            None => true,
        };
        if !ok_here {
            proof {
                assert(is_ancestor_path(c@, c@));
            }
            return false;
        }
        let n = c.unicode_len();
        if n == 1 {
            proof {
                assert(c@ =~= root_path());
                assert forall|q: Seq<char>|
                    is_ancestor_path(q, c@) && #[trigger] self.view().contains_key(q)
                        implies self.view()[q].is_dir by {
                    assert(q == c@);
                }
            }
            return true;
        }
        proof {
            if c@.len() == 1 {
                assert(c@ =~= root_path());
            }
            lemma_parent_basename(c@);
        }
        let (parent, _name) = split_parent(c);
        let rest = self.ancestors_clear(parent.as_str());
        proof {
            assert forall|q: Seq<char>| is_ancestor_path(q, c@)
                implies q == c@ || is_ancestor_path(q, parent_of(c@)) by {}
        }
        rest
    }

    /// Creates directory nodes at every missing ancestor of `c`, `c`
    /// itself included.  When the inode space is exhausted the walk stops
    /// with `OutOfMemory`, leaving the ancestors created so far.
    fn create_missing(&mut self, c: &str) -> (r: Result<(), KernelError>)
        requires
            old(self).wf(),
            canon_wf(c@),
            forall|q: Seq<char>|
                is_ancestor_path(q, c@) && #[trigger] old(self).view().contains_key(q)
                    ==> old(self).view()[q].is_dir,
        ensures
            final(self).wf(),
            final(self).name_spec() == old(self).name_spec(),
            final(self).next_inode_spec() >= old(self).next_inode_spec(),
            forall|q: Seq<char>|
                #[trigger] old(self).view().contains_key(q)
                    ==> final(self).view().contains_key(q)
                        && final(self).view()[q] == old(self).view()[q],
            forall|q: Seq<char>|
                #[trigger] final(self).view().contains_key(q)
                    ==> old(self).view().contains_key(q) || is_ancestor_path(q, c@),
            forall|q: Seq<char>|
                #[trigger] final(self).view().contains_key(q)
                    && !old(self).view().contains_key(q)
                    ==> final(self).view()[q].is_dir
                        && final(self).view()[q].meta == Metadata::directory_spec()
                        && final(self).view()[q].data == Seq::<u8>::empty(),
            match r {
                Ok(_) => forall|q: Seq<char>|
                    #[trigger] is_ancestor_path(q, c@)
                        ==> final(self).view().contains_key(q)
                            && final(self).view()[q].is_dir,
                Err(e) => e == KernelError::OutOfMemory
                    && final(self).next_inode_spec() == usize::MAX,
            },
        decreases c@.len(),
    {
        let n = c.unicode_len();
        if n == 1 {
            proof {
                assert(c@ =~= root_path());
                assert forall|q: Seq<char>| is_ancestor_path(q, c@)
                    implies self.view().contains_key(q)
                        && self.view()[q].is_dir by {
                    assert(q == c@);
                }
            }
            return Ok(());
        }
        proof {
            if c@.len() == 1 {
                assert(c@ =~= root_path());
            }
            lemma_parent_basename(c@);
            assert forall|q: Seq<char>| is_ancestor_path(q, parent_of(c@))
                implies is_ancestor_path(q, c@) by {}
        }
        let (parent, _name) = split_parent(c);
        self.create_missing(parent.as_str())?;
        let ghost mid = *self;
        proof {
            // `c` is longer than any ancestor of its parent, so the
            // recursive call cannot have created it.
            assert forall|q: Seq<char>|
                mid.view().contains_key(q) && !old(self).view().contains_key(q)
                implies q != c@ by {
                lemma_ancestor_facts(q, parent_of(c@));
            }
        }
        match self.find_idx(c) {
            Some(_) => {
                proof {
                    assert(old(self).view().contains_key(c@));
                    assert forall|q: Seq<char>| is_ancestor_path(q, c@)
                        implies self.view().contains_key(q)
                            && self.view()[q].is_dir by {
                        if q == c@ {
                            assert(old(self).view().contains_key(c@));
                            assert(old(self).view()[c@].is_dir);
                            assert(self.view().contains_key(c@)
                                && self.view()[c@] == old(self).view()[c@]);
                        } else {
                            assert(is_ancestor_path(q, parent_of(c@)));
                        }
                    }
                }
                Ok(())
            },
            None => {
                if self.next_inode == usize::MAX {
                    // no fresh inode can be handed out
                    return Err(KernelError::OutOfMemory);
                }
                let inode = self.next_inode;
                self.next_inode = self.next_inode + 1;
                let node = TempFsNode {
                    path: c.to_owned(),
                    inode,
                    metadata: Metadata::new_directory(),
                    data: NodeData::Directory,
                };
                proof {
                    assert forall|i: int| 0 <= i < self.nodes@.len()
                        implies (#[trigger] self.nodes@[i].path@) != c@ by {
                        if self.nodes@[i].path@ == c@ {
                            Self::lemma_map_of_index(self.nodes@, i);
                        }
                    }
                }
                proof {
                    Self::lemma_push_invariants(mid.nodes@, node, mid.next_inode);
                }
                self.nodes.push(node);
                proof {
                    assert(self.nodes@ =~= mid.nodes@.push(node));
                    assert(self.nodes@.drop_last() =~= mid.nodes@);
                    assert(self.view() == mid.view().insert(c@, node_view(node)));
                    assert(self.view()[root_path()].is_dir) by {
                        assert(mid.view().contains_key(root_path()));
                        assert(c@ != root_path()) by {
                            if c@ == root_path() {
                                assert(mid.view().contains_key(c@));
                            }
                        }
                    }
                    assert(self.wf());
                    assert forall|q: Seq<char>| is_ancestor_path(q, c@)
                        implies self.view().contains_key(q)
                            && self.view()[q].is_dir by {
                        if q != c@ {
                            assert(is_ancestor_path(q, parent_of(c@)));
                            assert(mid.view().contains_key(q)
                                && mid.view()[q].is_dir);
                            assert(q != c@);
                        }
                    }
                }
                Ok(())
            },
        }
    }

    /// Creates a directory at the canonical form of `path`, materializing
    /// every missing ancestor directory on the way.  Fails `NotADirectory`
    /// when an existing file stands where a directory is needed; an already
    /// existing node of any kind is left untouched and reported as success.
    pub fn ensure_path_exists(&mut self, path: &str) -> (r: Result<(), KernelError>)
        requires
            old(self).wf(),
        ensures
            final(self).wf(),
            final(self).name_spec() == old(self).name_spec(),
            final(self).next_inode_spec() >= old(self).next_inode_spec(),
            ensure_path_post(old(self).view(), final(self).view(), path@, r),
            r == Result::<(), KernelError>::Err(KernelError::OutOfMemory)
                ==> final(self).next_inode_spec() == usize::MAX,
    {
        let canonical = self.normalize_path_canonical(path);
        proof {
            lemma_canon_wf(path@);
        }
        match self.find_idx(canonical.as_str()) {
            Some(i) => {
                match &self.nodes[i].data {
                    NodeData::Directory => Ok(()),
                    NodeData::File(_) => {
                        proof {
                            assert(is_ancestor_path(canon(path@), canon(path@)));
                        }
                        Err(KernelError::NotADirectory)
                    },
                }
            },
            None => {
                if self.ancestors_clear(canonical.as_str()) {
                    match self.create_missing(canonical.as_str()) {
                        Ok(_) => {
                            proof {
                                assert forall|q: Seq<char>|
                                    #[trigger] self.view().contains_key(q)
                                        <==> old(self).view().contains_key(q)
                                            || is_ancestor_path(q, canon(path@)) by {
                                    if is_ancestor_path(q, canon(path@)) {
                                        assert(self.view().contains_key(q));
                                    }
                                    if old(self).view().contains_key(q) {
                                        assert(self.view().contains_key(q));
                                    }
                                }
                                assert forall|q: Seq<char>|
                                    is_ancestor_path(q, canon(path@))
                                    implies #[trigger] self.view()[q].is_dir by {
                                    assert(self.view().contains_key(q)
                                        && self.view()[q].is_dir);
                                }
                            }
                            Ok(())
                        },
                        Err(_) => Err(KernelError::OutOfMemory),
                    }
                } else {
                    Err(KernelError::NotADirectory)
                }
            },
        }
    }

    /// Creates a directory at the canonical form of `path`, materializing
    /// every missing ancestor directory on the way.  An existing node at
    /// the path, of any kind, is `AlreadyExists`; an existing file at an
    /// ancestor is `NotADirectory`.
    pub fn create_directory(&mut self, path: &str) -> (r: Result<(), KernelError>)
        requires
            old(self).wf(),
        ensures
            final(self).wf(),
            final(self).name_spec() == old(self).name_spec(),
            final(self).next_inode_spec() >= old(self).next_inode_spec(),
            create_dir_post(old(self).view(), final(self).view(), path@, r),
            r == Result::<(), KernelError>::Err(KernelError::OutOfMemory)
                ==> final(self).next_inode_spec() == usize::MAX,
    {
        let canonical = self.normalize_path_canonical(path);
        proof {
            lemma_canon_wf(path@);
        }
        if self.find_idx(canonical.as_str()).is_some() {
            return Err(KernelError::AlreadyExists);
        }
        if self.ancestors_clear(canonical.as_str()) {
            match self.create_missing(canonical.as_str()) {
                Ok(_) => {
                    proof {
                        assert forall|q: Seq<char>|
                            #[trigger] self.view().contains_key(q)
                                <==> old(self).view().contains_key(q)
                                    || is_ancestor_path(q, canon(path@)) by {
                            if is_ancestor_path(q, canon(path@)) {
                                assert(self.view().contains_key(q));
                            }
                            if old(self).view().contains_key(q) {
                                assert(self.view().contains_key(q));
                            }
                        }
                        assert forall|q: Seq<char>| is_ancestor_path(q, canon(path@))
                            implies #[trigger] self.view()[q].is_dir by {
                            assert(self.view().contains_key(q)
                                && self.view()[q].is_dir);
                        }
                    }
                    Ok(())
                },
                Err(_) => Err(KernelError::OutOfMemory),
            }
        } else {
            Err(KernelError::NotADirectory)
        }
    }

    /// Creates a single directory node at the canonical form of `path`
    /// without touching its ancestors.  Intended for initial filesystem
    /// setup only; a node created this way may be unreachable from its
    /// parent until the ancestors exist.
    pub fn direct_create_directory(&mut self, path: &str) -> (r: Result<(), KernelError>)
        requires
            old(self).wf(),
        ensures
            final(self).wf(),
            final(self).name_spec() == old(self).name_spec(),
            final(self).next_inode_spec() >= old(self).next_inode_spec(),
            r == Result::<(), KernelError>::Err(KernelError::OutOfMemory)
                <==> !old(self).view().contains_key(canon(path@))
                    && old(self).next_inode_spec() == usize::MAX,
            r is Err ==> final(self).view() == old(self).view(),
            r is Ok && old(self).view().contains_key(canon(path@))
                ==> final(self).view() == old(self).view(),
            r is Ok && !old(self).view().contains_key(canon(path@)) ==> {
                &&& final(self).view().dom()
                    == old(self).view().dom().insert(canon(path@))
                &&& forall|q: Seq<char>|
                    #[trigger] old(self).view().contains_key(q)
                        ==> final(self).view()[q] == old(self).view()[q]
                &&& final(self).view()[canon(path@)].is_dir
                &&& final(self).view()[canon(path@)].meta == Metadata::directory_spec()
            },
    {
        let canonical = self.normalize_path_canonical(path);
        proof {
            lemma_canon_wf(path@);
        }
        match self.find_idx(canonical.as_str()) {
            Some(_) => Ok(()),
            None => {
                if self.next_inode == usize::MAX {
                    // no fresh inode can be handed out
                    return Err(KernelError::OutOfMemory);
                }
                let ghost mid = *self;
                let inode = self.next_inode;
                self.next_inode = self.next_inode + 1;
                let node = TempFsNode {
                    path: canonical,
                    inode,
                    metadata: Metadata::new_directory(),
                    data: NodeData::Directory,
                };
                proof {
                    assert forall|i: int| 0 <= i < self.nodes@.len()
                        implies (#[trigger] self.nodes@[i].path@) != canon(path@) by {
                        if self.nodes@[i].path@ == canon(path@) {
                            Self::lemma_map_of_index(self.nodes@, i);
                        }
                    }
                    Self::lemma_push_invariants(mid.nodes@, node, mid.next_inode);
                }
                self.nodes.push(node);
                proof {
                    assert(self.nodes@ =~= mid.nodes@.push(node));
                    assert(self.nodes@.drop_last() =~= mid.nodes@);
                    assert(self.view() == mid.view().insert(canon(path@), node_view(node)));
                    assert(self.view().contains_key(root_path()));
                    assert(self.view()[root_path()].is_dir) by {
                        assert(canon(path@) != root_path()) by {
                            if canon(path@) == root_path() {
                                assert(mid.view().contains_key(canon(path@)));
                            }
                        }
                    }
                    assert(self.wf());
                    assert(self.view().dom()
                        =~= old(self).view().dom().insert(canon(path@)));
                }
                Ok(())
            },
        }
    }

    /// Creates an empty file at the canonical form of `path`.  The
    /// immediate parent must already exist as a directory; an existing
    /// node at the path itself is an error.
    pub fn create_file(&mut self, path: &str) -> (r: Result<(), KernelError>)
        requires
            old(self).wf(),
        ensures
            final(self).wf(),
            final(self).name_spec() == old(self).name_spec(),
            final(self).next_inode_spec() >= old(self).next_inode_spec(),
            create_file_post(old(self).view(), final(self).view(), path@, r),
            r == Result::<(), KernelError>::Err(KernelError::OutOfMemory)
                <==> old(self).next_inode_spec() == usize::MAX
                    && !old(self).view().contains_key(canon(path@))
                    && old(self).view().contains_key(parent_of(canon(path@)))
                    && old(self).view()[parent_of(canon(path@))].is_dir,
    {
        let canonical = self.normalize_path_canonical(path);
        proof {
            lemma_canon_wf(path@);
        }
        if self.find_idx(canonical.as_str()).is_some() {
            return Err(KernelError::AlreadyExists);
        }
        proof {
            assert(canon(path@) != root_path()) by {
                if canon(path@) == root_path() {
                    assert(old(self).view().contains_key(canon(path@)));
                }
            }
        }
        let (parent, _name) = split_parent(canonical.as_str());
        let pi = match self.find_idx(parent.as_str()) {
            Some(pi) => pi,
            None => {
                return Err(KernelError::NotFound);
            },
        };
        match &self.nodes[pi].data {
            NodeData::File(_) => {
                return Err(KernelError::NotADirectory);
            },
            NodeData::Directory => {},
        }
        if self.next_inode == usize::MAX {
            // no fresh inode can be handed out
            return Err(KernelError::OutOfMemory);
        }
        let ghost mid = *self;
        let inode = self.next_inode;
        self.next_inode = self.next_inode + 1;
        let node = TempFsNode {
            path: canonical,
            inode,
            metadata: Metadata::new_file(),
            data: NodeData::File(Vec::new()),
        };
        proof {
            assert forall|i: int| 0 <= i < self.nodes@.len()
                implies (#[trigger] self.nodes@[i].path@) != canon(path@) by {
                if self.nodes@[i].path@ == canon(path@) {
                    Self::lemma_map_of_index(self.nodes@, i);
                }
            }
        }
        proof {
            Self::lemma_push_invariants(mid.nodes@, node, mid.next_inode);
        }
        self.nodes.push(node);
        proof {
            assert(self.nodes@ =~= mid.nodes@.push(node));
            assert(self.nodes@.drop_last() =~= mid.nodes@);
            assert(self.view() == mid.view().insert(canon(path@), node_view(node)));
            assert(self.view().contains_key(root_path()));
            assert(self.view()[root_path()].is_dir) by {
                assert(canon(path@) != root_path());
            }
            assert(self.wf());
            assert(self.view().dom()
                =~= old(self).view().dom().insert(canon(path@)));
            // the fresh inode differs from every earlier node's inode
            assert forall|q: Seq<char>| #[trigger] old(self).view().contains_key(q)
                implies self.view()[canon(path@)].inode
                    != old(self).view()[q].inode by {
                Self::lemma_map_of_contains(old(self).nodes@, q);
                let j = choose|j: int|
                    0 <= j < old(self).nodes@.len()
                        && #[trigger] old(self).nodes@[j].path@ == q;
                Self::lemma_map_of_index(old(self).nodes@, j);
                assert(old(self).nodes@[j].inode < mid.next_inode);
            }
        }
        Ok(())
    }

    /// Whether some table entry is a direct child of the directory `c`.
    fn has_child(&self, c: &str) -> (r: bool)
        requires
            self.wf(),
            canon_wf(c@),
        ensures
            r == exists|k: Seq<char>|
                #[trigger] self.view().contains_key(k) && k != root_path()
                    && parent_of(k) == c@,
    {
        let n = self.nodes.len();
        let mut i: usize = 0;
        while i < n
            invariant
                self.wf(),
                canon_wf(c@),
                n == self.nodes@.len(),
                i <= n,
                forall|j: int|
                    0 <= j < i ==> !((#[trigger] self.nodes@[j].path@) != root_path()
                        && parent_of(self.nodes@[j].path@) == c@),
            decreases n - i,
        {
            let p = &self.nodes[i].path;
            if p.as_str().unicode_len() != 1 {
                proof {
                    assert(Self::node_ok(self.nodes@[i as int]));
                    assert(self.nodes@[i as int].path@ != root_path());
                }
                let (par, _nm) = split_parent(p.as_str());
                if str_eq(par.as_str(), c) {
                    proof {
                        Self::lemma_map_of_index(self.nodes@, i as int);
                        assert(self.view().contains_key(self.nodes@[i as int].path@)
                            && self.nodes@[i as int].path@ != root_path()
                            && parent_of(self.nodes@[i as int].path@) == c@);
                    }
                    return true;
                }
            } else {
                proof {
                    assert(Self::node_ok(self.nodes@[i as int]));
                    assert(self.nodes@[i as int].path@ =~= root_path());
                }
            }
            i = i + 1;
        }
        proof {
            assert forall|k: Seq<char>|
                self.view().contains_key(k) implies !(k != root_path()
                    && parent_of(k) == c@) by {
                Self::lemma_map_of_contains(self.nodes@, k);
            }
        }
        false
    }

    /// Removes a file or an empty directory.  The root cannot be removed,
    /// and a directory that still has entries fails `DirectoryNotEmpty`.
    pub fn remove(&mut self, path: &str) -> (r: Result<(), KernelError>)
        requires
            old(self).wf(),
        ensures
            final(self).wf(),
            final(self).name_spec() == old(self).name_spec(),
            final(self).next_inode_spec() == old(self).next_inode_spec(),
            match r {
                Ok(_) => {
                    let c = canon(path@);
                    &&& c != root_path()
                    &&& old(self).view().contains_key(c)
                    &&& (old(self).view()[c].is_dir ==> !exists|k: Seq<char>|
                        #[trigger] old(self).view().contains_key(k) && k != root_path()
                            && parent_of(k) == c)
                    &&& final(self).view() == old(self).view().remove(c)
                },
                Err(KernelError::InvalidOperation) => final(self).view() == old(self).view()
                    && canon(path@) == root_path(),
                Err(KernelError::NotFound) => final(self).view() == old(self).view()
                    && canon(path@) != root_path()
                    && !old(self).view().contains_key(canon(path@)),
                Err(KernelError::DirectoryNotEmpty) => {
                    let c = canon(path@);
                    &&& final(self).view() == old(self).view()
                    &&& c != root_path()
                    &&& old(self).view().contains_key(c)
                    &&& old(self).view()[c].is_dir
                    &&& exists|k: Seq<char>|
                        #[trigger] old(self).view().contains_key(k) && k != root_path()
                            && parent_of(k) == c
                },
                Err(_) => false,
            },
    {
        let canonical = self.normalize_path_canonical(path);
        proof {
            lemma_canon_wf(path@);
        }
        if canonical.as_str().unicode_len() == 1 {
            proof {
                assert(canon(path@) =~= root_path());
            }
            return Err(KernelError::InvalidOperation);
        }
        proof {
            if canon(path@) == root_path() {
                assert(canon(path@).len() == 1);
            }
        }
        match self.find_idx(canonical.as_str()) {
            None => Err(KernelError::NotFound),
            Some(i) => {
                let is_dir = match &self.nodes[i].data {
                    NodeData::Directory => true,
                    NodeData::File(_) => false,
                };
                if is_dir {
                    if self.has_child(canonical.as_str()) {
                        return Err(KernelError::DirectoryNotEmpty);
                    }
                }
                proof {
                    Self::lemma_map_of_remove(self.nodes@, i as int);
                }
                self.nodes.remove(i);
                proof {
                    assert(final(self).view() == old(self).view().remove(canon(path@)));
                    assert(final(self).wf()) by {
                        let ns = old(self).nodes@;
                        let ns2 = final(self).nodes@;
                        assert forall|a: int, b: int| 0 <= a < b < ns2.len()
                            implies (#[trigger] ns2[a].path@)
                                != (#[trigger] ns2[b].path@) by {
                            if a < i as int {
                                assert(ns2[a] == ns[a]);
                            } else {
                                assert(ns2[a] == ns[a + 1]);
                            }
                            if b < i as int {
                                assert(ns2[b] == ns[b]);
                            } else {
                                assert(ns2[b] == ns[b + 1]);
                            }
                        }
                        assert forall|a: int| 0 <= a < ns2.len()
                            implies Self::node_ok(#[trigger] ns2[a]) by {
                            if a < i as int {
                                assert(ns2[a] == ns[a]);
                            } else {
                                assert(ns2[a] == ns[a + 1]);
                            }
                        }
                        assert(final(self).view().contains_key(root_path()));
                        assert(final(self).view()[root_path()].is_dir);
                    }
                }
                Ok(())
            },
        }
    }

    /// Reads into the front of `buffer` from byte offset `offset` of the
    /// file at `path`.  A read at or past end of file returns zero bytes.
    pub fn read_at(&self, path: &str, offset: u64, buffer: &mut Vec<u8>)
        -> (r: Result<usize, KernelError>)
        requires
            self.wf(),
        ensures
            final(buffer)@.len() == old(buffer)@.len(),
            match r {
                Ok(n) => {
                    let c = canon(path@);
                    let d = self.view()[c].data;
                    &&& self.view().contains_key(c)
                    &&& !self.view()[c].is_dir
                    &&& n as nat == file_read(d, offset as nat, old(buffer)@.len()).len()
                    &&& final(buffer)@
                        == file_read(d, offset as nat, old(buffer)@.len())
                            + old(buffer)@.skip(n as int)
                },
                Err(KernelError::NotFound) => !self.view().contains_key(canon(path@))
                    && final(buffer)@ == old(buffer)@,
                Err(KernelError::NotAFile) => self.view().contains_key(canon(path@))
                    && self.view()[canon(path@)].is_dir
                    && final(buffer)@ == old(buffer)@,
                Err(_) => false,
            },
    {
        let canonical = self.normalize_path_canonical(path);
        match self.find_idx(canonical.as_str()) {
            None => Err(KernelError::NotFound),
            Some(i) => match &self.nodes[i].data {
                NodeData::Directory => Err(KernelError::NotAFile),
                NodeData::File(d) => {
                    let dlen = d.len();
                    if offset >= dlen as u64 {
                        proof {
                            assert(final(buffer)@
                                =~= file_read(d@, offset as nat, old(buffer)@.len())
                                    + old(buffer)@.skip(0));
                        }
                        return Ok(0);
                    }
                    let off = offset as usize;
                    let avail = dlen - off;
                    let m = if buffer.len() < avail { buffer.len() } else { avail };
                    let mut j: usize = 0;
                    while j < m
                        invariant
                            j <= m,
                            m <= buffer@.len(),
                            buffer@.len() == old(buffer)@.len(),
                            off + m <= d@.len(),
                            off + m <= usize::MAX,
                            buffer@ == d@.subrange(off as int, off + j)
                                + old(buffer)@.skip(j as int),
                        decreases m - j,
                    {
                        let ghost prev = buffer@;
                        buffer[j] = d[off + j];
                        proof {
                            assert(buffer@ =~= d@.subrange(off as int, off + j + 1)
                                + old(buffer)@.skip(j + 1));
                        }
                        j = j + 1;
                    }
                    proof {
                        assert(buffer@ =~= file_read(d@, offset as nat, old(buffer)@.len())
                            + old(buffer)@.skip(m as int));
                    }
                    Ok(m)
                },
            },
        }
    }

    /// Writes `buffer` at byte offset `offset` of the file at `path`,
    /// zero-extending the file first when the offset lies past its end.
    pub fn write_at(&mut self, path: &str, offset: u64, buffer: &[u8])
        -> (r: Result<usize, KernelError>)
        requires
            old(self).wf(),
            offset + buffer@.len() <= usize::MAX,
        ensures
            final(self).wf(),
            final(self).name_spec() == old(self).name_spec(),
            final(self).next_inode_spec() == old(self).next_inode_spec(),
            match r {
                Ok(n) => {
                    let c = canon(path@);
                    let v = old(self).view()[c];
                    &&& old(self).view().contains_key(c)
                    &&& !v.is_dir
                    &&& n == buffer@.len()
                    &&& final(self).view() == old(self).view().insert(c, TempNodeView {
                        inode: v.inode,
                        meta: Metadata {
                            size: file_write(v.data, offset as nat, buffer@).len() as u64,
                            ..v.meta
                        },
                        is_dir: false,
                        data: file_write(v.data, offset as nat, buffer@),
                    })
                },
                Err(KernelError::NotFound) => final(self).view() == old(self).view()
                    && !old(self).view().contains_key(canon(path@)),
                Err(KernelError::NotAFile) => final(self).view() == old(self).view()
                    && old(self).view().contains_key(canon(path@))
                    && old(self).view()[canon(path@)].is_dir,
                Err(_) => false,
            },
    {
        let canonical = self.normalize_path_canonical(path);
        let found = self.find_idx(canonical.as_str());
        match found {
            None => Err(KernelError::NotFound),
            Some(i) => {
                let is_dir = match &self.nodes[i].data {
                    NodeData::Directory => true,
                    NodeData::File(_) => false,
                };
                if is_dir {
                    return Err(KernelError::NotAFile);
                }
                let mut scratch = TempFsNode {
                    path: String::new(),
                    inode: 0,
                    metadata: Metadata::new_file(),
                    data: NodeData::Directory,
                };
                core::mem::swap(&mut self.nodes[i], &mut scratch);
                let TempFsNode { path: npath, inode, metadata, data } = scratch;
                let mut d = match data {
                    NodeData::File(d) => d,
                    NodeData::Directory => Vec::new(),
                };
                let ghost d0 = d@;
                let off = offset as usize;
                // zero-extend up to the write offset
                while d.len() < off
                    invariant
                        off <= usize::MAX,
                        d@.len() <= off || d@.len() == d0.len(),
                        d0.len() < off ==> d@
                            == d0 + Seq::new((d@.len() - d0.len()) as nat, |k: int| 0u8),
                        d0.len() >= off ==> d@ == d0,
                        d@.len() >= d0.len(),
                    decreases off - d@.len(),
                {
                    d.push(0u8);
                    proof {
                        assert(d@ =~= d0
                            + Seq::new((d@.len() - d0.len()) as nat, |k: int| 0u8));
                    }
                }
                let ghost padded = d@;
                proof {
                    if d0.len() < off {
                        assert(d@.len() == off);
                    }
                    assert(padded =~= if (offset as nat) > d0.len() {
                        d0 + Seq::new((offset as nat - d0.len()) as nat, |k: int| 0u8)
                    } else {
                        d0
                    });
                }
                // overwrite or append the new bytes
                let blen = buffer.len();
                let mut j: usize = 0;
                while j < blen
                    invariant
                        j <= blen,
                        blen == buffer@.len(),
                        off + blen <= usize::MAX,
                        off <= padded.len(),
                        d@.len() == if padded.len() > off + j { padded.len() as int } else {
                            off + j
                        },
                        forall|k: int| 0 <= k < d@.len() ==> #[trigger] d@[k]
                            == if off <= k < off + j { buffer@[k - off] } else {
                                padded[k]
                            },
                    decreases blen - j,
                {
                    if off + j < d.len() {
                        d[off + j] = buffer[j];
                    } else {
                        d.push(buffer[j]);
                    }
                    j = j + 1;
                }
                proof {
                    assert(d@ =~= file_write(d0, offset as nat, buffer@));
                }
                let new_size = d.len() as u64;
                let new_node = TempFsNode {
                    path: npath,
                    inode,
                    metadata: Metadata { size: new_size, ..metadata },
                    data: NodeData::File(d),
                };
                let mut put_back = new_node;
                core::mem::swap(&mut self.nodes[i], &mut put_back);
                proof {
                    let ns = old(self).nodes@;
                    assert(self.nodes@ =~= ns.update(i as int,
                        self.nodes@[i as int]));
                    Self::lemma_map_of_update(ns, i as int, self.nodes@[i as int]);
                    assert(final(self).wf()) by {
                        assert forall|a: int| 0 <= a < self.nodes@.len()
                            implies Self::node_ok(#[trigger] self.nodes@[a]) by {
                            if a != i as int {
                                assert(self.nodes@[a] == ns[a]);
                            }
                        }
                        assert forall|a: int, b: int| 0 <= a < b < self.nodes@.len()
                            implies (#[trigger] self.nodes@[a].path@)
                                != (#[trigger] self.nodes@[b].path@) by {
                            assert(ns[a].path@ != ns[b].path@);
                        }
                        assert(self.view().contains_key(root_path()));
                        assert(self.view()[root_path()].is_dir) by {
                            if canon(path@) != root_path() {
                                assert(self.view()[root_path()]
                                    == old(self).view()[root_path()]);
                            } else {
                                assert(old(self).view()[canon(path@)].is_dir);
                            }
                        }
                    }
                }
                Ok(blen)
            },
        }
    }

    /// Lists the direct children of the directory at `path`: one entry per
    /// table node whose parent is the directory, carrying the child's name,
    /// kind and inode.
    pub fn read_dir(&self, path: &str) -> (r: Result<Vec<DirEntry>, KernelError>)
        requires
            self.wf(),
        ensures
            match r {
                Ok(v) => {
                    let c = canon(path@);
                    &&& self.view().contains_key(c)
                    &&& self.view()[c].is_dir
                    &&& forall|a: int| 0 <= a < v@.len() ==> {
                        let k = join(c, (#[trigger] v@[a]).name@);
                        &&& crate::path::valid_name(v@[a].name@)
                        &&& self.view().contains_key(k)
                        &&& v@[a].inode as nat == self.view()[k].inode
                        &&& (v@[a].node_type == NodeType::Directory
                            <==> self.view()[k].is_dir)
                        &&& (v@[a].node_type == NodeType::Directory
                            || v@[a].node_type == NodeType::File)
                    }
                    &&& forall|a: int, b: int|
                        0 <= a < b < v@.len()
                            ==> (#[trigger] v@[a]).name@ != (#[trigger] v@[b]).name@
                    &&& forall|a: int, b: int|
                        0 <= a < b < v@.len()
                            ==> crate::strutil::lex_le((#[trigger] v@[a]).name@,
                                (#[trigger] v@[b]).name@)
                    &&& forall|k: Seq<char>|
                        #[trigger] self.view().contains_key(k) && k != root_path()
                            && parent_of(k) == c
                            ==> exists|a: int|
                                0 <= a < v@.len()
                                    && (#[trigger] v@[a]).name@ == basename_of(k)
                },
                Err(KernelError::NotFound) => !self.view().contains_key(canon(path@)),
                Err(KernelError::NotADirectory) => self.view().contains_key(canon(path@))
                    && !self.view()[canon(path@)].is_dir,
                Err(_) => false,
            },
    {
        let canonical = self.normalize_path_canonical(path);
        proof {
            lemma_canon_wf(path@);
        }
        let found = match self.find_idx(canonical.as_str()) {
            None => {
                return Err(KernelError::NotFound);
            },
            Some(i) => i,
        };
        match &self.nodes[found].data {
            NodeData::File(_) => {
                return Err(KernelError::NotADirectory);
            },
            NodeData::Directory => {},
        }
        let ghost c = canon(path@);
        let n = self.nodes.len();
        let mut res: Vec<DirEntry> = Vec::new();
        let ghost mut idxs: Seq<int> = Seq::empty();
        let mut j: usize = 0;
        while j < n
            invariant
                self.wf(),
                canon_wf(c),
                canonical@ == c,
                n == self.nodes@.len(),
                j <= n,
                res@.len() == idxs.len(),
                forall|a: int, b: int|
                    0 <= a < b < idxs.len() ==> #[trigger] idxs[a] != #[trigger] idxs[b],
                forall|a: int| 0 <= a < idxs.len() ==> 0 <= #[trigger] idxs[a] < j,
                forall|a: int, b: int|
                    0 <= a < b < res@.len()
                        ==> crate::strutil::lex_le((#[trigger] res@[a]).name@,
                            (#[trigger] res@[b]).name@),
                forall|a: int| 0 <= a < idxs.len() ==> {
                    let node = self.nodes@[#[trigger] idxs[a]];
                    &&& node.path@ == join(c, res@[a].name@)
                    &&& crate::path::valid_name(res@[a].name@)
                    &&& res@[a].inode == node.inode
                    &&& (res@[a].node_type == NodeType::Directory
                        <==> node.data is Directory)
                    &&& (res@[a].node_type == NodeType::Directory
                        || res@[a].node_type == NodeType::File)
                },
                forall|jj: int|
                    0 <= jj < j && (#[trigger] self.nodes@[jj].path@) != root_path()
                        && parent_of(self.nodes@[jj].path@) == c
                        ==> exists|a: int| 0 <= a < idxs.len() && idxs[a] == jj,
            decreases n - j,
        {
            let p = &self.nodes[j].path;
            if p.as_str().unicode_len() != 1 {
                proof {
                    assert(Self::node_ok(self.nodes@[j as int]));
                    assert(self.nodes@[j as int].path@ != root_path());
                }
                let (par, nm) = split_parent(p.as_str());
                if str_eq(par.as_str(), canonical.as_str()) {
                    proof {
                        lemma_parent_basename(self.nodes@[j as int].path@);
                    }
                    let node_type = match &self.nodes[j].data {
                        NodeData::Directory => NodeType::Directory,
                        NodeData::File(_) => NodeType::File,
                    };
                    let entry = DirEntry::new(nm.as_str(), node_type, self.nodes[j].inode);
                    // keep the listing in ascending name order
                    let rlen = res.len();
                    let mut pos: usize = 0;
                    while pos < rlen
                        && crate::strutil::str_le(res[pos].name.as_str(), nm.as_str())
                        invariant
                            rlen == res@.len(),
                            pos <= rlen,
                            forall|a: int| 0 <= a < pos
                                ==> crate::strutil::lex_le(
                                    (#[trigger] res@[a]).name@, nm@),
                        decreases rlen - pos,
                    {
                        pos = pos + 1;
                    }
                    let ghost res0 = res@;
                    let ghost idxs0 = idxs;
                    res.insert(pos, entry);
                    proof {
                        idxs = idxs0.take(pos as int) + seq![j as int]
                            + idxs0.skip(pos as int);
                        assert(res@ =~= res0.take(pos as int) + seq![entry]
                            + res0.skip(pos as int));
                        assert forall|a: int| 0 <= a < res@.len()
                            implies #[trigger] res@[a] == (if a < pos {
                                res0[a]
                            } else if a == pos {
                                entry
                            } else {
                                res0[a - 1]
                            }) && #[trigger] idxs[a] == (if a < pos {
                                idxs0[a]
                            } else if a == pos {
                                j as int
                            } else {
                                idxs0[a - 1]
                            }) by {}
                        assert(entry.name@ == nm@);
                        // ordering around the insertion point
                        assert forall|a: int, b: int| 0 <= a < b < res@.len()
                            implies crate::strutil::lex_le(
                                (#[trigger] res@[a]).name@,
                                (#[trigger] res@[b]).name@) by {
                            if pos < rlen {
                                crate::strutil::lemma_lex_le_total(nm@,
                                    res0[pos as int].name@);
                            }
                            if a == pos && b > pos {
                                assert(b - 1 >= pos);
                                if b - 1 > pos {
                                    crate::strutil::lemma_lex_le_trans(nm@,
                                        res0[pos as int].name@, res0[b - 1].name@);
                                }
                            } else if a < pos && b == pos {
                                assert(crate::strutil::lex_le(res0[a].name@, nm@));
                            }
                        }
                        // the collected facts carry over index shifting
                        assert forall|jj: int|
                            0 <= jj < j + 1
                                && (#[trigger] self.nodes@[jj].path@) != root_path()
                                && parent_of(self.nodes@[jj].path@) == c
                            implies exists|a: int|
                                0 <= a < idxs.len() && idxs[a] == jj by {
                            if jj == j as int {
                                assert(idxs[pos as int] == jj);
                            } else {
                                let a0 = choose|a0: int|
                                    0 <= a0 < idxs0.len() && #[trigger] idxs0[a0] == jj;
                                if a0 < pos {
                                    assert(idxs[a0] == jj);
                                } else {
                                    assert(idxs[a0 + 1] == jj);
                                }
                            }
                        }
                    }
                } else {
                    proof {
                        let idxs0 = idxs;
                        assert(parent_of(self.nodes@[j as int].path@) != c);
                        assert forall|jj: int|
                            0 <= jj < j + 1
                                && (#[trigger] self.nodes@[jj].path@) != root_path()
                                && parent_of(self.nodes@[jj].path@) == c
                            implies exists|a: int|
                                0 <= a < idxs.len() && idxs[a] == jj by {
                            let a = choose|a: int|
                                0 <= a < idxs0.len() && #[trigger] idxs0[a] == jj;
                            assert(idxs[a] == jj);
                        }
                    }
                }
            } else {
                proof {
                    assert(Self::node_ok(self.nodes@[j as int]));
                    assert(self.nodes@[j as int].path@ =~= root_path());
                }
            }
            j = j + 1;
        }
        proof {
            Self::lemma_map_of_index(self.nodes@, found as int);
            assert forall|a: int| 0 <= a < res@.len() implies {
                let k = join(c, (#[trigger] res@[a]).name@);
                &&& crate::path::valid_name(res@[a].name@)
                &&& self.view().contains_key(k)
                &&& res@[a].inode as nat == self.view()[k].inode
                &&& (res@[a].node_type == NodeType::Directory <==> self.view()[k].is_dir)
                &&& (res@[a].node_type == NodeType::Directory
                    || res@[a].node_type == NodeType::File)
            } by {
                let node = self.nodes@[idxs[a]];
                Self::lemma_map_of_index(self.nodes@, idxs[a]);
            }
            assert forall|a: int, b: int| 0 <= a < b < res@.len()
                implies (#[trigger] res@[a]).name@ != (#[trigger] res@[b]).name@ by {
                let na = self.nodes@[idxs[a]];
                let nb = self.nodes@[idxs[b]];
                assert(na.path@ != nb.path@);
                if res@[a].name@ == res@[b].name@ {
                    assert(na.path@ == join(c, res@[a].name@));
                    assert(nb.path@ == join(c, res@[b].name@));
                }
            }
            assert forall|k: Seq<char>|
                #[trigger] self.view().contains_key(k) && k != root_path()
                    && parent_of(k) == c
                implies exists|a: int|
                    0 <= a < res@.len() && (#[trigger] res@[a]).name@ == basename_of(k) by {
                Self::lemma_map_of_contains(self.nodes@, k);
                let jj = choose|jj: int|
                    0 <= jj < self.nodes@.len() && #[trigger] self.nodes@[jj].path@ == k;
                let a = choose|a: int| 0 <= a < idxs.len() && #[trigger] idxs[a] == jj;
                assert(self.nodes@[jj].path@ == join(c, res@[a].name@));
                lemma_parent_basename(k);
                assert(res@[a].name@ == basename_of(k)) by {
                    lemma_join_wf(c, res@[a].name@);
                }
            }
        }
        Ok(res)
    }

    /// The mount hook: an in-memory store needs no setup.
    pub fn mount(&mut self) -> (r: Result<(), KernelError>)
        ensures
            r is Ok,
            *final(self) == *old(self),
    {
        Ok(())
    }

    /// The unmount hook: nothing is persisted, so nothing is flushed.
    pub fn unmount(&mut self) -> (r: Result<(), KernelError>)
        ensures
            r is Ok,
            *final(self) == *old(self),
    {
        Ok(())
    }

    /// Moves the node at the canonical source path, and everything under
    /// it, to the canonical destination path.  The root cannot move, a
    /// missing source fails `NotFound`, and any node at or under the
    /// destination fails `AlreadyExists`.
    pub fn rename(&mut self, from: &str, to: &str) -> (r: Result<(), KernelError>)
        requires
            old(self).wf(),
        ensures
            final(self).wf(),
            final(self).name_spec() == old(self).name_spec(),
            final(self).next_inode_spec() == old(self).next_inode_spec(),
            rename_post(old(self).view(), final(self).view(), from@, to@, r),
    {
        let cf = self.normalize_path_canonical(from);
        let ct = self.normalize_path_canonical(to);
        proof {
            lemma_canon_wf(from@);
            lemma_canon_wf(to@);
        }
        if cf.as_str().unicode_len() == 1 {
            proof {
                assert(canon(from@) =~= root_path());
            }
            return Err(KernelError::InvalidOperation);
        }
        proof {
            if canon(from@) == root_path() {
                assert(canon(from@).len() == 1);
            }
        }
        if self.find_idx(cf.as_str()).is_none() {
            return Err(KernelError::NotFound);
        }
        // any node at or under the destination blocks the move
        let mut cts = String::new();
        crate::strutil::append_str(&mut cts, ct.as_str());
        crate::strutil::push_char(&mut cts, '/');
        let tn = ct.as_str().unicode_len();
        let n = self.nodes.len();
        let mut i: usize = 0;
        while i < n
            invariant
                self.wf(),
                *self == *old(self),
                n == self.nodes@.len(),
                i <= n,
                canon(from@) != root_path(),
                old(self).view().contains_key(canon(from@)),
                ct@ == canon(to@),
                cts@ == canon(to@) + seq!['/'],
                tn == canon(to@).len(),
                forall|j: int| 0 <= j < i
                    ==> !subtree_key(canon(to@), (#[trigger] self.nodes@[j].path@)),
            decreases n - i,
        {
            let p = &self.nodes[i].path;
            let hit = crate::strutil::str_eq(p.as_str(), ct.as_str())
                || crate::strutil::str_is_prefix(cts.as_str(), p.as_str());
            proof {
                let k = self.nodes@[i as int].path@;
                crate::path::lemma_slash_prefix(canon(to@), k);
            }
            if hit {
                proof {
                    Self::lemma_map_of_index(self.nodes@, i as int);
                    assert(self.view().contains_key(self.nodes@[i as int].path@)
                        && subtree_key(canon(to@), self.nodes@[i as int].path@));
                }
                return Err(KernelError::AlreadyExists);
            }
            i = i + 1;
        }
        proof {
            assert forall|k: Seq<char>| #[trigger] old(self).view().contains_key(k)
                implies !subtree_key(canon(to@), k) by {
                Self::lemma_map_of_contains(self.nodes@, k);
            }
        }
        // move every node at or under the source
        let mut cfs = String::new();
        crate::strutil::append_str(&mut cfs, cf.as_str());
        crate::strutil::push_char(&mut cfs, '/');
        let fnn = cf.as_str().unicode_len();
        let ghost f = canon(from@);
        let ghost t = canon(to@);
        let mut i: usize = 0;
        while i < n
            invariant
                n == self.nodes@.len(),
                n == old(self).nodes@.len(),
                i <= n,
                self.name == old(self).name,
                self.root_inode == old(self).root_inode,
                self.next_inode == old(self).next_inode,
                old(self).wf(),
                old(self).view().contains_key(canon(from@)),
                f == canon(from@),
                t == canon(to@),
                canon_wf(f),
                canon_wf(t),
                f != root_path(),
                t != root_path(),
                cf@ == f,
                ct@ == t,
                cfs@ == f + seq!['/'],
                fnn == f.len(),
                forall|j: int| 0 <= j < n
                    ==> node_view(#[trigger] self.nodes@[j])
                        == node_view(old(self).nodes@[j]),
                forall|j: int| 0 <= j < n ==> Self::node_ok(#[trigger] old(self).nodes@[j]),
                forall|j: int| i <= j < n
                    ==> (#[trigger] self.nodes@[j]).path@ == old(self).nodes@[j].path@,
                forall|j: int| 0 <= j < i
                    ==> (#[trigger] self.nodes@[j]).path@
                        == rekey(f, t, old(self).nodes@[j].path@),
                forall|j: int| 0 <= j < i ==> canon_wf((#[trigger] self.nodes@[j]).path@),
            decreases n - i,
        {
            let is_source = crate::strutil::str_eq(self.nodes[i].path.as_str(), cf.as_str());
            let in_subtree = is_source
                || crate::strutil::str_is_prefix(cfs.as_str(), self.nodes[i].path.as_str());
            proof {
                crate::path::lemma_slash_prefix(f, self.nodes@[i as int].path@);
            }
            if in_subtree {
                let plen = self.nodes[i].path.as_str().unicode_len();
                let mut newp = String::new();
                crate::strutil::append_str(&mut newp, ct.as_str());
                if !is_source {
                    let suffix = self.nodes[i].path.as_str().substring_char(fnn, plen);
                    crate::strutil::append_str(&mut newp, suffix);
                }
                proof {
                    let k = self.nodes@[i as int].path@;
                    if is_source {
                        assert(k.skip(fnn as int) =~= Seq::<char>::empty());
                        assert(newp@ =~= rekey(f, t, k));
                    } else {
                        assert(newp@ =~= rekey(f, t, k));
                    }
                    lemma_rekey_wf(f, t, k);
                }
                core::mem::swap(&mut self.nodes[i].path, &mut newp);
            }
            i = i + 1;
        }
        proof {
            let pre = old(self).view();
            let post = self.view();
            let ns = self.nodes@;
            let ons = old(self).nodes@;
            // rekeying is injective here: every moved key sits at or under
            // the destination, and no unmoved key does
            assert forall|a: int, b: int| 0 <= a < b < n
                implies (#[trigger] ns[a].path@) != (#[trigger] ns[b].path@) by {
                lemma_rekey_distinct(f, t, ons[a].path@, ons[b].path@);
            }
            assert(Self::keys_distinct(ns));
            assert forall|j: int| 0 <= j < n implies Self::node_ok(#[trigger] ns[j]) by {
                assert(node_view(ns[j]) == node_view(ons[j]));
                assert(Self::node_ok(ons[j]));
                assert(canon_wf(ns[j].path@));
            }
            assert(post.contains_key(root_path()) && post[root_path()].is_dir) by {
                assert(pre.contains_key(root_path()));
                Self::lemma_map_of_contains(ons, root_path());
                let ri = choose|ri: int|
                    0 <= ri < n && #[trigger] ons[ri].path@ == root_path();
                assert(!subtree_key(f, root_path())) by {
                    if root_path().len() > f.len() {
                        assert(f.len() == 0);
                    }
                }
                assert(ns[ri].path@ == root_path());
                Self::lemma_map_of_index(ns, ri);
                Self::lemma_map_of_index(ons, ri);
            }
            assert(self.wf());
            assert forall|k: Seq<char>| #[trigger] pre.contains_key(k)
                implies post.contains_key(rekey(f, t, k))
                    && post[rekey(f, t, k)] == pre[k] by {
                Self::lemma_map_of_contains(ons, k);
                let j = choose|j: int| 0 <= j < n && #[trigger] ons[j].path@ == k;
                assert(ns[j].path@ == rekey(f, t, k));
                Self::lemma_map_of_index(ns, j);
                Self::lemma_map_of_index(ons, j);
            }
            assert forall|k2: Seq<char>| #[trigger] post.contains_key(k2)
                implies exists|k: Seq<char>| #[trigger] pre.contains_key(k)
                    && rekey(f, t, k) == k2 by {
                Self::lemma_map_of_contains(ns, k2);
                let j = choose|j: int| 0 <= j < n && #[trigger] ns[j].path@ == k2;
                Self::lemma_map_of_index(ons, j);
                assert(pre.contains_key(ons[j].path@)
                    && rekey(f, t, ons[j].path@) == k2);
            }
        }
        Ok(())
    }

    /// The filesystem's display name.
    pub fn name(&self) -> (r: &str)
        ensures
            r@ == self.name_spec(),
    {
        self.name.as_str()
    }

    /// Total capacity this store reports.
    pub fn total_space(&self) -> (r: u64)
        ensures
            r == 10485760u64,
    {
        1024 * 1024 * 10
    }

    /// Available space this store reports; everything is claimed free.
    pub fn available_space(&self) -> (r: u64)
        ensures
            r == 10485760u64,
    {
        1024 * 1024 * 10
    }

    /// Opens a file for reading or writing; directories cannot be opened.
    pub fn open(&self, path: &str, write: bool) -> (r: Result<FileHandle, KernelError>)
        requires
            self.wf(),
        ensures
            match r {
                Ok(h) => {
                    &&& self.view().contains_key(canon(path@))
                    &&& !self.view()[canon(path@)].is_dir
                    &&& h.path@ == canon(path@)
                    &&& h.position == 0
                    &&& h.flags == if write { FLAG_WRITE } else { FLAG_READ }
                },
                Err(KernelError::NotFound) => !self.view().contains_key(canon(path@)),
                Err(KernelError::NotAFile) => self.view().contains_key(canon(path@))
                    && self.view()[canon(path@)].is_dir,
                Err(_) => false,
            },
    {
        let canonical = self.normalize_path_canonical(path);
        match self.find_idx(canonical.as_str()) {
            Some(i) => match &self.nodes[i].data {
                NodeData::File(_) => {
                    let flags = if write { FLAG_WRITE } else { FLAG_READ };
                    Ok(FileHandle::new(canonical.as_str(), flags))
                },
                NodeData::Directory => Err(KernelError::NotAFile),
            },
            None => Err(KernelError::NotFound),
        }
    }
}

} // verus!
