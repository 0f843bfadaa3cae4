//! Absolute, forward-slash path handling: canonicalization, parent/basename
//! splitting, and component iteration.  Every lookup in the in-memory
//! filesystem goes through `canon`, so equivalent spellings of a path reach
//! the same table entry.

use vstd::prelude::*;
use vstd::string::StrSliceExecFns;
use crate::strutil::push_char;

verus! {

/// One folding step of canonicalization: append `c` unless it would create a
/// doubled slash.
pub open spec fn canon_step(acc: Seq<char>, c: char) -> Seq<char> {
    if c == '/' && acc.len() > 0 && acc.last() == '/' {
        acc
    } else {
        acc.push(c)
    }
}

/// Folds the characters of `s` onto a leading slash, collapsing repeated
/// slashes as it goes.
pub open spec fn canon_fold(s: Seq<char>) -> Seq<char>
    decreases s.len(),
{
    if s.len() == 0 {
        seq!['/']
    } else {
        canon_step(canon_fold(s.drop_last()), s.last())
    }
}

/// The canonical form of a path: a leading slash is ensured, repeated
/// slashes are collapsed, and a trailing slash is stripped (except for the
/// root itself).
pub open spec fn canon(s: Seq<char>) -> Seq<char> {
    let t = canon_fold(s);
    if t.len() > 1 && t.last() == '/' {
        t.drop_last()
    } else {
        t
    }
}

/// Structural well-formedness of a canonical path: it starts with a slash,
/// never holds two adjacent slashes, and only the root ends with one.
pub open spec fn canon_wf(s: Seq<char>) -> bool {
    &&& s.len() >= 1
    &&& s[0] == '/'
    &&& forall|i: int| 0 <= i < s.len() - 1 ==> !(#[trigger] s[i] == '/' && s[i + 1] == '/')
    &&& (s.len() > 1 ==> s.last() != '/')
}

/// The canonical root path.
pub open spec fn root_path() -> Seq<char> {
    seq!['/']
}

proof fn lemma_canon_fold_wf(s: Seq<char>)
    ensures
        canon_fold(s).len() >= 1,
        canon_fold(s)[0] == '/',
        forall|i: int|
            0 <= i < canon_fold(s).len() - 1
                ==> !(#[trigger] canon_fold(s)[i] == '/' && canon_fold(s)[i + 1] == '/'),
    decreases s.len(),
{
    if s.len() > 0 {
        lemma_canon_fold_wf(s.drop_last());
    }
}

/// What `canon` returns is structurally well formed.
pub proof fn lemma_canon_wf(s: Seq<char>)
    ensures
        canon_wf(canon(s)),
{
    lemma_canon_fold_wf(s);
    let t = canon_fold(s);
    if t.len() > 1 && t.last() == '/' {
        let u = canon(s);
        assert(u == t.drop_last());
        assert(u.last() == t[t.len() - 2]);
    }
}

/// Folding a string that already starts with a slash and holds no doubled
/// slash gives the string back.
proof fn lemma_canon_fold_identity(s: Seq<char>)
    requires
        s.len() >= 1,
        s[0] == '/',
        forall|i: int|
            0 <= i < s.len() - 1 ==> !(#[trigger] s[i] == '/' && s[i + 1] == '/'),
    ensures
        canon_fold(s) == s,
    decreases s.len(),
{
    if s.len() == 1 {
        reveal_with_fuel(canon_fold, 2);
        assert(canon_fold(s) =~= s);
    } else {
        let v = s.drop_last();
        lemma_canon_fold_identity(v);
        assert(!(s[s.len() - 2] == '/' && s[s.len() - 1] == '/'));
        assert(v.last() == s[s.len() - 2]);
        assert(canon_fold(s) =~= s);
    }
}

/// Canonicalization fixes every well-formed path.
pub proof fn lemma_canon_of_wf(s: Seq<char>)
    requires
        canon_wf(s),
    ensures
        canon(s) == s,
{
    lemma_canon_fold_identity(s);
}

/// Canonicalization is idempotent: canonicalizing a second time changes
/// nothing, for every path.
pub proof fn lemma_canon_idempotent(s: Seq<char>)
    ensures
        canon(canon(s)) == canon(s),
{
    lemma_canon_wf(s);
    lemma_canon_of_wf(canon(s));
}

/// Builds the canonical form of `path`.
pub fn canon_path(path: &str) -> (r: String)
    ensures
        r@ == canon(path@),
        canon_wf(r@),
{
    let n = path.unicode_len();
    let mut out = String::new();
    push_char(&mut out, '/');
    let mut last_slash = true;
    assert(out@ =~= canon_fold(path@.take(0)));
    let mut i: usize = 0;
    while i < n
        invariant
            n == path@.len(),
            i <= n,
            out@ == canon_fold(path@.take(i as int)),
            out@.len() >= 1,
            last_slash == (out@.last() == '/'),
        decreases n - i,
    {
        let c = path.get_char(i);
        proof {
            assert(path@.take(i + 1).drop_last() =~= path@.take(i as int));
            assert(path@.take(i + 1).last() == path@[i as int]);
        }
        if c == '/' && last_slash {
            // collapse the repeated slash
        } else {
            push_char(&mut out, c);
            last_slash = c == '/';
        }
        i = i + 1;
    }
    proof {
        assert(path@.take(n as int) =~= path@);
        lemma_canon_fold_wf(path@);
    }
    let m = out.as_str().unicode_len();
    if m > 1 && last_slash {
        let trimmed = out.as_str().substring_char(0, m - 1).to_owned();
        proof {
            assert(trimmed@ =~= canon(path@));
            lemma_canon_wf(path@);
        }
        trimmed
    } else {
        proof {
            lemma_canon_wf(path@);
        }
        out
    }
}

/// The index of the last slash in `p`, or `-1` when there is none.
pub open spec fn last_slash_index(p: Seq<char>) -> int
    decreases p.len(),
{
    if p.len() == 0 {
        -1
    } else if p.last() == '/' {
        p.len() - 1
    } else {
        last_slash_index(p.drop_last())
    }
}

/// For a well-formed non-root path, the parent directory's path.
pub open spec fn parent_of(p: Seq<char>) -> Seq<char> {
    let k = last_slash_index(p);
    if k <= 0 {
        root_path()
    } else {
        p.take(k)
    }
}

/// For a well-formed non-root path, the final component's name.
pub open spec fn basename_of(p: Seq<char>) -> Seq<char> {
    p.skip(last_slash_index(p) + 1)
}

/// A directory-entry name is nonempty and holds no slash.
pub open spec fn valid_name(n: Seq<char>) -> bool {
    n.len() >= 1 && forall|i: int| 0 <= i < n.len() ==> n[i] != '/'
}

/// The path of the entry `name` inside directory `dir`.
pub open spec fn join(dir: Seq<char>, name: Seq<char>) -> Seq<char> {
    if dir == root_path() {
        seq!['/'] + name
    } else {
        dir + seq!['/'] + name
    }
}

/// Where the last slash of any string sits: `-1` when there is none,
/// otherwise the largest index holding one.
pub proof fn lemma_last_slash_general(p: Seq<char>)
    ensures
        -1 <= last_slash_index(p) < p.len(),
        last_slash_index(p) >= 0 ==> p[last_slash_index(p)] == '/',
        forall|i: int| last_slash_index(p) < i < p.len() ==> p[i] != '/',
    decreases p.len(),
{
    if p.len() > 0 && p.last() != '/' {
        lemma_last_slash_general(p.drop_last());
        let v = p.drop_last();
        assert forall|i: int| last_slash_index(p) < i < p.len() implies p[i] != '/' by {
            if i < p.len() - 1 {
                assert(p[i] == v[i]);
            }
        }
    }
}

pub proof fn lemma_last_slash_index_facts(p: Seq<char>)
    requires
        p.len() >= 1,
        p[0] == '/',
    ensures
        0 <= last_slash_index(p) < p.len(),
        p[last_slash_index(p)] == '/',
        forall|i: int| last_slash_index(p) < i < p.len() ==> p[i] != '/',
    decreases p.len(),
{
    if p.len() == 1 {
    } else if p.last() == '/' {
    } else {
        lemma_last_slash_index_facts(p.drop_last());
        let v = p.drop_last();
        assert forall|i: int| last_slash_index(p) < i < p.len() implies p[i] != '/' by {
            if i < p.len() - 1 {
                assert(p[i] == v[i]);
            }
        }
    }
}

/// Splitting a well-formed non-root path into parent and basename inverts
/// `join`, the parent is well formed, and the basename is a valid entry name.
pub proof fn lemma_parent_basename(p: Seq<char>)
    requires
        canon_wf(p),
        p != root_path(),
    ensures
        canon_wf(parent_of(p)),
        valid_name(basename_of(p)),
        join(parent_of(p), basename_of(p)) == p,
        parent_of(p).len() < p.len(),
{
    assert(p.len() > 1) by {
        if p.len() == 1 {
            assert(p =~= root_path());
        }
    }
    lemma_last_slash_index_facts(p);
    let k = last_slash_index(p);
    assert(k < p.len() - 1) by {
        if k == p.len() - 1 {
            assert(p.last() == '/');
        }
    }
    if k <= 0 {
        assert(parent_of(p) == root_path());
        assert(join(parent_of(p), basename_of(p)) =~= p);
    } else {
        let par = p.take(k);
        assert(par[0] == '/');
        assert(par.last() != '/') by {
            assert(!(p[k - 1] == '/' && p[k] == '/'));
        }
        assert(canon_wf(par));
        assert(par != root_path()) by {
            if par =~= root_path() {
                assert(p[0] == '/' && p[1] == '/');
            }
        }
        assert(join(parent_of(p), basename_of(p)) =~= p);
    }
}

/// Joining a valid name onto a well-formed directory path gives a
/// well-formed path whose parent and basename are the inputs.
pub proof fn lemma_join_wf(dir: Seq<char>, name: Seq<char>)
    requires
        canon_wf(dir),
        valid_name(name),
    ensures
        canon_wf(join(dir, name)),
        parent_of(join(dir, name)) == dir,
        basename_of(join(dir, name)) == name,
        join(dir, name) != root_path(),
        join(dir, name).len() > dir.len(),
{
    let p = join(dir, name);
    if dir == root_path() {
        assert(canon_wf(p));
        assert(p[0] == '/');
        assert(forall|i: int| 1 <= i < p.len() ==> p[i] == name[i - 1]);
        lemma_last_slash_index_facts(p);
        assert(last_slash_index(p) == 0) by {
            let k = last_slash_index(p);
            if k > 0 {
                assert(p[k] == '/');
                assert(name[k - 1] == '/');
            }
        }
        assert(parent_of(p) == root_path());
        assert(basename_of(p) =~= name);
    } else {
        assert(p.len() == dir.len() + 1 + name.len());
        assert(forall|i: int| 0 <= i < dir.len() ==> p[i] == dir[i]);
        assert(p[dir.len() as int] == '/');
        assert(forall|i: int|
            dir.len() + 1 <= i < p.len() ==> p[i] == name[i - dir.len() - 1]);
        assert(canon_wf(p)) by {
            assert(p[0] == '/');
            assert forall|i: int| 0 <= i < p.len() - 1
                implies !(#[trigger] p[i] == '/' && p[i + 1] == '/') by {
                if i < dir.len() - 1 {
                    assert(!(dir[i] == '/' && dir[i + 1] == '/'));
                } else if i == dir.len() - 1 {
                    assert(dir.len() > 1) by {
                        if dir.len() == 1 {
                            assert(dir =~= root_path());
                        }
                    }
                    assert(dir.last() != '/');
                } else if i == dir.len() {
                    assert(p[i + 1] == name[0]);
                } else {
                    assert(p[i] == name[i - dir.len() - 1]);
                }
            }
            assert(p.last() == name.last());
        }
        lemma_last_slash_index_facts(p);
        assert(last_slash_index(p) == dir.len()) by {
            let k = last_slash_index(p);
            assert(p[dir.len() as int] == '/');
            if k > dir.len() {
                assert(name[k - dir.len() - 1] == '/');
            }
            assert(k >= dir.len());
        }
        assert(parent_of(p) =~= dir);
        assert(basename_of(p) =~= name);
    }
}

/// The pieces of `s` between its slashes: splitting keeps empty pieces, so
/// `"a//b"` gives `["a", "", "b"]` and an empty string gives one empty
/// piece.
pub open spec fn split_slashes(s: Seq<char>) -> Seq<Seq<char>>
    decreases s.len(),
{
    if s.len() == 0 {
        seq![Seq::empty()]
    } else if s.last() == '/' {
        split_slashes(s.drop_last()).push(Seq::empty())
    } else {
        let r = split_slashes(s.drop_last());
        r.update(r.len() - 1, r.last().push(s.last()))
    }
}

/// Splitting always yields at least one piece.
pub proof fn lemma_split_slashes_len(s: Seq<char>)
    ensures
        split_slashes(s).len() >= 1,
    decreases s.len(),
{
    if s.len() > 0 {
        lemma_split_slashes_len(s.drop_last());
    }
}

/// The views of a token list.
pub open spec fn token_views(ts: Seq<String>) -> Seq<Seq<char>> {
    ts.map_values(|t: String| t@)
}

/// Splits `s` on `'/'`, keeping empty pieces.
pub fn split_slash(s: &str) -> (r: Vec<String>)
    ensures
        token_views(r@) == split_slashes(s@),
{
    let n = s.unicode_len();
    let mut tokens: Vec<String> = Vec::new();
    let mut cur = String::new();
    proof {
        assert(token_views(tokens@).push(cur@) =~= split_slashes(s@.take(0)));
    }
    let mut i: usize = 0;
    while i < n
        invariant
            n == s@.len(),
            i <= n,
            token_views(tokens@).push(cur@) == split_slashes(s@.take(i as int)),
        decreases n - i,
    {
        let c = s.get_char(i);
        let ghost toks0 = tokens@;
        let ghost cur0 = cur@;
        proof {
            assert(s@.take(i + 1).drop_last() =~= s@.take(i as int));
            assert(s@.take(i + 1).last() == s@[i as int]);
            lemma_split_slashes_len(s@.take(i as int));
        }
        if c == '/' {
            tokens.push(cur);
            cur = String::new();
            proof {
                assert(token_views(tokens@) =~= token_views(toks0).push(cur0));
                assert(token_views(tokens@).push(cur@)
                    =~= split_slashes(s@.take(i + 1)));
            }
        } else {
            push_char(&mut cur, c);
            proof {
                let prev = split_slashes(s@.take(i as int));
                assert(split_slashes(s@.take(i + 1))
                    =~= prev.update(prev.len() - 1, prev.last().push(s@[i as int])));
                assert(token_views(tokens@).push(cur@)
                    =~= split_slashes(s@.take(i + 1)));
            }
        }
        i = i + 1;
    }
    proof {
        assert(s@.take(n as int) =~= s@);
    }
    tokens.push(cur);
    proof {
        assert(token_views(tokens@) =~= split_slashes(s@));
    }
    tokens
}

/// A string with prefix `t + "/"` holds `t` before a slash; and the other
/// way around.
pub proof fn lemma_slash_prefix(t: Seq<char>, k: Seq<char>)
    ensures
        (t + seq!['/']).is_prefix_of(k) <==> (k.len() > t.len()
            && k.take(t.len() as int) == t && k[t.len() as int] == '/'),
{
    let pfx = t + seq!['/'];
    if pfx.is_prefix_of(k) {
        assert(k.subrange(0, pfx.len() as int) == pfx);
        assert(k[t.len() as int] == pfx[t.len() as int]) by {
            assert(k.subrange(0, pfx.len() as int)[t.len() as int]
                == k[t.len() as int]);
        }
        assert(k.take(t.len() as int) =~= t) by {
            assert forall|x: int| 0 <= x < t.len()
                implies k.take(t.len() as int)[x] == t[x] by {
                assert(k.subrange(0, pfx.len() as int)[x] == k[x]);
                assert(pfx[x] == t[x]);
            }
        }
    }
    if k.len() > t.len() && k.take(t.len() as int) == t && k[t.len() as int] == '/' {
        assert(pfx =~= k.subrange(0, pfx.len() as int)) by {
            assert forall|x: int| 0 <= x < pfx.len()
                implies pfx[x] == k.subrange(0, pfx.len() as int)[x] by {
                if x < t.len() {
                    assert(k.take(t.len() as int)[x] == k[x]);
                }
            }
        }
        assert(pfx.is_prefix_of(k));
    }
}

/// Whether `q` lies on the chain of parents of `c`, the two endpoints
/// (`c` itself and the root) included.
pub open spec fn is_ancestor_path(q: Seq<char>, c: Seq<char>) -> bool
    decreases c.len(),
{
    if q == c {
        true
    } else if c == root_path() {
        false
    } else if parent_of(c).len() < c.len() {
        is_ancestor_path(q, parent_of(c))
    } else {
        false
    }
}

/// Ancestors of a well-formed path are well formed and no longer than it;
/// the root is always an ancestor.
pub proof fn lemma_ancestor_facts(q: Seq<char>, c: Seq<char>)
    requires
        canon_wf(c),
        is_ancestor_path(q, c),
    ensures
        canon_wf(q),
        q.len() <= c.len(),
    decreases c.len(),
{
    if q == c {
    } else {
        lemma_parent_basename(c);
        lemma_ancestor_facts(q, parent_of(c));
    }
}

/// Splits a well-formed non-root path into its parent path and final name.
pub fn split_parent(p: &str) -> (r: (String, String))
    requires
        canon_wf(p@),
        p@ != root_path(),
    ensures
        r.0@ == parent_of(p@),
        r.1@ == basename_of(p@),
        canon_wf(r.0@),
        valid_name(r.1@),
{
    proof {
        lemma_parent_basename(p@);
        lemma_last_slash_index_facts(p@);
    }
    let n = p.unicode_len();
    // scan backwards for the last slash
    let mut k: usize = n - 1;
    while p.get_char(k) != '/'
        invariant
            n == p@.len(),
            n >= 2,
            0 <= k < n,
            p@[0] == '/',
            0 <= last_slash_index(p@) < n,
            p@[last_slash_index(p@)] == '/',
            forall|i: int| last_slash_index(p@) < i < n ==> p@[i] != '/',
            last_slash_index(p@) <= k,
        decreases k,
    {
        proof {
            assert(last_slash_index(p@) != k);
        }
        k = k - 1;
    }
    proof {
        assert(k == last_slash_index(p@));
    }
    let parent = if k == 0 {
        let mut s = String::new();
        push_char(&mut s, '/');
        proof {
            assert(s@ =~= root_path());
        }
        s
    } else {
        p.substring_char(0, k).to_owned()
    };
    let name = p.substring_char(k + 1, n).to_owned();
    proof {
        assert(name@ =~= basename_of(p@));
        if k != 0 {
            assert(parent@ =~= parent_of(p@));
        }
    }
    (parent, name)
}

} // verus!
