//! The inode table and the operation dispatcher.
//!
//! A single table maps inode numbers to nodes; every filesystem verb runs
//! against it.  The embedding program is expected to guard the whole engine
//! with one exclusive lock and to call each verb under one lock acquisition,
//! so a concurrent reader never observes a partial mutation: every verb here
//! takes the engine exclusively and re-establishes the table invariant before
//! it returns.

use vstd::prelude::*;
use vstd::pervasive::unreached;
use std::collections::HashMap;
use crate::attrs::{Meta, NodeAttr, FileType};
use vstd::string::StringSliceAdditionalSpecFns;
use crate::errors::FsError;
use crate::files::{FileNode, file_data, file_meta};
use crate::trigger_file::Command;
use crate::link::Link;
use crate::user_files::NormalDir;

verus! {

/// A node of the tree: a tagged union of exactly three variants.
#[derive(Debug)]
pub enum Ino {
    File(FileNode),
    Dir(NormalDir),
    Link(Link),
}

/// The display name of a node.
pub open spec fn node_name(n: Ino) -> Seq<u8> {
    match n {
        Ino::File(f) => file_meta(f).name@,
        Ino::Dir(d) => d.meta.name@,
        Ino::Link(l) => l.meta.name@,
    }
}

/// The metadata record of a node.
pub open spec fn node_meta(n: Ino) -> Meta {
    match n {
        Ino::File(f) => file_meta(f),
        Ino::Dir(d) => d.meta,
        Ino::Link(l) => l.meta,
    }
}

/// The child list of a node: a directory's listing, empty for other kinds.
pub open spec fn node_children(n: Ino) -> Seq<u64> {
    match n {
        Ino::Dir(d) => d.children@,
        _ => Seq::empty(),
    }
}

/// The size a node reports: payload length for a file, child count for a
/// directory, zero for a link.
pub open spec fn node_size(n: Ino) -> int {
    match n {
        Ino::File(f) => file_data(f).len() as int,
        Ino::Dir(d) => d.children@.len() as int,
        Ino::Link(l) => 0,
    }
}

/// The protocol kind of a node.
pub open spec fn node_kind(n: Ino) -> FileType {
    match n {
        Ino::File(f) => FileType::RegularFile,
        Ino::Dir(d) => FileType::Directory,
        Ino::Link(l) => FileType::Symlink,
    }
}

/// The attribute record a node at inode number `ino` reports.
pub open spec fn node_attr(n: Ino, ino: u64) -> NodeAttr {
    (NodeAttr {
        ino,
        size: node_size(n) as u64,
        kind: node_kind(n),
        perm: node_meta(n).perm,
        uid: node_meta(n).uid,
        gid: node_meta(n).gid,
        flags: node_meta(n).flags,
    })
}

/// Whether a node is a sandbox directory.
pub open spec fn node_sandbox(n: Ino) -> bool {
    n matches Ino::Dir(d) && d.user_dir
}

/// Resolution of a name against a child list: the first listed child that is
/// present in the table and carries the name.
pub open spec fn lookup_in(m: Map<u64, Ino>, children: Seq<u64>, name: Seq<u8>) -> Option<u64>
    decreases children.len(),
{
    if children.len() == 0 {
        None
    } else {
        let c = children[0];
        if m.contains_key(c) && node_name(m[c]) == name {
            Some(c)
        } else {
            lookup_in(m, children.drop_first(), name)
        }
    }
}

/// Resolution of a name against a directory's listing.
pub open spec fn resolve(m: Map<u64, Ino>, dir: u64, name: Seq<u8>) -> Option<u64> {
    lookup_in(m, node_children(m[dir]), name)
}

/// A resolved child is always a present key carried by the listing.
pub proof fn lemma_lookup_in_found(m: Map<u64, Ino>, children: Seq<u64>, name: Seq<u8>)
    ensures
        lookup_in(m, children, name) matches Some(c) ==> m.contains_key(c) && node_name(m[c])
            == name && children.contains(c),
    decreases children.len(),
{
    if children.len() > 0 {
        lemma_lookup_in_found(m, children.drop_first(), name);
        if let Some(c) = lookup_in(m, children.drop_first(), name) {
            assert(children.drop_first().contains(c));
            let ghost k = choose|k: int|
                0 <= k < children.drop_first().len() && children.drop_first()[k] == c;
            assert(children[k + 1] == c);
        }
    }
}

/// The root directory always exists at inode number one.
pub open spec fn table_root_ok(m: Map<u64, Ino>) -> bool {
    &&& m.contains_key(1)
    &&& m[1] is Dir
}

/// No dangling references: every inode number a directory lists exists as a
/// key of the table.
pub open spec fn table_closed(m: Map<u64, Ino>) -> bool {
    forall|d: u64|
        #[trigger] m.contains_key(d) ==> forall|k: int|
            0 <= k < node_children(m[d]).len() ==> m.contains_key(#[trigger] node_children(m[d])[k])
}

/// Every inode number is linked at most once: no two listing slots, in the
/// same or in different directories, carry the same child.
pub open spec fn links_unique(m: Map<u64, Ino>) -> bool {
    forall|d1: u64, d2: u64, k1: int, k2: int|
        #![trigger node_children(m[d1])[k1], node_children(m[d2])[k2]]
        m.contains_key(d1) && m.contains_key(d2) && 0 <= k1 < node_children(m[d1]).len() && 0 <= k2
            < node_children(m[d2]).len() && node_children(m[d1])[k1] == node_children(m[d2])[k2]
            ==> d1 == d2 && k1 == k2
}

/// The root is never listed as a child.
pub open spec fn root_not_child(m: Map<u64, Ino>) -> bool {
    forall|d: u64, k: int|
        m.contains_key(d) && 0 <= k < node_children(m[d]).len() ==> #[trigger] node_children(
            m[d],
        )[k] != 1
}

/// No directory lists itself as its own child.
pub open spec fn no_self_link(m: Map<u64, Ino>) -> bool {
    forall|d: u64, k: int|
        m.contains_key(d) && 0 <= k < node_children(m[d]).len() ==> #[trigger] node_children(
            m[d],
        )[k] != d
}

/// Every key stays below the allocator's next number, so a fresh number never
/// collides with a live or historical node.
pub open spec fn keys_bounded(m: Map<u64, Ino>, next: u64) -> bool {
    forall|i: u64| #[trigger] m.contains_key(i) ==> 1 <= i < next
}

/// An inode number that is not a key is not linked anywhere in a closed
/// table.
pub proof fn lemma_unlinked(m: Map<u64, Ino>, c: u64)
    requires
        table_closed(m),
        !m.contains_key(c),
    ensures
        forall|d: u64, k: int|
            m.contains_key(d) && 0 <= k < node_children(m[d]).len() ==> #[trigger] node_children(
                m[d],
            )[k] != c,
{
}

/// The engine: the inode table, the monotonic inode allocator, and the
/// owner and group that newly materialized directories receive.
pub struct MainFs {
    pub inos: HashMap<u64, Ino>,
    pub next_ino: u64,
    pub uid: u32,
    pub gid: u32,
}

impl MainFs {
    /// The well-formedness invariant of the whole engine, established by the
    /// constructor and preserved by every verb.
    pub open spec fn wf(self) -> bool {
        &&& table_root_ok(self.inos@)
        &&& table_closed(self.inos@)
        &&& links_unique(self.inos@)
        &&& root_not_child(self.inos@)
        &&& no_self_link(self.inos@)
        &&& keys_bounded(self.inos@, self.next_ino)
        &&& self.next_ino >= 2
    }

    /// The table as a map from inode number to node.
    pub open spec fn table(self) -> Map<u64, Ino> {
        self.inos@
    }

    /// Builds an engine holding only the root directory, and records the
    /// owner and group for directories materialized on behalf of background
    /// inserts.
    pub fn new(uid: u32, gid: u32) -> (fs: MainFs)
        ensures
            fs.wf(),
            fs.table().dom() =~= set![1u64],
            fs.table()[1] matches Ino::Dir(root) && root.meta.name@ == "root".spec_bytes()
                && root.children@ == Seq::<u64>::empty() && root.user_dir == false,
            fs.next_ino == 2,
            fs.uid == uid,
            fs.gid == gid,
    {
        let mut inos: HashMap<u64, Ino> = HashMap::new();
        let name = crate::file_helpers::str_to_vec("root");
        let root = NormalDir::new(name, false, 0o777, 0, 0, 0);
        inos.insert(1, Ino::Dir(root));
        let fs = MainFs { inos, next_ino: 2, uid, gid };
        proof {
            assert(fs.table().dom() =~= set![1u64]);
        }
        fs
    }

    /// Draws a fresh inode number.  Numbers are handed out monotonically and
    /// never reused, so no two draws ever collide.
    pub fn get_unique_ino(&mut self) -> (r: u64)
        requires
            old(self).wf(),
            old(self).next_ino < u64::MAX,
        ensures
            final(self).wf(),
            r == old(self).next_ino,
            final(self).next_ino == r + 1,
            final(self).inos@ == old(self).inos@,
            final(self).uid == old(self).uid,
            final(self).gid == old(self).gid,
            !final(self).inos@.contains_key(r),
    {
        let r = self.next_ino;
        self.next_ino = self.next_ino + 1;
        r
    }
}

impl Ino {
    /// The display name of the node.
    pub fn name(&self) -> (r: &Vec<u8>)
        ensures
            r@ == node_name(*self),
    {
        match self {
            Ino::File(f) => f.name(),
            Ino::Dir(d) => &d.meta.name,
            Ino::Link(l) => l.name(),
        }
    }

    /// The attribute record the node reports at inode number `ino`.
    pub fn attr(&self, ino: u64) -> (r: NodeAttr)
        ensures
            r == node_attr(*self, ino),
    {
        match self {
            Ino::File(f) => {
                let (perm, uid, gid, flags) = f.meta();
                NodeAttr { ino, size: f.size(), kind: FileType::RegularFile, perm, uid, gid, flags }
            },
            Ino::Dir(d) => NodeAttr {
                ino,
                size: d.children.len() as u64,
                kind: FileType::Directory,
                perm: d.meta.perm,
                uid: d.meta.uid,
                gid: d.meta.gid,
                flags: d.meta.flags,
            },
            Ino::Link(l) => NodeAttr {
                ino,
                size: 0,
                kind: FileType::Symlink,
                perm: l.meta.perm,
                uid: l.meta.uid,
                gid: l.meta.gid,
                flags: l.meta.flags,
            },
        }
    }

    /// The protocol kind of the node.
    pub fn kind(&self) -> (r: FileType)
        ensures
            r == node_kind(*self),
    {
        match self {
            Ino::File(_) => FileType::RegularFile,
            Ino::Dir(_) => FileType::Directory,
            Ino::Link(_) => FileType::Symlink,
        }
    }

    /// The directory payload, when the node is a directory.
    pub fn try_unwrap_dir(&self) -> (r: Option<&NormalDir>)
        ensures
            *self matches Ino::Dir(d) ==> r matches Some(rd) && *rd == d,
            !(*self is Dir) ==> r is None,
    {
        if let Ino::Dir(d) = self {
            return Some(d);
        }
        None
    }

    /// The directory payload of a node known to be a directory.
    pub fn unwrap_dir(&self) -> (r: &NormalDir)
        requires
            *self is Dir,
        ensures
            *self matches Ino::Dir(d) && *r == d,
    {
        match self {
            Ino::Dir(d) => d,
            _ => unreached(),
        }
    }

    /// The file payload, when the node is a regular file.
    pub fn try_unwrap_file(&self) -> (r: Option<&FileNode>)
        ensures
            *self matches Ino::File(f) ==> r matches Some(rf) && *rf == f,
            !(*self is File) ==> r is None,
    {
        if let Ino::File(f) = self {
            return Some(f);
        }
        None
    }

    /// The file payload of a node known to be a regular file.
    pub fn unwrap_file(&self) -> (r: &FileNode)
        requires
            *self is File,
        ensures
            *self matches Ino::File(f) && *r == f,
    {
        match self {
            Ino::File(f) => f,
            _ => unreached(),
        }
    }

    /// Updates the node's attributes, delegating to its kind: supported for
    /// buffer files and (except for size) for directories, refused otherwise.
    pub fn setattr(
        &mut self,
        mode: Option<u32>,
        uid: Option<u32>,
        gid: Option<u32>,
        size: Option<u64>,
        fh: Option<u64>,
        flags: Option<u32>,
    ) -> (r: Result<(), FsError>)
        requires
            size matches Some(s) ==> s <= usize::MAX,
        ensures
            *old(self) matches Ino::File(FileNode::User(u0)) ==> r is Ok && (*final(self) matches
                Ino::File(FileNode::User(u1)) && u1.meta == crate::attrs::meta_updated(
                u0.meta,
                mode,
                uid,
                gid,
                flags,
            ) && u1.data@ == (match size {
                Some(s) => crate::user_files::resized(u0.data@, s as int),
                None => u0.data@,
            })),
            *old(self) matches Ino::File(FileNode::Trigger(_)) ==> r == Err::<(), FsError>(
                FsError::PermissionDenied,
            ) && *final(self) == *old(self),
            *old(self) matches Ino::Dir(d0) ==> (if size is Some {
                r == Err::<(), FsError>(FsError::NotSupported) && *final(self) == *old(self)
            } else {
                r is Ok && (*final(self) matches Ino::Dir(d1) && d1.meta
                    == crate::attrs::meta_updated(d0.meta, mode, uid, gid, flags) && d1.children
                    == d0.children && d1.user_dir == d0.user_dir)
            }),
            *old(self) is Link ==> r == Err::<(), FsError>(FsError::NotSupported) && *final(self)
                == *old(self),
            node_children(*final(self)) == node_children(*old(self)),
            node_sandbox(*old(self)) ==> node_sandbox(*final(self)),
            *old(self) is Dir <==> *final(self) is Dir,
    {
        match self {
            Ino::File(f) => f.setattr(mode, uid, gid, size, fh, flags),
            Ino::Dir(d) => d.setattr(mode, uid, gid, size, fh, flags),
            Ino::Link(l) => l.setattr(mode, uid, gid, size, fh, flags),
        }
    }

    /// Renames the node.  Files and directories follow the shared naming
    /// rule against the destination's sandbox flag; a directory renamed this
    /// way becomes a sandbox directory; a link renames unconditionally.
    pub fn rename(&mut self, new_name: &[u8], in_sandbox: bool) -> (r: Result<(), FsError>)
        ensures
            !(*old(self) is Link) && crate::attrs::naming_allowed(in_sandbox, new_name@) ==> r is Ok,
            !(*old(self) is Link) && !crate::attrs::naming_allowed(in_sandbox, new_name@) ==> r
                == Err::<(), FsError>(FsError::PermissionDenied) && *final(self) == *old(self),
            *old(self) is Link ==> r is Ok,
            r is Ok ==> node_renamed(*old(self), *final(self), new_name@),
            r is Ok && *old(self) is Dir ==> (*final(self) matches Ino::Dir(d1) && d1.user_dir
                == true),
            node_sandbox(*old(self)) ==> node_sandbox(*final(self)),
    {
        match self {
            Ino::File(f) => f.rename(new_name, in_sandbox),
            Ino::Dir(d) => d.rename(new_name, in_sandbox),
            Ino::Link(l) => l.rename(new_name, in_sandbox),
        }
    }

    /// Asks the node to consent to deletion.  The node itself is unchanged
    /// either way: a buffer file always consents, a directory only while it
    /// is empty, a trigger file and a link never do.
    pub fn delete(&mut self) -> (r: Result<(), FsError>)
        ensures
            *final(self) == *old(self),
            *old(self) matches Ino::File(FileNode::User(_)) ==> r is Ok,
            *old(self) matches Ino::File(FileNode::Trigger(_)) ==> r == Err::<(), FsError>(
                FsError::PermissionDenied,
            ),
            *old(self) matches Ino::Dir(d) ==> (if d.children@.len() == 0 {
                r is Ok
            } else {
                r == Err::<(), FsError>(FsError::NotEmpty)
            }),
            *old(self) is Link ==> r == Err::<(), FsError>(FsError::NotSupported),
    {
        match self {
            Ino::File(f) => f.delete(),
            Ino::Dir(d) => d.delete(),
            Ino::Link(l) => l.delete(),
        }
    }
}

/// Two nodes that differ at most in their display name and, for a
/// directory, the sandbox flag: same kind, same payload, same child list,
/// same one-shot state, same remaining attribute fields.
pub open spec fn node_renamed(a: Ino, b: Ino, name: Seq<u8>) -> bool {
    &&& node_name(b) == name
    &&& node_children(b) == node_children(a)
    &&& node_meta(b).perm == node_meta(a).perm
    &&& node_meta(b).uid == node_meta(a).uid
    &&& node_meta(b).gid == node_meta(a).gid
    &&& node_meta(b).flags == node_meta(a).flags
    &&& (a is File <==> b is File)
    &&& (a is Dir <==> b is Dir)
    &&& (a is Link <==> b is Link)
    &&& (a matches Ino::File(fa) ==> b matches Ino::File(fb)
        && crate::files::same_but_name(fa, fb))
}

/// Replacing one node by another with the same child list, the same claim to
/// being the root's directory shape, and no loss of a sandbox flag keeps the
/// whole table invariant.
pub proof fn lemma_wf_replace(m: Map<u64, Ino>, m2: Map<u64, Ino>, ino: u64, n2: Ino, next: u64)
    requires
        m.contains_key(ino),
        m2 == m.insert(ino, n2),
        node_children(n2) == node_children(m[ino]),
        node_sandbox(m[ino]) ==> node_sandbox(n2),
        ino == 1 ==> n2 is Dir,
        table_root_ok(m),
        table_closed(m),
        links_unique(m),
        root_not_child(m),
        no_self_link(m),
        keys_bounded(m, next),
    ensures
        table_root_ok(m2),
        table_closed(m2),
        links_unique(m2),
        root_not_child(m2),
        no_self_link(m2),
        keys_bounded(m2, next),
        sandbox_preserved(m, m2),
{
    assert forall|d: u64| #[trigger] m2.contains_key(d) implies m.contains_key(d) && node_children(
        m2[d],
    ) == node_children(m[d]) by {
        assert(m2[d] == if d == ino {
            n2
        } else {
            m[d]
        });
    }
}

/// Linking a fresh inode number under a directory and installing its node —
/// in the same step, so no reader can see the link without the node — keeps
/// the whole table invariant.
pub proof fn lemma_wf_link_new(
    m0: Map<u64, Ino>,
    m2: Map<u64, Ino>,
    parent: u64,
    c: u64,
    p1: Ino,
    nnew: Ino,
    next0: u64,
    next1: u64,
)
    requires
        table_root_ok(m0),
        table_closed(m0),
        links_unique(m0),
        root_not_child(m0),
        no_self_link(m0),
        keys_bounded(m0, next0),
        m0.contains_key(parent),
        m0[parent] is Dir,
        next0 <= c < next1,
        c != 1,
        m2 == m0.insert(parent, p1).insert(c, nnew),
        parent != c,
        p1 is Dir,
        node_children(p1) == node_children(m0[parent]).push(c),
        node_sandbox(m0[parent]) ==> node_sandbox(p1),
        node_children(nnew) == Seq::<u64>::empty(),
    ensures
        table_root_ok(m2),
        table_closed(m2),
        links_unique(m2),
        root_not_child(m2),
        no_self_link(m2),
        keys_bounded(m2, next1),
        sandbox_preserved(m0, m2),
{
    assert(!m0.contains_key(c));
    lemma_unlinked(m0, c);
    let ghost oldlen = node_children(m0[parent]).len() as int;
    assert forall|d: u64| #[trigger] m2.contains_key(d) implies d == c || m0.contains_key(d) by {}
    assert forall|d: u64| m2.contains_key(d) && d != c && d != parent implies node_children(m2[d])
        == node_children(m0[d]) by {}
    // Where each listing slot of the new table comes from.
    assert forall|d: u64, k: int|
        m2.contains_key(d) && 0 <= k < node_children(m2[d]).len() implies (#[trigger] node_children(
        m2[d],
    )[k] == c && d == parent && k == oldlen) || (m0.contains_key(d) && 0 <= k < node_children(
        m0[d],
    ).len() && node_children(m2[d])[k] == node_children(m0[d])[k] && node_children(m2[d])[k]
        != c) by {
        if d == c {
        } else if d == parent {
            assert(node_children(m2[parent]) == node_children(m0[parent]).push(c));
            if k < oldlen {
                assert(node_children(m2[parent])[k] == node_children(m0[parent])[k]);
                assert(node_children(m0[parent])[k] != c);
            }
        } else {
            assert(node_children(m2[d]) == node_children(m0[d]));
            assert(node_children(m0[d])[k] != c);
        }
    }
    assert(table_closed(m2)) by {
        assert forall|d: u64| #[trigger] m2.contains_key(d) implies (forall|k: int|
            0 <= k < node_children(m2[d]).len() ==> m2.contains_key(
                #[trigger] node_children(m2[d])[k],
            )) by {
            assert forall|k: int| 0 <= k < node_children(m2[d]).len() implies m2.contains_key(
                node_children(m2[d])[k],
            ) by {
                if d == parent && k == oldlen {
                    assert(node_children(m2[d])[k] == c);
                } else {
                    assert(m0.contains_key(node_children(m2[d])[k]));
                }
            }
        }
    }
    assert(links_unique(m2)) by {
        assert forall|d1: u64, d2: u64, k1: int, k2: int|
            m2.contains_key(d1) && m2.contains_key(d2) && 0 <= k1 < node_children(m2[d1]).len()
                && 0 <= k2 < node_children(m2[d2]).len() && #[trigger] node_children(m2[d1])[k1]
                == #[trigger] node_children(m2[d2])[k2] implies d1 == d2 && k1 == k2 by {
            let v = node_children(m2[d1])[k1];
            if d1 == parent && k1 == oldlen {
                if !(d2 == parent && k2 == oldlen) {
                    assert(node_children(m2[d2])[k2] != c);
                }
            } else {
                assert(v != c);
                assert(0 <= k1 < node_children(m0[d1]).len() && v == node_children(m0[d1])[k1]);
                if d2 == parent && k2 == oldlen {
                    assert(node_children(m2[d2])[k2] == c);
                } else {
                    assert(0 <= k2 < node_children(m0[d2]).len() && node_children(m0[d2])[k2] == v);
                }
            }
        }
    }
    assert(root_not_child(m2)) by {
        assert forall|d: u64, k: int|
            m2.contains_key(d) && 0 <= k < node_children(m2[d]).len() implies #[trigger] node_children(
            m2[d],
        )[k] != 1 by {
            if d == parent && k == oldlen {
            } else {
                assert(node_children(m2[d])[k] == node_children(m0[d])[k]);
            }
        }
    }
    assert(no_self_link(m2)) by {
        assert forall|d: u64, k: int|
            m2.contains_key(d) && 0 <= k < node_children(m2[d]).len() implies #[trigger] node_children(
            m2[d],
        )[k] != d by {
            if d == parent && k == oldlen {
            } else {
                assert(node_children(m2[d])[k] == node_children(m0[d])[k]);
                assert(node_children(m2[d])[k] != c);
            }
        }
    }
}

/// Filtering keeps pairwise-distinct elements pairwise distinct.
proof fn lemma_filter_distinct(s: Seq<u64>, p: spec_fn(u64) -> bool)
    requires
        forall|i: int, j: int| 0 <= i < j < s.len() ==> s[i] != s[j],
    ensures
        forall|i: int, j: int|
            0 <= i < j < s.filter(p).len() ==> #[trigger] s.filter(p)[i] != #[trigger] s.filter(
                p,
            )[j],
    decreases s.len(),
{
    reveal(Seq::filter);
    if s.len() > 0 {
        let rest = s.drop_last();
        let last = s.last();
        lemma_filter_distinct(rest, p);
        if p(last) {
            assert(s.filter(p) == rest.filter(p).push(last));
            assert forall|i: int, j: int|
                0 <= i < j < s.filter(p).len() implies #[trigger] s.filter(p)[i]
                != #[trigger] s.filter(p)[j] by {
                if j == s.filter(p).len() - 1 {
                    assert(s.filter(p)[j] == last);
                    assert(rest.filter(p).contains(rest.filter(p)[i]));
                    rest.lemma_filter_contains_rev(p, rest.filter(p)[i]);
                    let ghost w = choose|w: int| 0 <= w < rest.len() && rest[w] == rest.filter(p)[i];
                    assert(s[w] == rest.filter(p)[i]);
                    assert(s[w] != last);
                }
            }
        }
    }
}

/// Every element of a filtered sequence occurs in the original.
proof fn lemma_filter_elems(s: Seq<u64>, p: spec_fn(u64) -> bool)
    ensures
        forall|i: int| 0 <= i < s.filter(p).len() ==> s.contains(#[trigger] s.filter(p)[i]),
{
    assert forall|i: int| 0 <= i < s.filter(p).len() implies s.contains(
        #[trigger] s.filter(p)[i],
    ) by {
        assert(s.filter(p).contains(s.filter(p)[i]));
        s.lemma_filter_contains_rev(p, s.filter(p)[i]);
    }
}

/// Unlinking one listed child from its directory — the node itself stays in
/// the table — keeps the whole table invariant, and afterwards the child is
/// listed nowhere.
pub proof fn lemma_wf_unlink_keep(
    m0: Map<u64, Ino>,
    m1: Map<u64, Ino>,
    parent: u64,
    c: u64,
    p1: Ino,
    next: u64,
)
    requires
        table_root_ok(m0),
        table_closed(m0),
        links_unique(m0),
        root_not_child(m0),
        no_self_link(m0),
        keys_bounded(m0, next),
        m0.contains_key(parent),
        m0[parent] is Dir,
        node_children(m0[parent]).contains(c),
        m1 == m0.insert(parent, p1),
        p1 is Dir,
        node_children(p1) == node_children(m0[parent]).filter(|x: u64| x != c),
        node_sandbox(m0[parent]) ==> node_sandbox(p1),
    ensures
        table_root_ok(m1),
        table_closed(m1),
        links_unique(m1),
        root_not_child(m1),
        no_self_link(m1),
        keys_bounded(m1, next),
        sandbox_preserved(m0, m1),
        m1.dom() == m0.dom(),
        forall|d: u64, k: int|
            m1.contains_key(d) && 0 <= k < node_children(m1[d]).len() ==> #[trigger] node_children(
                m1[d],
            )[k] != c,
{
    let ghost pred = |x: u64| x != c;
    let ghost ch0 = node_children(m0[parent]);
    let ghost ch1 = node_children(p1);
    assert(m1.dom() =~= m0.dom());
    // The parent's old listing is pairwise distinct.
    assert forall|i: int, j: int| 0 <= i < j < ch0.len() implies ch0[i] != ch0[j] by {
        if ch0[i] == ch0[j] {
            assert(node_children(m0[parent])[i] == node_children(m0[parent])[j]);
        }
    }
    lemma_filter_distinct(ch0, pred);
    lemma_filter_elems(ch0, pred);
    broadcast use vstd::seq_lib::group_filter_ensures;

    // Each slot of the new table: the parent's slots carry old values other
    // than the unlinked child, all other slots are untouched.
    assert forall|d: u64, k: int|
        m1.contains_key(d) && 0 <= k < node_children(m1[d]).len() implies m0.contains_key(d)
        && node_children(m0[d]).contains(#[trigger] node_children(m1[d])[k]) && node_children(
        m1[d],
    )[k] != c by {
        if d == parent {
            assert(node_children(m1[d]) == ch1);
            assert(ch0.contains(ch1[k]));
            assert(pred(ch1[k]));
        } else {
            assert(node_children(m1[d]) == node_children(m0[d]));
            assert(node_children(m0[d])[k] != c) by {
                let ghost kc = choose|kc: int| 0 <= kc < ch0.len() && ch0[kc] == c;
                if node_children(m0[d])[k] == c {
                    assert(node_children(m0[d])[k] == node_children(m0[parent])[kc]);
                }
            }
            assert(node_children(m0[d]).contains(node_children(m0[d])[k]));
        }
    }
    assert(table_closed(m1)) by {
        assert forall|d: u64| #[trigger] m1.contains_key(d) implies (forall|k: int|
            0 <= k < node_children(m1[d]).len() ==> m1.contains_key(
                #[trigger] node_children(m1[d])[k],
            )) by {
            assert forall|k: int| 0 <= k < node_children(m1[d]).len() implies m1.contains_key(
                node_children(m1[d])[k],
            ) by {
                let v = node_children(m1[d])[k];
                assert(node_children(m0[d]).contains(v));
                let ghost w = choose|w: int|
                    0 <= w < node_children(m0[d]).len() && node_children(m0[d])[w] == v;
                assert(m0.contains_key(node_children(m0[d])[w]));
            }
        }
    }
    assert(links_unique(m1)) by {
        assert forall|d1: u64, d2: u64, k1: int, k2: int|
            m1.contains_key(d1) && m1.contains_key(d2) && 0 <= k1 < node_children(m1[d1]).len()
                && 0 <= k2 < node_children(m1[d2]).len() && #[trigger] node_children(m1[d1])[k1]
                == #[trigger] node_children(m1[d2])[k2] implies d1 == d2 && k1 == k2 by {
            let v = node_children(m1[d1])[k1];
            if d1 == parent && d2 == parent {
                if k1 != k2 {
                    assert(ch1[k1] != ch1[k2]);
                }
            } else if d1 == parent {
                let ghost w1 = choose|w: int| 0 <= w < ch0.len() && ch0[w] == v;
                assert(node_children(m0[parent])[w1] == node_children(m0[d2])[k2]);
                assert(false);
            } else if d2 == parent {
                let ghost w2 = choose|w: int| 0 <= w < ch0.len() && ch0[w] == v;
                assert(node_children(m0[parent])[w2] == node_children(m0[d1])[k1]);
                assert(false);
            } else {
                assert(node_children(m0[d1])[k1] == node_children(m0[d2])[k2]);
            }
        }
    }
    assert(root_not_child(m1)) by {
        assert forall|d: u64, k: int|
            m1.contains_key(d) && 0 <= k < node_children(m1[d]).len() implies #[trigger] node_children(
            m1[d],
        )[k] != 1 by {
            let v = node_children(m1[d])[k];
            let ghost w = choose|w: int|
                0 <= w < node_children(m0[d]).len() && node_children(m0[d])[w] == v;
            assert(node_children(m0[d])[w] != 1);
        }
    }
    assert(no_self_link(m1)) by {
        assert forall|d: u64, k: int|
            m1.contains_key(d) && 0 <= k < node_children(m1[d]).len() implies #[trigger] node_children(
            m1[d],
        )[k] != d by {
            let v = node_children(m1[d])[k];
            let ghost w = choose|w: int|
                0 <= w < node_children(m0[d]).len() && node_children(m0[d])[w] == v;
            assert(node_children(m0[d])[w] != d);
        }
    }
}

/// Removing a table key that no directory lists keeps the whole table
/// invariant.
pub proof fn lemma_wf_remove_key(m1: Map<u64, Ino>, m2: Map<u64, Ino>, c: u64, next: u64)
    requires
        table_root_ok(m1),
        table_closed(m1),
        links_unique(m1),
        root_not_child(m1),
        no_self_link(m1),
        keys_bounded(m1, next),
        c != 1,
        m2 == m1.remove(c),
        forall|d: u64, k: int|
            m1.contains_key(d) && 0 <= k < node_children(m1[d]).len() ==> #[trigger] node_children(
                m1[d],
            )[k] != c,
    ensures
        table_root_ok(m2),
        table_closed(m2),
        links_unique(m2),
        root_not_child(m2),
        no_self_link(m2),
        keys_bounded(m2, next),
        sandbox_preserved(m1, m2),
{
    assert forall|d: u64| #[trigger] m2.contains_key(d) implies m1.contains_key(d)
        && node_children(m2[d]) == node_children(m1[d]) by {}
    assert(table_closed(m2)) by {
        assert forall|d: u64| #[trigger] m2.contains_key(d) implies (forall|k: int|
            0 <= k < node_children(m2[d]).len() ==> m2.contains_key(
                #[trigger] node_children(m2[d])[k],
            )) by {
            assert forall|k: int| 0 <= k < node_children(m2[d]).len() implies m2.contains_key(
                node_children(m2[d])[k],
            ) by {
                assert(node_children(m1[d])[k] != c);
                assert(m1.contains_key(node_children(m1[d])[k]));
            }
        }
    }
}

/// Linking an existing, currently unlisted node under a directory keeps the
/// whole table invariant.
pub proof fn lemma_wf_link_existing(
    m1: Map<u64, Ino>,
    m2: Map<u64, Ino>,
    np: u64,
    c: u64,
    np1: Ino,
    next: u64,
)
    requires
        table_root_ok(m1),
        table_closed(m1),
        links_unique(m1),
        root_not_child(m1),
        no_self_link(m1),
        keys_bounded(m1, next),
        m1.contains_key(np),
        m1[np] is Dir,
        m1.contains_key(c),
        c != 1,
        c != np,
        forall|d: u64, k: int|
            m1.contains_key(d) && 0 <= k < node_children(m1[d]).len() ==> #[trigger] node_children(
                m1[d],
            )[k] != c,
        m2 == m1.insert(np, np1),
        np1 is Dir,
        node_children(np1) == node_children(m1[np]).push(c),
        node_sandbox(m1[np]) ==> node_sandbox(np1),
    ensures
        table_root_ok(m2),
        table_closed(m2),
        links_unique(m2),
        root_not_child(m2),
        no_self_link(m2),
        keys_bounded(m2, next),
        sandbox_preserved(m1, m2),
{
    let ghost oldlen = node_children(m1[np]).len() as int;
    assert forall|d: u64, k: int|
        m2.contains_key(d) && 0 <= k < node_children(m2[d]).len() implies (#[trigger] node_children(
        m2[d],
    )[k] == c && d == np && k == oldlen) || (m1.contains_key(d) && 0 <= k < node_children(
        m1[d],
    ).len() && node_children(m2[d])[k] == node_children(m1[d])[k] && node_children(m2[d])[k]
        != c) by {
        if d == np {
            assert(node_children(m2[np]) == node_children(m1[np]).push(c));
            if k < oldlen {
                assert(node_children(m2[np])[k] == node_children(m1[np])[k]);
            }
        } else {
            assert(node_children(m2[d]) == node_children(m1[d]));
        }
    }
    assert(table_closed(m2)) by {
        assert forall|d: u64| #[trigger] m2.contains_key(d) implies (forall|k: int|
            0 <= k < node_children(m2[d]).len() ==> m2.contains_key(
                #[trigger] node_children(m2[d])[k],
            )) by {
            assert forall|k: int| 0 <= k < node_children(m2[d]).len() implies m2.contains_key(
                node_children(m2[d])[k],
            ) by {
                if d == np && k == oldlen {
                    assert(node_children(m2[d])[k] == c);
                } else {
                    assert(m1.contains_key(node_children(m2[d])[k]));
                }
            }
        }
    }
    assert(links_unique(m2)) by {
        assert forall|d1: u64, d2: u64, k1: int, k2: int|
            m2.contains_key(d1) && m2.contains_key(d2) && 0 <= k1 < node_children(m2[d1]).len()
                && 0 <= k2 < node_children(m2[d2]).len() && #[trigger] node_children(m2[d1])[k1]
                == #[trigger] node_children(m2[d2])[k2] implies d1 == d2 && k1 == k2 by {
            if d1 == np && k1 == oldlen {
                if !(d2 == np && k2 == oldlen) {
                    assert(node_children(m2[d2])[k2] != c);
                }
            } else {
                assert(node_children(m2[d1])[k1] != c);
                if d2 == np && k2 == oldlen {
                } else {
                    assert(node_children(m1[d1])[k1] == node_children(m1[d2])[k2]);
                }
            }
        }
    }
    assert(root_not_child(m2)) by {
        assert forall|d: u64, k: int|
            m2.contains_key(d) && 0 <= k < node_children(m2[d]).len() implies #[trigger] node_children(
            m2[d],
        )[k] != 1 by {
            if d == np && k == oldlen {
            } else {
                assert(node_children(m2[d])[k] == node_children(m1[d])[k]);
            }
        }
    }
    assert(no_self_link(m2)) by {
        assert forall|d: u64, k: int|
            m2.contains_key(d) && 0 <= k < node_children(m2[d]).len() implies #[trigger] node_children(
            m2[d],
        )[k] != d by {
            if d == np && k == oldlen {
            } else {
                assert(node_children(m2[d])[k] == node_children(m1[d])[k]);
                assert(node_children(m2[d])[k] != c);
            }
        }
    }
}

/// The sandbox flag's one-way guarantee composes across steps: a directory
/// that keeps its flag over each of two steps keeps it over both.
pub proof fn lemma_sandbox_trans(m0: Map<u64, Ino>, m1: Map<u64, Ino>, m2: Map<u64, Ino>)
    requires
        sandbox_preserved(m0, m1),
        sandbox_preserved(m1, m2),
        forall|i: u64| m0.contains_key(i) && m2.contains_key(i) ==> m1.contains_key(i),
    ensures
        sandbox_preserved(m0, m2),
{
    assert forall|i: u64|
        #![trigger m0[i], m2[i]]
        m0.contains_key(i) && m2.contains_key(i) && node_sandbox(m0[i]) implies node_sandbox(
        m2[i],
    ) by {
        assert(m1.contains_key(i));
        assert(node_sandbox(m1[i]));
    }
}

/// One entry of a directory listing: the child, the offset at which the
/// listing resumes after it, and the child's kind and name.
#[derive(Debug)]
pub struct DirEntry {
    pub ino: u64,
    pub next_offset: u64,
    pub kind: FileType,
    pub name: Vec<u8>,
}

/// The sandbox flag never turns off: every directory that survives a step
/// keeps its sandbox mark.
pub open spec fn sandbox_preserved(pre: Map<u64, Ino>, post: Map<u64, Ino>) -> bool {
    forall|i: u64|
        #![trigger pre[i], post[i]]
        pre.contains_key(i) && post.contains_key(i) && node_sandbox(pre[i]) ==> node_sandbox(
            post[i],
        )
}

impl MainFs {
    /// Resolves a name under a parent directory and reports the child's
    /// attribute record.
    pub fn lookup(&self, parent: u64, name: &[u8]) -> (r: Result<NodeAttr, FsError>)
        requires
            self.wf(),
        ensures
            !self.table().contains_key(parent) ==> r == Err::<NodeAttr, FsError>(FsError::NotFound),
            self.table().contains_key(parent) && !(self.table()[parent] is Dir) ==> r == Err::<
                NodeAttr,
                FsError,
            >(FsError::NotSupported),
            self.table().contains_key(parent) && self.table()[parent] is Dir ==> (match resolve(
                self.table(),
                parent,
                name@,
            ) {
                Some(c) => r == Ok::<NodeAttr, FsError>(node_attr(self.table()[c], c)),
                None => r == Err::<NodeAttr, FsError>(FsError::NotFound),
            }),
    {
        let node = match self.inos.get(&parent) {
            Some(n) => n,
            None => {
                return Err(FsError::NotFound);
            },
        };
        let dir = match node {
            Ino::Dir(d) => d,
            _ => {
                return Err(FsError::NotSupported);
            },
        };
        let c = match dir.lookup_child(name, &self.inos) {
            Ok(c) => c,
            Err(e) => {
                return Err(e);
            },
        };
        proof {
            lemma_lookup_in_found(self.table(), dir.children@, name@);
        }
        match self.inos.get(&c) {
            Some(child) => Ok(child.attr(c)),
            None => unreached(),
        }
    }

    /// Reports the attribute record of a node.
    pub fn getattr(&self, ino: u64) -> (r: Result<NodeAttr, FsError>)
        requires
            self.wf(),
        ensures
            self.table().contains_key(ino) ==> r == Ok::<NodeAttr, FsError>(
                node_attr(self.table()[ino], ino),
            ),
            !self.table().contains_key(ino) ==> r == Err::<NodeAttr, FsError>(FsError::NotFound),
    {
        match self.inos.get(&ino) {
            Some(n) => Ok(n.attr(ino)),
            None => Err(FsError::NotFound),
        }
    }

    /// Lists a directory from a starting offset: one entry per child from
    /// that position on, each carrying the offset at which the listing
    /// resumes after it.
    #[verifier::loop_isolation(false)]
    pub fn readdir(&self, ino: u64, offset: i64) -> (r: Result<Vec<DirEntry>, FsError>)
        requires
            self.wf(),
        ensures
            !self.table().contains_key(ino) ==> r == Err::<Vec<DirEntry>, FsError>(
                FsError::NotFound,
            ),
            self.table().contains_key(ino) && !(self.table()[ino] is Dir) ==> r == Err::<
                Vec<DirEntry>,
                FsError,
            >(FsError::NotSupported),
            self.table().contains_key(ino) && self.table()[ino] is Dir && offset < 0 ==> r == Err::<
                Vec<DirEntry>,
                FsError,
            >(FsError::NotSupported),
            self.table().contains_key(ino) && self.table()[ino] is Dir && 0 <= offset ==> (
            r matches Ok(entries) && {
                let ch = node_children(self.table()[ino]);
                &&& entries@.len() == if offset <= ch.len() {
                    ch.len() - offset
                } else {
                    0
                }
                &&& forall|j: int|
                    #![trigger entries@[j]]
                    0 <= j < entries@.len() ==> {
                        let c = ch[offset + j];
                        &&& entries@[j].ino == c
                        &&& entries@[j].next_offset == offset + j + 1
                        &&& entries@[j].kind == node_kind(self.table()[c])
                        &&& entries@[j].name@ == node_name(self.table()[c])
                    }
            }),
    {
        let node = match self.inos.get(&ino) {
            Some(n) => n,
            None => {
                return Err(FsError::NotFound);
            },
        };
        let dir = match node {
            Ino::Dir(d) => d,
            _ => {
                return Err(FsError::NotSupported);
            },
        };
        if offset < 0 {
            return Err(FsError::NotSupported);
        }
        let mut out: Vec<DirEntry> = Vec::new();
        let len = dir.children.len();
        if offset as u64 >= len as u64 {
            return Ok(out);
        }
        let start = offset as u64 as usize;
        let mut pos: usize = start;
        while pos < len
            invariant
                start <= pos <= len,
                out@.len() == pos - start,
                forall|j: int|
                    #![trigger out@[j]]
                    0 <= j < out@.len() ==> {
                        let c = dir.children@[start + j];
                        &&& out@[j].ino == c
                        &&& out@[j].next_offset == start + j + 1
                        &&& out@[j].kind == node_kind(self.table()[c])
                        &&& out@[j].name@ == node_name(self.table()[c])
                    },
            decreases len - pos,
        {
            let c = dir.children[pos];
            match self.inos.get(&c) {
                Some(child) => {
                    let entry = DirEntry {
                        ino: c,
                        next_offset: (pos as u64) + 1,
                        kind: child.kind(),
                        name: vstd::slice::slice_to_vec(child.name().as_slice()),
                    };
                    out.push(entry);
                },
                None => {
                    proof {
                        assert(node_children(self.table()[ino])[pos as int] == c);
                    }
                    unreached()
                },
            }
            pos += 1;
        }
        Ok(out)
    }
}

impl MainFs {
    /// Updates a node's attributes under the table lock and reports the
    /// resulting attribute record.  Fields not supplied stay unchanged;
    /// combinations a node kind does not support fail without mutating
    /// anything.
    pub fn setattr(
        &mut self,
        ino: u64,
        mode: Option<u32>,
        uid: Option<u32>,
        gid: Option<u32>,
        size: Option<u64>,
        fh: Option<u64>,
        flags: Option<u32>,
    ) -> (r: Result<NodeAttr, FsError>)
        requires
            old(self).wf(),
            size matches Some(s) ==> s <= usize::MAX,
        ensures
            final(self).wf(),
            sandbox_preserved(old(self).table(), final(self).table()),
            final(self).next_ino == old(self).next_ino,
            final(self).uid == old(self).uid,
            final(self).gid == old(self).gid,
            !old(self).table().contains_key(ino) ==> r == Err::<NodeAttr, FsError>(
                FsError::NotFound,
            ) && final(self).table() == old(self).table(),
            old(self).table().contains_key(ino) ==> {
                let n0 = old(self).table()[ino];
                &&& (r matches Ok(a) ==> final(self).table() == old(self).table().insert(
                    ino,
                    final(self).table()[ino],
                ) && final(self).table().contains_key(ino) && node_setattr_ok(
                    n0,
                    final(self).table()[ino],
                    mode,
                    uid,
                    gid,
                    size,
                    flags,
                ) && a == node_attr(final(self).table()[ino], ino))
                &&& (r is Err ==> final(self).table() == old(self).table())
                &&& (match node_setattr_err(n0, size) {
                    Some(e) => r == Err::<NodeAttr, FsError>(e),
                    None => r is Ok,
                })
            },
    {
        let mut node = match self.inos.remove(&ino) {
            Some(n) => n,
            None => {
                proof {
                    assert(self.inos@ =~= old(self).inos@);
                }
                return Err(FsError::NotFound);
            },
        };
        let ghost m0 = old(self).inos@;
        let res = node.setattr(mode, uid, gid, size, fh, flags);
        self.inos.insert(ino, node);
        proof {
            assert(self.inos@ =~= m0.insert(ino, self.inos@[ino]));
            lemma_wf_replace(m0, self.inos@, ino, self.inos@[ino], self.next_ino);
            if res is Err {
                assert(self.inos@ =~= m0);
            }
        }
        match res {
            Ok(_) => {
                match self.inos.get(&ino) {
                    Some(n) => Ok(n.attr(ino)),
                    None => unreached(),
                }
            },
            Err(e) => Err(e),
        }
    }
}

/// What a successful create owes: a fresh inode number appended to the
/// parent's listing, the new node installed under it in the same step, and
/// everything else untouched.
pub open spec fn created_under(
    pre: MainFs,
    post: MainFs,
    parent: u64,
    c: u64,
    name: Seq<u8>,
) -> bool {
    &&& c == pre.next_ino
    &&& post.next_ino == c + 1
    &&& !pre.table().contains_key(c)
    &&& post.table().contains_key(c)
    &&& node_name(post.table()[c]) == name
    &&& (post.table()[parent] matches Ino::Dir(pd) && pre.table()[parent] matches Ino::Dir(pd0)
        && pd.children@ == pd0.children@.push(c) && pd.meta == pd0.meta && pd.user_dir
        == pd0.user_dir)
    &&& post.table() == pre.table().insert(parent, post.table()[parent]).insert(
        c,
        post.table()[c],
    )
    &&& post.uid == pre.uid
    &&& post.gid == pre.gid
}

impl MainFs {
    /// Creates an empty buffer file under a parent directory.  The sandbox
    /// rule gates the operation; the new node inherits the caller's user and
    /// group.
    pub fn mknod(&mut self, parent: u64, name: &[u8], mode: u32, uid: u32, gid: u32) -> (r: Result<
        NodeAttr,
        FsError,
    >)
        requires
            old(self).wf(),
            old(self).next_ino < u64::MAX,
        ensures
            final(self).wf(),
            sandbox_preserved(old(self).table(), final(self).table()),
            final(self).next_ino >= old(self).next_ino,
            final(self).uid == old(self).uid,
            final(self).gid == old(self).gid,
            !old(self).table().contains_key(parent) ==> r == Err::<NodeAttr, FsError>(
                FsError::NotFound,
            ) && *final(self) == *old(self),
            old(self).table().contains_key(parent) && !(old(self).table()[parent] is Dir) ==> r
                == Err::<NodeAttr, FsError>(FsError::NotSupported) && *final(self) == *old(self),
            old(self).table().contains_key(parent) ==> (old(self).table()[parent] matches Ino::Dir(pd0) ==> (if !crate::attrs::naming_allowed(
                pd0.user_dir,
                name@,
            ) {
                r == Err::<NodeAttr, FsError>(FsError::PermissionDenied) && *final(self) == *old(
                    self,
                )
            } else {
                let c = old(self).next_ino;
                &&& created_under(*old(self), *final(self), parent, c, name@)
                &&& (final(self).table()[c] matches Ino::File(FileNode::User(u))
                    && crate::attrs::meta_is(u.meta, name@, mode, uid, gid, 0) && u.data@ == Seq::<
                    u8,
                >::empty())
                &&& r == Ok::<NodeAttr, FsError>(node_attr(final(self).table()[c], c))
            })),
    {
        let sandbox = match self.inos.get(&parent) {
            None => {
                return Err(FsError::NotFound);
            },
            Some(Ino::Dir(d)) => d.is_user_dir(),
            Some(_) => {
                return Err(FsError::NotSupported);
            },
        };
        if !sandbox && !crate::attrs::byte_name_escaped(name) {
            return Err(FsError::PermissionDenied);
        }
        let c = self.get_unique_ino();
        let ghost m0 = old(self).inos@;
        let mut pnode = match self.inos.remove(&parent) {
            Some(n) => n,
            None => unreached(),
        };
        match &mut pnode {
            Ino::Dir(d) => {
                let _ = d.add_child(c);
            },
            _ => unreached(),
        };
        self.inos.insert(parent, pnode);
        let file = crate::user_files::UserFile::new(
            vstd::slice::slice_to_vec(name),
            0,
            mode,
            uid,
            gid,
            0,
        );
        self.inos.insert(c, Ino::File(FileNode::User(file)));
        proof {
            assert(self.inos@ =~= m0.insert(parent, self.inos@[parent]).insert(
                c,
                self.inos@[c],
            ));
            assert(self.inos@[c] matches Ino::File(FileNode::User(u)) && u.data@ =~= Seq::<
                u8,
            >::empty());
            lemma_wf_link_new(
                m0,
                self.inos@,
                parent,
                c,
                self.inos@[parent],
                self.inos@[c],
                old(self).next_ino,
                self.next_ino,
            );
        }
        match self.inos.get(&c) {
            Some(n) => Ok(n.attr(c)),
            None => unreached(),
        }
    }

    /// Creates an empty directory under a parent directory.  The sandbox
    /// rule gates the operation; a directory created inside a sandbox, or
    /// under an escaped name, starts as a sandbox directory itself.
    pub fn mkdir(&mut self, parent: u64, name: &[u8], mode: u32, uid: u32, gid: u32) -> (r: Result<
        NodeAttr,
        FsError,
    >)
        requires
            old(self).wf(),
            old(self).next_ino < u64::MAX,
        ensures
            final(self).wf(),
            sandbox_preserved(old(self).table(), final(self).table()),
            final(self).next_ino >= old(self).next_ino,
            final(self).uid == old(self).uid,
            final(self).gid == old(self).gid,
            !old(self).table().contains_key(parent) ==> r == Err::<NodeAttr, FsError>(
                FsError::NotFound,
            ) && *final(self) == *old(self),
            old(self).table().contains_key(parent) && !(old(self).table()[parent] is Dir) ==> r
                == Err::<NodeAttr, FsError>(FsError::NotSupported) && *final(self) == *old(self),
            old(self).table().contains_key(parent) ==> (old(self).table()[parent] matches Ino::Dir(pd0) ==> (if !crate::attrs::naming_allowed(
                pd0.user_dir,
                name@,
            ) {
                r == Err::<NodeAttr, FsError>(FsError::PermissionDenied) && *final(self) == *old(
                    self,
                )
            } else {
                let c = old(self).next_ino;
                &&& created_under(*old(self), *final(self), parent, c, name@)
                &&& (final(self).table()[c] matches Ino::Dir(nd) && crate::attrs::meta_is(
                    nd.meta,
                    name@,
                    mode,
                    uid,
                    gid,
                    0,
                ) && nd.children@ == Seq::<u64>::empty() && nd.user_dir == (pd0.user_dir
                    || crate::attrs::name_escaped(name@)))
                &&& r == Ok::<NodeAttr, FsError>(node_attr(final(self).table()[c], c))
            })),
    {
        let sandbox = match self.inos.get(&parent) {
            None => {
                return Err(FsError::NotFound);
            },
            Some(Ino::Dir(d)) => d.is_user_dir(),
            Some(_) => {
                return Err(FsError::NotSupported);
            },
        };
        let escaped = crate::attrs::byte_name_escaped(name);
        if !sandbox && !escaped {
            return Err(FsError::PermissionDenied);
        }
        let c = self.get_unique_ino();
        let ghost m0 = old(self).inos@;
        let mut pnode = match self.inos.remove(&parent) {
            Some(n) => n,
            None => unreached(),
        };
        match &mut pnode {
            Ino::Dir(d) => {
                let _ = d.add_child(c);
            },
            _ => unreached(),
        };
        self.inos.insert(parent, pnode);
        let new_dir = NormalDir::new(
            vstd::slice::slice_to_vec(name),
            sandbox || escaped,
            mode,
            uid,
            gid,
            0,
        );
        self.inos.insert(c, Ino::Dir(new_dir));
        proof {
            assert(self.inos@ =~= m0.insert(parent, self.inos@[parent]).insert(
                c,
                self.inos@[c],
            ));
            lemma_wf_link_new(
                m0,
                self.inos@,
                parent,
                c,
                self.inos@[parent],
                self.inos@[c],
                old(self).next_ino,
                self.next_ino,
            );
        }
        match self.inos.get(&c) {
            Some(n) => Ok(n.attr(c)),
            None => unreached(),
        }
    }
}

impl MainFs {
    /// Moves the named child of a directory under a destination directory,
    /// renaming it on the way.  The shared naming rule is evaluated against
    /// the destination's sandbox flag; a directory moved this way becomes a
    /// sandbox directory.  A move that would make a directory its own direct
    /// child is refused outright, so the table never holds a self-link.
    pub fn rename(&mut self, parent: u64, name: &[u8], newparent: u64, newname: &[u8]) -> (r:
        Result<(), FsError>)
        requires
            old(self).wf(),
        ensures
            final(self).wf(),
            sandbox_preserved(old(self).table(), final(self).table()),
            final(self).next_ino == old(self).next_ino,
            final(self).uid == old(self).uid,
            final(self).gid == old(self).gid,
            !old(self).table().contains_key(parent) ==> r == Err::<(), FsError>(FsError::NotFound)
                && *final(self) == *old(self),
            old(self).table().contains_key(parent) && !(old(self).table()[parent] is Dir) ==> r
                == Err::<(), FsError>(FsError::NotSupported) && *final(self) == *old(self),
            old(self).table().contains_key(parent) && old(self).table()[parent] is Dir ==> (
            match resolve(old(self).table(), parent, name@) {
                None => r == Err::<(), FsError>(FsError::NotFound) && *final(self) == *old(self),
                Some(c) => {
                    let m0 = old(self).table();
                    if !m0.contains_key(newparent) {
                        r == Err::<(), FsError>(FsError::NotFound) && *final(self) == *old(self)
                    } else if !(m0[newparent] is Dir) {
                        r == Err::<(), FsError>(FsError::NotSupported) && *final(self) == *old(
                            self,
                        )
                    } else if newparent == c {
                        r == Err::<(), FsError>(FsError::NotSupported) && *final(self) == *old(
                            self,
                        )
                    } else if !(m0[c] is Link) && !crate::attrs::naming_allowed(
                        node_sandbox(m0[newparent]),
                        newname@,
                    ) {
                        r == Err::<(), FsError>(FsError::PermissionDenied) && *final(self) == *old(
                            self,
                        )
                    } else {
                        &&& r is Ok
                        &&& final(self).table().contains_key(c)
                        &&& node_renamed(m0[c], final(self).table()[c], newname@)
                        &&& (m0[c] is Dir ==> node_sandbox(final(self).table()[c]))
                        &&& (parent != newparent ==> {
                            &&& (final(self).table()[parent] matches Ino::Dir(pd) && pd.children@
                                == node_children(m0[parent]).filter(|x: u64| x != c) && pd.meta
                                == node_meta(m0[parent]) && pd.user_dir == node_sandbox(
                                m0[parent],
                            ))
                            &&& (final(self).table()[newparent] matches Ino::Dir(nd)
                                && nd.children@ == node_children(m0[newparent]).push(c) && nd.meta
                                == node_meta(m0[newparent]) && nd.user_dir == node_sandbox(
                                m0[newparent],
                            ))
                            &&& final(self).table() == m0.insert(c, final(self).table()[c]).insert(
                                parent,
                                final(self).table()[parent],
                            ).insert(newparent, final(self).table()[newparent])
                        })
                        &&& (parent == newparent ==> {
                            &&& (final(self).table()[parent] matches Ino::Dir(pd) && pd.children@
                                == node_children(m0[parent]).filter(|x: u64| x != c).push(c)
                                && pd.meta == node_meta(m0[parent]) && pd.user_dir == node_sandbox(
                                m0[parent],
                            ))
                            &&& final(self).table() == m0.insert(c, final(self).table()[c]).insert(
                                parent,
                                final(self).table()[parent],
                            )
                        })
                    }
                },
            }),
    {
        let ghost m0 = self.inos@;
        let c = {
            let pnode = match self.inos.get(&parent) {
                None => {
                    return Err(FsError::NotFound);
                },
                Some(n) => n,
            };
            let pdir = match pnode {
                Ino::Dir(d) => d,
                _ => {
                    return Err(FsError::NotSupported);
                },
            };
            match pdir.lookup_child(name, &self.inos) {
                Ok(c) => c,
                Err(e) => {
                    return Err(e);
                },
            }
        };
        proof {
            lemma_lookup_in_found(m0, node_children(m0[parent]), name@);
            let ghost w = choose|w: int|
                0 <= w < node_children(m0[parent]).len() && node_children(m0[parent])[w] == c;
            assert(node_children(m0[parent])[w] != 1);
            assert(node_children(m0[parent])[w] != parent);
        }
        let dest_sandbox = match self.inos.get(&newparent) {
            None => {
                return Err(FsError::NotFound);
            },
            Some(Ino::Dir(d)) => d.is_user_dir(),
            Some(_) => {
                return Err(FsError::NotSupported);
            },
        };
        if newparent == c {
            return Err(FsError::NotSupported);
        }
        let is_link = match self.inos.get(&c) {
            Some(Ino::Link(_)) => true,
            Some(_) => false,
            None => unreached(),
        };
        if !is_link && !dest_sandbox && !crate::attrs::byte_name_escaped(newname) {
            return Err(FsError::PermissionDenied);
        }
        let mut cnode = match self.inos.remove(&c) {
            Some(n) => n,
            None => unreached(),
        };
        let res = cnode.rename(newname, dest_sandbox);
        self.inos.insert(c, cnode);
        match res {
            Err(e) => {
                proof {
                    assert(false);
                }
                return Err(e);
            },
            Ok(_) => {},
        };
        let ghost ma = self.inos@;
        proof {
            assert(ma =~= m0.insert(c, ma[c]));
            lemma_wf_replace(m0, ma, c, ma[c], self.next_ino);
        }
        let mut pnode = match self.inos.remove(&parent) {
            Some(n) => n,
            None => unreached(),
        };
        match &mut pnode {
            Ino::Dir(d) => {
                let _ = d.remove_child(c);
            },
            _ => unreached(),
        };
        self.inos.insert(parent, pnode);
        let ghost mb = self.inos@;
        proof {
            assert(mb =~= ma.insert(parent, mb[parent]));
            assert(node_children(ma[parent]).contains(c));
            lemma_wf_unlink_keep(ma, mb, parent, c, mb[parent], self.next_ino);
        }
        let mut npnode = match self.inos.remove(&newparent) {
            Some(n) => n,
            None => unreached(),
        };
        match &mut npnode {
            Ino::Dir(d) => {
                let _ = d.add_child(c);
            },
            _ => unreached(),
        };
        self.inos.insert(newparent, npnode);
        proof {
            assert(self.inos@ =~= mb.insert(newparent, self.inos@[newparent]));
            lemma_wf_link_existing(
                mb,
                self.inos@,
                newparent,
                c,
                self.inos@[newparent],
                self.next_ino,
            );
            if parent != newparent {
                assert(self.inos@ =~= m0.insert(c, self.inos@[c]).insert(
                    parent,
                    self.inos@[parent],
                ).insert(newparent, self.inos@[newparent]));
            } else {
                assert(self.inos@ =~= m0.insert(c, self.inos@[c]).insert(
                    parent,
                    self.inos@[parent],
                ));
            }
        }
        Ok(())
    }
}

/// Which error, if any, a node reports when asked to consent to deletion: a
/// buffer file consents, a directory only while it is empty, a trigger file
/// and a link never do.
pub open spec fn node_delete_err(n: Ino) -> Option<FsError> {
    match n {
        Ino::File(FileNode::User(_)) => None,
        Ino::File(FileNode::Trigger(_)) => Some(FsError::PermissionDenied),
        Ino::Dir(d) => if d.children@.len() == 0 {
            None
        } else {
            Some(FsError::NotEmpty)
        },
        Ino::Link(_) => Some(FsError::NotSupported),
    }
}

impl MainFs {
    /// Removes the named child of a directory: unlinks it, asks the node to
    /// consent to deletion, and deletes it from the table.  When the node
    /// refuses, the unlink is rolled back — the child stays listed under its
    /// parent — and the node's error is reported.
    pub fn unlink(&mut self, parent: u64, name: &[u8]) -> (r: Result<(), FsError>)
        requires
            old(self).wf(),
        ensures
            final(self).wf(),
            sandbox_preserved(old(self).table(), final(self).table()),
            final(self).next_ino == old(self).next_ino,
            final(self).uid == old(self).uid,
            final(self).gid == old(self).gid,
            !old(self).table().contains_key(parent) ==> r == Err::<(), FsError>(FsError::NotFound)
                && *final(self) == *old(self),
            old(self).table().contains_key(parent) && !(old(self).table()[parent] is Dir) ==> r
                == Err::<(), FsError>(FsError::NotSupported) && *final(self) == *old(self),
            old(self).table().contains_key(parent) && old(self).table()[parent] is Dir ==> (
            match resolve(old(self).table(), parent, name@) {
                None => r == Err::<(), FsError>(FsError::NotFound) && *final(self) == *old(self),
                Some(c) => {
                    let pd0 = old(self).table()[parent];
                    match node_delete_err(old(self).table()[c]) {
                        None => {
                            &&& r is Ok
                            &&& !final(self).table().contains_key(c)
                            &&& (final(self).table()[parent] matches Ino::Dir(pd)
                                && pd.children@ == node_children(pd0).filter(|x: u64| x != c)
                                && pd.meta == node_meta(pd0) && pd.user_dir == node_sandbox(pd0))
                            &&& final(self).table() == old(self).table().insert(
                                parent,
                                final(self).table()[parent],
                            ).remove(c)
                        },
                        Some(e) => {
                            &&& r == Err::<(), FsError>(e)
                            &&& final(self).table().contains_key(c)
                            &&& final(self).table()[c] == old(self).table()[c]
                            &&& (final(self).table()[parent] matches Ino::Dir(pd)
                                && pd.children@ == node_children(pd0).filter(|x: u64| x != c).push(
                                c,
                            ) && pd.meta == node_meta(pd0) && pd.user_dir == node_sandbox(pd0))
                            &&& final(self).table() == old(self).table().insert(
                                parent,
                                final(self).table()[parent],
                            )
                        },
                    }
                },
            }),
    {
        let ghost m0 = self.inos@;
        let c = {
            let pnode = match self.inos.get(&parent) {
                None => {
                    return Err(FsError::NotFound);
                },
                Some(n) => n,
            };
            let pdir = match pnode {
                Ino::Dir(d) => d,
                _ => {
                    return Err(FsError::NotSupported);
                },
            };
            match pdir.lookup_child(name, &self.inos) {
                Ok(c) => c,
                Err(e) => {
                    return Err(e);
                },
            }
        };
        proof {
            lemma_lookup_in_found(m0, node_children(m0[parent]), name@);
            let ghost w = choose|w: int|
                0 <= w < node_children(m0[parent]).len() && node_children(m0[parent])[w] == c;
            assert(node_children(m0[parent])[w] != 1);
            assert(node_children(m0[parent])[w] != parent);
        }
        let mut pnode = match self.inos.remove(&parent) {
            Some(n) => n,
            None => unreached(),
        };
        match &mut pnode {
            Ino::Dir(d) => {
                let _ = d.remove_child(c);
            },
            _ => unreached(),
        };
        self.inos.insert(parent, pnode);
        let ghost m1 = self.inos@;
        proof {
            assert(m1 =~= m0.insert(parent, m1[parent]));
            lemma_wf_unlink_keep(m0, m1, parent, c, m1[parent], self.next_ino);
        }
        let mut cnode = match self.inos.remove(&c) {
            Some(n) => n,
            None => unreached(),
        };
        let res = cnode.delete();
        match res {
            Ok(_) => {
                proof {
                    assert(self.inos@ =~= m1.remove(c));
                    lemma_wf_remove_key(m1, self.inos@, c, self.next_ino);
                }
                Ok(())
            },
            Err(e) => {
                self.inos.insert(c, cnode);
                proof {
                    assert(self.inos@ =~= m1);
                }
                let mut pnode2 = match self.inos.remove(&parent) {
                    Some(n) => n,
                    None => unreached(),
                };
                match &mut pnode2 {
                    Ino::Dir(d) => {
                        let _ = d.add_child(c);
                    },
                    _ => unreached(),
                };
                self.inos.insert(parent, pnode2);
                proof {
                    assert(self.inos@ =~= m1.insert(parent, self.inos@[parent]));
                    lemma_wf_link_existing(
                        m1,
                        self.inos@,
                        parent,
                        c,
                        self.inos@[parent],
                        self.next_ino,
                    );
                    assert(self.inos@ =~= m0.insert(parent, self.inos@[parent]));
                }
                Err(e)
            },
        }
    }

    /// Removes the named child of a directory when that child is itself a
    /// directory and reports itself empty; on any failure nothing is
    /// mutated.
    pub fn rmdir(&mut self, parent: u64, name: &[u8]) -> (r: Result<(), FsError>)
        requires
            old(self).wf(),
        ensures
            final(self).wf(),
            sandbox_preserved(old(self).table(), final(self).table()),
            final(self).next_ino == old(self).next_ino,
            final(self).uid == old(self).uid,
            final(self).gid == old(self).gid,
            !old(self).table().contains_key(parent) ==> r == Err::<(), FsError>(FsError::NotFound)
                && *final(self) == *old(self),
            old(self).table().contains_key(parent) && !(old(self).table()[parent] is Dir) ==> r
                == Err::<(), FsError>(FsError::NotSupported) && *final(self) == *old(self),
            old(self).table().contains_key(parent) && old(self).table()[parent] is Dir ==> (
            match resolve(old(self).table(), parent, name@) {
                None => r == Err::<(), FsError>(FsError::NotFound) && *final(self) == *old(self),
                Some(c) => {
                    let pd0 = old(self).table()[parent];
                    if !(old(self).table()[c] is Dir) {
                        r == Err::<(), FsError>(FsError::NotSupported) && *final(self) == *old(self)
                    } else if node_children(old(self).table()[c]).len() > 0 {
                        r == Err::<(), FsError>(FsError::NotEmpty) && *final(self) == *old(self)
                    } else {
                        &&& r is Ok
                        &&& !final(self).table().contains_key(c)
                        &&& (final(self).table()[parent] matches Ino::Dir(pd) && pd.children@
                            == node_children(pd0).filter(|x: u64| x != c) && pd.meta == node_meta(
                            pd0,
                        ) && pd.user_dir == node_sandbox(pd0))
                        &&& final(self).table() == old(self).table().insert(
                            parent,
                            final(self).table()[parent],
                        ).remove(c)
                    }
                },
            }),
    {
        let ghost m0 = self.inos@;
        let c = {
            let pnode = match self.inos.get(&parent) {
                None => {
                    return Err(FsError::NotFound);
                },
                Some(n) => n,
            };
            let pdir = match pnode {
                Ino::Dir(d) => d,
                _ => {
                    return Err(FsError::NotSupported);
                },
            };
            match pdir.lookup_child(name, &self.inos) {
                Ok(c) => c,
                Err(e) => {
                    return Err(e);
                },
            }
        };
        proof {
            lemma_lookup_in_found(m0, node_children(m0[parent]), name@);
            let ghost w = choose|w: int|
                0 <= w < node_children(m0[parent]).len() && node_children(m0[parent])[w] == c;
            assert(node_children(m0[parent])[w] != 1);
            assert(node_children(m0[parent])[w] != parent);
        }
        match self.inos.get(&c) {
            Some(Ino::Dir(cd)) => {
                if cd.children.len() > 0 {
                    return Err(FsError::NotEmpty);
                }
            },
            Some(_) => {
                return Err(FsError::NotSupported);
            },
            None => unreached(),
        };
        let mut pnode = match self.inos.remove(&parent) {
            Some(n) => n,
            None => unreached(),
        };
        match &mut pnode {
            Ino::Dir(d) => {
                let _ = d.remove_child(c);
            },
            _ => unreached(),
        };
        self.inos.insert(parent, pnode);
        let ghost m1 = self.inos@;
        proof {
            assert(m1 =~= m0.insert(parent, m1[parent]));
            lemma_wf_unlink_keep(m0, m1, parent, c, m1[parent], self.next_ino);
        }
        let _removed = self.inos.remove(&c);
        proof {
            assert(self.inos@ =~= m1.remove(c));
            lemma_wf_remove_key(m1, self.inos@, c, self.next_ino);
        }
        Ok(())
    }
}

/// The outcome a node's attribute update owes for each node kind: which
/// updates succeed, and what the node looks like afterwards.
pub open spec fn node_setattr_ok(
    n0: Ino,
    n1: Ino,
    mode: Option<u32>,
    uid: Option<u32>,
    gid: Option<u32>,
    size: Option<u64>,
    flags: Option<u32>,
) -> bool {
    &&& (n0 matches Ino::File(FileNode::User(u0)) ==> n1 matches Ino::File(FileNode::User(u1))
        && u1.meta == crate::attrs::meta_updated(u0.meta, mode, uid, gid, flags) && u1.data@
        == (match size {
        Some(s) => crate::user_files::resized(u0.data@, s as int),
        None => u0.data@,
    }))
    &&& (n0 matches Ino::Dir(d0) ==> n1 matches Ino::Dir(d1) && d1.meta
        == crate::attrs::meta_updated(d0.meta, mode, uid, gid, flags) && d1.children == d0.children
        && d1.user_dir == d0.user_dir)
}

/// Which error, if any, a node's attribute update reports: permission denied
/// for a trigger file, not supported for a link or for resizing a directory,
/// success otherwise.
pub open spec fn node_setattr_err(n0: Ino, size: Option<u64>) -> Option<FsError> {
    if n0 matches Ino::File(FileNode::Trigger(_)) {
        Some(FsError::PermissionDenied)
    } else if n0 is Link {
        Some(FsError::NotSupported)
    } else if n0 is Dir && size is Some {
        Some(FsError::NotSupported)
    } else {
        None
    }
}

impl MainFs {
    /// Reads a byte range out of a regular file — never an error for any
    /// file kind, an out-of-range read yields an empty result — and hands
    /// back the commands a fired trigger schedules.
    pub fn read(&mut self, ino: u64, offset: i64, size: u32) -> (r: Result<
        (Vec<u8>, Vec<Command>),
        FsError,
    >)
        requires
            old(self).wf(),
        ensures
            final(self).wf(),
            sandbox_preserved(old(self).table(), final(self).table()),
            final(self).next_ino == old(self).next_ino,
            final(self).uid == old(self).uid,
            final(self).gid == old(self).gid,
            !old(self).table().contains_key(ino) ==> r == Err::<(Vec<u8>, Vec<Command>), FsError>(
                FsError::NotFound,
            ) && final(self).table() == old(self).table(),
            old(self).table().contains_key(ino) && !(old(self).table()[ino] is File) ==> r == Err::<
                (Vec<u8>, Vec<Command>),
                FsError,
            >(FsError::NotSupported) && final(self).table() == old(self).table(),
            old(self).table().contains_key(ino) ==> (old(self).table()[ino] matches Ino::File(f0)
                ==> (r matches Ok(pair) && {
                &&& pair.0@ == crate::file_helpers::read_bytes(
                    file_data(f0),
                    offset as int,
                    size as int,
                )
                &&& final(self).table().contains_key(ino)
                &&& final(self).table() == old(self).table().insert(
                    ino,
                    final(self).table()[ino],
                )
                &&& (f0 matches FileNode::User(_) ==> final(self).table() == old(self).table()
                    && pair.1@ == Seq::<Command>::empty())
                &&& (f0 matches FileNode::Trigger(t0) ==> (final(self).table()[ino] matches
                    Ino::File(FileNode::Trigger(t1)) && {
                    &&& t1.meta == t0.meta
                    &&& t1.data == t0.data
                    &&& (crate::trigger_file::fires(t0, offset as int) ==> t1.triggered == true
                        && t1.on_fire@ == Seq::<Command>::empty() && pair.1 == t0.on_fire)
                    &&& (!crate::trigger_file::fires(t0, offset as int) ==> t1 == t0 && pair.1@
                        == Seq::<Command>::empty())
                    &&& t1.triggered == (t0.triggered || crate::trigger_file::read_in_range(
                        t0.data@,
                        offset as int,
                    ))
                }))
            })),
    {
        match self.inos.get(&ino) {
            None => {
                return Err(FsError::NotFound);
            },
            Some(Ino::File(_)) => {},
            Some(_) => {
                return Err(FsError::NotSupported);
            },
        };
        let ghost m0 = self.inos@;
        let mut node = match self.inos.remove(&ino) {
            Some(n) => n,
            None => unreached(),
        };
        let pair = match &mut node {
            Ino::File(f) => f.read(offset, size),
            _ => unreached(),
        };
        self.inos.insert(ino, node);
        proof {
            assert(self.inos@ =~= m0.insert(ino, self.inos@[ino]));
            lemma_wf_replace(m0, self.inos@, ino, self.inos@[ino], self.next_ino);
            if m0[ino] matches Ino::File(FileNode::User(_)) {
                assert(self.inos@ =~= m0);
            }
        }
        Ok(pair)
    }

    /// Writes a byte range into a regular file, extending it as needed.
    pub fn write(&mut self, ino: u64, offset: i64, bytes: &[u8]) -> (r: Result<u32, FsError>)
        requires
            old(self).wf(),
            0 <= offset ==> offset + bytes@.len() <= usize::MAX,
        ensures
            final(self).wf(),
            sandbox_preserved(old(self).table(), final(self).table()),
            final(self).next_ino == old(self).next_ino,
            final(self).uid == old(self).uid,
            final(self).gid == old(self).gid,
            !old(self).table().contains_key(ino) ==> r == Err::<u32, FsError>(FsError::NotFound)
                && final(self).table() == old(self).table(),
            old(self).table().contains_key(ino) && !(old(self).table()[ino] is File) ==> r == Err::<
                u32,
                FsError,
            >(FsError::NotSupported) && final(self).table() == old(self).table(),
            old(self).table().contains_key(ino) ==> (old(self).table()[ino] matches Ino::File(
                FileNode::Trigger(_),
            ) ==> r == Err::<u32, FsError>(FsError::PermissionDenied) && final(self).table() == old(
                self,
            ).table()),
            old(self).table().contains_key(ino) ==> (old(self).table()[ino] matches Ino::File(
                FileNode::User(u0),
            ) ==> (if offset < 0 {
                r == Err::<u32, FsError>(FsError::NotSupported) && final(self).table() == old(
                    self,
                ).table()
            } else {
                &&& r == Ok::<u32, FsError>((#[verifier::truncate] (bytes@.len() as u32)))
                &&& final(self).table().contains_key(ino)
                &&& (final(self).table()[ino] matches Ino::File(FileNode::User(u1)) && u1.data@
                    == crate::user_files::write_bytes(u0.data@, offset as int, bytes@) && u1.meta
                    == u0.meta)
                &&& final(self).table() == old(self).table().insert(
                    ino,
                    final(self).table()[ino],
                )
            })),
    {
        match self.inos.get(&ino) {
            None => {
                return Err(FsError::NotFound);
            },
            Some(Ino::File(_)) => {},
            Some(_) => {
                return Err(FsError::NotSupported);
            },
        };
        let ghost m0 = self.inos@;
        let mut node = match self.inos.remove(&ino) {
            Some(n) => n,
            None => unreached(),
        };
        let res = match &mut node {
            Ino::File(f) => f.write(offset, bytes),
            _ => unreached(),
        };
        self.inos.insert(ino, node);
        proof {
            assert(self.inos@ =~= m0.insert(ino, self.inos@[ino]));
            lemma_wf_replace(m0, self.inos@, ino, self.inos@[ino], self.next_ino);
            if res is Err {
                assert(self.inos@ =~= m0);
            }
        }
        res
    }
}

impl NormalDir {
    /// Resolves a child of this directory by name: the first listed child
    /// that exists in the table and carries the name, or a not-found error.
    pub fn lookup_child(&self, child_name: &[u8], inos: &HashMap<u64, Ino>) -> (r: Result<
        u64,
        FsError,
    >)
        ensures
            r matches Ok(c) ==> lookup_in(inos@, self.children@, child_name@) == Some(c),
            r is Err ==> r == Err::<u64, FsError>(FsError::NotFound) && lookup_in(
                inos@,
                self.children@,
                child_name@,
            ) is None,
    {
        let ghost m = inos@;
        let ghost name = child_name@;
        proof {
            assert(self.children@.skip(0) =~= self.children@);
        }
        let mut i: usize = 0;
        while i < self.children.len()
            invariant
                i <= self.children@.len(),
                lookup_in(m, self.children@, name) == lookup_in(m, self.children@.skip(i as int), name),
                m == inos@,
                name == child_name@,
            decreases self.children@.len() - i,
        {
            let c = self.children[i];
            proof {
                assert(self.children@.skip(i as int)[0] == self.children@[i as int]);
                assert(self.children@.skip(i as int).drop_first() =~= self.children@.skip(i + 1));
            }
            if let Some(node) = inos.get(&c) {
                if crate::attrs::names_equal(node.name().as_slice(), child_name) {
                    return Ok(c);
                }
            }
            i += 1;
        }
        proof {
            assert(self.children@.skip(self.children@.len() as int) =~= Seq::<u64>::empty());
        }
        Err(FsError::NotFound)
    }
}

} // verus!
