//! The tree-mutation entry points that grow and shrink the tree from
//! outside the request path.
//!
//! Callers hand in a slash-separated path.  Inserting walks the path's
//! normal components from the root, materializing missing directories, and
//! links a new file at the end; removing resolves the path and unlinks and
//! deletes its last component.  The embedding program runs each call as a
//! detached unit of background work under the one table lock; failures are
//! not surfaced to the original caller.

use vstd::prelude::*;
use vstd::pervasive::unreached;
use vstd::slice::{slice_subrange, slice_to_vec};
use crate::attrs::perm_of_mode;
use crate::errors::FsError;
use crate::files::FileNode;
use crate::main_fs::{
    Ino, MainFs, lookup_in, lemma_lookup_in_found, node_children, node_meta, node_sandbox,
    sandbox_preserved, lemma_sandbox_trans, lemma_wf_link_new, lemma_wf_unlink_keep,
    lemma_wf_remove_key,
};
use crate::trigger_file::Command;
use crate::user_files::NormalDir;

verus! {

/// The permission bits newly materialized directories receive.
pub const DEFAULT_MODE: u32 = 0o777;

/// The position of the first separator at or after `i`, or the end of the
/// path.
pub open spec fn sep_after(p: Seq<u8>, i: int) -> int
    decreases p.len() - i,
{
    if i < 0 || i >= p.len() {
        p.len() as int
    } else if p[i] == 47u8 {
        i
    } else {
        sep_after(p, i + 1)
    }
}

/// The separator-delimited segments of the path suffix starting at `i`.
pub open spec fn split_from(p: Seq<u8>, i: int) -> Seq<Seq<u8>>
    decreases p.len() - i,
{
    if i < 0 || i >= p.len() {
        Seq::empty()
    } else {
        let j = sep_after(p, i);
        if j >= p.len() {
            seq![p.subrange(i, p.len() as int)]
        } else if j < i {
            Seq::empty()
        } else {
            seq![p.subrange(i, j)] + split_from(p, j + 1)
        }
    }
}

/// Filtering a one-segment sequence keeps the segment exactly when it is
/// selected.
proof fn lemma_filter_singleton(x: Seq<u8>, pred: spec_fn(Seq<u8>) -> bool)
    ensures
        seq![x].filter(pred) == if pred(x) {
            seq![x]
        } else {
            Seq::<Seq<u8>>::empty()
        },
{
    reveal_with_fuel(Seq::filter, 2);
    assert(seq![x].drop_last() =~= Seq::<Seq<u8>>::empty());
    assert(seq![x].last() == x);
    if pred(x) {
        assert(seq![x].filter(pred) =~= seq![x]);
    }
}

/// A normal path component: non-empty and neither of the two dot segments.
pub open spec fn is_normal(c: Seq<u8>) -> bool {
    c.len() > 0 && c != seq![46u8] && c != seq![46u8, 46u8]
}

/// The path's normal components, in order: what a walk from the root
/// descends through.
pub open spec fn normal_components(p: Seq<u8>) -> Seq<Seq<u8>> {
    split_from(p, 0).filter(|c: Seq<u8>| is_normal(c))
}

/// The first separator position never precedes `i` nor leaves the path.
proof fn lemma_sep_after_bounds(p: Seq<u8>, i: int)
    requires
        0 <= i <= p.len(),
    ensures
        i <= sep_after(p, i) <= p.len(),
        forall|k: int| i <= k < sep_after(p, i) ==> p[k] != 47u8,
        sep_after(p, i) < p.len() ==> p[sep_after(p, i)] == 47u8,
    decreases p.len() - i,
{
    if i < p.len() && p[i] != 47u8 {
        lemma_sep_after_bounds(p, i + 1);
    }
}

/// A path of `n` bytes has at most `n` normal components past position `i`.
proof fn lemma_components_bound(p: Seq<u8>, i: int)
    requires
        0 <= i <= p.len(),
    ensures
        split_from(p, i).filter(|c: Seq<u8>| is_normal(c)).len() <= p.len() - i,
    decreases p.len() - i,
{
    broadcast use vstd::seq_lib::group_filter_ensures;

    let pred = |c: Seq<u8>| is_normal(c);
    if i < p.len() {
        let j = sep_after(p, i);
        lemma_sep_after_bounds(p, i);
        lemma_filter_singleton(p.subrange(i, j), pred);
        if j == p.len() {
            assert(split_from(p, i) == seq![p.subrange(i, j)]);
        } else {
            lemma_components_bound(p, j + 1);
            lemma_filter_concat(seq![p.subrange(i, j)], split_from(p, j + 1), pred);
        }
    }
}

/// Filtering distributes over concatenation.
proof fn lemma_filter_concat(a: Seq<Seq<u8>>, b: Seq<Seq<u8>>, pred: spec_fn(Seq<u8>) -> bool)
    ensures
        (a + b).filter(pred) == a.filter(pred) + b.filter(pred),
    decreases b.len(),
{
    reveal(Seq::filter);
    if b.len() == 0 {
        assert(a + b =~= a);
        assert(a.filter(pred) + b.filter(pred) =~= a.filter(pred));
    } else {
        lemma_filter_concat(a, b.drop_last(), pred);
        assert((a + b).drop_last() =~= a + b.drop_last());
        assert((a + b).last() == b.last());
        if pred(b.last()) {
            assert(a.filter(pred) + b.filter(pred) =~= (a.filter(pred) + b.drop_last().filter(
                pred,
            )).push(b.last()));
        }
    }
}

/// Splits a path into its normal components.
#[verifier::loop_isolation(false)]
pub fn parse_components(path: &[u8]) -> (out: Vec<Vec<u8>>)
    ensures
        out@.len() == normal_components(path@).len(),
        forall|k: int| 0 <= k < out@.len() ==> out@[k]@ == normal_components(path@)[k],
{
    let mut out: Vec<Vec<u8>> = Vec::new();
    let ghost pred = |c: Seq<u8>| is_normal(c);
    let mut i: usize = 0;
    proof {
        reveal(Seq::filter);
        assert(out_model(out@) =~= Seq::<Seq<u8>>::empty());
        assert(out_model(out@) + normal_components(path@) =~= normal_components(path@));
    }
    while i < path.len()
        invariant
            0 <= i <= path@.len(),
            normal_components(path@) == out_model(out@) + split_from(path@, i as int).filter(pred),
        decreases path@.len() - i,
    {
        let mut j = i;
        while j < path.len() && path[j] != 47u8
            invariant
                i <= j <= path@.len(),
                forall|k: int| i <= k < j ==> path@[k] != 47u8,
            decreases path@.len() - j,
        {
            j += 1;
        }
        proof {
            lemma_sep_after_eq(path@, i as int, j as int);
        }
        let seg = slice_to_vec(slice_subrange(path, i, j));
        let ghost segview = path@.subrange(i as int, j as int);
        let normal = seg.len() > 0 && !(seg.len() == 1 && seg[0] == 46u8) && !(seg.len() == 2
            && seg[0] == 46u8 && seg[1] == 46u8);
        proof {
            assert(normal == is_normal(segview)) by {
                if seg@.len() == 1 && seg@[0] == 46u8 {
                    assert(segview =~= seq![46u8]);
                }
                if seg@.len() == 2 && seg@[0] == 46u8 && seg@[1] == 46u8 {
                    assert(segview =~= seq![46u8, 46u8]);
                }
                if segview == seq![46u8] {
                    assert(seg@.len() == 1 && seg@[0] == 46u8);
                }
                if segview == seq![46u8, 46u8] {
                    assert(seg@.len() == 2 && seg@[0] == 46u8 && seg@[1] == 46u8);
                }
            }
            // One unfolding of the split at position i, and of the filter on
            // the single-segment sequence.
            lemma_filter_singleton(segview, pred);
            if (j as int) == path@.len() {
                assert(split_from(path@, i as int) == seq![segview]);
                assert(split_from(path@, i as int).filter(pred) == seq![segview].filter(pred));
            } else {
                assert(split_from(path@, i as int) == seq![segview] + split_from(path@, j + 1));
                lemma_filter_concat(seq![segview], split_from(path@, j + 1), pred);
            }
        }
        let ghost rest = if (j as int) == path@.len() {
            Seq::<Seq<u8>>::empty()
        } else {
            split_from(path@, j + 1).filter(pred)
        };
        proof {
            assert(split_from(path@, i as int).filter(pred) == seq![segview].filter(pred) + rest)
                by {
                if (j as int) == path@.len() {
                    assert(seq![segview].filter(pred) + rest =~= seq![segview].filter(pred));
                }
            }
        }
        let ghost out0 = out@;
        if normal {
            out.push(seg);
            proof {
                assert(out_model(out@) =~= out_model(out0).push(segview));
                assert(seq![segview].filter(pred) =~= seq![segview]);
                assert(out_model(out0) + (seq![segview] + rest) =~= out_model(out0).push(segview)
                    + rest);
            }
        } else {
            proof {
                assert(seq![segview].filter(pred) =~= Seq::<Seq<u8>>::empty());
                assert(out_model(out0) + (Seq::<Seq<u8>>::empty() + rest) =~= out_model(out0)
                    + rest);
            }
        }
        if j < path.len() {
            i = j + 1;
        } else {
            i = j;
        }
        proof {
            if i == path@.len() {
                assert(split_from(path@, i as int).filter(pred) =~= Seq::<Seq<u8>>::empty());
                assert(out_model(out@) + Seq::<Seq<u8>>::empty() =~= out_model(out@));
                assert(rest =~= Seq::<Seq<u8>>::empty() + rest);
            }
            assert(normal_components(path@) == out_model(out@) + split_from(
                path@,
                i as int,
            ).filter(pred));
        }
    }
    proof {
        assert(split_from(path@, i as int).filter(pred) =~= Seq::<Seq<u8>>::empty());
        assert(out_model(out@) + Seq::<Seq<u8>>::empty() =~= out_model(out@));
        assert forall|k: int| 0 <= k < out@.len() implies out@[k]@ == normal_components(
            path@,
        )[k] by {
            assert(out_model(out@)[k] == out@[k]@);
        }
    }
    out
}

/// The views of a vector of byte vectors.
pub open spec fn out_model(s: Seq<Vec<u8>>) -> Seq<Seq<u8>> {
    s.map_values(|v: Vec<u8>| v@)
}

/// A freshly materialized default directory: default permissions, the
/// engine's recorded owner and group, not a sandbox.
pub open spec fn default_dir_is(n: Ino, name: Seq<u8>, uid: u32, gid: u32) -> bool {
    &&& n matches Ino::Dir(d) && d.meta.name@ == name && d.meta.perm == perm_of_mode(DEFAULT_MODE)
        && d.meta.uid == uid && d.meta.gid == gid && d.meta.flags == 0 && d.children@ == Seq::<
        u64,
    >::empty() && d.user_dir == false
}

/// One materialization step of the insert walk: a default directory for the
/// component is installed at the fresh number `c` and linked under `cur` in
/// the same step.
pub open spec fn dir_step(
    m: Map<u64, Ino>,
    cur: u64,
    c: u64,
    name: Seq<u8>,
    uid: u32,
    gid: u32,
    m1: Map<u64, Ino>,
) -> bool {
    &&& m1.contains_key(c)
    &&& default_dir_is(m1[c], name, uid, gid)
    &&& (m1[cur] matches Ino::Dir(pd) && m[cur] matches Ino::Dir(pd0) && pd.children@
        == pd0.children@.push(c) && pd.meta == pd0.meta && pd.user_dir == pd0.user_dir)
    &&& m1 == m.insert(cur, m1[cur]).insert(c, m1[c])
}

/// The insert walk: starting from table `m`, allocator value `next` and
/// directory `cur` with `comps` still to walk, the walk descends through
/// existing children, materializes a default directory for each missing
/// component, and finally links `node` as a file at a fresh number under the
/// directory it reached; it fails, leaving any directories already
/// materialized in place, when a component on the way resolves to something
/// other than a directory.
pub open spec fn insert_walk(
    m: Map<u64, Ino>,
    next: u64,
    cur: u64,
    comps: Seq<Seq<u8>>,
    uid: u32,
    gid: u32,
    node: FileNode,
    m2: Map<u64, Ino>,
    next2: u64,
    r: Result<u64, FsError>,
) -> bool
    decreases comps.len(),
{
    if !(m.contains_key(cur) && m[cur] is Dir) {
        &&& r == Err::<u64, FsError>(FsError::NotSupported)
        &&& m2 == m
        &&& next2 == next
    } else if comps.len() == 0 {
        &&& r == Ok::<u64, FsError>(next)
        &&& next2 == next + 1
        &&& m2.contains_key(next)
        &&& m2[next] == Ino::File(node)
        &&& (m2[cur] matches Ino::Dir(pd) && m[cur] matches Ino::Dir(pd0) && pd.children@
            == pd0.children@.push(next) && pd.meta == pd0.meta && pd.user_dir == pd0.user_dir)
        &&& m2 == m.insert(cur, m2[cur]).insert(next, Ino::File(node))
    } else {
        match lookup_in(m, node_children(m[cur]), comps[0]) {
            Some(ci) => insert_walk(m, next, ci, comps.drop_first(), uid, gid, node, m2, next2, r),
            None => exists|m1: Map<u64, Ino>|
                #[trigger] dir_step(m, cur, next, comps[0], uid, gid, m1) && insert_walk(
                    m1,
                    (next + 1) as u64,
                    next,
                    comps.drop_first(),
                    uid,
                    gid,
                    node,
                    m2,
                    next2,
                    r,
                ),
        }
    }
}

/// Inserts a file node at a fresh inode number under the directory the
/// path's normal components lead to, materializing missing directories on
/// the way.  The whole walk happens under one exclusive borrow of the
/// engine, so no reader observes a partial insert.  A path component that
/// resolves to a non-directory fails the insert; an allocator too close to
/// exhaustion — beyond any practical run — is refused outright.
#[verifier::loop_isolation(false)]
pub fn add_file(fs: &mut MainFs, path: &[u8], node: FileNode) -> (r: Result<u64, FsError>)
    requires
        old(fs).wf(),
    ensures
        final(fs).wf(),
        sandbox_preserved(old(fs).table(), final(fs).table()),
        final(fs).next_ino >= old(fs).next_ino,
        final(fs).uid == old(fs).uid,
        final(fs).gid == old(fs).gid,
        forall|i: u64|
            old(fs).table().contains_key(i) ==> final(fs).table().contains_key(i),
        forall|i: u64|
            #[trigger] final(fs).table().contains_key(i) ==> old(fs).table().contains_key(i) || i
                >= old(fs).next_ino,
        old(fs).next_ino + path@.len() + 1 > u64::MAX ==> r == Err::<u64, FsError>(
            FsError::NotSupported,
        ) && *final(fs) == *old(fs),
        old(fs).next_ino + path@.len() + 1 <= u64::MAX ==> insert_walk(
            old(fs).table(),
            old(fs).next_ino,
            1,
            normal_components(path@),
            old(fs).uid,
            old(fs).gid,
            node,
            final(fs).table(),
            final(fs).next_ino,
            r,
        ),
{
    let len64 = path.len() as u64;
    if len64 == u64::MAX || fs.next_ino > u64::MAX - len64 - 1 {
        return Err(FsError::NotSupported);
    }
    let comps = parse_components(path);
    proof {
        lemma_components_bound(path@, 0);
    }
    let ghost m0 = fs.inos@;
    let ghost next0 = fs.next_ino;
    let ghost uid0 = fs.uid;
    let ghost gid0 = fs.gid;
    let ghost cm = normal_components(path@);
    let mut cur: u64 = 1;
    let mut idx: usize = 0;
    proof {
        assert(cm.skip(0) =~= cm);
    }
    while idx < comps.len()
        invariant
            fs.wf(),
            fs.uid == uid0,
            fs.gid == gid0,
            idx <= comps@.len(),
            next0 <= fs.next_ino,
            fs.next_ino + (cm.len() - idx) + 1 <= u64::MAX,
            sandbox_preserved(m0, fs.inos@),
            forall|i: u64| m0.contains_key(i) ==> fs.inos@.contains_key(i),
            forall|i: u64|
                #[trigger] fs.inos@.contains_key(i) ==> m0.contains_key(i) || i >= next0,
            forall|mo: Map<u64, Ino>, no: u64, rr: Result<u64, FsError>|
                #[trigger] insert_walk(
                    fs.inos@,
                    fs.next_ino,
                    cur,
                    cm.skip(idx as int),
                    uid0,
                    gid0,
                    node,
                    mo,
                    no,
                    rr,
                ) ==> insert_walk(m0, next0, 1, cm, uid0, gid0, node, mo, no, rr),
        decreases comps@.len() - idx,
    {
        let ghost mprev = fs.inos@;
        let ghost nextprev = fs.next_ino;
        let ghost curprev = cur;
        proof {
            assert(cm.skip(idx as int)[0] == cm[idx as int]);
            assert(cm.skip(idx as int).drop_first() =~= cm.skip(idx + 1));
        }
        let curdir = match fs.inos.get(&cur) {
            Some(Ino::Dir(d)) => d,
            _ => {
                proof {
                    assert(insert_walk(
                        fs.inos@,
                        fs.next_ino,
                        cur,
                        cm.skip(idx as int),
                        uid0,
                        gid0,
                        node,
                        fs.inos@,
                        fs.next_ino,
                        Err::<u64, FsError>(FsError::NotSupported),
                    ));
                }
                return Err(FsError::NotSupported);
            },
        };
        let found = curdir.lookup_child(comps[idx].as_slice(), &fs.inos);
        match found {
            Ok(ci) => {
                proof {
                    lemma_lookup_in_found(fs.inos@, node_children(fs.inos@[cur]), cm[idx as int]);
                }
                cur = ci;
                idx += 1;
                proof {
                    assert forall|mo: Map<u64, Ino>, no: u64, rr: Result<u64, FsError>|
                        #[trigger] insert_walk(
                            fs.inos@,
                            fs.next_ino,
                            cur,
                            cm.skip(idx as int),
                            uid0,
                            gid0,
                            node,
                            mo,
                            no,
                            rr,
                        ) implies insert_walk(m0, next0, 1, cm, uid0, gid0, node, mo, no, rr) by {
                        assert(insert_walk(
                            mprev,
                            nextprev,
                            curprev,
                            cm.skip(idx - 1),
                            uid0,
                            gid0,
                            node,
                            mo,
                            no,
                            rr,
                        ));
                    }
                }
            },
            Err(_) => {
                let c = fs.get_unique_ino();
                let mut pnode = match fs.inos.remove(&cur) {
                    Some(n) => n,
                    None => unreached(),
                };
                match &mut pnode {
                    Ino::Dir(d) => {
                        let _ = d.add_child(c);
                    },
                    _ => unreached(),
                };
                fs.inos.insert(cur, pnode);
                let name = slice_to_vec(comps[idx].as_slice());
                let new_dir = NormalDir::new(name, false, DEFAULT_MODE, fs.uid, fs.gid, 0);
                fs.inos.insert(c, Ino::Dir(new_dir));
                proof {
                    assert(fs.inos@ =~= mprev.insert(cur, fs.inos@[cur]).insert(
                        c,
                        fs.inos@[c],
                    ));
                    lemma_wf_link_new(
                        mprev,
                        fs.inos@,
                        cur,
                        c,
                        fs.inos@[cur],
                        fs.inos@[c],
                        nextprev,
                        fs.next_ino,
                    );
                    lemma_sandbox_trans(m0, mprev, fs.inos@);
                    assert(dir_step(mprev, curprev, c, cm[idx as int], uid0, gid0, fs.inos@));
                }
                cur = c;
                idx += 1;
                proof {
                    let ghost mhere = fs.inos@;
                    assert forall|mo: Map<u64, Ino>, no: u64, rr: Result<u64, FsError>|
                        #[trigger] insert_walk(
                            mhere,
                            fs.next_ino,
                            cur,
                            cm.skip(idx as int),
                            uid0,
                            gid0,
                            node,
                            mo,
                            no,
                            rr,
                        ) implies insert_walk(m0, next0, 1, cm, uid0, gid0, node, mo, no, rr) by {
                        assert(dir_step(mprev, curprev, nextprev, cm[idx - 1], uid0, gid0, mhere)
                            && insert_walk(
                            mhere,
                            (nextprev + 1) as u64,
                            nextprev,
                            cm.skip(idx - 1).drop_first(),
                            uid0,
                            gid0,
                            node,
                            mo,
                            no,
                            rr,
                        ));
                        assert(insert_walk(
                            mprev,
                            nextprev,
                            curprev,
                            cm.skip(idx - 1),
                            uid0,
                            gid0,
                            node,
                            mo,
                            no,
                            rr,
                        ));
                    }
                }
            },
        }
    }
    // The walk is done; link the file under the directory it reached.
    let ghost mprev = fs.inos@;
    let ghost nextprev = fs.next_ino;
    proof {
        assert(cm.skip(idx as int) =~= Seq::<Seq<u8>>::empty());
    }
    match fs.inos.get(&cur) {
        Some(Ino::Dir(_)) => {},
        _ => {
            proof {
                assert(insert_walk(
                    fs.inos@,
                    fs.next_ino,
                    cur,
                    cm.skip(idx as int),
                    uid0,
                    gid0,
                    node,
                    fs.inos@,
                    fs.next_ino,
                    Err::<u64, FsError>(FsError::NotSupported),
                ));
            }
            return Err(FsError::NotSupported);
        },
    };
    let c = fs.get_unique_ino();
    let mut pnode = match fs.inos.remove(&cur) {
        Some(n) => n,
        None => unreached(),
    };
    match &mut pnode {
        Ino::Dir(d) => {
            let _ = d.add_child(c);
        },
        _ => unreached(),
    };
    fs.inos.insert(cur, pnode);
    fs.inos.insert(c, Ino::File(node));
    proof {
        assert(fs.inos@ =~= mprev.insert(cur, fs.inos@[cur]).insert(c, fs.inos@[c]));
        lemma_wf_link_new(
            mprev,
            fs.inos@,
            cur,
            c,
            fs.inos@[cur],
            fs.inos@[c],
            nextprev,
            fs.next_ino,
        );
        lemma_sandbox_trans(m0, mprev, fs.inos@);
        assert(insert_walk(
            mprev,
            nextprev,
            cur,
            cm.skip(idx as int),
            uid0,
            gid0,
            node,
            fs.inos@,
            fs.next_ino,
            Ok::<u64, FsError>(c),
        ));
    }
    Ok(c)
}

/// Resolution of a component sequence against the table, descending from
/// `cur` through existing children only: the node the path leads to, or
/// nothing when a component is missing or an intermediate is not a
/// directory.
pub open spec fn resolve_path(m: Map<u64, Ino>, cur: u64, comps: Seq<Seq<u8>>) -> Option<u64>
    decreases comps.len(),
{
    if comps.len() == 0 {
        Some(cur)
    } else if !(m.contains_key(cur) && m[cur] is Dir) {
        None
    } else {
        match lookup_in(m, node_children(m[cur]), comps[0]) {
            Some(ci) => resolve_path(m, ci, comps.drop_first()),
            None => None,
        }
    }
}

/// Removes the node named by the path: walks the path's leading normal
/// components from the root without materializing anything, then unlinks the
/// last component from its parent and deletes it from the table,
/// unconditionally.  A path that does not resolve fails and mutates nothing.
#[verifier::loop_isolation(false)]
pub fn rm_file(fs: &mut MainFs, path: &[u8]) -> (r: Result<(), FsError>)
    requires
        old(fs).wf(),
    ensures
        final(fs).wf(),
        sandbox_preserved(old(fs).table(), final(fs).table()),
        final(fs).next_ino == old(fs).next_ino,
        final(fs).uid == old(fs).uid,
        final(fs).gid == old(fs).gid,
        forall|i: u64|
            #[trigger] final(fs).table().contains_key(i) ==> old(fs).table().contains_key(i),
        rm_outcome(*old(fs), *final(fs), path@, r),
{
    let comps = parse_components(path);
    if comps.len() == 0 {
        return Err(FsError::NotFound);
    }
    let ghost m0 = fs.inos@;
    let ghost cm = normal_components(path@);
    let ghost parents = cm.drop_last();
    let mut cur: u64 = 1;
    let mut idx: usize = 0;
    proof {
        assert(parents.skip(0) =~= parents);
    }
    let last = comps.len() - 1;
    while idx < last
        invariant
            idx <= parents.len(),
            last == cm.len() - 1,
            *fs == *old(fs),
            fs.inos@.contains_key(cur),
            resolve_path(m0, 1, parents) == resolve_path(m0, cur, parents.skip(idx as int)),
        decreases last - idx,
    {
        proof {
            assert(parents.skip(idx as int)[0] == parents[idx as int]);
            assert(parents[idx as int] == cm[idx as int]);
            assert(parents.skip(idx as int).drop_first() =~= parents.skip(idx + 1));
        }
        let curdir = match fs.inos.get(&cur) {
            Some(Ino::Dir(d)) => d,
            _ => {
                return Err(FsError::NotFound);
            },
        };
        match curdir.lookup_child(comps[idx].as_slice(), &fs.inos) {
            Ok(ci) => {
                proof {
                    lemma_lookup_in_found(fs.inos@, node_children(fs.inos@[cur]), cm[idx as int]);
                }
                cur = ci;
                idx += 1;
            },
            Err(_) => {
                return Err(FsError::NotFound);
            },
        };
    }
    proof {
        assert(parents.skip(idx as int) =~= Seq::<Seq<u8>>::empty());
        assert(resolve_path(m0, 1, parents) == Some(cur));
        assert(cm.last() == cm[last as int]);
    }
    let pdir = match fs.inos.get(&cur) {
        Some(Ino::Dir(d)) => d,
        Some(_) => {
            return Err(FsError::NotSupported);
        },
        None => unreached(),
    };
    let c = match pdir.lookup_child(comps[last].as_slice(), &fs.inos) {
        Ok(c) => c,
        Err(e) => {
            return Err(e);
        },
    };
    proof {
        lemma_lookup_in_found(m0, node_children(m0[cur]), cm.last());
        let ghost w = choose|w: int|
            0 <= w < node_children(m0[cur]).len() && node_children(m0[cur])[w] == c;
        assert(node_children(m0[cur])[w] != 1);
        assert(node_children(m0[cur])[w] != cur);
    }
    let mut pnode = match fs.inos.remove(&cur) {
        Some(n) => n,
        None => unreached(),
    };
    match &mut pnode {
        Ino::Dir(d) => {
            let _ = d.remove_child(c);
        },
        _ => unreached(),
    };
    fs.inos.insert(cur, pnode);
    let ghost m1 = fs.inos@;
    proof {
        assert(m1 =~= m0.insert(cur, m1[cur]));
        lemma_wf_unlink_keep(m0, m1, cur, c, m1[cur], fs.next_ino);
    }
    let _removed = fs.inos.remove(&c);
    proof {
        assert(fs.inos@ =~= m1.remove(c));
        lemma_wf_remove_key(m1, fs.inos@, c, fs.next_ino);
        lemma_sandbox_trans(m0, m1, fs.inos@);
    }
    Ok(())
}

/// Runs one scheduled command against the engine: the synchronous core of a
/// fire-and-forget background task.
pub fn run_command(fs: &mut MainFs, cmd: Command) -> (r: Result<(), FsError>)
    requires
        old(fs).wf(),
    ensures
        final(fs).wf(),
        sandbox_preserved(old(fs).table(), final(fs).table()),
        final(fs).next_ino >= old(fs).next_ino,
        final(fs).uid == old(fs).uid,
        final(fs).gid == old(fs).gid,
        cmd matches Command::Insert { path, node } ==> (if old(fs).next_ino + path@.len() + 1
            > u64::MAX {
            r == Err::<(), FsError>(FsError::NotSupported) && *final(fs) == *old(fs)
        } else {
            exists|leaf: Result<u64, FsError>|
                #[trigger] insert_walk(
                    old(fs).table(),
                    old(fs).next_ino,
                    1,
                    normal_components(path@),
                    old(fs).uid,
                    old(fs).gid,
                    node,
                    final(fs).table(),
                    final(fs).next_ino,
                    leaf,
                ) && (r is Ok <==> leaf is Ok)
        }),
        forall|i: u64|
            #[trigger] final(fs).table().contains_key(i) ==> old(fs).table().contains_key(i) || i
                >= old(fs).next_ino,
        cmd matches Command::Remove { path } ==> rm_outcome(*old(fs), *final(fs), path@, r),
{
    match cmd {
        Command::Insert { path, node } => {
            match add_file(fs, path.as_slice(), node) {
                Ok(_) => Ok(()),
                Err(e) => Err(e),
            }
        },
        Command::Remove { path } => rm_file(fs, path.as_slice()),
    }
}

/// The outcome a remove call owes: exactly what `rm_file` promises, stated
/// once so scheduled commands can promise it too.
pub open spec fn rm_outcome(pre: MainFs, post: MainFs, path: Seq<u8>, r: Result<(), FsError>) -> bool {
    if normal_components(path).len() == 0 {
        r == Err::<(), FsError>(FsError::NotFound) && post == pre
    } else {
        match resolve_path(pre.table(), 1, normal_components(path).drop_last()) {
            None => r == Err::<(), FsError>(FsError::NotFound) && post == pre,
            Some(p) => {
                if !(pre.table()[p] is Dir) {
                    r == Err::<(), FsError>(FsError::NotSupported) && post == pre
                } else {
                    match lookup_in(
                        pre.table(),
                        node_children(pre.table()[p]),
                        normal_components(path).last(),
                    ) {
                        None => r == Err::<(), FsError>(FsError::NotFound) && post == pre,
                        Some(c) => {
                            &&& r is Ok
                            &&& !post.table().contains_key(c)
                            &&& (post.table()[p] matches Ino::Dir(pd) && pd.children@
                                == node_children(pre.table()[p]).filter(|x: u64| x != c)
                                && pd.meta == node_meta(pre.table()[p]) && pd.user_dir
                                == node_sandbox(pre.table()[p]))
                            &&& post.table() == pre.table().insert(p, post.table()[p]).remove(c)
                        },
                    }
                }
            },
        }
    }
}

/// Runs a batch of scheduled commands in order: what a content module's
/// population task does once it holds the table lock.
#[verifier::loop_isolation(false)]
pub fn run_commands(fs: &mut MainFs, cmds: Vec<Command>)
    requires
        old(fs).wf(),
    ensures
        final(fs).wf(),
        sandbox_preserved(old(fs).table(), final(fs).table()),
        final(fs).next_ino >= old(fs).next_ino,
        final(fs).uid == old(fs).uid,
        final(fs).gid == old(fs).gid,
        forall|i: u64|
            #[trigger] final(fs).table().contains_key(i) ==> old(fs).table().contains_key(i) || i
                >= old(fs).next_ino,
    {
    let mut cmds = cmds;
    let ghost m0 = fs.inos@;
    let ghost next0 = fs.next_ino;
    while cmds.len() > 0
        invariant
            fs.wf(),
            sandbox_preserved(m0, fs.inos@),
            next0 <= fs.next_ino,
            fs.uid == old(fs).uid,
            fs.gid == old(fs).gid,
            forall|i: u64|
                #[trigger] fs.inos@.contains_key(i) ==> m0.contains_key(i) || i >= next0,
        decreases cmds@.len(),
    {
        let ghost mprev = fs.inos@;
        let ghost nextprev = fs.next_ino;
        let cmd = cmds.remove(0);
        let _ = run_command(fs, cmd);
        proof {
            assert forall|i: u64| m0.contains_key(i) && fs.inos@.contains_key(i) implies
                mprev.contains_key(i) by {
                assert(i < next0);
            }
            lemma_sandbox_trans(m0, mprev, fs.inos@);
        }
    }
}

/// The scan that found `j` matches the specification's first-separator
/// position.
proof fn lemma_sep_after_eq(p: Seq<u8>, i: int, j: int)
    requires
        0 <= i <= j <= p.len(),
        forall|k: int| i <= k < j ==> p[k] != 47u8,
        j < p.len() ==> p[j] == 47u8,
    ensures
        sep_after(p, i) == j,
    decreases j - i,
{
    if i < j {
        lemma_sep_after_eq(p, i + 1, j);
    }
}

} // verus!
