//! The engine-wide guarantees, stated once as standalone proofs: inode
//! uniqueness, reachability of every listed child, round-tripping of file
//! writes, growth on writes past the end, out-of-range reads, and the
//! one-shot trigger.

use vstd::prelude::*;
use crate::file_helpers::read_bytes;
use crate::main_fs::{MainFs, node_children, resolve};
use crate::trigger_file::{TriggerFile, fires, read_in_range};
use crate::user_files::write_bytes;

verus! {

/// No two inode numbers ever drawn from the allocator collide: a draw takes
/// the current counter and a later draw takes a strictly larger one, because
/// no operation ever lowers the counter.
pub proof fn lemma_ino_uniqueness(fs0: MainFs, fs1: MainFs, fs2: MainFs, r1: u64, r2: u64)
    requires
        r1 == fs0.next_ino,
        fs1.next_ino == r1 + 1,
        fs1.next_ino <= fs2.next_ino,
        r2 == fs2.next_ino,
    ensures
        r1 != r2,
{
}

/// A freshly drawn inode number collides with no live node either: every key
/// of a well-formed table lies below the counter.
pub proof fn lemma_fresh_ino(fs: MainFs)
    requires
        fs.wf(),
    ensures
        !fs.table().contains_key(fs.next_ino),
{
}

/// Reachability: in a well-formed table — and every operation returns a
/// well-formed table — each child a directory lists exists as a key, so a
/// reader never follows a dangling reference.
pub proof fn lemma_reachability(fs: MainFs, d: u64, k: int)
    requires
        fs.wf(),
        fs.table().contains_key(d),
        0 <= k < node_children(fs.table()[d]).len(),
    ensures
        fs.table().contains_key(node_children(fs.table()[d])[k]),
{
}

/// Atomic visibility: a name that resolves under a well-formed table always
/// leads to a node that is present in it.  Since every verb holds the engine
/// exclusively and re-establishes well-formedness before returning, a reader
/// serialized by the table lock can never observe a listed child without its
/// node.
pub proof fn lemma_resolved_child_present(fs: MainFs, parent: u64, name: Seq<u8>)
    requires
        fs.wf(),
        fs.table().contains_key(parent),
    ensures
        resolve(fs.table(), parent, name) matches Some(c) ==> fs.table().contains_key(c),
{
    crate::main_fs::lemma_lookup_in_found(fs.table(), node_children(fs.table()[parent]), name);
}

/// Round trip: writing bytes at a non-negative offset and reading the same
/// range back returns exactly the written bytes.
pub proof fn lemma_write_read_round_trip(data: Seq<u8>, offset: int, bytes: Seq<u8>)
    requires
        0 <= offset,
    ensures
        read_bytes(write_bytes(data, offset, bytes), offset, bytes.len() as int) == bytes,
{
    let written = write_bytes(data, offset, bytes);
    if bytes.len() == 0 {
        assert(read_bytes(written, offset, 0) =~= bytes);
    } else {
        assert(offset < written.len());
        assert(read_bytes(written, offset, bytes.len() as int) =~= bytes);
    }
}

/// Growth on write: writing at or past the current end extends the payload
/// to cover the write, the bytes before the old end are untouched, and the
/// gap between the old end and the write reads back as zero bytes.
pub proof fn lemma_write_extends(data: Seq<u8>, offset: int, bytes: Seq<u8>)
    requires
        data.len() <= offset,
    ensures
        write_bytes(data, offset, bytes).len() == offset + bytes.len(),
        forall|i: int| 0 <= i < data.len() ==> #[trigger] write_bytes(data, offset, bytes)[i]
            == data[i],
        forall|i: int| data.len() <= i < offset ==> #[trigger] write_bytes(data, offset, bytes)[i]
            == 0u8,
        forall|i: int|
            offset <= i < offset + bytes.len() ==> #[trigger] write_bytes(data, offset, bytes)[i]
                == bytes[i - offset],
{
}

/// Out-of-range read: reading at a negative offset or at or beyond the end
/// of the payload returns an empty result — and, by the read contracts, it
/// is never an error for any file kind.
pub proof fn lemma_read_out_of_range(data: Seq<u8>, offset: int, size: int)
    requires
        offset < 0 || offset >= data.len(),
    ensures
        read_bytes(data, offset, size) == Seq::<u8>::empty(),
{
}

/// One-shot trigger: a read that fires the trigger leaves it triggered, so
/// no later read fires it again; and a trigger once fired stays fired
/// through every further read, whatever it returns.
pub proof fn lemma_trigger_one_shot(t0: TriggerFile, t1: TriggerFile, off1: int, off2: int)
    requires
        t1.triggered == (t0.triggered || read_in_range(t0.data@, off1)),
    ensures
        fires(t0, off1) ==> !fires(t1, off2),
        t0.triggered ==> t1.triggered,
{
}

} // verus!
