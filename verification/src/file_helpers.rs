//! Byte-range reading shared by every regular-file kind, plus small helpers
//! for building file payloads.

use vstd::prelude::*;
use vstd::slice::{slice_subrange, slice_to_vec};
use vstd::string::{StrSliceExecFns, StringSliceAdditionalSpecFns};
use crate::errors::FsError;
use crate::files::FileNode;
use crate::trigger_file::{Command, TriggerFile};

verus! {

/// The bytes a range read returns: empty when the offset is negative or at or
/// beyond the end of the data, otherwise the bytes from the offset up to at
/// most `size` bytes, clamped to the end of the data.
pub open spec fn read_bytes(data: Seq<u8>, offset: int, size: int) -> Seq<u8> {
    if offset < 0 || offset >= data.len() {
        Seq::empty()
    } else if offset + size >= data.len() {
        data.subrange(offset, data.len() as int)
    } else {
        data.subrange(offset, offset + size)
    }
}

/// Reads a byte range out of a payload, clamped to the payload's end.
pub fn read_range(data: &[u8], offset: i64, size: u32) -> (v: Vec<u8>)
    ensures
        v@ == read_bytes(data@, offset as int, size as int),
{
    if offset < 0 {
        return Vec::new();
    }
    let off = offset as u64;
    let len = data.len();
    if off >= len as u64 {
        return Vec::new();
    }
    let start = off as usize;
    let remaining = len - start;
    let end = if size as u64 >= remaining as u64 {
        len
    } else {
        start + size as usize
    };
    slice_to_vec(slice_subrange(data, start, end))
}

/// Reads a byte range out of a payload.  A read is never an error: an
/// out-of-range offset yields an empty result.
pub fn read(data: &[u8], offset: i64, size: u32) -> (r: Result<Vec<u8>, FsError>)
    ensures
        r matches Ok(v) && v@ == read_bytes(data@, offset as int, size as int),
{
    Ok(read_range(data, offset, size))
}

/// Converts a text payload to its byte vector.
pub fn str_to_vec(text: &str) -> (r: Vec<u8>)
    ensures
        r@ == text.spec_bytes(),
{
    text.as_bytes_vec()
}

/// The no-op callback payload: a trigger built over it schedules nothing.
pub fn nothing() {
}

/// A plain text file: a trigger file whose payload is the text and which
/// schedules nothing when read.
pub fn text_file(name: &str, text: &str, uid: u32, gid: u32) -> (f: FileNode)
    ensures
        f matches FileNode::Trigger(t) && t.meta.name@ == name.spec_bytes() && t.meta.perm
            == crate::attrs::perm_of_mode(crate::background_tasks::DEFAULT_MODE) && t.meta.uid
            == uid && t.meta.gid == gid && t.meta.flags == 0 && t.data@ == text.spec_bytes()
            && t.triggered == false && t.on_fire@ == Seq::<Command>::empty(),
{
    FileNode::Trigger(
        TriggerFile::new(
            Vec::new(),
            str_to_vec(name),
            str_to_vec(text),
            crate::background_tasks::DEFAULT_MODE,
            uid,
            gid,
            0,
        ),
    )
}

/// The text file every module rewards a solved puzzle with.
pub fn victory_file(uid: u32, gid: u32) -> (f: FileNode)
    ensures
        f matches FileNode::Trigger(t) && t.meta.name@ == "Victory".spec_bytes() && t.data@
            == "Congradulations you have beaten this module!\n".spec_bytes() && t.triggered
            == false && t.on_fire@ == Seq::<Command>::empty(),
{
    text_file("Victory", "Congradulations you have beaten this module!\n", uid, gid)
}

} // verus!
