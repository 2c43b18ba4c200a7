//! The one-shot trigger file and the mutation commands it can schedule.
//!
//! A trigger file carries an immutable byte payload and a list of tree
//! mutations.  The first read that lands inside the payload's range hands the
//! command list back to the caller exactly once; the caller schedules those
//! mutations as detached background work.

use vstd::prelude::*;
use vstd::slice::slice_to_vec;
use crate::attrs::{Meta, meta_is, naming_allowed};
use crate::errors::FsError;
use crate::file_helpers::{read_bytes, read_range};
use crate::files::FileNode;

verus! {

/// A tree mutation a fired trigger schedules: insert a file under a
/// slash-separated directory path, or remove the node named by a path.
#[derive(Debug)]
pub enum Command {
    Insert { path: Vec<u8>, node: FileNode },
    Remove { path: Vec<u8> },
}

/// A file with an immutable payload and a one-shot callback: the command
/// list is handed out on the first in-range read and never again.
#[derive(Debug)]
pub struct TriggerFile {
    pub meta: Meta,
    pub data: Vec<u8>,
    pub triggered: bool,
    pub on_fire: Vec<Command>,
}

/// A read at `offset` is in range when it is neither negative nor strictly
/// beyond the end of the payload; a read exactly at the end is in range even
/// though it returns no bytes.
pub open spec fn read_in_range(data: Seq<u8>, offset: int) -> bool {
    0 <= offset <= data.len()
}

/// Whether a read at `offset` fires the trigger: the first in-range read
/// does, every later one does not.
pub open spec fn fires(t: TriggerFile, offset: int) -> bool {
    !t.triggered && read_in_range(t.data@, offset)
}

impl TriggerFile {
    /// Builds a trigger file over a payload and the commands to schedule on
    /// its first in-range read.
    pub fn new(
        on_fire: Vec<Command>,
        name: Vec<u8>,
        data: Vec<u8>,
        mode: u32,
        uid: u32,
        gid: u32,
        flags: u32,
    ) -> (f: TriggerFile)
        ensures
            meta_is(f.meta, name@, mode, uid, gid, flags),
            f.data == data,
            f.triggered == false,
            f.on_fire == on_fire,
    {
        TriggerFile { meta: Meta::new(name, mode, uid, gid, flags), data, triggered: false, on_fire }
    }

    /// Reads a byte range, never an error, and hands back the commands to
    /// schedule: the stored list if this read fired the trigger, nothing
    /// otherwise.
    pub fn read(&mut self, offset: i64, size: u32) -> (r: (Vec<u8>, Vec<Command>))
        ensures
            r.0@ == read_bytes(old(self).data@, offset as int, size as int),
            final(self).meta == old(self).meta,
            final(self).data == old(self).data,
            fires(*old(self), offset as int) ==> final(self).triggered == true && final(self).on_fire@ == Seq::<Command>::empty() && r.1 == old(self).on_fire,
            !fires(*old(self), offset as int) ==> *final(self) == *old(self) && r.1@ == Seq::<
                Command,
            >::empty(),
            final(self).triggered == (old(self).triggered || read_in_range(
                old(self).data@,
                offset as int,
            )),
    {
        let bytes = read_range(self.data.as_slice(), offset, size);
        let mut cmds: Vec<Command> = Vec::new();
        if !self.triggered && offset >= 0 && (offset as u64) <= self.data.len() as u64 {
            self.triggered = true;
            core::mem::swap(&mut self.on_fire, &mut cmds);
        }
        (bytes, cmds)
    }

    /// Attribute changes are refused for a trigger file.
    pub fn setattr(
        &mut self,
        mode: Option<u32>,
        uid: Option<u32>,
        gid: Option<u32>,
        size: Option<u64>,
        fh: Option<u64>,
        flags: Option<u32>,
    ) -> (r: Result<(), FsError>)
        ensures
            r == Err::<(), FsError>(FsError::PermissionDenied),
            *final(self) == *old(self),
    {
        let _ = (mode, uid, gid, size, fh, flags);
        Err(FsError::PermissionDenied)
    }

    /// Renames the file under the shared naming rule; the payload, the
    /// one-shot state and the remaining attributes are untouched.
    pub fn rename(&mut self, new_name: &[u8], in_sandbox: bool) -> (r: Result<(), FsError>)
        ensures
            naming_allowed(in_sandbox, new_name@) ==> r is Ok && final(self).meta.name@
                == new_name@ && final(self).meta.perm == old(self).meta.perm && final(self).meta.uid == old(self).meta.uid && final(self).meta.gid == old(self).meta.gid
                && final(self).meta.flags == old(self).meta.flags && final(self).data == old(self).data && final(self).triggered == old(self).triggered && final(self).on_fire == old(self).on_fire,
            !naming_allowed(in_sandbox, new_name@) ==> r == Err::<(), FsError>(
                FsError::PermissionDenied,
            ) && *final(self) == *old(self),
    {
        if !in_sandbox && !(new_name.len() > 0 && new_name[0] == 95u8) {
            return Err(FsError::PermissionDenied);
        }
        self.meta.name = slice_to_vec(new_name);
        Ok(())
    }

    /// Writing a trigger file is refused.
    pub fn write(&mut self, offset: i64, bytes: &[u8]) -> (r: Result<u32, FsError>)
        ensures
            r == Err::<u32, FsError>(FsError::PermissionDenied),
            *final(self) == *old(self),
    {
        let _ = (offset, bytes);
        Err(FsError::PermissionDenied)
    }

    /// Deleting a trigger file is refused.
    pub fn delete(&mut self) -> (r: Result<(), FsError>)
        ensures
            r == Err::<(), FsError>(FsError::PermissionDenied),
            *final(self) == *old(self),
    {
        Err(FsError::PermissionDenied)
    }
}

} // verus!
