//! The closed set of regular-file kinds the inode table can store, behind one
//! dispatching type.

use vstd::prelude::*;
use crate::attrs::{Meta, meta_updated, naming_allowed};
use crate::errors::FsError;
use crate::file_helpers::read_bytes;
use crate::trigger_file::{Command, TriggerFile, fires, read_in_range};
use crate::user_files::{UserFile, resized, write_bytes};

verus! {

/// A regular file stored in the inode table: a resizable buffer file or a
/// one-shot trigger file.
#[derive(Debug)]
pub enum FileNode {
    User(UserFile),
    Trigger(TriggerFile),
}

/// The metadata of a file node.
pub open spec fn file_meta(f: FileNode) -> Meta {
    match f {
        FileNode::User(u) => u.meta,
        FileNode::Trigger(t) => t.meta,
    }
}

/// The byte payload of a file node.
pub open spec fn file_data(f: FileNode) -> Seq<u8> {
    match f {
        FileNode::User(u) => u.data@,
        FileNode::Trigger(t) => t.data@,
    }
}

/// Two file nodes that differ at most in their display name: same kind, same
/// payload, same one-shot state, same remaining attribute fields.
pub open spec fn same_but_name(a: FileNode, b: FileNode) -> bool {
    &&& file_data(b) == file_data(a)
    &&& file_meta(b).perm == file_meta(a).perm
    &&& file_meta(b).uid == file_meta(a).uid
    &&& file_meta(b).gid == file_meta(a).gid
    &&& file_meta(b).flags == file_meta(a).flags
    &&& (a is User <==> b is User)
    &&& (a matches FileNode::Trigger(ta) ==> b matches FileNode::Trigger(tb) && tb.triggered
        == ta.triggered && tb.on_fire == ta.on_fire)
}

impl FileNode {
    /// The display name.
    pub fn name(&self) -> (r: &Vec<u8>)
        ensures
            r@ == file_meta(*self).name@,
    {
        match self {
            FileNode::User(u) => &u.meta.name,
            FileNode::Trigger(t) => &t.meta.name,
        }
    }

    /// The payload length, which the size attribute always tracks.
    pub fn size(&self) -> (r: u64)
        ensures
            r == file_data(*self).len(),
    {
        match self {
            FileNode::User(u) => u.data.len() as u64,
            FileNode::Trigger(t) => t.data.len() as u64,
        }
    }

    /// The permission bits, owner, group and flags, for attribute reporting.
    pub fn meta(&self) -> (r: (u16, u32, u32, u32))
        ensures
            r.0 == file_meta(*self).perm,
            r.1 == file_meta(*self).uid,
            r.2 == file_meta(*self).gid,
            r.3 == file_meta(*self).flags,
    {
        match self {
            FileNode::User(u) => (u.meta.perm, u.meta.uid, u.meta.gid, u.meta.flags),
            FileNode::Trigger(t) => (t.meta.perm, t.meta.uid, t.meta.gid, t.meta.flags),
        }
    }

    /// Updates attributes: supported for a buffer file, refused with a
    /// permission error for a trigger file.
    pub fn setattr(
        &mut self,
        mode: Option<u32>,
        uid: Option<u32>,
        gid: Option<u32>,
        size: Option<u64>,
        fh: Option<u64>,
        flags: Option<u32>,
    ) -> (r: Result<(), FsError>)
        requires
            *old(self) is User ==> (size matches Some(s) ==> s <= usize::MAX),
        ensures
            *old(self) matches FileNode::User(u0) ==> r is Ok && (*final(self) matches FileNode::User(u1)
                && u1.meta == meta_updated(u0.meta, mode, uid, gid, flags) && u1.data@ == (match size {
                Some(s) => resized(u0.data@, s as int),
                None => u0.data@,
            })),
            *old(self) is Trigger ==> r == Err::<(), FsError>(FsError::PermissionDenied) && *final(self) == *old(self),
    {
        match self {
            FileNode::User(u) => u.setattr(mode, uid, gid, size, fh, flags),
            FileNode::Trigger(t) => t.setattr(mode, uid, gid, size, fh, flags),
        }
    }

    /// Renames the file under the shared naming rule.
    pub fn rename(&mut self, new_name: &[u8], in_sandbox: bool) -> (r: Result<(), FsError>)
        ensures
            naming_allowed(in_sandbox, new_name@) ==> r is Ok && file_meta(*final(self)).name@
                == new_name@ && same_but_name(*old(self), *final(self)),
            !naming_allowed(in_sandbox, new_name@) ==> r == Err::<(), FsError>(
                FsError::PermissionDenied,
            ) && *final(self) == *old(self),
    {
        match self {
            FileNode::User(u) => u.rename(new_name, in_sandbox),
            FileNode::Trigger(t) => t.rename(new_name, in_sandbox),
        }
    }

    /// Reads a byte range — never an error for any file kind — and hands
    /// back the commands a fired trigger schedules.
    pub fn read(&mut self, offset: i64, size: u32) -> (r: (Vec<u8>, Vec<Command>))
        ensures
            r.0@ == read_bytes(file_data(*old(self)), offset as int, size as int),
            file_data(*final(self)) == file_data(*old(self)),
            file_meta(*final(self)) == file_meta(*old(self)),
            *old(self) matches FileNode::User(_) ==> *final(self) == *old(self) && r.1@ == Seq::<
                Command,
            >::empty(),
            *old(self) matches FileNode::Trigger(t0) ==> *final(self) matches FileNode::Trigger(t1)
                && {
                &&& t1.meta == t0.meta
                &&& t1.data == t0.data
                &&& (fires(t0, offset as int) ==> t1.triggered == true && t1.on_fire@ == Seq::<
                    Command,
                >::empty() && r.1 == t0.on_fire)
                &&& (!fires(t0, offset as int) ==> t1 == t0 && r.1@ == Seq::<Command>::empty())
                &&& t1.triggered == (t0.triggered || read_in_range(t0.data@, offset as int))
            },
    {
        match self {
            FileNode::User(u) => {
                let v = match u.read(offset, size) {
                    Ok(v) => v,
                    Err(_) => Vec::new(),
                };
                (v, Vec::new())
            },
            FileNode::Trigger(t) => t.read(offset, size),
        }
    }

    /// Writes a byte range: supported for a buffer file, refused with a
    /// permission error for a trigger file.
    pub fn write(&mut self, offset: i64, bytes: &[u8]) -> (r: Result<u32, FsError>)
        requires
            *old(self) is User && 0 <= offset ==> offset + bytes@.len() <= usize::MAX,
        ensures
            *old(self) is User && offset < 0 ==> r == Err::<u32, FsError>(
                FsError::NotSupported,
            ) && *final(self) == *old(self),
            *old(self) matches FileNode::User(u0) ==> (0 <= offset ==> r == Ok::<u32, FsError>(
                (bytes@.len() as u32),
            ) && (*final(self) matches FileNode::User(u1) && u1.data@ == write_bytes(
                u0.data@,
                offset as int,
                bytes@,
            ) && u1.meta == u0.meta)),
            *old(self) is Trigger ==> r == Err::<u32, FsError>(FsError::PermissionDenied) && *final(self) == *old(self),
    {
        match self {
            FileNode::User(u) => u.write(offset, bytes),
            FileNode::Trigger(t) => t.write(offset, bytes),
        }
    }

    /// Asks the file to consent to deletion: a buffer file always does, a
    /// trigger file never does.  The file itself is unchanged either way.
    pub fn delete(&mut self) -> (r: Result<(), FsError>)
        ensures
            *final(self) == *old(self),
            *old(self) is User ==> r is Ok,
            *old(self) is Trigger ==> r == Err::<(), FsError>(FsError::PermissionDenied),
    {
        match self {
            FileNode::User(u) => u.delete(),
            FileNode::Trigger(t) => t.delete(),
        }
    }
}

} // verus!
