//! The degenerate link node: effectively immutable, retained for rename and
//! identity purposes only.

use vstd::prelude::*;
use vstd::slice::slice_to_vec;
use crate::attrs::Meta;
use crate::errors::FsError;

verus! {

/// A link node.  It rejects attribute changes and deletion; only its display
/// name can change.
#[derive(Debug)]
pub struct Link {
    pub meta: Meta,
}

impl Link {
    /// The display name.
    pub fn name(&self) -> (r: &Vec<u8>)
        ensures
            r@ == self.meta.name@,
    {
        &self.meta.name
    }

    /// Attribute changes are refused for a link.
    pub fn setattr(
        &mut self,
        mode: Option<u32>,
        uid: Option<u32>,
        gid: Option<u32>,
        size: Option<u64>,
        fh: Option<u64>,
        flags: Option<u32>,
    ) -> (r: Result<(), FsError>)
        ensures
            r == Err::<(), FsError>(FsError::NotSupported),
            *final(self) == *old(self),
    {
        let _ = (mode, uid, gid, size, fh, flags);
        Err(FsError::NotSupported)
    }

    /// Renames the link unconditionally.
    pub fn rename(&mut self, new_name: &[u8], in_sandbox: bool) -> (r: Result<(), FsError>)
        ensures
            r is Ok,
            final(self).meta.name@ == new_name@,
            final(self).meta.perm == old(self).meta.perm,
            final(self).meta.uid == old(self).meta.uid,
            final(self).meta.gid == old(self).meta.gid,
            final(self).meta.flags == old(self).meta.flags,
    {
        let _ = in_sandbox;
        self.meta.name = slice_to_vec(new_name);
        Ok(())
    }

    /// Deletion is refused for a link.
    pub fn delete(&mut self) -> (r: Result<(), FsError>)
        ensures
            r == Err::<(), FsError>(FsError::NotSupported),
            *final(self) == *old(self),
    {
        Err(FsError::NotSupported)
    }
}

} // verus!
