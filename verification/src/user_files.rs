//! The engine's resizable byte-buffer file and its plain hierarchical
//! directory.

use vstd::prelude::*;
use vstd::slice::slice_to_vec;
use crate::attrs::{Meta, meta_is, meta_updated, naming_allowed};
use crate::errors::FsError;
use crate::file_helpers::{read, read_bytes};

verus! {

/// A payload of `n` bytes: the original data, truncated or zero-extended.
pub open spec fn resized(data: Seq<u8>, n: int) -> Seq<u8> {
    Seq::new(n as nat, |i: int| if i < data.len() { data[i] } else { 0u8 })
}

/// A payload after a range write: zero-extended so the written range fits,
/// with the written bytes replacing the range `[offset, offset + len)`.
pub open spec fn write_bytes(data: Seq<u8>, offset: int, bytes: Seq<u8>) -> Seq<u8> {
    let end = offset + bytes.len();
    let n = if data.len() < end {
        end
    } else {
        data.len() as int
    };
    Seq::new(
        n as nat,
        |i: int|
            if offset <= i < end {
                bytes[i - offset]
            } else if i < data.len() {
                data[i]
            } else {
                0u8
            },
    )
}

/// A resizable byte-buffer file.  It backs every file created through the
/// dispatcher; its size attribute always tracks the buffer length.
#[derive(Debug)]
pub struct UserFile {
    pub meta: Meta,
    pub data: Vec<u8>,
}

impl UserFile {
    /// Builds a buffer file of the requested size, filled with zero bytes.
    #[verifier::loop_isolation(false)]
    pub fn new(name: Vec<u8>, size: u64, mode: u32, uid: u32, gid: u32, flags: u32) -> (f:
        UserFile)
        requires
            size <= usize::MAX,
        ensures
            meta_is(f.meta, name@, mode, uid, gid, flags),
            f.data@ == Seq::new(size as nat, |i: int| 0u8),
    {
        let mut data: Vec<u8> = Vec::new();
        let n = size as usize;
        while data.len() < n
            invariant
                data@.len() <= n,
                forall|i: int| 0 <= i < data@.len() ==> data@[i] == 0u8,
            decreases n - data.len(),
        {
            data.push(0u8);
        }
        proof {
            assert(data@ =~= Seq::new(size as nat, |i: int| 0u8));
        }
        UserFile { meta: Meta::new(name, mode, uid, gid, flags), data }
    }

    /// Updates the mutable attribute fields; a supplied size truncates or
    /// zero-extends the buffer.  Always succeeds.
    #[verifier::loop_isolation(false)]
    pub fn setattr(
        &mut self,
        mode: Option<u32>,
        uid: Option<u32>,
        gid: Option<u32>,
        size: Option<u64>,
        fh: Option<u64>,
        flags: Option<u32>,
    ) -> (r: Result<(), FsError>)
        requires
            size matches Some(s) ==> s <= usize::MAX,
        ensures
            r is Ok,
            final(self).meta == meta_updated(old(self).meta, mode, uid, gid, flags),
            final(self).data@ == (match size {
                Some(s) => resized(old(self).data@, s as int),
                None => old(self).data@,
            }),
    {
        let _ = fh;
        self.meta.apply(mode, uid, gid, flags);
        if let Some(s) = size {
            let n = s as usize;
            if n <= self.data.len() {
                self.data.truncate(n);
            } else {
                while self.data.len() < n
                    invariant
                        self.data@.len() <= n,
                        self.data@.len() >= old(self).data@.len(),
                        forall|i: int|
                            0 <= i < old(self).data@.len() ==> self.data@[i] == old(self).data@[i],
                        forall|i: int|
                            old(self).data@.len() <= i < self.data@.len() ==> self.data@[i] == 0u8,
                        self.meta == meta_updated(old(self).meta, mode, uid, gid, flags),
                    decreases n - self.data.len(),
                {
                    self.data.push(0u8);
                }
            }
            proof {
                assert(self.data@ =~= resized(old(self).data@, s as int));
            }
        }
        Ok(())
    }

    /// Renames the file under the shared naming rule: allowed inside a
    /// sandbox directory or when the new name is escaped.
    pub fn rename(&mut self, new_name: &[u8], in_sandbox: bool) -> (r: Result<(), FsError>)
        ensures
            naming_allowed(in_sandbox, new_name@) ==> r is Ok && final(self).meta.name@
                == new_name@ && final(self).meta.perm == old(self).meta.perm && final(self).meta.uid == old(self).meta.uid && final(self).meta.gid == old(self).meta.gid
                && final(self).meta.flags == old(self).meta.flags && final(self).data == old(self).data,
            !naming_allowed(in_sandbox, new_name@) ==> r == Err::<(), FsError>(
                FsError::PermissionDenied,
            ) && *final(self) == *old(self),
    {
        if !in_sandbox && !(new_name.len() > 0 && new_name[0] == 95u8) {
            return Err(FsError::PermissionDenied);
        }
        self.meta.name = slice_to_vec(new_name);
        Ok(())
    }

    /// Reads a byte range; never an error.
    pub fn read(&self, offset: i64, size: u32) -> (r: Result<Vec<u8>, FsError>)
        ensures
            r matches Ok(v) && v@ == read_bytes(self.data@, offset as int, size as int),
    {
        read(self.data.as_slice(), offset, size)
    }

    /// Writes a byte range, zero-extending the buffer when the write reaches
    /// past the current end.  A negative offset is refused.
    #[verifier::loop_isolation(false)]
    pub fn write(&mut self, offset: i64, bytes: &[u8]) -> (r: Result<u32, FsError>)
        requires
            0 <= offset ==> offset + bytes@.len() <= usize::MAX,
        ensures
            offset < 0 ==> r == Err::<u32, FsError>(FsError::NotSupported) && *final(self) == *old(self),
            0 <= offset ==> r == Ok::<u32, FsError>((#[verifier::truncate] (bytes@.len() as u32))) && final(self).data@
                == write_bytes(old(self).data@, offset as int, bytes@) && final(self).meta == old(self).meta,
    {
        if offset < 0 {
            return Err(FsError::NotSupported);
        }
        let start = offset as usize;
        let end = start + bytes.len();
        let ghost old_len = old(self).data@.len() as int;
        let ghost full = if end > old_len {
            end as int
        } else {
            old_len
        };
        while self.data.len() < end
            invariant
                self.data@.len() >= old_len,
                self.data@.len() <= full,
                forall|i: int| 0 <= i < old_len ==> self.data@[i] == old(self).data@[i],
                forall|i: int| old_len <= i < self.data@.len() ==> self.data@[i] == 0u8,
                self.meta == old(self).meta,
            decreases end - self.data.len(),
        {
            self.data.push(0u8);
        }
        let mut k: usize = 0;
        while k < bytes.len()
            invariant
                k <= bytes@.len(),
                end == start + bytes@.len(),
                end <= self.data@.len(),
                self.data@.len() == full,
                forall|i: int|
                    0 <= i < old_len && !(start <= i < start + k) ==> self.data@[i] == old(
                        self,
                    ).data@[i],
                forall|i: int|
                    old_len <= i < self.data@.len() && !(start <= i < start + k) ==> self.data@[i]
                        == 0u8,
                forall|i: int| start <= i < start + k ==> self.data@[i] == bytes@[i - start],
                self.meta == old(self).meta,
            decreases bytes@.len() - k,
        {
            let ghost prev = self.data@;
            self.data[start + k] = bytes[k];
            proof {
                assert(self.data@ == prev.update(start + k as int, bytes@[k as int]));
                assert(forall|i: int|
                    0 <= i < prev.len() && i != start + k ==> self.data@[i] == prev[i]);
            }
            k += 1;
        }
        proof {
            assert(self.data@ =~= write_bytes(old(self).data@, offset as int, bytes@));
        }
        let written = #[verifier::truncate] (bytes.len() as u32);
        Ok(written)
    }

    /// A buffer file consents to deletion unconditionally.
    pub fn delete(&mut self) -> (r: Result<(), FsError>)
        ensures
            r is Ok,
            *final(self) == *old(self),
    {
        Ok(())
    }
}

/// A plain hierarchical directory: an ordered child list (insertion order is
/// listing order) and the one-way sandbox flag.
#[derive(Debug)]
pub struct NormalDir {
    pub meta: Meta,
    pub children: Vec<u64>,
    pub user_dir: bool,
}

impl NormalDir {
    /// Builds an empty directory.
    pub fn new(name: Vec<u8>, is_user_dir: bool, mode: u32, uid: u32, gid: u32, flags: u32) -> (d:
        NormalDir)
        ensures
            meta_is(d.meta, name@, mode, uid, gid, flags),
            d.children@ == Seq::<u64>::empty(),
            d.user_dir == is_user_dir,
    {
        let d = NormalDir {
            meta: Meta::new(name, mode, uid, gid, flags),
            children: Vec::new(),
            user_dir: is_user_dir,
        };
        proof {
            assert(d.children@ =~= Seq::<u64>::empty());
        }
        d
    }

    /// Reports the sandbox flag.
    pub fn is_user_dir(&self) -> (r: bool)
        ensures
            r == self.user_dir,
    {
        self.user_dir
    }

    /// Appends a child inode number to the listing.
    pub fn add_child(&mut self, ino: u64) -> (r: Result<(), FsError>)
        ensures
            r is Ok,
            final(self).children@ == old(self).children@.push(ino),
            final(self).meta == old(self).meta,
            final(self).user_dir == old(self).user_dir,
    {
        self.children.push(ino);
        Ok(())
    }

    /// Unlinks a child inode number; removing a non-member is not an error.
    pub fn remove_child(&mut self, ino: u64) -> (r: Result<(), FsError>)
        ensures
            r is Ok,
            final(self).children@ == old(self).children@.filter(|c: u64| c != ino),
            final(self).meta == old(self).meta,
            final(self).user_dir == old(self).user_dir,
    {
        let ghost p = |c: u64| c != ino;
        let mut kept: Vec<u64> = Vec::new();
        proof {
            assert(self.children@.subrange(0, 0) =~= Seq::<u64>::empty());
            lemma_filter_empty(p);
        }
        let mut i: usize = 0;
        while i < self.children.len()
            invariant
                i <= self.children@.len(),
                kept@ == self.children@.subrange(0, i as int).filter(p),
                self.meta == old(self).meta,
                self.user_dir == old(self).user_dir,
                self.children == old(self).children,
                p == (|c: u64| c != ino),
            decreases self.children@.len() - i,
        {
            let c = self.children[i];
            proof {
                assert(self.children@.subrange(0, i + 1) =~= self.children@.subrange(
                    0,
                    i as int,
                ).push(c));
                lemma_filter_push(self.children@.subrange(0, i as int), p, c);
            }
            if c != ino {
                kept.push(c);
            }
            i += 1;
        }
        proof {
            assert(self.children@.subrange(0, self.children@.len() as int) =~= self.children@);
        }
        self.children = kept;
        Ok(())
    }

    /// Reports the child at a listing position, none past the end.
    pub fn get_child(&self, index: usize) -> (r: Option<u64>)
        ensures
            index < self.children@.len() ==> r == Some(self.children@[index as int]),
            index >= self.children@.len() ==> r is None,
    {
        if index < self.children.len() {
            Some(self.children[index])
        } else {
            None
        }
    }

    /// Updates the mutable attribute fields; resizing a directory is not
    /// supported and changes nothing.
    pub fn setattr(
        &mut self,
        mode: Option<u32>,
        uid: Option<u32>,
        gid: Option<u32>,
        size: Option<u64>,
        fh: Option<u64>,
        flags: Option<u32>,
    ) -> (r: Result<(), FsError>)
        ensures
            size is Some ==> r == Err::<(), FsError>(FsError::NotSupported) && *final(self) == *old(self),
            size is None ==> r is Ok && final(self).meta == meta_updated(
                old(self).meta,
                mode,
                uid,
                gid,
                flags,
            ) && final(self).children == old(self).children && final(self).user_dir == old(self).user_dir,
    {
        let _ = fh;
        if size.is_some() {
            return Err(FsError::NotSupported);
        }
        self.meta.apply(mode, uid, gid, flags);
        Ok(())
    }

    /// Renames the directory under the shared naming rule.  A directory
    /// renamed into a sandbox, or to an escaped name, becomes a sandbox
    /// directory permanently: the flag only ever turns on.
    pub fn rename(&mut self, new_name: &[u8], in_sandbox: bool) -> (r: Result<(), FsError>)
        ensures
            naming_allowed(in_sandbox, new_name@) ==> r is Ok && final(self).meta.name@
                == new_name@ && final(self).meta.perm == old(self).meta.perm && final(self).meta.uid == old(self).meta.uid && final(self).meta.gid == old(self).meta.gid
                && final(self).meta.flags == old(self).meta.flags && final(self).children == old(self).children && final(self).user_dir == true,
            !naming_allowed(in_sandbox, new_name@) ==> r == Err::<(), FsError>(
                FsError::PermissionDenied,
            ) && *final(self) == *old(self),
    {
        let escaped = new_name.len() > 0 && new_name[0] == 95u8;
        if !in_sandbox && !escaped {
            return Err(FsError::PermissionDenied);
        }
        self.user_dir = true;
        self.meta.name = slice_to_vec(new_name);
        Ok(())
    }

    /// A directory consents to deletion only while its child list is empty.
    pub fn delete(&mut self) -> (r: Result<(), FsError>)
        ensures
            *final(self) == *old(self),
            old(self).children@.len() == 0 ==> r is Ok,
            old(self).children@.len() > 0 ==> r == Err::<(), FsError>(FsError::NotEmpty),
    {
        if !self.children.is_empty() {
            return Err(FsError::NotEmpty);
        }
        Ok(())
    }
}

/// Filtering the empty sequence yields the empty sequence.
proof fn lemma_filter_empty(p: spec_fn(u64) -> bool)
    ensures
        Seq::<u64>::empty().filter(p) == Seq::<u64>::empty(),
{
    reveal(Seq::filter);
}

/// Filtering distributes over appending one element at the back.
proof fn lemma_filter_push(s: Seq<u64>, p: spec_fn(u64) -> bool, x: u64)
    ensures
        s.push(x).filter(p) == if p(x) {
            s.filter(p).push(x)
        } else {
            s.filter(p)
        },
{
    reveal(Seq::filter);
    assert(s.push(x).drop_last() =~= s);
    assert(s.push(x).last() == x);
}

} // verus!
