//! Protocol-level attribute records and the metadata shared by all node kinds.

use vstd::prelude::*;

verus! {

/// The kind of a node as reported to the protocol layer.
#[derive(Clone, Copy, Debug, PartialEq, Eq, Structural)]
pub enum FileType {
    Directory,
    RegularFile,
    Symlink,
}

/// The attribute record a node presents to the protocol layer.  Timestamps
/// are supplied by the unverified mount layer and are not part of the model.
#[derive(Clone, Copy, Debug, PartialEq, Eq, Structural)]
pub struct NodeAttr {
    pub ino: u64,
    pub size: u64,
    pub kind: FileType,
    pub perm: u16,
    pub uid: u32,
    pub gid: u32,
    pub flags: u32,
}

/// Metadata owned by every node: its display name and the mutable attribute
/// fields an attribute update may touch.
#[derive(Debug)]
pub struct Meta {
    pub name: Vec<u8>,
    pub perm: u16,
    pub uid: u32,
    pub gid: u32,
    pub flags: u32,
}

/// The escape convention: a name opts out of the sandbox restriction when its
/// first byte is an underscore.  An empty name has no first byte and is never
/// escaped.
pub open spec fn name_escaped(name: Seq<u8>) -> bool {
    name.len() > 0 && name[0] == 95u8
}

/// The shared naming rule for creating and renaming: allowed inside a sandbox
/// directory, or when the new name is escaped.
pub open spec fn naming_allowed(in_sandbox: bool, name: Seq<u8>) -> bool {
    in_sandbox || name_escaped(name)
}

/// A mode supplied by the protocol is truncated to the 16 permission bits the
/// attribute record stores.
pub open spec fn perm_of_mode(mode: u32) -> u16 {
    (mode & 0xffff) as u16
}

/// The metadata after an attribute update: each supplied field replaces the
/// stored one, absent fields are left unchanged, and the name never changes.
pub open spec fn meta_updated(
    m: Meta,
    mode: Option<u32>,
    uid: Option<u32>,
    gid: Option<u32>,
    flags: Option<u32>,
) -> Meta {
    (Meta {
        name: m.name,
        perm: match mode {
            Some(v) => perm_of_mode(v),
            None => m.perm,
        },
        uid: match uid {
            Some(v) => v,
            None => m.uid,
        },
        gid: match gid {
            Some(v) => v,
            None => m.gid,
        },
        flags: match flags {
            Some(v) => v,
            None => m.flags,
        },
    })
}

/// Metadata as built for a newly created node.
pub open spec fn meta_is(m: Meta, name: Seq<u8>, mode: u32, uid: u32, gid: u32, flags: u32) -> bool {
    &&& m.name@ == name
    &&& m.perm == perm_of_mode(mode)
    &&& m.uid == uid
    &&& m.gid == gid
    &&& m.flags == flags
}

impl Meta {
    /// Builds the metadata for a newly created node.
    pub fn new(name: Vec<u8>, mode: u32, uid: u32, gid: u32, flags: u32) -> (m: Meta)
        ensures
            m.name == name,
            m.perm == perm_of_mode(mode),
            m.uid == uid,
            m.gid == gid,
            m.flags == flags,
    {
        Meta { name, perm: (mode & 0xffff) as u16, uid, gid, flags }
    }

    /// Applies an attribute update to the mutable fields.
    pub fn apply(
        &mut self,
        mode: Option<u32>,
        uid: Option<u32>,
        gid: Option<u32>,
        flags: Option<u32>,
    )
        ensures
            *final(self) == meta_updated(*old(self), mode, uid, gid, flags),
    {
        if let Some(mode) = mode {
            self.perm = (mode & 0xffff) as u16;
        }
        if let Some(uid) = uid {
            self.uid = uid;
        }
        if let Some(gid) = gid {
            self.gid = gid;
        }
        if let Some(flags) = flags {
            self.flags = flags;
        }
    }

    /// Checks the escape convention on the stored name.
    pub fn is_escaped(&self) -> (r: bool)
        ensures
            r == name_escaped(self.name@),
    {
        self.name.len() > 0 && self.name[0] == 95u8
    }
}

/// Checks the escape convention on a free-standing name.
pub fn byte_name_escaped(name: &[u8]) -> (r: bool)
    ensures
        r == name_escaped(name@),
{
    name.len() > 0 && name[0] == 95u8
}

/// Compares two names byte for byte.
pub fn names_equal(a: &[u8], b: &[u8]) -> (r: bool)
    ensures
        r == (a@ == b@),
{
    if a.len() != b.len() {
        return false;
    }
    let mut i: usize = 0;
    while i < a.len()
        invariant
            i <= a.len(),
            a@.len() == b@.len(),
            forall|k: int| 0 <= k < i ==> a@[k] == b@[k],
        decreases a.len() - i,
    {
        if a[i] != b[i] {
            return false;
        }
        i += 1;
    }
    proof {
        assert(a@ =~= b@);
    }
    true
}

} // verus!
