//! Ownership rules of the daemon's private state: which path components
//! may lead to it, which files count as private, and when the state
//! directory must be tightened.  Modes are Unix permission bits.

use vstd::prelude::*;

verus! {

/// Permission bits that give the group or others any access.
pub const GROUP_OR_OTHER_BITS: u32 = 0o077;

/// Permission bits that let the group or others write.
pub const GROUP_OR_OTHER_WRITE_BITS: u32 = 0o022;

/// The sticky bit.
pub const STICKY_BIT: u32 = 0o1000;

/// Why a component on the way to the state was refused.
#[derive(Debug, Clone, Copy, PartialEq, Eq, Structural)]
pub enum ComponentVerdict {
    Accepted,
    /// It is a symbolic link.
    Symlink,
    /// Neither the user nor the superuser owns it.
    ForeignOwner,
    /// Others may write to it and it is not sticky.
    WritableByOthers,
}

/// The rule for each existing component of a path to the state: no
/// symbolic link; owned by the user or the superuser; not writable by the
/// group or others unless sticky.  The root directory itself is exempt
/// from the last two.
pub open spec fn component_rule(is_symlink: bool, uid: u32, euid: u32, mode: u32, is_root: bool) -> ComponentVerdict {
    if is_symlink {
        ComponentVerdict::Symlink
    } else if uid != euid && uid != 0 && !is_root {
        ComponentVerdict::ForeignOwner
    } else if !is_root && mode & GROUP_OR_OTHER_WRITE_BITS != 0 && mode & STICKY_BIT == 0 {
        ComponentVerdict::WritableByOthers
    } else {
        ComponentVerdict::Accepted
    }
}

/// Judges one existing component of a path to the state.
pub fn component_verdict(is_symlink: bool, uid: u32, euid: u32, mode: u32, is_root: bool) -> (r: ComponentVerdict)
    ensures
        r == component_rule(is_symlink, uid, euid, mode, is_root),
{
    if is_symlink {
        ComponentVerdict::Symlink
    } else if uid != euid && uid != 0 && !is_root {
        ComponentVerdict::ForeignOwner
    } else if !is_root && mode & GROUP_OR_OTHER_WRITE_BITS != 0 && mode & STICKY_BIT == 0 {
        ComponentVerdict::WritableByOthers
    } else {
        ComponentVerdict::Accepted
    }
}

/// A private file is a regular file of the user that nobody else may
/// access.
pub open spec fn private_file_rule(is_file: bool, uid: u32, euid: u32, mode: u32) -> bool {
    is_file && uid == euid && mode & GROUP_OR_OTHER_BITS == 0
}

/// Whether an open file is private.
pub fn is_private_file(is_file: bool, uid: u32, euid: u32, mode: u32) -> (r: bool)
    ensures
        r == private_file_rule(is_file, uid, euid, mode),
{
    is_file && uid == euid && mode & GROUP_OR_OTHER_BITS == 0
}

/// What the state directory needs.
#[derive(Debug, Clone, Copy, PartialEq, Eq, Structural)]
pub enum DirectoryVerdict {
    Private,
    /// The user owns it but others have access: tighten it to `0700`.
    Tighten,
    /// It is not a directory of the user.
    Refused,
}

/// The rule for the state directory: a directory of the user; one that
/// others may access is tightened, and refused if it still is afterwards.
pub open spec fn directory_rule(is_dir: bool, uid: u32, euid: u32, mode: u32, tightened: bool) -> DirectoryVerdict {
    if !is_dir || uid != euid {
        DirectoryVerdict::Refused
    } else if mode & GROUP_OR_OTHER_BITS != 0 {
        if tightened {
            DirectoryVerdict::Refused
        } else {
            DirectoryVerdict::Tighten
        }
    } else {
        DirectoryVerdict::Private
    }
}

/// Judges the state directory (`tightened`: its mode was already reset).
pub fn directory_verdict(is_dir: bool, uid: u32, euid: u32, mode: u32, tightened: bool) -> (r: DirectoryVerdict)
    ensures
        r == directory_rule(is_dir, uid, euid, mode, tightened),
{
    if !is_dir || uid != euid {
        DirectoryVerdict::Refused
    } else if mode & GROUP_OR_OTHER_BITS != 0 {
        if tightened {
            DirectoryVerdict::Refused
        } else {
            DirectoryVerdict::Tighten
        }
    } else {
        DirectoryVerdict::Private
    }
}

/// A directory that was tightened to `0700` and still belongs to the user
/// is private.
pub proof fn lemma_tightened_directory_is_private(uid: u32, euid: u32)
    requires
        uid == euid,
    ensures
        directory_rule(true, uid, euid, 0o700, true) == DirectoryVerdict::Private,
{
    assert(0o700u32 & GROUP_OR_OTHER_BITS == 0) by (bit_vector);
}

/// A private file passes the ownership rule of a path component.
pub proof fn lemma_private_file_component_accepted(uid: u32, mode: u32)
    requires
        private_file_rule(true, uid, uid, mode),
    ensures
        component_rule(false, uid, uid, mode, false) == ComponentVerdict::Accepted,
{
    assert(mode & GROUP_OR_OTHER_BITS == 0 ==> mode & GROUP_OR_OTHER_WRITE_BITS == 0) by (bit_vector);
}

} // verus!
