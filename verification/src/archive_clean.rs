//! Taking special permissions away from what was unpacked.

use crate::text::concat2;
use vstd::prelude::*;

verus! {

/// The permission bits that let a program run as somebody else.
pub const SPECIAL_BITS: u32 = 0o6000;

/// What kind of thing was unpacked.
#[derive(Debug, Clone, Copy, PartialEq, Eq, Structural)]
pub enum UnpackedKind {
    Link,
    /// A device, a pipe or a socket.
    Special,
    Directory,
    File,
    Other,
}

/// What is to be done about the permissions of something unpacked.
#[derive(Debug, Clone, Copy, PartialEq, Eq, Structural)]
pub enum PermissionStep {
    Keep,
    SetDirectory(u32),
    SetFile(u32),
}

/// A walk over what was unpacked.
#[derive(Debug)]
pub struct CleanRun {
    pub pending: Vec<String>,
}

/// What is to be done about the permissions of something with this mode.
pub open spec fn permission_step(kind: UnpackedKind, mode: u32) -> PermissionStep {
    if mode & SPECIAL_BITS == 0 {
        PermissionStep::Keep
    } else {
        match kind {
            UnpackedKind::Directory => PermissionStep::SetDirectory(mode & !SPECIAL_BITS),
            UnpackedKind::File => PermissionStep::SetFile(mode & !SPECIAL_BITS),
            _ => PermissionStep::Keep,
        }
    }
}

/// What looking at an unpacked path comes to.
pub open spec fn looked_at(
    before: CleanRun,
    after: CleanRun,
    path: Seq<char>,
    kind: UnpackedKind,
    mode: u32,
    children: Seq<String>,
    r: Result<PermissionStep, String>,
) -> bool {
    match kind {
        UnpackedKind::Special => {
            &&& after.pending@ == before.pending@
            &&& r matches Err(e) && e@ == "archive created a special file: "@ + path
        },
        UnpackedKind::Directory => {
            &&& after.pending@ == before.pending@ + children
            &&& r == Ok::<PermissionStep, String>(permission_step(kind, mode))
        },
        _ => {
            &&& after.pending@ == before.pending@
            &&& r == Ok::<PermissionStep, String>(permission_step(kind, mode))
        },
    }
}

impl CleanRun {
    /// A walk from the given path.
    pub fn start(root: String) -> (r: CleanRun)
        ensures
            r.pending@ == seq![root],
    {
        let mut pending: Vec<String> = Vec::new();
        pending.push(root);
        assert(pending@ =~= seq![root]);
        CleanRun { pending }
    }

    /// The path that is looked at next. None at the end.
    pub fn next_path(&mut self) -> (r: Option<String>)
        ensures
            if old(self).pending@.len() == 0 {
                r is None && final(self).pending@ == old(self).pending@
            } else {
                r == Some(old(self).pending@.last()) && final(self).pending@ == old(
                    self,
                ).pending@.drop_last()
            },
    {
        self.pending.pop()
    }

    /// Takes in what is at a path. Links are left alone; anything but files and
    /// directories ends the walk. `children` are the paths in a directory.
    pub fn strip_special_permission_bits(
        &mut self,
        path: &str,
        kind: UnpackedKind,
        mode: u32,
        children: Vec<String>,
    ) -> (r: Result<PermissionStep, String>)
        ensures
            looked_at(*old(self), *final(self), path@, kind, mode, children@, r),
    {
        if kind == UnpackedKind::Special {
            return Err(concat2("archive created a special file: ", path));
        }
        if kind == UnpackedKind::Directory {
            let mut children = children;
            self.pending.append(&mut children);
        }
        if mode & SPECIAL_BITS == 0 {
            return Ok(PermissionStep::Keep);
        }
        match kind {
            UnpackedKind::Directory => Ok(PermissionStep::SetDirectory(mode & !SPECIAL_BITS)),
            UnpackedKind::File => Ok(PermissionStep::SetFile(mode & !SPECIAL_BITS)),
            _ => Ok(PermissionStep::Keep),
        }
    }
}

/// No file and no directory keeps a special permission, and no other permission
/// is touched.
pub proof fn law_no_special_permission_is_kept(kind: UnpackedKind, mode: u32)
    requires
        kind == UnpackedKind::Directory || kind == UnpackedKind::File,
    ensures
        match permission_step(kind, mode) {
            PermissionStep::Keep => mode & 0o6000 == 0,
            PermissionStep::SetDirectory(now) => now & 0o6000 == 0 && now | (mode & 0o6000) == mode,
            PermissionStep::SetFile(now) => now & 0o6000 == 0 && now | (mode & 0o6000) == mode,
        },
{
    assert((mode & !0o6000u32) & 0o6000u32 == 0) by (bit_vector);
    assert((mode & !0o6000u32) | (mode & 0o6000u32) == mode) by (bit_vector);
}

/// A special file ends the walk; what is in a directory is walked, and nothing else adds to
/// the walk. A link is left as it is.
pub proof fn law_unpacked_tree_is_walked(
    before: CleanRun,
    after: CleanRun,
    path: Seq<char>,
    kind: UnpackedKind,
    mode: u32,
    children: Seq<String>,
    r: Result<PermissionStep, String>,
)
    requires
        looked_at(before, after, path, kind, mode, children, r),
    ensures
        r is Err <==> kind == UnpackedKind::Special,
        kind == UnpackedKind::Directory ==> after.pending@ == before.pending@ + children,
        kind != UnpackedKind::Directory ==> after.pending@ == before.pending@,
        kind == UnpackedKind::Link || kind == UnpackedKind::Other ==> r == Ok::<
            PermissionStep,
            String,
        >(PermissionStep::Keep),
        kind == UnpackedKind::Directory ==> !(r matches Ok(PermissionStep::SetFile(_))),
        kind == UnpackedKind::File ==> !(r matches Ok(PermissionStep::SetDirectory(_))),
{
}

} // verus!
