//! What was seen of a path when the user was asked about it. An operation goes
//! ahead only while the file system still shows the same.

use crate::text::same_text;
use vstd::prelude::*;

verus! {

/// A file system object as it was seen: which object it is, and a stamp of its
/// metadata.
#[derive(Debug, Clone, Copy, PartialEq, Eq, Structural)]
pub struct PathAuthorization {
    pub device: u64,
    pub inode: u64,
    pub stamp: u64,
    pub directory: bool,
}

impl PathAuthorization {
    /// Whether both name the same object, whatever its metadata.
    pub open spec fn is_same_object(self, other: PathAuthorization) -> bool {
        self.device == other.device && self.inode == other.inode
    }

    /// Whether both name the same object, whatever its metadata.
    pub fn same_object(&self, other: &PathAuthorization) -> (r: bool)
        ensures
            r == self.is_same_object(*other),
    {
        self.device == other.device && self.inode == other.inode
    }

    /// Whether the object is a directory.
    pub fn is_directory(&self) -> (r: bool)
        ensures
            r == self.directory,
    {
        self.directory
    }
}

/// A directory as it was seen: its resolved path and which object it is.
#[derive(Debug)]
pub struct DirectoryAuthorization {
    pub resolved_path: String,
    pub device: u64,
    pub inode: u64,
}

impl DirectoryAuthorization {
    /// Whether both name the same object.
    pub open spec fn is_same_object(self, other: DirectoryAuthorization) -> bool {
        self.device == other.device && self.inode == other.inode
    }

    /// Whether both name the same object.
    pub fn same_object(&self, other: &DirectoryAuthorization) -> (r: bool)
        ensures
            r == self.is_same_object(*other),
    {
        self.device == other.device && self.inode == other.inode
    }
}

impl Clone for DirectoryAuthorization {
    fn clone(&self) -> (r: Self)
        ensures
            r == *self,
    {
        DirectoryAuthorization {
            resolved_path: self.resolved_path.clone(),
            device: self.device,
            inode: self.inode,
        }
    }
}

/// The absence of a path below a directory, as it was seen.
#[derive(Debug)]
pub struct MissingPathAuthorization {
    pub root: DirectoryAuthorization,
    pub relative_path: String,
}

impl Clone for MissingPathAuthorization {
    fn clone(&self) -> (r: Self)
        ensures
            r == *self,
    {
        MissingPathAuthorization {
            root: self.root.clone(),
            relative_path: self.relative_path.clone(),
        }
    }
}

/// A directory that was seen inside a tree.
#[derive(Debug, Clone, Copy, PartialEq, Eq, Structural)]
pub struct DirectoryIdentity {
    pub device: u64,
    pub inode: u64,
}

/// A directory tree as it was seen: the directories in it, and a stamp of all
/// that it holds.
#[derive(Debug)]
pub struct TreeAuthorization {
    pub directories: Vec<DirectoryIdentity>,
    pub stamp: u64,
}

/// A directory tree as it was seen, as a value.
pub struct TreeView {
    pub directories: Seq<DirectoryIdentity>,
    pub stamp: u64,
}

impl View for TreeAuthorization {
    type V = TreeView;

    open spec fn view(&self) -> TreeView {
        TreeView { directories: self.directories@, stamp: self.stamp }
    }
}

impl TreeAuthorization {
    /// Whether the tree holds the directory.
    pub open spec fn holds(self, directory: DirectoryAuthorization) -> bool {
        self.directories@.contains(
            (DirectoryIdentity { device: directory.device, inode: directory.inode }),
        )
    }

    /// Whether the tree holds the directory.
    pub fn contains_directory(&self, directory: &DirectoryAuthorization) -> (r: bool)
        ensures
            r == self.holds(*directory),
    {
        let wanted = DirectoryIdentity { device: directory.device, inode: directory.inode };
        let mut i: usize = 0;
        while i < self.directories.len()
            invariant
                i <= self.directories@.len(),
                wanted == (DirectoryIdentity { device: directory.device, inode: directory.inode }),
                forall|j: int| 0 <= j < i ==> self.directories@[j] != wanted,
            decreases self.directories@.len() - i,
        {
            if self.directories[i] == wanted {
                assert(self.directories@[i as int] == wanted);
                return true;
            }
            i += 1;
        }
        false
    }

    /// The same tree again.
    pub fn copy(&self) -> (r: TreeAuthorization)
        ensures
            r@ == self@,
            r.directories@ == self.directories@,
            r.stamp == self.stamp,
    {
        let mut directories: Vec<DirectoryIdentity> = Vec::new();
        let mut i: usize = 0;
        while i < self.directories.len()
            invariant
                i <= self.directories@.len(),
                directories@ == self.directories@.take(i as int),
            decreases self.directories@.len() - i,
        {
            directories.push(self.directories[i]);
            assert(directories@ == self.directories@.take(i + 1));
            i += 1;
        }
        assert(self.directories@.take(i as int) == self.directories@);
        TreeAuthorization { directories, stamp: self.stamp }
    }
}

/// A name and what was seen under it.
#[derive(Debug)]
pub struct NamedAuthorization {
    pub name: String,
    pub authorization: PathAuthorization,
}

/// A local path and what was seen there.
#[derive(Debug)]
pub struct PathedAuthorization {
    pub path: String,
    pub authorization: PathAuthorization,
}

/// What was last seen under a name.
pub open spec fn seen_under(list: Seq<NamedAuthorization>, name: Seq<char>) -> Option<
    PathAuthorization,
>
    decreases list.len(),
{
    if list.len() == 0 {
        None
    } else if list.last().name@ == name {
        Some(list.last().authorization)
    } else {
        seen_under(list.drop_last(), name)
    }
}

/// What was last seen at a path.
pub open spec fn seen_at(list: Seq<PathedAuthorization>, path: Seq<char>) -> Option<
    PathAuthorization,
>
    decreases list.len(),
{
    if list.len() == 0 {
        None
    } else if list.last().path@ == path {
        Some(list.last().authorization)
    } else {
        seen_at(list.drop_last(), path)
    }
}

/// What was last seen under a name.
pub fn find_named(list: &Vec<NamedAuthorization>, name: &str) -> (r: Option<PathAuthorization>)
    ensures
        r == seen_under(list@, name@),
{
    let mut i: usize = list.len();
    assert(list@.take(list@.len() as int) == list@);
    while i > 0
        invariant
            i <= list@.len(),
            seen_under(list@, name@) == seen_under(list@.take(i as int), name@),
        decreases i,
    {
        let last: usize = i - 1;
        assert(list@.take(i as int).drop_last() == list@.take(last as int));
        if same_text(list[last].name.as_str(), name) {
            return Some(list[last].authorization);
        }
        i = last;
    }
    None
}

/// What was last seen at a path.
pub fn find_at(list: &Vec<PathedAuthorization>, path: &str) -> (r: Option<PathAuthorization>)
    ensures
        r == seen_at(list@, path@),
{
    let mut i: usize = list.len();
    assert(list@.take(list@.len() as int) == list@);
    while i > 0
        invariant
            i <= list@.len(),
            seen_at(list@, path@) == seen_at(list@.take(i as int), path@),
        decreases i,
    {
        let last: usize = i - 1;
        assert(list@.take(i as int).drop_last() == list@.take(last as int));
        if same_text(list[last].path.as_str(), path) {
            return Some(list[last].authorization);
        }
        i = last;
    }
    None
}

/// Paths and what was seen there, as text.
pub open spec fn pathed_views(list: Seq<PathedAuthorization>) -> Seq<(Seq<char>, PathAuthorization)> {
    Seq::new(list.len(), |i: int| (list[i].path@, list[i].authorization))
}

/// Two things are the same object exactly where device and number agree, whatever else
/// was seen of them.
pub proof fn law_objects_are_told_by_device_and_number(
    a: PathAuthorization,
    b: PathAuthorization,
    c: DirectoryAuthorization,
    d: DirectoryAuthorization,
)
    ensures
        a.is_same_object(b) <==> (a.device, a.inode) == (b.device, b.inode),
        c.is_same_object(d) <==> (c.device, c.inode) == (d.device, d.inode),
{
}

/// What was noted last under a name is what is found under it; other names do not matter.
pub proof fn law_last_note_counts(list: Seq<NamedAuthorization>, name: Seq<char>)
    ensures
        (forall|i: int| 0 <= i < list.len() ==> (#[trigger] list[i]).name@ != name) ==> seen_under(
            list,
            name,
        ) is None,
        seen_under(list, name) matches Some(found) ==> exists|i: int|
            0 <= i < list.len() && (#[trigger] list[i]).name@ == name && list[i].authorization
                == found && forall|j: int|
                i < j < list.len() ==> (#[trigger] list[j]).name@ != name,
    decreases list.len(),
{
    if list.len() > 0 {
        let rest = list.drop_last();
        if list.last().name@ == name {
            assert(list[list.len() - 1].name@ == name);
        } else {
            law_last_note_counts(rest, name);
            if forall|i: int| 0 <= i < list.len() ==> (#[trigger] list[i]).name@ != name {
                assert forall|i: int| 0 <= i < rest.len() implies (#[trigger] rest[i]).name@ != name by {
                    assert(rest[i] == list[i]);
                }
            }
            if let Some(found) = seen_under(rest, name) {
                let i = choose|i: int|
                    0 <= i < rest.len() && (#[trigger] rest[i]).name@ == name
                        && rest[i].authorization == found && forall|j: int|
                        i < j < rest.len() ==> (#[trigger] rest[j]).name@ != name;
                assert(list[i] == rest[i]);
                assert forall|j: int| i < j < list.len() implies (#[trigger] list[j]).name@ != name by {
                    if j < rest.len() {
                        assert(rest[j] == list[j]);
                    }
                }
            }
        }
    }
}

} // verus!
