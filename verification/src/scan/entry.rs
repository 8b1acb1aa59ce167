//! The plain values that a scan works on.

use vstd::prelude::*;

verus! {

/// One visited node of the tree.
#[derive(Clone, Debug, PartialEq, Eq)]
pub struct Entry {
    pub path: String,
    /// The file name of the node, as the system that listed it reads its
    /// path; `None` where the path has none.
    pub name: Option<String>,
    pub is_directory: bool,
}

/// A failure to read one node; the walk goes on past it.
#[derive(Clone, Debug, PartialEq, Eq)]
pub struct EntryIoError {
    pub path: String,
}

/// What names a physical directory, however it was reached.
#[derive(Clone, Copy, Debug, PartialEq, Eq, Structural)]
pub struct FileId {
    pub device: u64,
    pub index: u64,
}

/// What a directory listing knows of one child.
#[derive(Clone, Copy, Debug, PartialEq, Eq, Structural)]
pub enum ChildKind {
    /// Anything that cannot be descended into.
    File,
    /// A directory, or a symbolic link that resolves to one.
    Directory { symlink: bool, identity: FileId },
    /// The node could not be examined.
    Unreadable,
}

/// One item of a directory listing, or the root of a walk.
#[derive(Clone, Debug, PartialEq, Eq)]
pub struct Child {
    pub path: String,
    /// The file name of the node, as the system that listed it reads its
    /// path; `None` where the path has none.
    pub name: Option<String>,
    pub kind: ChildKind,
}

/// What the walker shows to the visit function.
#[derive(Clone, Debug, PartialEq, Eq)]
pub enum Sighting {
    Entry(Entry),
    Failure(EntryIoError),
}

/// What the visit function tells the walker to do next.
#[derive(Clone, Copy, Debug, PartialEq, Eq, Structural)]
pub enum Instruction {
    /// Go on, and descend if the entry is a directory.
    Continue,
    /// Go on, but leave the entry's children alone.
    SkipSubtree,
    /// Issue no further visits in this walk.
    Quit,
}

/// What a predicate or matcher says of one entry.
#[derive(Clone, Copy, Debug, PartialEq, Eq, Structural)]
pub enum Verdict {
    Accept,
    Reject,
    /// Reject, and leave the entry's children alone.
    RejectSubtree,
}

/// The settings of one scan; they hold for every root alike.
#[derive(Clone, Copy, Debug, PartialEq, Eq, Structural)]
pub struct ScanConfig {
    /// How many steps below a root a visited entry may lie.
    pub max_depth: usize,
    pub follow_symlinks: bool,
    /// The size of the one worker pool that all roots share.
    pub thread_count: usize,
}

impl ChildKind {
    /// Whether the child counts as a directory.
    pub open spec fn is_directory(self) -> bool {
        self is Directory
    }
}

/// A listing as a mathematical value.
pub open spec fn listed(listing: Option<Vec<Child>>) -> Option<Seq<Child>> {
    match listing {
        Some(children) => Some(children@),
        None => None,
    }
}

/// A copy of a name.
pub fn copy_name(name: &Option<String>) -> (copy: Option<String>)
    ensures
        copy == *name,
{
    match name {
        Some(text) => Some(text.clone()),
        None => None,
    }
}

impl Child {
    /// What the visit function is shown for this child.
    pub open spec fn sighting(self) -> Sighting {
        match self.kind {
            ChildKind::Unreadable => Sighting::Failure(EntryIoError { path: self.path }),
            _ => Sighting::Entry(
                Entry { path: self.path, name: self.name, is_directory: self.kind.is_directory() },
            ),
        }
    }

    /// Builds the sighting of this child; the texts are copied.
    pub fn to_sighting(&self) -> (sighting: Sighting)
        ensures
            sighting == self.sighting(),
    {
        match self.kind {
            ChildKind::Unreadable => Sighting::Failure(EntryIoError { path: self.path.clone() }),
            ChildKind::File => Sighting::Entry(
                Entry { path: self.path.clone(), name: copy_name(&self.name), is_directory: false },
            ),
            ChildKind::Directory { .. } => Sighting::Entry(
                Entry { path: self.path.clone(), name: copy_name(&self.name), is_directory: true },
            ),
        }
    }
}

impl Entry {
    /// A copy with the same path, name and flag.
    pub fn duplicate(&self) -> (copy: Entry)
        ensures
            copy == *self,
    {
        Entry {
            path: self.path.clone(),
            name: copy_name(&self.name),
            is_directory: self.is_directory,
        }
    }
}

/// `num_cpus::get`: the number of logical processors that this process
/// may use. Its documentation promises that it is at least 1; the number
/// itself depends on the machine.
#[verifier::external_body]
fn logical_processors() -> (count: usize)
    ensures
        count >= 1,
{
    num_cpus::get()
}

impl ScanConfig {
    /// The configuration is usable: at least one worker.
    pub open spec fn valid(self) -> bool {
        self.thread_count >= 1
    }

    /// A configuration with the given limits; a worker count of zero is
    /// raised to one.
    pub fn new(max_depth: usize, follow_symlinks: bool, thread_count: usize) -> (config: ScanConfig)
        ensures
            config.valid(),
            config.max_depth == max_depth,
            config.follow_symlinks == follow_symlinks,
            config.thread_count == if thread_count == 0 { 1 } else { thread_count },
    {
        ScanConfig {
            max_depth,
            follow_symlinks,
            thread_count: if thread_count == 0 { 1 } else { thread_count },
        }
    }

    /// A configuration with the given limits and one worker for each
    /// logical processor of this machine.
    pub fn for_this_machine(max_depth: usize, follow_symlinks: bool) -> (config: ScanConfig)
        ensures
            config.valid(),
            config.max_depth == max_depth,
            config.follow_symlinks == follow_symlinks,
    {
        ScanConfig { max_depth, follow_symlinks, thread_count: logical_processors() }
    }
}

} // verus!
