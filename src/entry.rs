use vstd::prelude::*;

verus! {

/// The kind of filesystem object an entry stands for.
#[derive(Debug, Copy, Clone, PartialEq, Eq, Structural)]
pub enum Mode {
    /// A directory, as a placeholder for a tree.
    Dir,
    /// A submodule, pinned to a commit.
    Commit,
    /// A regular file.
    File,
    /// An executable file.
    FileExecutable,
    /// A symbolic link.
    Symlink,
}

impl Mode {
    /// Whether an object of this kind is itself a directory on disk.
    pub open spec fn is_directory(self) -> bool {
        self == Mode::Dir || self == Mode::Commit
    }

    /// Whether an object of this kind is itself a directory on disk.
    pub fn is_dir(&self) -> (r: bool)
        ensures
            r == self.is_directory(),
    {
        *self == Mode::Dir || *self == Mode::Commit
    }
}

/// One tracked object of an index.
pub struct Entry {
    /// The slash-separated path of the object, relative to the root of the worktree.
    pub path: Vec<u8>,
    /// The kind of the object.
    pub mode: Mode,
    /// The entry's record as its own encoder lays it out on disk.
    pub record: Vec<u8>,
}

} // verus!
