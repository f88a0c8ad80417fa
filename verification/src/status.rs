//! How a file differs from what version control holds.

use crate::path::RepoPath;
use crate::text;
use vstd::prelude::*;

verus! {

/// What was done to a file on one side.
#[derive(Debug, Clone, Copy, PartialEq, Eq, Structural)]
pub enum StatusCode {
    Modified,
    Added,
    Deleted,
    Unmodified,
}

/// The state of a file that version control knows.
#[derive(Debug, Clone, Copy, PartialEq, Eq, Structural)]
pub struct TrackedStatus {
    pub index_status: StatusCode,
    pub worktree_status: StatusCode,
}

/// The state of a file.
#[derive(Debug, Clone, Copy, PartialEq, Eq, Structural)]
pub enum FileStatus {
    Untracked,
    TrackedFile(TrackedStatus),
}

/// The state of a file with an unstaged change of one kind.
pub open spec fn worktree_status(code: StatusCode) -> FileStatus {
    FileStatus::TrackedFile(TrackedStatus { index_status: StatusCode::Unmodified, worktree_status: code })
}

impl FileStatus {
    /// The state of a file with an unstaged change of one kind.
    pub fn worktree(code: StatusCode) -> (r: FileStatus)
        ensures
            r == worktree_status(code),
    {
        FileStatus::TrackedFile(
            TrackedStatus { index_status: StatusCode::Unmodified, worktree_status: code },
        )
    }

    /// Whether either side of a tracked file says `code`.
    pub open spec fn says(self, code: StatusCode) -> bool {
        match self {
            FileStatus::Untracked => false,
            FileStatus::TrackedFile(t) => t.index_status == code || t.worktree_status == code,
        }
    }

    /// Whether the file is new: untracked, or added on either side.
    pub fn is_created(self) -> (r: bool)
        ensures
            r == (self is Untracked || self.says(StatusCode::Added)),
    {
        match self {
            FileStatus::Untracked => true,
            FileStatus::TrackedFile(t) => t.index_status == StatusCode::Added || t.worktree_status
                == StatusCode::Added,
        }
    }

    /// Whether the file was changed on either side.
    pub fn is_modified(self) -> (r: bool)
        ensures
            r == self.says(StatusCode::Modified),
    {
        match self {
            FileStatus::Untracked => false,
            FileStatus::TrackedFile(t) => t.index_status == StatusCode::Modified || t.worktree_status
                == StatusCode::Modified,
        }
    }

    /// Whether the file was deleted on either side.
    pub fn is_deleted(self) -> (r: bool)
        ensures
            r == self.says(StatusCode::Deleted),
    {
        match self {
            FileStatus::Untracked => false,
            FileStatus::TrackedFile(t) => t.index_status == StatusCode::Deleted || t.worktree_status
                == StatusCode::Deleted,
        }
    }
}

/// The files that differ, each with its state.
#[derive(Debug)]
pub struct GitStatus {
    pub entries: Vec<(RepoPath, FileStatus)>,
}

impl View for FileStatus {
    type V = FileStatus;

    open spec fn view(&self) -> FileStatus {
        *self
    }
}

impl View for GitStatus {
    type V = Seq<(Seq<char>, FileStatus)>;

    open spec fn view(&self) -> Seq<(Seq<char>, FileStatus)> {
        text::views(self.entries@)
    }
}

} // verus!
