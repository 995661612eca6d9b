use vstd::prelude::*;

verus! {

/// Why an operation on the workspaces was refused. Each carries the name or
/// the path that it was refused for.
#[derive(Debug, Clone, PartialEq, Eq)]
pub enum WorkspaceError {
    /// The name is not one literal path segment. `label` says what was named.
    InvalidName { label: String, name: String },
    /// Something stands already where the workspace was to be made.
    AlreadyExists { path: String },
    /// No such workspace, or no such entry in it.
    NotFound { name: String },
    /// The entry is there but is no symbolic link.
    NotASymlink { name: String },
    /// The file system could not do what was asked of it.
    IOFailure { path: String },
}

/// A `WorkspaceError` as contracts see it.
pub enum Failure {
    InvalidName { label: Seq<char>, name: Seq<char> },
    AlreadyExists { path: Seq<char> },
    NotFound { name: Seq<char> },
    NotASymlink { name: Seq<char> },
    IOFailure { path: Seq<char> },
}

impl View for WorkspaceError {
    type V = Failure;

    open spec fn view(&self) -> Failure {
        match self {
            WorkspaceError::InvalidName { label, name } => Failure::InvalidName {
                label: label@,
                name: name@,
            },
            WorkspaceError::AlreadyExists { path } => Failure::AlreadyExists { path: path@ },
            WorkspaceError::NotFound { name } => Failure::NotFound { name: name@ },
            WorkspaceError::NotASymlink { name } => Failure::NotASymlink { name: name@ },
            WorkspaceError::IOFailure { path } => Failure::IOFailure { path: path@ },
        }
    }
}

/// The outcome of an operation that hands nothing back, as contracts see it.
pub open spec fn outcome(r: Result<(), WorkspaceError>) -> Result<(), Failure> {
    match r {
        Ok(_) => Ok(()),
        Err(e) => Err(e@),
    }
}

} // verus!
