use vstd::prelude::*;

verus! {

/// Every way an operation of the engine can fail.
#[derive(Debug)]
pub enum VCSError {
    /// A file system read, write or listing failed.
    IOError(String),
    /// A stored snapshot record could not be read back.
    SerializationError(String),
    /// A condition that has no kind of its own.
    Other(String),
    /// The repository's control files are missing.
    Uninitialized,
    /// An entry's name cannot be represented as text.
    InvalidIdentity,
    /// The working tree does not differ from the current snapshot.
    NothingToCommit,
    /// The working tree differs from the current snapshot.
    UncommittedChanges,
    /// An entry of this name is a file on one side and a directory on the other.
    TypeChanged(String),
}

pub open spec fn error_text(e: VCSError) -> Seq<char> {
    match e {
        VCSError::IOError(m) => "IO Error: "@ + m@,
        VCSError::SerializationError(m) => "Serialization Error: "@ + m@,
        VCSError::Other(m) => m@,
        VCSError::Uninitialized => "VCS Uninitialized!: run rust-vcs init"@,
        VCSError::InvalidIdentity => "Invalid entry name: not representable as text"@,
        VCSError::NothingToCommit => "No changes to commit"@,
        VCSError::UncommittedChanges => "Uncommitted changes"@,
        VCSError::TypeChanged(m) => "Entry changed between file and directory: "@ + m@,
    }
}

impl VCSError {
    /// The human-readable message for this error.
    pub fn to_string(&self) -> (r: String)
        ensures
            r@ == error_text(*self),
    {
        match self {
            VCSError::IOError(m) => {
                let mut r = String::from_str("IO Error: ");
                r.append(m.as_str());
                r
            },
            VCSError::SerializationError(m) => {
                let mut r = String::from_str("Serialization Error: ");
                r.append(m.as_str());
                r
            },
            VCSError::Other(m) => m.clone(),
            VCSError::Uninitialized => String::from_str("VCS Uninitialized!: run rust-vcs init"),
            VCSError::InvalidIdentity => String::from_str(
                "Invalid entry name: not representable as text",
            ),
            VCSError::NothingToCommit => String::from_str("No changes to commit"),
            VCSError::UncommittedChanges => String::from_str("Uncommitted changes"),
            VCSError::TypeChanged(m) => {
                let mut r = String::from_str("Entry changed between file and directory: ");
                r.append(m.as_str());
                r
            },
        }
    }
}

} // verus!
