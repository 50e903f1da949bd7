//! The error taxonomy of the library. Every failing operation reports one of
//! these variants; the surrounding command-line layer is the only place that
//! turns a variant into a process exit, using `exit_code`.

use vstd::prelude::*;
use vstd::string::StringExecFns;

verus! {

/// A failure of a library operation.
///
/// The first three variants are invalid-configuration findings; the middle
/// three describe file-system failures (reported by the caller that performs
/// the I/O); `Decode` is malformed stored data; `TaskIndexNotFound` is an
/// operation addressed at a task identifier that is not live.
#[derive(Clone, Copy, Debug, PartialEq, Eq, Structural)]
pub enum TodoError {
    RelativeDataPath,
    DataPathIsDirectory,
    DataPathParentMissing,
    NotFoundOnDisk,
    PermissionDenied,
    Io,
    Decode,
    TaskIndexNotFound,
}

impl TodoError {
    /// Whether this error is an invalid-configuration finding.
    pub open spec fn is_config_error(self) -> bool {
        match self {
            TodoError::RelativeDataPath => true,
            TodoError::DataPathIsDirectory => true,
            TodoError::DataPathParentMissing => true,
            _ => false,
        }
    }

    /// The process exit status that this error maps to: the conventional
    /// `sysexits` codes for configuration (78), I/O (74) and data (65)
    /// failures, and the generic failure status 1 for a missing task index.
    pub open spec fn spec_exit_code(self) -> i32 {
        match self {
            TodoError::RelativeDataPath => 78,
            TodoError::DataPathIsDirectory => 78,
            TodoError::DataPathParentMissing => 78,
            TodoError::NotFoundOnDisk => 74,
            TodoError::PermissionDenied => 74,
            TodoError::Io => 74,
            TodoError::Decode => 65,
            TodoError::TaskIndexNotFound => 1,
        }
    }

    /// The one-line description of this error.
    pub open spec fn spec_label(self) -> Seq<char> {
        match self {
            TodoError::RelativeDataPath => "Data path cannot be relative."@,
            TodoError::DataPathIsDirectory => "Data path cannot be a directory."@,
            TodoError::DataPathParentMissing => "Data path has no valid parent directory."@,
            TodoError::NotFoundOnDisk => "File not found."@,
            TodoError::PermissionDenied => "Permission denied."@,
            TodoError::Io => "Input/output error."@,
            TodoError::Decode => "Malformed data."@,
            TodoError::TaskIndexNotFound => "Not found."@,
        }
    }

    /// See `spec_exit_code`.
    pub fn exit_code(&self) -> (r: i32)
        ensures
            r == self.spec_exit_code(),
    {
        match self {
            TodoError::RelativeDataPath => 78,
            TodoError::DataPathIsDirectory => 78,
            TodoError::DataPathParentMissing => 78,
            TodoError::NotFoundOnDisk => 74,
            TodoError::PermissionDenied => 74,
            TodoError::Io => 74,
            TodoError::Decode => 65,
            TodoError::TaskIndexNotFound => 1,
        }
    }

    /// See `spec_label`.
    pub fn label(&self) -> (r: String)
        ensures
            r@ == self.spec_label(),
    {
        match self {
            TodoError::RelativeDataPath => String::from_str("Data path cannot be relative."),
            TodoError::DataPathIsDirectory => String::from_str("Data path cannot be a directory."),
            TodoError::DataPathParentMissing => String::from_str(
                "Data path has no valid parent directory.",
            ),
            TodoError::NotFoundOnDisk => String::from_str("File not found."),
            TodoError::PermissionDenied => String::from_str("Permission denied."),
            TodoError::Io => String::from_str("Input/output error."),
            TodoError::Decode => String::from_str("Malformed data."),
            TodoError::TaskIndexNotFound => String::from_str("Not found."),
        }
    }
}

} // verus!
