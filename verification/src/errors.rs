//! The launch engine's error taxonomy.
use vstd::prelude::*;
use vstd::string::StringExecFns;

verus! {

/// Why a launch step failed. Transport failures, bad statuses on required
/// resources and malformed payloads abort the enclosing step; a missing
/// relative path abandons one library; an installer's non-zero exit and an
/// unrecognizable installer package abort loader preparation; a version
/// absent from the catalog or no usable Java aborts before spawn.
#[derive(Debug, Clone, PartialEq)]
pub enum LaunchError {
    NetworkError(String),
    HttpStatusError(u16),
    ParseError(String),
    InstallerExecutionError(String),
    MissingArtifactPath(String),
    JavaNotFound,
    VersionNotFound(String),
    UnknownInstallerLayout,
}

/// The human-readable text of each error.
pub open spec fn error_message(e: LaunchError) -> Seq<char> {
    match e {
        LaunchError::NetworkError(d) => "network failure: "@ + d@,
        LaunchError::HttpStatusError(_) => "request failed with an error status"@,
        LaunchError::ParseError(d) => "malformed payload: "@ + d@,
        LaunchError::InstallerExecutionError(d) => "installer failed: "@ + d@,
        LaunchError::MissingArtifactPath(n) => "artifact missing path field: "@ + n@,
        LaunchError::JavaNotFound => "Java not found. Please install Java 17 or newer."@,
        LaunchError::VersionNotFound(v) => "version not found: "@ + v@,
        LaunchError::UnknownInstallerLayout => "unknown installer package layout"@,
    }
}

impl LaunchError {
    /// The message shown for this error.
    pub fn message(&self) -> (r: String)
        ensures
            r@ == error_message(*self),
    {
        match self {
            LaunchError::NetworkError(d) => {
                let mut s = String::from_str("network failure: ");
                s.append(d.as_str());
                s
            },
            LaunchError::HttpStatusError(_) => String::from_str(
                "request failed with an error status",
            ),
            LaunchError::ParseError(d) => {
                let mut s = String::from_str("malformed payload: ");
                s.append(d.as_str());
                s
            },
            LaunchError::InstallerExecutionError(d) => {
                let mut s = String::from_str("installer failed: ");
                s.append(d.as_str());
                s
            },
            LaunchError::MissingArtifactPath(n) => {
                let mut s = String::from_str("artifact missing path field: ");
                s.append(n.as_str());
                s
            },
            LaunchError::JavaNotFound => String::from_str(
                "Java not found. Please install Java 17 or newer.",
            ),
            LaunchError::VersionNotFound(v) => {
                let mut s = String::from_str("version not found: ");
                s.append(v.as_str());
                s
            },
            LaunchError::UnknownInstallerLayout => String::from_str(
                "unknown installer package layout",
            ),
        }
    }
}

} // verus!
