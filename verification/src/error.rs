use vstd::prelude::*;
use vstd::string::StringExecFns;

verus! {

/// The failure modes of every operation in this crate.
///
/// `ChecksumMismatch` carries both the expected and the computed digest so
/// that a caller can report the disagreement; `InvalidVersion` carries the
/// reason a version token was rejected, including which loader family to
/// use instead when a cutoff was missed.
#[derive(Debug)]
pub enum Error {
    /// The lockfile has no usable loader configuration yet.
    NotInitialized,
    /// An artifact with the same identity is already recorded.
    AlreadyInstalled,
    /// A project, version or build does not exist.
    NotFound,
    /// The artifact does not support the configured loader or platform.
    IncompatiblePlatform,
    /// The artifact does not support the configured runtime version.
    IncompatibleVersion,
    /// An artifact declares itself as its own dependency.
    SelfDependency,
    /// A runtime or loader version token does not parse, or is out of
    /// range; the reason says which, and what to do instead.
    InvalidVersion { reason: String },
    /// A downloaded artifact's digest disagrees with the declared one.
    ChecksumMismatch { expected: String, actual: String },
    /// No loader build matches the requested token.
    VersionNotFound,
    /// An artifact reappeared in its own dependency chain.
    CyclicDependency,
    /// A loader family name is not one of the supported set.
    UnknownLoader,
}

/// The exact text `message` renders each failure as.
pub open spec fn spec_message(e: Error) -> Seq<char> {
    match e {
        Error::NotInitialized => "server must be initialized before working with projects"@,
        Error::AlreadyInstalled => "project is already installed"@,
        Error::NotFound => "project, version or build not found"@,
        Error::IncompatiblePlatform => "project does not support the configured loader"@,
        Error::IncompatibleVersion => "project does not support the configured runtime version"@,
        Error::SelfDependency => "project depends on itself"@,
        Error::InvalidVersion { reason } => reason@,
        Error::ChecksumMismatch { expected, actual } => "hashes do not match, expected "@
            + expected@ + " but got "@ + actual@,
        Error::VersionNotFound => "loader build not found"@,
        Error::CyclicDependency => "dependency cycle detected"@,
        Error::UnknownLoader => "try one of paper, fabric, forge, neoforge"@,
    }
}

impl Error {
    /// A human-readable description of the failure.
    pub fn message(&self) -> (r: String)
        ensures
            r@ == spec_message(*self),
    {
        match self {
            Error::NotInitialized => "server must be initialized before working with projects"
                .to_owned(),
            Error::AlreadyInstalled => "project is already installed".to_owned(),
            Error::NotFound => "project, version or build not found".to_owned(),
            Error::IncompatiblePlatform => "project does not support the configured loader"
                .to_owned(),
            Error::IncompatibleVersion => "project does not support the configured runtime version"
                .to_owned(),
            Error::SelfDependency => "project depends on itself".to_owned(),
            Error::InvalidVersion { reason } => reason.clone(),
            Error::ChecksumMismatch { expected, actual } => {
                let mut m = String::new();
                m.append("hashes do not match, expected ");
                m.append(expected.as_str());
                m.append(" but got ");
                m.append(actual.as_str());
                proof {
                    assert(m@ =~= "hashes do not match, expected "@ + expected@ + " but got "@
                        + actual@);
                }
                m
            },
            Error::VersionNotFound => "loader build not found".to_owned(),
            Error::CyclicDependency => "dependency cycle detected".to_owned(),
            Error::UnknownLoader => "try one of paper, fabric, forge, neoforge".to_owned(),
        }
    }
}

} // verus!
