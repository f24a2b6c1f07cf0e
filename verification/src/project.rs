use vstd::prelude::*;

use crate::error::Error;
use crate::lockfile::{spec_initialized, Lockfile};

verus! {

/// Direct project operations, as requested at the surface.
pub enum Project {
    /// Add a mod or plugin.
    Add { id: String, version_id: Option<String> },
    /// Remove a mod or plugin.
    Remove { slug: String, keep_jarfile: bool },
}

/// The project an operation is about.
pub open spec fn spec_target(p: Project) -> Seq<char> {
    match p {
        Project::Add { id, .. } => id@,
        Project::Remove { slug, .. } => slug@,
    }
}

/// Every project operation starts with this admission test: the server
/// must be initialized before projects are modified. Admitted operations
/// hand back the project they name.
pub fn action<'a>(lf: &Lockfile, project: &'a Project) -> (r: Result<&'a String, Error>)
    ensures
        match r {
            Ok(t) => spec_initialized(lf@) && t@ == spec_target(*project),
            Err(e) => e is NotInitialized && !spec_initialized(lf@),
        },
{
    if !lf.is_initialized() {
        return Err(Error::NotInitialized);
    }
    match project {
        Project::Add { id, .. } => Ok(id),
        Project::Remove { slug, .. } => Ok(slug),
    }
}

} // verus!
