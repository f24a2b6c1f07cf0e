use vstd::prelude::*;
use vstd::string::StringExecFns;

use crate::error::Error;
use crate::loader::Loader;
use crate::plugin::{Checksum, Dependency, Info};
use crate::strutil;
use crate::strutil::{lower_of, spec_ends_with};

verus! {

/// The first catalog's decision rules. The HTTP surface hands these
/// functions the deserialized project and version records as plain
/// values; every compatibility rule and the descriptor assembly are
/// decided here.

/// One version of a project, as the catalog describes it.
pub struct Version {
    pub id: String,
    pub project_id: String,
    pub dependencies: Vec<ModrinthDependency>,
    pub game_versions: Vec<String>,
    pub loaders: Vec<String>,
    pub files: Vec<ProjectFile>,
}

/// One declared dependency of a version.
pub struct ModrinthDependency {
    pub slug: String,
    pub project_id: String,
    pub dependency_type: String,
}

/// One downloadable file of a version.
pub struct ProjectFile {
    pub hashes: Hashes,
    pub url: String,
    pub filename: String,
}

/// The digests the catalog declares for a file.
pub struct Hashes {
    pub sha512: String,
}

/// A project, as the catalog describes it.
pub struct ProjectInfo {
    pub slug: String,
    pub server_side: String,
    pub id: String,
    pub loaders: Vec<String>,
    pub game_versions: Vec<String>,
    pub versions: Vec<String>,
}

/// Some string of `v` reads exactly `s`.
pub open spec fn spec_has_string(v: Seq<String>, s: Seq<char>) -> bool {
    exists|i: int| 0 <= i < v.len() && v[i]@ == s
}

/// The checks a project must pass before any version of it is resolved:
/// it must support servers, the configured loader, and the configured
/// runtime version, and a concrete requested version must be one of its
/// own. `Ok` exactly when all hold, and the first failed check names the
/// error.
pub fn validate_project(p: &ProjectInfo, loader: &Loader, version: &str) -> (r: Result<(), Error>)
    ensures
        match r {
            Ok(_) => p.server_side@ != "unsupported"@ && spec_has_string(
                p.loaders@,
                loader.name@,
            ) && spec_has_string(p.game_versions@, loader.minecraft_version@) && (version@
                != "latest"@ ==> spec_has_string(p.versions@, version@)),
            Err(e) => (e is IncompatiblePlatform && (p.server_side@ == "unsupported"@
                || !spec_has_string(p.loaders@, loader.name@))) || (e is IncompatibleVersion
                && !spec_has_string(p.game_versions@, loader.minecraft_version@)) || (e is NotFound
                && version@ != "latest"@ && !spec_has_string(p.versions@, version@)),
        },
{
    if strutil::string_eq_str(&p.server_side, "unsupported") {
        return Err(Error::IncompatiblePlatform);
    }
    if !strutil::vec_contains_str(&p.loaders, loader.name.as_str()) {
        return Err(Error::IncompatiblePlatform);
    }
    if !strutil::vec_contains_str(&p.game_versions, loader.minecraft_version.as_str()) {
        return Err(Error::IncompatibleVersion);
    }
    if !strutil::str_eq(version, "latest") && !strutil::vec_contains_str(&p.versions, version) {
        return Err(Error::NotFound);
    }
    Ok(())
}

/// Whether the catalog marked the project's server support unknown; such
/// a project is resolved anyway, with a warning at the surface.
pub fn server_side_unknown(p: &ProjectInfo) -> (r: bool)
    ensures
        r == (p.server_side@ == "unknown"@),
{
    strutil::string_eq_str(&p.server_side, "unknown")
}

/// The checks a concretely requested version must pass: it belongs to the
/// requested project and supports the configured runtime version and
/// loader.
pub fn validate_specific_version(v: &Version, p: &ProjectInfo, loader: &Loader) -> (r: Result<
    (),
    Error,
>)
    ensures
        match r {
            Ok(_) => v.project_id@ == p.id@ && spec_has_string(
                v.game_versions@,
                loader.minecraft_version@,
            ) && spec_has_string(v.loaders@, loader.name@),
            Err(e) => (e is NotFound && v.project_id@ != p.id@) || (e is IncompatibleVersion
                && !spec_has_string(v.game_versions@, loader.minecraft_version@)) || (e
                is IncompatiblePlatform && !spec_has_string(v.loaders@, loader.name@)),
        },
{
    if !strutil::string_eq(&v.project_id, &p.id) {
        return Err(Error::NotFound);
    }
    if !strutil::vec_contains_str(&v.game_versions, loader.minecraft_version.as_str()) {
        return Err(Error::IncompatibleVersion);
    }
    if !strutil::vec_contains_str(&v.loaders, loader.name.as_str()) {
        return Err(Error::IncompatiblePlatform);
    }
    Ok(())
}

/// The first listed version that supports both the configured runtime
/// version and the configured loader; `None` when none does.
pub fn find_compatible_version(versions: &Vec<Version>, loader: &Loader) -> (r: Option<usize>)
    ensures
        match r {
            Some(i) => i < versions@.len() && spec_has_string(
                versions@[i as int].game_versions@,
                loader.minecraft_version@,
            ) && spec_has_string(versions@[i as int].loaders@, loader.name@) && (forall|j: int|
                0 <= j < i ==> !(spec_has_string(
                    versions@[j].game_versions@,
                    loader.minecraft_version@,
                ) && spec_has_string(versions@[j].loaders@, loader.name@))),
            None => forall|j: int|
                0 <= j < versions@.len() ==> !(spec_has_string(
                    versions@[j].game_versions@,
                    loader.minecraft_version@,
                ) && spec_has_string(versions@[j].loaders@, loader.name@)),
        },
{
    let n = versions.len();
    let mut i: usize = 0;
    while i < n
        invariant
            n == versions@.len(),
            0 <= i <= n,
            forall|j: int|
                0 <= j < i ==> !(spec_has_string(
                    versions@[j].game_versions@,
                    loader.minecraft_version@,
                ) && spec_has_string(versions@[j].loaders@, loader.name@)),
        decreases n - i,
    {
        let v = &versions[i];
        if strutil::vec_contains_str(&v.game_versions, loader.minecraft_version.as_str())
            && strutil::vec_contains_str(&v.loaders, loader.name.as_str()) {
            return Some(i);
        }
        i += 1;
    }
    None
}

/// The first file whose name carries the expected archive extension.
pub fn select_jar_file(files: &Vec<ProjectFile>) -> (r: Option<usize>)
    ensures
        match r {
            Some(i) => i < files@.len() && spec_ends_with(files@[i as int].filename@, ".jar"@)
                && (forall|j: int|
                0 <= j < i ==> !spec_ends_with(files@[j].filename@, ".jar"@)),
            None => forall|j: int|
                0 <= j < files@.len() ==> !spec_ends_with(files@[j].filename@, ".jar"@),
        },
{
    let n = files.len();
    let mut i: usize = 0;
    while i < n
        invariant
            n == files@.len(),
            0 <= i <= n,
            forall|j: int| 0 <= j < i ==> !spec_ends_with(files@[j].filename@, ".jar"@),
        decreases n - i,
    {
        if strutil::str_ends_with(files[i].filename.as_str(), ".jar") {
            return Some(i);
        }
        i += 1;
    }
    None
}

/// The dependency references a resolved version declares, normalized: the
/// catalog's id, this catalog as the source, the display name folded to
/// lowercase, and the required flag read off the declared type. Rejected
/// when the version declares its own project as a dependency. The caller
/// looks each dependency's display name up and hands them in, one per
/// declared dependency.
pub fn resolve_dependencies(v: &Version, p: &ProjectInfo, slugs: &Vec<String>) -> (r: Result<
    Option<Vec<Dependency>>,
    Error,
>)
    requires
        slugs@.len() == v.dependencies@.len(),
    ensures
        match r {
            Ok(o) => (forall|k: int|
                0 <= k < v.dependencies@.len() ==> v.dependencies@[k].project_id@ != p.id@)
                && (match o {
                Some(ds) => v.dependencies@.len() > 0 && ds@.len() == v.dependencies@.len() && (
                forall|k: int|
                    0 <= k < ds@.len() ==> ds@[k]@.id == v.dependencies@[k].project_id@
                        && ds@[k]@.source == "modrinth"@ && ds@[k]@.name == lower_of(slugs@[k]@)
                        && ds@[k]@.required == (v.dependencies@[k].dependency_type@
                        == "required"@)),
                None => v.dependencies@.len() == 0,
            }),
            Err(e) => e is SelfDependency && (exists|k: int|
                0 <= k < v.dependencies@.len() && v.dependencies@[k].project_id@ == p.id@),
        },
{
    let n = v.dependencies.len();
    if n == 0 {
        return Ok(None);
    }
    let mut out: Vec<Dependency> = Vec::new();
    let mut k: usize = 0;
    while k < n
        invariant
            n == v.dependencies@.len(),
            n == slugs@.len(),
            n > 0,
            0 <= k <= n,
            out@.len() == k,
            forall|j: int| 0 <= j < k ==> v.dependencies@[j].project_id@ != p.id@,
            forall|j: int|
                0 <= j < k ==> out@[j]@.id == v.dependencies@[j].project_id@ && out@[j]@.source
                    == "modrinth"@ && out@[j]@.name == lower_of(slugs@[j]@) && out@[j]@.required
                    == (v.dependencies@[j].dependency_type@ == "required"@),
        decreases n - k,
    {
        let d = &v.dependencies[k];
        if strutil::string_eq(&d.project_id, &p.id) {
            return Err(Error::SelfDependency);
        }
        let dep = Dependency {
            id: d.project_id.clone(),
            source: "modrinth".to_owned(),
            name: strutil::to_lowercase(slugs[k].as_str()),
            required: strutil::string_eq_str(&d.dependency_type, "required"),
        };
        out.push(dep);
        k += 1;
    }
    Ok(Some(out))
}

/// The normalized artifact descriptor for a resolved project, version and
/// selected file.
pub fn build_info(
    p: &ProjectInfo,
    v: &Version,
    file: &ProjectFile,
    dependencies: Option<Vec<Dependency>>,
) -> (r: Info)
    ensures
        r@.name == p.slug@,
        r@.id == p.id@,
        r@.version == v.id@,
        r@.source == "modrinth"@,
        r@.download_url == file.url@,
        r@.checksum == Some(
            crate::plugin::ChecksumModel { method: "sha512"@, hash: file.hashes.sha512@ },
        ),
        r@.dependencies == (match dependencies {
            Some(ds) => Some(ds@.map_values(|d: Dependency| d@)),
            None => None::<Seq<crate::plugin::DepModel>>,
        }),
{
    Info {
        name: p.slug.clone(),
        id: p.id.clone(),
        version: v.id.clone(),
        source: "modrinth".to_owned(),
        download_url: file.url.clone(),
        dependencies,
        checksum: Some(Checksum { method: "sha512".to_owned(), hash: file.hashes.sha512.clone() }),
    }
}

} // verus!
