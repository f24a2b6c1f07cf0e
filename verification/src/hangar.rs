use vstd::prelude::*;
use vstd::string::StringExecFns;

use crate::error::Error;
use crate::plugin::{Checksum, Dependency, Info};
use crate::strutil;
use crate::strutil::lower_of;
use crate::version::{
    lemma_cmp_eq_iff, spec_chunks, spec_cmp_chunks, spec_kind, spec_vals, Cmp, VersionKind,
    VersionTag,
};

verus! {

/// The second catalog's decision rules. Its version records key their
/// downloads, dependencies and supported platform versions by loader
/// name; the lookups, the exact-version compatibility rule and the
/// descriptor assembly are decided here.

/// One downloadable artifact of a version.
pub struct HangarDownload {
    pub url: String,
    pub sha256: String,
}

/// One declared dependency of a version.
pub struct HangarDependency {
    pub project_id: String,
    pub name: String,
    pub required: bool,
}

/// A version record: downloads, plugin dependencies and supported
/// platform versions, each keyed by upper-case loader name.
pub struct HangarVersionInfo {
    pub downloads: Vec<(String, HangarDownload)>,
    pub dependencies: Vec<(String, Vec<HangarDependency>)>,
    pub platform_dependencies: Vec<(String, Vec<String>)>,
}

/// The first index of `keys` holding exactly `key`.
pub open spec fn spec_key_at<T>(v: Seq<(String, T)>, key: Seq<char>, i: int) -> bool {
    0 <= i < v.len() && v[i].0@ == key && (forall|j: int| 0 <= j < i ==> v[j].0@ != key)
}

/// The platform versions declared for a loader.
pub fn find_platform(entries: &Vec<(String, Vec<String>)>, key: &str) -> (r: Option<usize>)
    ensures
        match r {
            Some(i) => spec_key_at(entries@, key@, i as int),
            None => forall|j: int| 0 <= j < entries@.len() ==> entries@[j].0@ != key@,
        },
{
    let n = entries.len();
    let mut i: usize = 0;
    while i < n
        invariant
            n == entries@.len(),
            0 <= i <= n,
            forall|j: int| 0 <= j < i ==> entries@[j].0@ != key@,
        decreases n - i,
    {
        if strutil::string_eq_str(&entries[i].0, key) {
            return Some(i);
        }
        i += 1;
    }
    None
}

/// The download declared for a loader.
pub fn find_download(downloads: &Vec<(String, HangarDownload)>, key: &str) -> (r: Option<usize>)
    ensures
        match r {
            Some(i) => spec_key_at(downloads@, key@, i as int),
            None => forall|j: int| 0 <= j < downloads@.len() ==> downloads@[j].0@ != key@,
        },
{
    let n = downloads.len();
    let mut i: usize = 0;
    while i < n
        invariant
            n == downloads@.len(),
            0 <= i <= n,
            forall|j: int| 0 <= j < i ==> downloads@[j].0@ != key@,
        decreases n - i,
    {
        if strutil::string_eq_str(&downloads[i].0, key) {
            return Some(i);
        }
        i += 1;
    }
    None
}

/// The dependency list declared for a loader.
pub fn find_dependencies(deps: &Vec<(String, Vec<HangarDependency>)>, key: &str) -> (r: Option<
    usize,
>)
    ensures
        match r {
            Some(i) => spec_key_at(deps@, key@, i as int),
            None => forall|j: int| 0 <= j < deps@.len() ==> deps@[j].0@ != key@,
        },
{
    let n = deps.len();
    let mut i: usize = 0;
    while i < n
        invariant
            n == deps@.len(),
            0 <= i <= n,
            forall|j: int| 0 <= j < i ==> deps@[j].0@ != key@,
        decreases n - i,
    {
        if strutil::string_eq_str(&deps[i].0, key) {
            return Some(i);
        }
        i += 1;
    }
    None
}

/// Whether some declared platform version equals the configured runtime
/// version exactly: both parse as three-component versions with the same
/// components. Range containment is deliberately not considered.
pub fn version_compatible(platform_versions: &Vec<String>, minecraft_version: &str) -> (r: bool)
    requires
        spec_kind(minecraft_version@) == VersionKind::Ideal,
    ensures
        r == exists|i: int|
            0 <= i < platform_versions@.len() && spec_kind(#[trigger] platform_versions@[i]@)
                == VersionKind::Ideal && spec_chunks(platform_versions@[i]@) == spec_chunks(
                minecraft_version@,
            ),
{
    let mc = VersionTag::parse(minecraft_version);
    let n = platform_versions.len();
    let mut i: usize = 0;
    while i < n
        invariant
            mc.matches(minecraft_version@),
            n == platform_versions@.len(),
            0 <= i <= n,
            forall|j: int|
                0 <= j < i ==> !(spec_kind(#[trigger] platform_versions@[j]@)
                    == VersionKind::Ideal && spec_chunks(platform_versions@[j]@) == spec_chunks(
                    minecraft_version@,
                )),
        decreases n - i,
    {
        let t = VersionTag::parse(platform_versions[i].as_str());
        proof {
            lemma_cmp_eq_iff(spec_vals(t.chunks@), spec_vals(mc.chunks@));
        }
        if t.kind == VersionKind::Ideal && t.compare(&mc) == Cmp::Eq {
            return true;
        }
        i += 1;
    }
    false
}

/// The dependency reference a declared dependency turns into: this
/// catalog as the source and the display name folded to lowercase.
pub fn build_dependencies(list: &Vec<HangarDependency>) -> (r: Vec<Dependency>)
    ensures
        r@.len() == list@.len(),
        forall|k: int|
            0 <= k < r@.len() ==> r@[k]@.id == list@[k].project_id@ && r@[k]@.source == "hangar"@
                && r@[k]@.name == lower_of(list@[k].name@) && r@[k]@.required == list@[k].required,
{
    let n = list.len();
    let mut out: Vec<Dependency> = Vec::new();
    let mut k: usize = 0;
    while k < n
        invariant
            n == list@.len(),
            0 <= k <= n,
            out@.len() == k,
            forall|j: int|
                0 <= j < k ==> out@[j]@.id == list@[j].project_id@ && out@[j]@.source == "hangar"@
                    && out@[j]@.name == lower_of(list@[j].name@) && out@[j]@.required
                    == list@[j].required,
        decreases n - k,
    {
        let h = &list[k];
        out.push(
            Dependency {
                id: h.project_id.clone(),
                source: "hangar".to_owned(),
                name: strutil::to_lowercase(h.name.as_str()),
                required: h.required,
            },
        );
        k += 1;
    }
    out
}

/// The normalized artifact descriptor for a resolved project and version:
/// the project name serves as both display name and id on this catalog.
pub fn build_info(
    project: &str,
    version: &str,
    download: &HangarDownload,
    dependencies: Option<Vec<Dependency>>,
) -> (r: Info)
    ensures
        r@.name == project@,
        r@.id == project@,
        r@.version == version@,
        r@.source == "hangar"@,
        r@.download_url == download.url@,
        r@.checksum == Some(
            crate::plugin::ChecksumModel { method: "sha256"@, hash: download.sha256@ },
        ),
        r@.dependencies == (match dependencies {
            Some(ds) => Some(ds@.map_values(|d: Dependency| d@)),
            None => None::<Seq<crate::plugin::DepModel>>,
        }),
{
    Info {
        name: project.to_owned(),
        id: project.to_owned(),
        version: version.to_owned(),
        source: "hangar".to_owned(),
        download_url: download.url.clone(),
        dependencies,
        checksum: Some(
            Checksum { method: "sha256".to_owned(), hash: download.sha256.clone() },
        ),
    }
}

} // verus!
