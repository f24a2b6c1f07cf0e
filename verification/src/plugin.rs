use vstd::prelude::*;
use vstd::string::{StrSliceExecFns, StringExecFns};

use crate::loader::{spec_mod_location, Loader};
use crate::strutil;
use crate::strutil::spec_contains_char;

verus! {

/// The operations on installed artifacts, as requested at the surface.
pub enum Plugin {
    /// Add an artifact and its dependencies.
    Add { id: String, provider: String, version: String, no_deps: bool },
    /// Remove an installed artifact.
    Remove { id: String, keep_jarfile: bool, remove_orphans: bool },
    /// Update installed artifacts.
    Update { id: String, version: String, no_deps: bool },
}

/// One installed artifact, as recorded in the lockfile.
pub struct Info {
    pub name: String,
    pub id: String,
    pub version: String,
    pub source: String,
    pub download_url: String,
    pub dependencies: Option<Vec<Dependency>>,
    pub checksum: Option<Checksum>,
}

/// The digest an artifact's download is checked against.
pub struct Checksum {
    pub method: String,
    pub hash: String,
}

/// A declared dependency of an artifact: a reference that is resolved
/// against the lockfile or a provider, never an owned record.
pub struct Dependency {
    pub id: String,
    pub source: String,
    pub name: String,
    pub required: bool,
}

/// The mathematical value of a dependency reference.
pub ghost struct DepModel {
    pub id: Seq<char>,
    pub source: Seq<char>,
    pub name: Seq<char>,
    pub required: bool,
}

impl View for Dependency {
    type V = DepModel;

    open spec fn view(&self) -> DepModel {
        DepModel { id: self.id@, source: self.source@, name: self.name@, required: self.required }
    }
}

/// The mathematical value of a checksum declaration.
pub ghost struct ChecksumModel {
    pub method: Seq<char>,
    pub hash: Seq<char>,
}

impl View for Checksum {
    type V = ChecksumModel;

    open spec fn view(&self) -> ChecksumModel {
        ChecksumModel { method: self.method@, hash: self.hash@ }
    }
}

/// The mathematical value of an installed-artifact record.
pub ghost struct InfoModel {
    pub name: Seq<char>,
    pub id: Seq<char>,
    pub version: Seq<char>,
    pub source: Seq<char>,
    pub download_url: Seq<char>,
    pub dependencies: Option<Seq<DepModel>>,
    pub checksum: Option<ChecksumModel>,
}

impl View for Info {
    type V = InfoModel;

    open spec fn view(&self) -> InfoModel {
        InfoModel {
            name: self.name@,
            id: self.id@,
            version: self.version@,
            source: self.source@,
            download_url: self.download_url@,
            dependencies: match self.dependencies {
                Some(v) => Some(v@.map_values(|d: Dependency| d@)),
                None => None,
            },
            checksum: match self.checksum {
                Some(c) => Some(c@),
                None => None,
            },
        }
    }
}

/// The declared dependencies of a record, empty when none were declared.
pub open spec fn spec_deps(m: InfoModel) -> Seq<DepModel> {
    match m.dependencies {
        Some(d) => d,
        None => Seq::empty(),
    }
}

/// Two dependency references name the same artifact: by provider id when
/// they come from the same provider, by display name otherwise.
pub open spec fn spec_dep_eq(a: DepModel, b: DepModel) -> bool {
    if a.source == b.source {
        a.id == b.id
    } else {
        a.name == b.name
    }
}

impl PartialEq for Dependency {
    fn eq(&self, other: &Self) -> (r: bool)
    {
        if strutil::string_eq(&self.source, &other.source) {
            strutil::string_eq(&self.id, &other.id)
        } else {
            strutil::string_eq(&self.name, &other.name)
        }
    }
}

impl vstd::std_specs::cmp::PartialEqSpecImpl for Dependency {
    open spec fn obeys_eq_spec() -> bool {
        true
    }

    open spec fn eq_spec(&self, other: &Self) -> bool {
        spec_dep_eq(self@, other@)
    }
}

impl Clone for Dependency {
    /// A clone keeps every field.
    fn clone(&self) -> (r: Self)
        ensures
            r@ == self@,
    {
        Dependency {
            id: self.id.clone(),
            source: self.source.clone(),
            name: self.name.clone(),
            required: self.required,
        }
    }
}

impl Clone for Checksum {
    /// A clone keeps both fields.
    fn clone(&self) -> (r: Self)
        ensures
            r@ == self@,
    {
        Checksum { method: self.method.clone(), hash: self.hash.clone() }
    }
}

/// An element-wise clone of a dependency list.
fn clone_deps(v: &Vec<Dependency>) -> (r: Vec<Dependency>)
    ensures
        r@.map_values(|d: Dependency| d@) == v@.map_values(|d: Dependency| d@),
{
    let mut out: Vec<Dependency> = Vec::new();
    let mut i: usize = 0;
    while i < v.len()
        invariant
            0 <= i <= v@.len(),
            out@.len() == i,
            forall|j: int| 0 <= j < i ==> out@[j]@ == v@[j]@,
        decreases v@.len() - i,
    {
        out.push(v[i].clone());
        i += 1;
    }
    proof {
        assert(out@.map_values(|d: Dependency| d@) =~= v@.map_values(|d: Dependency| d@));
    }
    out
}

impl Clone for Info {
    /// A clone keeps the whole record.
    fn clone(&self) -> (r: Self)
        ensures
            r@ == self@,
    {
        Info {
            name: self.name.clone(),
            id: self.id.clone(),
            version: self.version.clone(),
            source: self.source.clone(),
            download_url: self.download_url.clone(),
            dependencies: match &self.dependencies {
                Some(v) => Some(clone_deps(v)),
                None => None,
            },
            checksum: match &self.checksum {
                Some(c) => Some(c.clone()),
                None => None,
            },
        }
    }
}

/// The file name part of a download URL: everything after the last `/`.
pub open spec fn spec_url_filename(url: Seq<char>, slash: int) -> Seq<char> {
    url.subrange(slash + 1, url.len() as int)
}

impl Info {
    /// The path the artifact's file is written to: the loader's artifact
    /// directory, a `/`, and the file name taken from the download URL.
    pub fn get_file_path(&self, loader: &Loader) -> (r: String)
        requires
            spec_contains_char(self.download_url@, '/'),
        ensures
            exists|s: int|
                0 <= s < self.download_url@.len() && self.download_url@[s] == '/'
                && (forall|j: int| s < j < self.download_url@.len()
                    ==> self.download_url@[j] != '/')
                && r@ == spec_mod_location(loader.name@) + "/"@
                    + spec_url_filename(self.download_url@, s),
    {
        let url = self.download_url.as_str();
        let slash = match strutil::find_last_char(url, '/') {
            Some(i) => i,
            None => { proof { assert(false); } 0 },
        };
        let len = url.unicode_len();
        let filename = url.substring_char(slash + 1, len);
        let mut r = String::new();
        r.append(loader.mod_location());
        r.append("/");
        r.append(filename);
        r
    }
}

} // verus!
