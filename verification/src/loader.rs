use vstd::prelude::*;
use vstd::string::StringExecFns;

use crate::error::Error;
use crate::strutil;

verus! {

/// The configured server runtime: a family name, the targeted runtime
/// version, the loader build token and whether snapshot builds are allowed.
///
/// `name` is `"none"` until a server is initialized.
pub struct Loader {
    pub name: String,
    pub minecraft_version: String,
    pub version: String,
    pub snapshot: bool,
}

/// The mathematical value of a loader configuration.
pub ghost struct LoaderModel {
    pub name: Seq<char>,
    pub minecraft_version: Seq<char>,
    pub version: Seq<char>,
    pub snapshot: bool,
}

impl View for Loader {
    type V = LoaderModel;

    open spec fn view(&self) -> LoaderModel {
        LoaderModel {
            name: self.name@,
            minecraft_version: self.minecraft_version@,
            version: self.version@,
            snapshot: self.snapshot,
        }
    }
}

/// The family names that `parse_name` accepts.
pub open spec fn spec_valid_loader_name(s: Seq<char>) -> bool {
    s == "paper"@ || s == "fabric"@ || s == "forge"@ || s == "neoforge"@
}

/// Where a family keeps its installed artifacts.
pub open spec fn spec_mod_location(name: Seq<char>) -> Seq<char> {
    if name == "paper"@ {
        "plugins"@
    } else {
        "mods"@
    }
}

impl Clone for Loader {
    /// A clone keeps every field.
    fn clone(&self) -> (r: Self)
        ensures
            r@ == self@,
    {
        Loader {
            name: self.name.clone(),
            minecraft_version: self.minecraft_version.clone(),
            version: self.version.clone(),
            snapshot: self.snapshot,
        }
    }
}

impl Default for Loader {
    /// The configuration of a server that was never initialized.
    fn default() -> (r: Self)
        ensures
            r.name@ == "none"@,
            r.minecraft_version@ == "latest"@,
            r.version@ == "latest"@,
            r.snapshot == false,
    {
        Loader {
            name: "none".to_owned(),
            minecraft_version: "latest".to_owned(),
            version: "latest".to_owned(),
            snapshot: false,
        }
    }
}

impl Loader {
    /// A configuration built from the given tokens, kept verbatim.
    pub fn new(loader: &str, minecraft_version: &str, version: &str, snapshot: bool) -> (r: Self)
        ensures
            r.name@ == loader@,
            r.minecraft_version@ == minecraft_version@,
            r.version@ == version@,
            r.snapshot == snapshot,
    {
        Loader {
            name: loader.to_owned(),
            minecraft_version: minecraft_version.to_owned(),
            version: version.to_owned(),
            snapshot,
        }
    }

    /// The directory artifacts of this family are installed into.
    pub fn mod_location(&self) -> (r: &'static str)
        ensures
            r@ == spec_mod_location(self.name@),
    {
        if strutil::string_eq_str(&self.name, "paper") {
            "plugins"
        } else {
            "mods"
        }
    }

    /// Accepts exactly the supported family names and hands the name back.
    pub fn parse_name(input: &str) -> (r: Result<String, Error>)
        ensures
            match r {
                Ok(s) => spec_valid_loader_name(input@) && s@ == input@,
                Err(e) => !spec_valid_loader_name(input@) && e is UnknownLoader,
            },
    {
        if strutil::str_eq(input, "paper") || strutil::str_eq(input, "fabric")
            || strutil::str_eq(input, "forge") || strutil::str_eq(input, "neoforge") {
            Ok(input.to_owned())
        } else {
            Err(Error::UnknownLoader)
        }
    }
}

} // verus!
