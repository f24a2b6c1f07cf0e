use vstd::prelude::*;
use vstd::string::StringExecFns;

use crate::error::Error;
use crate::strutil;

verus! {

/// The plain server runtime: versions come from a manifest that names the
/// latest release and the latest snapshot and lists every version with
/// its type and metadata URL.

/// One version of the runtime, as the manifest describes it.
pub struct VanillaVersion {
    pub id: String,
    pub version_type: String,
    pub url: String,
}

/// The version id the request targets: the latest snapshot or release for
/// the `latest` sentinel, else the token itself.
pub open spec fn spec_target_id(
    mc: Seq<char>,
    snapshot: bool,
    latest_release: Seq<char>,
    latest_snapshot: Seq<char>,
) -> Seq<char> {
    if mc == "latest"@ {
        if snapshot {
            latest_snapshot
        } else {
            latest_release
        }
    } else {
        mc
    }
}

/// The first manifest entry whose id equals the targeted version id.
pub fn select_version(
    latest_release: &str,
    latest_snapshot: &str,
    versions: &Vec<VanillaVersion>,
    minecraft_version: &str,
    snapshot: bool,
) -> (r: Result<usize, Error>)
    ensures
        ({
            let target = spec_target_id(
                minecraft_version@,
                snapshot,
                latest_release@,
                latest_snapshot@,
            );
            match r {
                Ok(i) => i < versions@.len() && versions@[i as int].id@ == target && (forall|
                    j: int,
                |
                    0 <= j < i ==> versions@[j].id@ != target),
                Err(e) => e is NotFound && (forall|j: int|
                    0 <= j < versions@.len() ==> versions@[j].id@ != target),
            }
        }),
{
    let target: String = if strutil::str_eq(minecraft_version, "latest") {
        if snapshot {
            latest_snapshot.to_owned()
        } else {
            latest_release.to_owned()
        }
    } else {
        minecraft_version.to_owned()
    };
    let n = versions.len();
    let mut i: usize = 0;
    while i < n
        invariant
            n == versions@.len(),
            target@ == spec_target_id(
                minecraft_version@,
                snapshot,
                latest_release@,
                latest_snapshot@,
            ),
            0 <= i <= n,
            forall|j: int| 0 <= j < i ==> versions@[j].id@ != target@,
        decreases n - i,
    {
        if strutil::string_eq(&versions[i].id, &target) {
            return Ok(i);
        }
        i += 1;
    }
    Err(Error::NotFound)
}

/// A snapshot version may only be installed when the snapshot flag was
/// given.
pub fn check_snapshot(version_type: &str, snapshot: bool) -> (r: Result<(), Error>)
    ensures
        match r {
            Ok(_) => !(version_type@ == "snapshot"@ && !snapshot),
            Err(e) => e is IncompatibleVersion && version_type@ == "snapshot"@ && !snapshot,
        },
{
    if strutil::str_eq(version_type, "snapshot") && !snapshot {
        return Err(Error::IncompatibleVersion);
    }
    Ok(())
}

/// The local file name the server jarfile is written to.
pub fn jar_filename(id: &str) -> (r: String)
    ensures
        r@ == "vanilla-"@ + id@ + "-server.jar"@,
{
    let mut f = String::new();
    f.append("vanilla-");
    f.append(id);
    f.append("-server.jar");
    f
}

} // verus!
