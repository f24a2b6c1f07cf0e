use vstd::prelude::*;
use vstd::string::StringExecFns;

use crate::error::Error;
use crate::strutil;
use crate::version;

verus! {

/// The loader family whose metadata lists runtime versions oldest first
/// and builds newest first: `latest` selects the last runtime version and
/// the first build.

/// The newest runtime version: the last entry of the list.
pub fn latest_version(versions: &Vec<String>) -> (r: Result<String, Error>)
    ensures
        match r {
            Ok(v) => versions@.len() > 0 && v@ == versions@[versions@.len() - 1]@,
            Err(e) => e is NotFound && versions@.len() == 0,
        },
{
    let n = versions.len();
    if n == 0 {
        return Err(Error::NotFound);
    }
    Ok(versions[n - 1].clone())
}

/// The build the token selects from an ordered build list, newest first:
/// the first entry for `latest`, else the entry whose number equals the
/// parsed token. A token that is neither `latest` nor a number is
/// rejected outright.
pub fn get_build(builds: &Vec<(u64, String)>, token: &str) -> (r: Result<(u64, String), Error>)
    ensures
        match r {
            Ok(b) => (token@ == "latest"@ ==> builds@.len() > 0 && b.0 == builds@[0].0 && b.1@
                == builds@[0].1@) && (token@ != "latest"@ ==> b.0 == version::spec_chunk_val(
                token@,
            ) && (exists|i: int|
                0 <= i < builds@.len() && builds@[i].0 == b.0 && builds@[i].1@ == b.1@
                    && (forall|j: int| 0 <= j < i ==> builds@[j].0 != b.0))),
            Err(e) => (e is NotFound && token@ == "latest"@ && builds@.len() == 0) || (token@
                != "latest"@ && !version::spec_is_numeric(token@) && (match e {
                Error::InvalidVersion { reason } => reason@ == "invalid build number"@,
                _ => false,
            })) || (e is VersionNotFound && token@ != "latest"@ && version::spec_is_numeric(
                token@,
            ) && (forall|i: int|
                0 <= i < builds@.len() ==> builds@[i].0 != version::spec_chunk_val(token@))),
        },
{
    if strutil::str_eq(token, "latest") {
        if builds.len() == 0 {
            return Err(Error::NotFound);
        }
        return Ok((builds[0].0, builds[0].1.clone()));
    }
    let id = match version::parse_u64(token) {
        Some(v) => v,
        None => {
            return Err(Error::InvalidVersion { reason: "invalid build number".to_owned() });
        },
    };
    let n = builds.len();
    let mut i: usize = 0;
    while i < n
        invariant
            token@ != "latest"@,
            version::spec_is_numeric(token@),
            id == version::spec_chunk_val(token@),
            n == builds@.len(),
            0 <= i <= n,
            forall|j: int| 0 <= j < i ==> builds@[j].0 != id,
        decreases n - i,
    {
        if builds[i].0 == id {
            return Ok((builds[i].0, builds[i].1.clone()));
        }
        i += 1;
    }
    Err(Error::VersionNotFound)
}

/// The download URL for a resolved runtime version and build number.
pub fn build_url(minecraft: &str, build: u64) -> (r: String)
    ensures
        r@ == "https://api.papermc.io/v2/projects/paper/versions/"@ + minecraft@ + "/builds/"@
            + version::spec_dec_of(build as int) + "/downloads/paper-"@ + minecraft@ + "-"@
            + version::spec_dec_of(build as int) + ".jar"@,
{
    let b = version::dec_str(build);
    let mut url = String::new();
    url.append("https://api.papermc.io/v2/projects/paper/versions/");
    url.append(minecraft);
    url.append("/builds/");
    url.append(b.as_str());
    url.append("/downloads/paper-");
    url.append(minecraft);
    url.append("-");
    url.append(b.as_str());
    url.append(".jar");
    url
}

/// The local file name the server jarfile is written to.
pub fn jar_filename(minecraft: &str, build: u64) -> (r: String)
    ensures
        r@ == "paper-"@ + minecraft@ + "-"@ + version::spec_dec_of(build as int) + ".jar"@,
{
    let b = version::dec_str(build);
    let mut f = String::new();
    f.append("paper-");
    f.append(minecraft);
    f.append("-");
    f.append(b.as_str());
    f.append(".jar");
    f
}

} // verus!
