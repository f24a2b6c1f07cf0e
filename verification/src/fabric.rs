use vstd::prelude::*;
use vstd::string::StringExecFns;

use crate::error::Error;
use crate::strutil;

verus! {

/// The loader family with a simple metadata API: ordered version lists,
/// newest first. Selection picks the newest entry for the `latest`
/// sentinel and the exact entry otherwise.

/// The version the token selects from an ordered list, newest first:
/// the first entry for `latest`, else the entry equal to the token.
pub fn select_version(versions: &Vec<String>, token: &str) -> (r: Result<String, Error>)
    ensures
        match r {
            Ok(v) => (token@ == "latest"@ ==> versions@.len() > 0 && v@ == versions@[0]@)
                && (token@ != "latest"@ ==> v@ == token@ && (exists|i: int|
                0 <= i < versions@.len() && versions@[i]@ == token@)),
            Err(e) => (e is NotFound && token@ == "latest"@ && versions@.len() == 0) || (e
                is VersionNotFound && token@ != "latest"@ && (forall|i: int|
                0 <= i < versions@.len() ==> versions@[i]@ != token@)),
        },
{
    if strutil::str_eq(token, "latest") {
        if versions.len() == 0 {
            return Err(Error::NotFound);
        }
        return Ok(versions[0].clone());
    }
    let n = versions.len();
    let mut i: usize = 0;
    while i < n
        invariant
            token@ != "latest"@,
            n == versions@.len(),
            0 <= i <= n,
            forall|j: int| 0 <= j < i ==> versions@[j]@ != token@,
        decreases n - i,
    {
        if strutil::string_eq_str(&versions[i], token) {
            return Ok(versions[i].clone());
        }
        i += 1;
    }
    Err(Error::VersionNotFound)
}

/// The server jarfile URL for resolved game, loader and installer
/// versions.
pub fn server_jar_url(game: &str, loader: &str, installer: &str) -> (r: String)
    ensures
        r@ == "https://meta.fabricmc.net/v2/versions/loader/"@ + game@ + "/"@ + loader@ + "/"@
            + installer@ + "/server/jar"@,
{
    let mut url = String::new();
    url.append("https://meta.fabricmc.net/v2/versions/loader/");
    url.append(game);
    url.append("/");
    url.append(loader);
    url.append("/");
    url.append(installer);
    url.append("/server/jar");
    url
}

/// The local file name the server jarfile is written to.
pub fn jar_filename(game: &str, loader: &str) -> (r: String)
    ensures
        r@ == "fabric-"@ + game@ + "-"@ + loader@ + ".jar"@,
{
    let mut f = String::new();
    f.append("fabric-");
    f.append(game);
    f.append("-");
    f.append(loader);
    f.append(".jar");
    f
}

} // verus!
