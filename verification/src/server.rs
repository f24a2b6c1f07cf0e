use vstd::prelude::*;
use vstd::string::StringExecFns;

use crate::error::Error;
use crate::lockfile::{spec_initialized, Lockfile};
use crate::plugin::{Info, InfoModel};
use crate::version::spec_valid_version;

verus! {

/// Server-level operations, as requested at the surface.
pub enum Server {
    /// Initialize a server in the current directory.
    Init { minecraft_version: String, loader: String, no_sign: bool },
    /// Sign the eula file.
    Sign,
    /// Install everything the lockfile records.
    Install,
}

/// The fresh lockfile a server initialization produces: rejected when the
/// runtime version token does not name a concrete version, or when the
/// configuration would not count as initialized.
pub fn init(minecraft_version: &str, loader: &str) -> (r: Result<Lockfile, Error>)
    ensures
        match r {
            Ok(lf) => spec_valid_version(minecraft_version@) && loader@ != "none"@
                && spec_initialized(lf@) && lf@.loader.name == loader@
                && lf@.loader.minecraft_version == minecraft_version@ && lf@.mods
                == Seq::<InfoModel>::empty(),
            Err(e) => (!spec_valid_version(minecraft_version@) && (match e {
                Error::InvalidVersion { reason } => reason@ == "invalid minecraft version "@
                    + minecraft_version@,
                _ => false,
            })) || (e is NotInitialized && spec_valid_version(minecraft_version@) && loader@
                == "none"@),
        },
{
    let lf = Lockfile::with_params(minecraft_version, loader)?;
    if !lf.is_initialized() {
        return Err(Error::NotInitialized);
    }
    Ok(lf)
}

/// The artifacts an `install` run downloads again: every record of an
/// initialized lockfile, in order.
pub fn install(lf: &Lockfile) -> (r: Result<Vec<Info>, Error>)
    ensures
        match r {
            Ok(v) => spec_initialized(lf@) && v@.map_values(|m: Info| m@) == lf@.mods,
            Err(e) => e is NotInitialized && !spec_initialized(lf@),
        },
{
    if !lf.is_initialized() {
        return Err(Error::NotInitialized);
    }
    let n = lf.mods.len();
    let mut out: Vec<Info> = Vec::new();
    let mut i: usize = 0;
    while i < n
        invariant
            n == lf.mods@.len(),
            n == lf@.mods.len(),
            0 <= i <= n,
            out@.map_values(|m: Info| m@) =~= lf@.mods.take(i as int),
        decreases n - i,
    {
        let ghost before = out@.map_values(|m: Info| m@);
        out.push(lf.mods[i].clone());
        proof {
            assert(lf@.mods[i as int] == lf.mods@[i as int]@);
            assert(out@.map_values(|m: Info| m@) =~= before.push(lf@.mods[i as int]));
            assert(lf@.mods.take(i + 1).drop_last() =~= lf@.mods.take(i as int));
        }
        i += 1;
    }
    proof {
        assert(lf@.mods.take(n as int) =~= lf@.mods);
    }
    Ok(out)
}

/// What the eula file is signed with.
pub fn eula_contents() -> (r: &'static str)
    ensures
        r@ == "# Signed by mup\neula=true"@,
{
    "# Signed by mup\neula=true"
}

} // verus!
