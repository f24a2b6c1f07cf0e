use vstd::prelude::*;
use vstd::string::StringExecFns;

use crate::error::Error;
use crate::version::{
    dec_str, lemma_kind_chunks, spec_chunks, spec_cmp_chunks, spec_dec_of, spec_kind, Cmp,
    VersionKind, VersionTag,
};

verus! {

/// The loader family that wants an explicit three-component runtime
/// version: the `latest` sentinel is rejected outright as ambiguous, and
/// versions below the interoperability cutoff belong to the older family.

/// Runtime versions strictly below this one are served by the older
/// family.
pub open spec fn spec_neoforge_cutoff() -> Seq<int> {
    seq![1, 20, 2]
}

/// Why this family rejects a runtime version token.
pub open spec fn spec_reject_reason(mc: Seq<char>) -> Seq<char> {
    if mc == "latest"@ {
        "a concrete minecraft version is required"@
    } else if spec_kind(mc) != VersionKind::Ideal {
        "invalid minecraft version"@
    } else {
        "use forge for minecraft versions before 1.20.2"@
    }
}

/// The `minor.patch` filter the metadata endpoint takes for the targeted
/// runtime version. The `latest` sentinel is ambiguous without a runtime
/// version and is rejected outright; a token that is not a
/// three-component version is rejected; one below the cutoff is rejected
/// with the advice to use the older family instead.
pub fn filter_suffix(minecraft_version: &str) -> (r: Result<String, Error>)
    ensures
        match r {
            Ok(f) => minecraft_version@ != "latest"@ && spec_kind(minecraft_version@)
                == VersionKind::Ideal && spec_cmp_chunks(
                spec_chunks(minecraft_version@),
                spec_neoforge_cutoff(),
            ) != Cmp::Lt && f@ == spec_dec_of(spec_chunks(minecraft_version@)[1]) + "."@
                + spec_dec_of(spec_chunks(minecraft_version@)[2]),
            Err(e) => (minecraft_version@ == "latest"@ || spec_kind(minecraft_version@)
                != VersionKind::Ideal || spec_cmp_chunks(
                spec_chunks(minecraft_version@),
                spec_neoforge_cutoff(),
            ) == Cmp::Lt) && (match e {
                Error::InvalidVersion { reason } => reason@ == spec_reject_reason(
                    minecraft_version@,
                ),
                _ => false,
            }),
        },
{
    if crate::strutil::str_eq(minecraft_version, "latest") {
        return Err(
            Error::InvalidVersion {
                reason: "a concrete minecraft version is required".to_owned(),
            },
        );
    }
    let tag = VersionTag::parse(minecraft_version);
    if !(tag.kind == VersionKind::Ideal) {
        return Err(Error::InvalidVersion { reason: "invalid minecraft version".to_owned() });
    }
    proof {
        lemma_kind_chunks(minecraft_version@);
    }
    let mut cutoff_chunks: Vec<u64> = Vec::new();
    cutoff_chunks.push(1);
    cutoff_chunks.push(20);
    cutoff_chunks.push(2);
    let cutoff = VersionTag { kind: VersionKind::Ideal, chunks: cutoff_chunks };
    proof {
        assert(crate::version::spec_vals(cutoff.chunks@) =~= spec_neoforge_cutoff());
    }
    if tag.compare(&cutoff) == Cmp::Lt {
        return Err(
            Error::InvalidVersion {
                reason: "use forge for minecraft versions before 1.20.2".to_owned(),
            },
        );
    }
    let minor = dec_str(tag.chunks[1]);
    let patch = dec_str(tag.chunks[2]);
    let mut f = String::new();
    f.append(minor.as_str());
    f.append(".");
    f.append(patch.as_str());
    Ok(f)
}

/// The installer download URL for a resolved installer version.
pub fn installer_url(installer: &str) -> (r: String)
    ensures
        r@ == "https://maven.neoforged.net/releases/net/neoforged/neoforge/"@ + installer@
            + "/neoforge-"@ + installer@ + "-installer.jar"@,
{
    let mut url = String::new();
    url.append("https://maven.neoforged.net/releases/net/neoforged/neoforge/");
    url.append(installer);
    url.append("/neoforge-");
    url.append(installer);
    url.append("-installer.jar");
    url
}

/// The local file name the installer is written to.
pub fn jar_filename(minecraft: &str, installer: &str) -> (r: String)
    ensures
        r@ == "neoforge-"@ + minecraft@ + "-"@ + installer@ + ".jar"@,
{
    let mut f = String::new();
    f.append("neoforge-");
    f.append(minecraft);
    f.append("-");
    f.append(installer);
    f.append(".jar");
    f
}

} // verus!
