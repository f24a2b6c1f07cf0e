use vstd::prelude::*;
use vstd::string::StringExecFns;

use crate::error::Error;
use crate::strutil;
use crate::version::{
    lemma_kind_chunks, spec_chunks, spec_cmp_chunks, spec_kind, spec_vals, Cmp, VersionKind,
    VersionTag,
};

verus! {

/// The loader family with the irregular historical naming scheme.
///
/// Installer jarfiles only exist between two runtime-version cutoffs, and
/// the maven path tag between them follows empirically-discovered format
/// changes that this module reproduces exactly. Tags are built from the
/// version tokens verbatim.

/// No installer jarfile was ever published before this runtime version.
pub open spec fn spec_lower_cutoff() -> Seq<int> {
    seq![1, 5, 2]
}

/// Runtime versions after this one belong to the successor project.
pub open spec fn spec_upper_cutoff() -> Seq<int> {
    seq![1, 20, 1]
}

/// Builds at or past this one use the `-{runtime}.0` suffix on two-part
/// runtime versions 1.9 and 1.10.
pub open spec fn spec_triple_cutoff() -> Seq<int> {
    seq![12, 16, 1, 1938]
}

/// Builds at or before this one use the repeated `-{runtime}` suffix on
/// the two-part runtime version 1.9.
pub open spec fn spec_double_cutoff() -> Seq<int> {
    seq![12, 16, 0, 1885]
}

/// The runtime version is below the lower cutoff.
pub open spec fn spec_below_lower(mc: Seq<char>) -> bool {
    spec_cmp_chunks(spec_chunks(mc), spec_lower_cutoff()) == Cmp::Lt
}

/// The runtime version is above the upper cutoff.
pub open spec fn spec_above_upper(mc: Seq<char>) -> bool {
    spec_cmp_chunks(spec_chunks(mc), spec_upper_cutoff()) == Cmp::Gt
}

/// The maven path tag for a runtime version between the cutoffs and an
/// installer build label, by case analysis on the runtime version's shape.
pub open spec fn spec_version_tag(mc: Seq<char>, installer: Seq<char>) -> Seq<char> {
    if spec_kind(mc) == VersionKind::Ideal {
        let minor = spec_chunks(mc)[1];
        let patch = spec_chunks(mc)[2];
        if !(7 <= minor < 10) {
            mc + "-"@ + installer
        } else if minor == 7 && patch == 2 {
            "1.7.2-"@ + installer + "-mc172"@
        } else {
            mc + "-"@ + installer + "-"@ + mc
        }
    } else if spec_kind(mc) == VersionKind::General {
        let minor = spec_chunks(mc)[1];
        let icmp_triple = spec_cmp_chunks(spec_chunks(installer), spec_triple_cutoff());
        let icmp_double = spec_cmp_chunks(spec_chunks(installer), spec_double_cutoff());
        if (9 <= minor < 11) && (icmp_triple == Cmp::Gt || icmp_triple == Cmp::Eq) {
            mc + "-"@ + installer + "-"@ + mc + ".0"@
        } else if minor == 9 && (icmp_double == Cmp::Lt || icmp_double == Cmp::Eq) {
            mc + "-"@ + installer + "-"@ + mc
        } else {
            mc + "-"@ + installer
        }
    } else {
        "1.7.10_pre4-"@ + installer + "-prerelease"@
    }
}

/// A parsed version whose chunks are the given literals.
fn cutoff_tag(a: u64, b: u64, c: u64, d: u64, four: bool) -> (r: VersionTag)
    ensures
        four ==> spec_vals(r.chunks@) == seq![a as int, b as int, c as int, d as int],
        !four ==> spec_vals(r.chunks@) == seq![a as int, b as int, c as int],
{
    let mut chunks: Vec<u64> = Vec::new();
    chunks.push(a);
    chunks.push(b);
    chunks.push(c);
    if four {
        chunks.push(d);
        proof {
            assert(spec_vals(chunks@) =~= seq![a as int, b as int, c as int, d as int]);
        }
    } else {
        proof {
            assert(spec_vals(chunks@) =~= seq![a as int, b as int, c as int]);
        }
    }
    VersionTag { kind: VersionKind::General, chunks }
}

/// The maven path tag for this runtime version and installer build.
///
/// Rejected below the lower cutoff (no installer ever existed) and above
/// the upper cutoff (superseded by the successor family, which the error
/// recommends). A runtime version with a single numeric component has no
/// minor component to examine, so the caller keeps such tokens out.
pub fn get_version_tag(minecraft: &str, installer: &str) -> (r: Result<String, Error>)
    requires
        spec_kind(minecraft@) == VersionKind::General ==> spec_chunks(minecraft@).len() >= 2,
    ensures
        match r {
            Ok(t) => !spec_below_lower(minecraft@) && !spec_above_upper(minecraft@) && t@
                == spec_version_tag(minecraft@, installer@),
            Err(e) => (spec_below_lower(minecraft@) || spec_above_upper(minecraft@)) && (match e {
                Error::InvalidVersion { reason } => (spec_below_lower(minecraft@) ==> reason@
                    == "forge does not provide installer jarfiles before Minecraft 1.5.2"@)
                    && (!spec_below_lower(minecraft@) ==> reason@
                    == "use neoforge for minecraft versions after 1.20.1"@),
                _ => false,
            }),
        },
{
    let mc_tag = VersionTag::parse(minecraft);
    let lower = cutoff_tag(1, 5, 2, 0, false);
    let upper = cutoff_tag(1, 20, 1, 0, false);
    if mc_tag.compare(&lower) == Cmp::Lt {
        return Err(
            Error::InvalidVersion {
                reason: "forge does not provide installer jarfiles before Minecraft 1.5.2"
                    .to_owned(),
            },
        );
    }
    if mc_tag.compare(&upper) == Cmp::Gt {
        return Err(
            Error::InvalidVersion {
                reason: "use neoforge for minecraft versions after 1.20.1".to_owned(),
            },
        );
    }
    proof {
        lemma_kind_chunks(minecraft@);
    }
    let mut t = String::new();
    match mc_tag.kind {
        VersionKind::Ideal => {
            let minor = mc_tag.chunks[1];
            let patch = mc_tag.chunks[2];
            if !(7 <= minor && minor < 10) {
                t.append(minecraft);
                t.append("-");
                t.append(installer);
            } else if minor == 7 && patch == 2 {
                t.append("1.7.2-");
                t.append(installer);
                t.append("-mc172");
            } else {
                t.append(minecraft);
                t.append("-");
                t.append(installer);
                t.append("-");
                t.append(minecraft);
            }
        },
        VersionKind::General => {
            let minor = mc_tag.chunks[1];
            let inst_tag = VersionTag::parse(installer);
            let triple = cutoff_tag(12, 16, 1, 1938, true);
            let double = cutoff_tag(12, 16, 0, 1885, true);
            let ct = inst_tag.compare(&triple);
            let cd = inst_tag.compare(&double);
            if (9 <= minor && minor < 11) && (ct == Cmp::Gt || ct == Cmp::Eq) {
                t.append(minecraft);
                t.append("-");
                t.append(installer);
                t.append("-");
                t.append(minecraft);
                t.append(".0");
            } else if minor == 9 && (cd == Cmp::Lt || cd == Cmp::Eq) {
                t.append(minecraft);
                t.append("-");
                t.append(installer);
                t.append("-");
                t.append(minecraft);
            } else {
                t.append(minecraft);
                t.append("-");
                t.append(installer);
            }
        },
        VersionKind::Complex => {
            t.append("1.7.10_pre4-");
            t.append(installer);
            t.append("-prerelease");
        },
    }
    Ok(t)
}

/// The installer download URL and the local file name for a resolved tag.
pub fn installer_urls(tag: &str, minecraft: &str, installer: &str) -> (r: (String, String))
    ensures
        r.0@ == "https://maven.minecraftforge.net/net/minecraftforge/forge/"@ + tag@ + "/forge-"@
            + tag@ + "-installer.jar"@,
        r.1@ == "forge-"@ + minecraft@ + "-"@ + installer@ + ".jar"@,
{
    let mut url = String::new();
    url.append("https://maven.minecraftforge.net/net/minecraftforge/forge/");
    url.append(tag);
    url.append("/forge-");
    url.append(tag);
    url.append("-installer.jar");
    let mut filename = String::new();
    filename.append("forge-");
    filename.append(minecraft);
    filename.append("-");
    filename.append(installer);
    filename.append(".jar");
    (url, filename)
}

/// The promotions-map key a runtime version and build token resolve
/// through: `{runtime}-{token}`.
pub fn promo_key(minecraft: &str, token: &str) -> (r: String)
    ensures
        r@ == minecraft@ + "-"@ + token@,
{
    let mut k = String::new();
    k.append(minecraft);
    k.append("-");
    k.append(token);
    k
}

/// Some promotions entry maps `key` to the build label `b`.
pub open spec fn spec_promo_has(promos: Seq<(String, String)>, key: Seq<char>, b: Seq<char>) -> bool {
    exists|i: int| 0 <= i < promos.len() && promos[i].0@ == key && promos[i].1@ == b
}

/// The build label the promotions map assigns to a runtime version, for a
/// `latest` or `recommended` token; any other token is the literal build
/// label already. Rejected when the map has no entry for the key.
pub fn promo_build(promos: &Vec<(String, String)>, minecraft: &str, token: &str) -> (r: Result<
    String,
    Error,
>)
    ensures
        match r {
            Ok(b) => ((token@ == "latest"@ || token@ == "recommended"@) ==> spec_promo_has(
                promos@,
                minecraft@ + "-"@ + token@,
                b@,
            )) && (!(token@ == "latest"@ || token@ == "recommended"@) ==> b@ == token@),
            Err(e) => e is VersionNotFound && (token@ == "latest"@ || token@ == "recommended"@)
                && (forall|i: int|
                0 <= i < promos@.len() ==> promos@[i].0@ != minecraft@ + "-"@ + token@),
        },
{
    let special = strutil::str_eq(token, "latest") || strutil::str_eq(token, "recommended");
    if !special {
        return Ok(token.to_owned());
    }
    let key = promo_key(minecraft, token);
    let mut i: usize = 0;
    let n = promos.len();
    while i < n
        invariant
            token@ == "latest"@ || token@ == "recommended"@,
            n == promos@.len(),
            key@ == minecraft@ + "-"@ + token@,
            0 <= i <= n,
            forall|j: int| 0 <= j < i ==> promos@[j].0@ != minecraft@ + "-"@ + token@,
        decreases n - i,
    {
        if strutil::string_eq(&promos[i].0, &key) {
            let b = promos[i].1.clone();
            proof {
                assert(0 <= i < promos@.len() && promos@[i as int].0@ == minecraft@ + "-"@
                    + token@ && promos@[i as int].1@ == b@);
                assert(spec_promo_has(promos@, minecraft@ + "-"@ + token@, b@));
            }
            return Ok(b);
        }
        i += 1;
    }
    Err(Error::VersionNotFound)
}

/// The part of a string before its first `-`, or all of it when it holds
/// none.
pub open spec fn spec_dash_prefix(s: Seq<char>) -> Seq<char>
    decreases s.len(),
{
    if s.len() == 0 {
        s
    } else if s[0] == '-' {
        Seq::empty()
    } else {
        seq![s[0]] + spec_dash_prefix(s.drop_first())
    }
}

proof fn lemma_dash_prefix_at(s: Seq<char>, i: int)
    requires
        0 <= i < s.len(),
        s[i] == '-',
        forall|j: int| 0 <= j < i ==> s[j] != '-',
    ensures
        spec_dash_prefix(s) =~= s.subrange(0, i),
    decreases i,
{
    if i == 0 {
        assert(s.subrange(0, 0) =~= Seq::<char>::empty());
    } else {
        let t = s.drop_first();
        assert(forall|j: int| 0 <= j < t.len() ==> t[j] == s[j + 1]);
        lemma_dash_prefix_at(t, i - 1);
        assert(seq![s[0]] + t.subrange(0, i - 1) =~= s.subrange(0, i));
    }
}

proof fn lemma_dash_prefix_none(s: Seq<char>)
    requires
        forall|j: int| 0 <= j < s.len() ==> s[j] != '-',
    ensures
        spec_dash_prefix(s) =~= s,
    decreases s.len(),
{
    if s.len() > 0 {
        let t = s.drop_first();
        assert(forall|j: int| 0 <= j < t.len() ==> t[j] == s[j + 1]);
        lemma_dash_prefix_none(t);
        assert(seq![s[0]] + t =~= s);
    }
}

/// The runtime version with the greatest parsed value among the
/// promotions-map keys' `{runtime}-` prefixes: it is one of them, and no
/// key's prefix parses to anything greater.
pub fn latest_minecraft(keys: &Vec<String>) -> (r: Result<String, Error>)
    ensures
        match r {
            Ok(m) => keys@.len() > 0 && (exists|k: int|
                0 <= k < keys@.len() && m@ == spec_dash_prefix(keys@[k]@)) && (forall|k: int|
                0 <= k < keys@.len() ==> spec_cmp_chunks(
                    spec_chunks(spec_dash_prefix(keys@[k]@)),
                    spec_chunks(m@),
                ) != Cmp::Gt),
            Err(e) => e is NotFound && keys@.len() == 0,
        },
{
    if keys.len() == 0 {
        return Err(Error::NotFound);
    }
    let mut best = prefix_before_dash(&keys[0]);
    let mut best_tag = VersionTag::parse(best.as_str());
    proof {
        lemma_cmp_refl(spec_chunks(best@));
    }
    let mut i: usize = 1;
    let n = keys.len();
    while i < n
        invariant
            n == keys@.len(),
            n > 0,
            best_tag.matches(best@),
            1 <= i <= n,
            exists|k: int| 0 <= k < i && best@ == spec_dash_prefix(keys@[k]@),
            forall|k: int|
                0 <= k < i ==> spec_cmp_chunks(
                    spec_chunks(spec_dash_prefix(keys@[k]@)),
                    spec_chunks(best@),
                ) != Cmp::Gt,
        decreases n - i,
    {
        let cand = prefix_before_dash(&keys[i]);
        let cand_tag = VersionTag::parse(cand.as_str());
        if best_tag.compare(&cand_tag) == Cmp::Lt {
            proof {
                assert forall|k: int| 0 <= k < i + 1 implies spec_cmp_chunks(
                    spec_chunks(spec_dash_prefix(keys@[k]@)),
                    spec_chunks(cand@),
                ) != Cmp::Gt by {
                    if k < i {
                        crate::version::lemma_cmp_le_trans(
                            spec_chunks(spec_dash_prefix(keys@[k]@)),
                            spec_chunks(best@),
                            spec_chunks(cand@),
                        );
                    } else {
                        lemma_cmp_refl(spec_chunks(cand@));
                    }
                }
            }
            best = cand;
            best_tag = cand_tag;
        } else {
            proof {
                assert(spec_cmp_chunks(spec_chunks(cand@), spec_chunks(best@)) != Cmp::Gt) by {
                    lemma_cmp_total(spec_chunks(cand@), spec_chunks(best@));
                }
            }
        }
        i += 1;
    }
    Ok(best)
}

/// A version compares equal to itself.
proof fn lemma_cmp_refl(a: Seq<int>)
    ensures
        spec_cmp_chunks(a, a) == Cmp::Eq,
    decreases a.len(),
{
    if a.len() > 0 {
        lemma_cmp_refl(a.drop_first());
    }
}

/// Comparing one way and the other never both answer `greater`.
proof fn lemma_cmp_total(a: Seq<int>, b: Seq<int>)
    ensures
        spec_cmp_chunks(a, b) == Cmp::Gt <==> spec_cmp_chunks(b, a) == Cmp::Lt,
        spec_cmp_chunks(a, b) == Cmp::Eq <==> spec_cmp_chunks(b, a) == Cmp::Eq,
    decreases a.len(),
{
    if a.len() > 0 && b.len() > 0 && a.first() == b.first() {
        lemma_cmp_total(a.drop_first(), b.drop_first());
    }
}

/// The part of a promotions key before its first `-`, or the whole key
/// when it has none.
fn prefix_before_dash(key: &String) -> (r: String)
    ensures
        r@ == spec_dash_prefix(key@),
{
    let s = key.as_str();
    let len = s.unicode_len();
    let mut i: usize = 0;
    while i < len
        invariant
            len == s@.len(),
            s@ == key@,
            0 <= i <= len,
            forall|j: int| 0 <= j < i ==> s@[j] != '-',
        decreases len - i,
    {
        if s.get_char(i) == '-' {
            proof {
                lemma_dash_prefix_at(s@, i as int);
            }
            return s.substring_char(0, i).to_owned();
        }
        i += 1;
    }
    proof {
        lemma_dash_prefix_none(s@);
    }
    key.clone()
}

} // verus!
