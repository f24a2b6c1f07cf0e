//! The lockfile: the single source of truth for what is installed.
//!
//! Mutations happen in memory with exact contracts; the surrounding
//! program persists the result through the codec after every successful
//! mutation.

use vstd::prelude::*;
use vstd::string::StringExecFns;

use crate::error::Error;
use crate::loader::{Loader, LoaderModel};
use crate::plugin::{spec_dep_eq, spec_deps, DepModel, Dependency, Info, InfoModel};
use crate::strutil;
use crate::version::{spec_valid_version, VersionTag};

verus! {

/// The persisted record of what is installed: the loader configuration and
/// the ordered list of installed artifacts.
pub struct Lockfile {
    pub loader: Loader,
    pub mods: Vec<Info>,
}

/// The mathematical value of a lockfile.
pub ghost struct LockfileModel {
    pub loader: LoaderModel,
    pub mods: Seq<InfoModel>,
}

impl View for Lockfile {
    type V = LockfileModel;

    open spec fn view(&self) -> LockfileModel {
        LockfileModel {
            loader: self.loader@,
            mods: self.mods@.map_values(|m: Info| m@),
        }
    }
}

/// A record answers to `key` when its display name or its canonical id
/// equals it.
pub open spec fn spec_matches_key(m: InfoModel, key: Seq<char>) -> bool {
    m.name == key || m.id == key
}

/// Some record answers to `key`.
pub open spec fn spec_contains_key(mods: Seq<InfoModel>, key: Seq<char>) -> bool {
    exists|i: int| 0 <= i < mods.len() && spec_matches_key(mods[i], key)
}

/// The first index whose record answers to `key`, or `-1`.
pub open spec fn spec_key_index(mods: Seq<InfoModel>, key: Seq<char>) -> int
    decreases mods.len(),
{
    if mods.len() == 0 {
        -1
    } else if spec_matches_key(mods.first(), key) {
        0
    } else {
        let r = spec_key_index(mods.drop_first(), key);
        if r == -1 {
            -1
        } else {
            r + 1
        }
    }
}

/// A record collides with `m` when they share a canonical id or a name;
/// `add` replaces such a record instead of duplicating it.
pub open spec fn spec_same_identity(a: InfoModel, b: InfoModel) -> bool {
    a.id == b.id || a.name == b.name
}

/// The first index whose record shares `m`'s identity, or `-1`.
pub open spec fn spec_upsert_index(mods: Seq<InfoModel>, m: InfoModel) -> int
    decreases mods.len(),
{
    if mods.len() == 0 {
        -1
    } else if spec_same_identity(mods.first(), m) {
        0
    } else {
        let r = spec_upsert_index(mods.drop_first(), m);
        if r == -1 {
            -1
        } else {
            r + 1
        }
    }
}

/// `spec_key_index` finds the first match, and `-1` exactly when there is
/// none.
pub proof fn lemma_key_index(mods: Seq<InfoModel>, key: Seq<char>)
    ensures
        spec_key_index(mods, key) == -1 <==> !spec_contains_key(mods, key),
        spec_key_index(mods, key) != -1 ==> 0 <= spec_key_index(mods, key) < mods.len()
            && spec_matches_key(mods[spec_key_index(mods, key)], key)
            && (forall|j: int| 0 <= j < spec_key_index(mods, key) ==> !spec_matches_key(mods[j], key)),
    decreases mods.len(),
{
    if mods.len() > 0 {
        lemma_key_index(mods.drop_first(), key);
        assert(forall|j: int|
            0 <= j < mods.drop_first().len() ==> mods.drop_first()[j] == mods[j + 1]);
        if !spec_matches_key(mods.first(), key) {
            if spec_key_index(mods.drop_first(), key) == -1 {
                assert forall|i: int| 0 < i < mods.len() implies !spec_matches_key(
                    mods[i],
                    key,
                ) by {
                    assert(mods.drop_first()[i - 1] == mods[i]);
                }
            } else {
                let r = spec_key_index(mods.drop_first(), key);
                assert forall|j: int| 0 <= j < r + 1 implies !spec_matches_key(mods[j], key) by {
                    if j > 0 {
                        assert(mods.drop_first()[j - 1] == mods[j]);
                    }
                }
            }
        }
    }
}

/// `spec_upsert_index` finds the first identity collision, and `-1`
/// exactly when there is none.
pub proof fn lemma_upsert_index(mods: Seq<InfoModel>, m: InfoModel)
    ensures
        spec_upsert_index(mods, m) == -1 <==> !(exists|i: int|
            0 <= i < mods.len() && spec_same_identity(mods[i], m)),
        spec_upsert_index(mods, m) != -1 ==> 0 <= spec_upsert_index(mods, m) < mods.len()
            && spec_same_identity(mods[spec_upsert_index(mods, m)], m)
            && (forall|j: int|
                0 <= j < spec_upsert_index(mods, m) ==> !spec_same_identity(mods[j], m)),
    decreases mods.len(),
{
    if mods.len() > 0 {
        lemma_upsert_index(mods.drop_first(), m);
        assert(forall|j: int|
            0 <= j < mods.drop_first().len() ==> mods.drop_first()[j] == mods[j + 1]);
        if !spec_same_identity(mods.first(), m) {
            if spec_upsert_index(mods.drop_first(), m) == -1 {
                assert forall|i: int| 0 < i < mods.len() implies !spec_same_identity(
                    mods[i],
                    m,
                ) by {
                    assert(mods.drop_first()[i - 1] == mods[i]);
                }
            } else {
                let r = spec_upsert_index(mods.drop_first(), m);
                assert forall|j: int| 0 <= j < r + 1 implies !spec_same_identity(mods[j], m) by {
                    if j > 0 {
                        assert(mods.drop_first()[j - 1] == mods[j]);
                    }
                }
            }
        }
    }
}

/// A record answers to a dependency reference when the reference's id or
/// display name names it.
pub open spec fn spec_rec_matches_dep(m: InfoModel, d: DepModel) -> bool {
    m.id == d.id || m.name == d.name
}

/// Some installed record declares a dependency equal to `d` and marked
/// required.
pub open spec fn spec_dep_required_by(mods: Seq<InfoModel>, d: DepModel) -> bool {
    exists|i: int, j: int|
        0 <= i < mods.len() && 0 <= j < spec_deps(mods[i]).len() && spec_deps(mods[i])[j].required
            && spec_dep_eq(spec_deps(mods[i])[j], d)
}

/// After removing `a`, the record `m` is dropped as an orphan when some
/// dependency of `a` names it and no remaining record requires that
/// dependency.
pub open spec fn spec_orphaned(m: InfoModel, a: InfoModel, rem: Seq<InfoModel>) -> bool {
    exists|k: int|
        0 <= k < spec_deps(a).len() && spec_rec_matches_dep(m, spec_deps(a)[k])
            && !spec_dep_required_by(rem, spec_deps(a)[k])
}

/// The records of `s` that survive the orphan pass, in order.
pub open spec fn spec_keep_list(s: Seq<InfoModel>, a: InfoModel, rem: Seq<InfoModel>) -> Seq<
    InfoModel,
>
    decreases s.len(),
{
    if s.len() == 0 {
        Seq::empty()
    } else {
        let p = spec_keep_list(s.drop_last(), a, rem);
        if spec_orphaned(s.last(), a, rem) {
            p
        } else {
            p.push(s.last())
        }
    }
}

/// The records of `s` that the orphan pass drops, in order.
pub open spec fn spec_orphan_list(s: Seq<InfoModel>, a: InfoModel, rem: Seq<InfoModel>) -> Seq<
    InfoModel,
>
    decreases s.len(),
{
    if s.len() == 0 {
        Seq::empty()
    } else {
        let p = spec_orphan_list(s.drop_last(), a, rem);
        if spec_orphaned(s.last(), a, rem) {
            p.push(s.last())
        } else {
            p
        }
    }
}

/// The artifact list after `remove(slug, remove_orphans)` succeeds.
pub open spec fn spec_remove_final(
    mods: Seq<InfoModel>,
    slug: Seq<char>,
    remove_orphans: bool,
) -> Seq<InfoModel> {
    let fi = spec_key_index(mods, slug);
    let a = mods[fi];
    let rem = mods.remove(fi);
    if remove_orphans {
        spec_keep_list(rem, a, rem)
    } else {
        rem
    }
}

/// The records `remove(slug, remove_orphans)` hands back: the removed
/// artifact first, then the orphans in list order.
pub open spec fn spec_remove_records(
    mods: Seq<InfoModel>,
    slug: Seq<char>,
    remove_orphans: bool,
) -> Seq<InfoModel> {
    let fi = spec_key_index(mods, slug);
    let a = mods[fi];
    let rem = mods.remove(fi);
    if remove_orphans {
        seq![a] + spec_orphan_list(rem, a, rem)
    } else {
        seq![a]
    }
}

/// A lockfile is initialized once its loader is a real family and its
/// runtime version token parses as a concrete version.
pub open spec fn spec_initialized(m: LockfileModel) -> bool {
    spec_valid_version(m.loader.minecraft_version) && m.loader.name != "none"@
}

impl Lockfile {
    /// The in-memory lockfile of a directory that has none persisted yet.
    pub fn new_empty() -> (r: Self)
        ensures
            r@.loader.name == "none"@,
            r@.loader.minecraft_version == "latest"@,
            r@.loader.version == "latest"@,
            r@.loader.snapshot == false,
            r@.mods == Seq::<InfoModel>::empty(),
    {
        let r = Lockfile { loader: Loader::default(), mods: Vec::new() };
        proof {
            assert(r@.mods =~= Seq::<InfoModel>::empty());
        }
        r
    }

    /// A fresh lockfile for the given runtime version and loader family.
    /// Rejected when the version token does not name a concrete version.
    pub fn with_params(minecraft_version: &str, loader_name: &str) -> (r: Result<Self, Error>)
        ensures
            match r {
                Ok(lf) => spec_valid_version(minecraft_version@) && lf@.loader.name == loader_name@
                    && lf@.loader.minecraft_version == minecraft_version@
                    && lf@.loader.version == "latest"@ && lf@.loader.snapshot == false
                    && lf@.mods == Seq::<InfoModel>::empty(),
                Err(e) => !spec_valid_version(minecraft_version@) && (match e {
                    Error::InvalidVersion { reason } => reason@ == "invalid minecraft version "@
                        + minecraft_version@,
                    _ => false,
                }),
            },
    {
        let tag = VersionTag::parse(minecraft_version);
        if tag.is_complex() {
            let mut reason = String::new();
            reason.append("invalid minecraft version ");
            reason.append(minecraft_version);
            proof {
                assert(reason@ =~= "invalid minecraft version "@ + minecraft_version@);
            }
            return Err(Error::InvalidVersion { reason });
        }
        let r = Lockfile {
            loader: Loader::new(loader_name, minecraft_version, "latest", false),
            mods: Vec::new(),
        };
        proof {
            assert(r@.mods =~= Seq::<InfoModel>::empty());
        }
        Ok(r)
    }

    /// Whether operations on installed artifacts may proceed.
    pub fn is_initialized(&self) -> (r: bool)
        ensures
            r == spec_initialized(self@),
    {
        let tag = VersionTag::parse(self.loader.minecraft_version.as_str());
        !tag.is_complex() && !strutil::string_eq_str(&self.loader.name, "none")
    }

    /// The first index whose record answers to `key`.
    fn find_index(&self, key: &str) -> (r: Option<usize>)
        ensures
            match r {
                Some(i) => i == spec_key_index(self@.mods, key@) && i < self@.mods.len(),
                None => spec_key_index(self@.mods, key@) == -1,
            },
    {
        let ghost mods = self@.mods;
        let mut i: usize = 0;
        while i < self.mods.len()
            invariant
                mods == self@.mods,
                mods.len() == self.mods@.len(),
                0 <= i <= mods.len(),
                forall|j: int| 0 <= j < i ==> !spec_matches_key(mods[j], key@),
            decreases mods.len() - i,
        {
            let m = &self.mods[i];
            if strutil::string_eq_str(&m.name, key) || strutil::string_eq_str(&m.id, key) {
                proof {
                    lemma_key_index_at(mods, key@, i as int);
                }
                return Some(i);
            }
            i += 1;
        }
        proof {
            lemma_key_index(mods, key@);
        }
        None
    }

    /// Look an installed artifact up by display name or canonical id.
    pub fn get(&self, project_id: &str) -> (r: Result<&Info, Error>)
        ensures
            match r {
                Ok(p) => spec_contains_key(self@.mods, project_id@) && p@ == self@.mods[
                    spec_key_index(self@.mods, project_id@)
                ],
                Err(e) => e is NotFound && !spec_contains_key(self@.mods, project_id@),
            },
    {
        proof {
            lemma_key_index(self@.mods, project_id@);
        }
        match self.find_index(project_id) {
            Some(i) => Ok(&self.mods[i]),
            None => Err(Error::NotFound),
        }
    }

    /// Record an artifact: replace the first record sharing its identity,
    /// or append it when none does.
    pub fn add(&mut self, info: Info)
        ensures
            final(self)@.loader == old(self)@.loader,
            spec_upsert_index(old(self)@.mods, info@) == -1 ==> final(self)@.mods == old(
                self,
            )@.mods.push(info@),
            spec_upsert_index(old(self)@.mods, info@) != -1 ==> final(self)@.mods == old(
                self,
            )@.mods.update(spec_upsert_index(old(self)@.mods, info@), info@),
    {
        let ghost mods = self@.mods;
        let n = self.mods.len();
        let mut i: usize = 0;
        while i < n
            invariant
                self@ == old(self)@,
                mods == self@.mods,
                n == mods.len(),
                n == self.mods@.len(),
                0 <= i <= n,
                forall|j: int| 0 <= j < i ==> !spec_same_identity(mods[j], info@),
            decreases n - i,
        {
            let m = &self.mods[i];
            if strutil::string_eq(&m.id, &info.id) || strutil::string_eq(&m.name, &info.name) {
                proof {
                    lemma_upsert_index_at(mods, info@, i as int);
                }
                let ghost prev = self.mods@;
                self.mods[i] = info;
                proof {
                    assert(self.mods@ == prev.update(i as int, info));
                    assert forall|k: int| 0 <= k < self@.mods.len() implies self@.mods[k] == mods
                        .update(i as int, info@)[k] by {
                        assert(self@.mods[k] == self.mods@[k]@);
                        if k != i {
                            assert(self.mods@[k] == prev[k]);
                            assert(mods[k] == prev[k]@);
                        }
                    }
                    assert(self@.mods =~= mods.update(i as int, info@));
                }
                return;
            }
            i += 1;
        }
        proof {
            lemma_upsert_index(mods, info@);
        }
        let ghost prev = self.mods@;
        self.mods.push(info);
        proof {
            assert(self.mods@ == prev.push(info));
            assert forall|k: int| 0 <= k < self@.mods.len() implies self@.mods[k] == mods.push(
                info@,
            )[k] by {
                assert(self@.mods[k] == self.mods@[k]@);
                if k < prev.len() {
                    assert(self.mods@[k] == prev[k]);
                    assert(mods[k] == prev[k]@);
                }
            }
            assert(self@.mods =~= mods.push(info@));
        }
    }

    /// Remove an artifact and, when asked, the orphans among the
    /// dependencies it declared. Hands back every removed record so the
    /// caller can dispose of the downloaded files.
    pub fn remove(&mut self, slug: &str, remove_orphans: bool) -> (r: Result<Vec<Info>, Error>)
        ensures
            match r {
                Ok(removed) => spec_contains_key(old(self)@.mods, slug@) && final(self)@.loader
                    == old(self)@.loader && final(self)@.mods == spec_remove_final(
                    old(self)@.mods,
                    slug@,
                    remove_orphans,
                ) && removed@.map_values(|m: Info| m@) == spec_remove_records(
                    old(self)@.mods,
                    slug@,
                    remove_orphans,
                ),
                Err(e) => e is NotFound && !spec_contains_key(old(self)@.mods, slug@)
                    && final(self)@ == old(self)@,
            },
    {
        proof {
            lemma_key_index(self@.mods, slug@);
        }
        let fi = match self.find_index(slug) {
            Some(i) => i,
            None => {
                return Err(Error::NotFound);
            },
        };
        let ghost mods0 = self@.mods;
        let a = self.mods.remove(fi);
        let ghost am = a@;
        let ghost rem = self@.mods;
        proof {
            assert(rem =~= mods0.remove(fi as int));
        }
        let mut removed: Vec<Info> = Vec::new();
        removed.push(a);
        if !remove_orphans {
            proof {
                assert(removed@.map_values(|m: Info| m@) =~= seq![am]);
            }
            return Ok(removed);
        }
        let n = self.mods.len();
        let mut kept: Vec<Info> = Vec::new();
        let mut i: usize = 0;
        while i < n
            invariant
                rem == self@.mods,
                n == rem.len(),
                n == self.mods@.len(),
                0 <= i <= n,
                am == removed@.map_values(|m: Info| m@)[0],
                removed@.len() >= 1,
                kept@.map_values(|m: Info| m@) =~= spec_keep_list(rem.take(i as int), am, rem),
                removed@.map_values(|m: Info| m@) =~= seq![am] + spec_orphan_list(
                    rem.take(i as int),
                    am,
                    rem,
                ),
            decreases n - i,
        {
            proof {
                assert(removed@.map_values(|m: Info| m@)[0] == removed@[0]@);
            }
            let orphan = record_orphaned(&self.mods, i, &removed[0]);
            let ghost removed_before = removed@.map_values(|m: Info| m@);
            let ghost kept_before = kept@.map_values(|m: Info| m@);
            proof {
                assert(rem.take(i + 1).drop_last() =~= rem.take(i as int));
                assert(rem.take(i + 1).last() == rem[i as int]);
                assert(rem[i as int] == self.mods@[i as int]@);
            }
            if orphan {
                removed.push(self.mods[i].clone());
                proof {
                    assert(removed@.map_values(|m: Info| m@) =~= removed_before.push(
                        rem[i as int],
                    ));
                    assert(removed@.map_values(|m: Info| m@) =~= seq![am] + spec_orphan_list(
                        rem.take(i + 1),
                        am,
                        rem,
                    ));
                }
            } else {
                kept.push(self.mods[i].clone());
                proof {
                    assert(kept@.map_values(|m: Info| m@) =~= kept_before.push(rem[i as int]));
                    assert(kept@.map_values(|m: Info| m@) =~= spec_keep_list(
                        rem.take(i + 1),
                        am,
                        rem,
                    ));
                }
            }
            i += 1;
        }
        proof {
            assert(rem.take(n as int) =~= rem);
        }
        self.mods = kept;
        Ok(removed)
    }
}

/// `spec_key_index` is `i` when the match at `i` is the first.
proof fn lemma_key_index_at(mods: Seq<InfoModel>, key: Seq<char>, i: int)
    requires
        0 <= i < mods.len(),
        spec_matches_key(mods[i], key),
        forall|j: int| 0 <= j < i ==> !spec_matches_key(mods[j], key),
    ensures
        spec_key_index(mods, key) == i,
    decreases i,
{
    if i > 0 {
        lemma_key_index_at(mods.drop_first(), key, i - 1);
        assert(forall|j: int|
            0 <= j < mods.drop_first().len() ==> mods.drop_first()[j] == mods[j + 1]);
    }
}

/// `spec_upsert_index` is `i` when the collision at `i` is the first.
proof fn lemma_upsert_index_at(mods: Seq<InfoModel>, m: InfoModel, i: int)
    requires
        0 <= i < mods.len(),
        spec_same_identity(mods[i], m),
        forall|j: int| 0 <= j < i ==> !spec_same_identity(mods[j], m),
    ensures
        spec_upsert_index(mods, m) == i,
    decreases i,
{
    if i > 0 {
        lemma_upsert_index_at(mods.drop_first(), m, i - 1);
        assert(forall|j: int|
            0 <= j < mods.drop_first().len() ==> mods.drop_first()[j] == mods[j + 1]);
    }
}

/// Whether some record declares a dependency equal to `d` and required.
fn dep_required_by(mods: &Vec<Info>, d: &Dependency) -> (r: bool)
    ensures
        r == spec_dep_required_by(mods@.map_values(|m: Info| m@), d@),
{
    let ghost ms = mods@.map_values(|m: Info| m@);
    let mut i: usize = 0;
    while i < mods.len()
        invariant
            ms == mods@.map_values(|m: Info| m@),
            ms.len() == mods@.len(),
            0 <= i <= ms.len(),
            forall|i2: int, j2: int|
                0 <= i2 < i && 0 <= j2 < spec_deps(ms[i2]).len() ==> !(spec_deps(
                    ms[i2],
                )[j2].required && spec_dep_eq(spec_deps(ms[i2])[j2], d@)),
        decreases ms.len() - i,
    {
        proof {
            assert(ms[i as int] == mods@[i as int]@);
        }
        match &mods[i].dependencies {
            Some(deps) => {
                let mut j: usize = 0;
                while j < deps.len()
                    invariant
                        ms == mods@.map_values(|m: Info| m@),
                        ms.len() == mods@.len(),
                        0 <= i < ms.len(),
                        deps@.map_values(|x: Dependency| x@) == spec_deps(ms[i as int]),
                        deps@.len() == spec_deps(ms[i as int]).len(),
                        0 <= j <= deps@.len(),
                        forall|j2: int|
                            0 <= j2 < j ==> !(spec_deps(ms[i as int])[j2].required && spec_dep_eq(
                                spec_deps(ms[i as int])[j2],
                                d@,
                            )),
                    decreases deps@.len() - j,
                {
                    let dj = &deps[j];
                    proof {
                        assert(spec_deps(ms[i as int])[j as int] == deps@[j as int]@);
                    }
                    if dj.required && dep_eq(dj, d) {
                        return true;
                    }
                    j += 1;
                }
            },
            None => {},
        }
        i += 1;
    }
    false
}

/// Decide `spec_dep_eq` on two dependency references.
fn dep_eq(a: &Dependency, b: &Dependency) -> (r: bool)
    ensures
        r == spec_dep_eq(a@, b@),
{
    if strutil::string_eq(&a.source, &b.source) {
        strutil::string_eq(&a.id, &b.id)
    } else {
        strutil::string_eq(&a.name, &b.name)
    }
}

/// Whether record `i` of `mods` is orphaned by the removal of `a`.
fn record_orphaned(mods: &Vec<Info>, i: usize, a: &Info) -> (r: bool)
    requires
        i < mods@.len(),
    ensures
        r == spec_orphaned(mods@.map_values(|m: Info| m@)[i as int], a@, mods@.map_values(
            |m: Info| m@,
        )),
{
    let ghost ms = mods@.map_values(|m: Info| m@);
    match &a.dependencies {
        Some(deps) => {
            let mut k: usize = 0;
            while k < deps.len()
                invariant
                    ms == mods@.map_values(|m: Info| m@),
                    i < ms.len(),
                    deps@.map_values(|x: Dependency| x@) == spec_deps(a@),
                    deps@.len() == spec_deps(a@).len(),
                    0 <= k <= deps@.len(),
                    forall|k2: int|
                        0 <= k2 < k ==> !(spec_rec_matches_dep(ms[i as int], spec_deps(a@)[k2])
                            && !spec_dep_required_by(ms, spec_deps(a@)[k2])),
                decreases deps@.len() - k,
            {
                let d = &deps[k];
                let m = &mods[i];
                proof {
                    assert(ms[i as int] == mods@[i as int]@);
                    assert(spec_deps(a@)[k as int] == deps@[k as int]@);
                }
                let matches = strutil::string_eq(&m.id, &d.id) || strutil::string_eq(
                    &m.name,
                    &d.name,
                );
                if matches {
                    if !dep_required_by(mods, d) {
                        return true;
                    }
                }
                k += 1;
            }
            false
        },
        None => false,
    }
}

/// Every record of the orphan pass's input survives exactly when it is not
/// orphaned: a removed artifact's dependency is dropped precisely when no
/// remaining artifact still requires it, and kept whenever one does.
pub proof fn lemma_keep_contains(s: Seq<InfoModel>, a: InfoModel, rem: Seq<InfoModel>, x: InfoModel)
    ensures
        spec_keep_list(s, a, rem).contains(x) <==> (s.contains(x) && !spec_orphaned(x, a, rem)),
        spec_orphan_list(s, a, rem).contains(x) <==> (s.contains(x) && spec_orphaned(x, a, rem)),
    decreases s.len(),
{
    if s.len() == 0 {
    } else {
        lemma_keep_contains(s.drop_last(), a, rem, x);
        lemma_drop_last_contains(s, x);
        if spec_orphaned(s.last(), a, rem) {
            lemma_push_contains(spec_orphan_list(s.drop_last(), a, rem), s.last(), x);
        } else {
            lemma_push_contains(spec_keep_list(s.drop_last(), a, rem), s.last(), x);
        }
    }
}

/// After a successful `remove(slug, remove_orphans = true)`, a record that
/// was installed beside the removed artifact survives exactly when it is
/// not orphaned by it: a record named by one of the removed artifact's
/// declared dependencies is dropped precisely when no remaining artifact
/// declares an equal dependency as required, and is kept whenever some
/// other installed artifact still requires it.
pub proof fn lemma_remove_orphans(mods: Seq<InfoModel>, slug: Seq<char>, x: InfoModel)
    requires
        spec_contains_key(mods, slug),
    ensures
        ({
            let fi = spec_key_index(mods, slug);
            let a = mods[fi];
            let rem = mods.remove(fi);
            spec_remove_final(mods, slug, true).contains(x) <==> (rem.contains(x)
                && !spec_orphaned(x, a, rem))
        }),
{
    lemma_key_index(mods, slug);
    let fi = spec_key_index(mods, slug);
    let a = mods[fi];
    let rem = mods.remove(fi);
    lemma_keep_contains(rem, a, rem, x);
}

/// A lockfile whose loader name is still the `"none"` sentinel is never
/// initialized, whatever its version token; one whose version token names
/// a concrete version is initialized exactly when its loader name is not
/// `"none"`.
pub proof fn lemma_initialized_characterization(m: LockfileModel)
    ensures
        m.loader.name == "none"@ ==> !spec_initialized(m),
        spec_valid_version(m.loader.minecraft_version) ==> (spec_initialized(m) <==> m.loader.name
            != "none"@),
{
}

/// Membership in a sequence extended by one element.
proof fn lemma_push_contains<T>(p: Seq<T>, v: T, x: T)
    ensures
        p.push(v).contains(x) <==> (p.contains(x) || v == x),
{
    if p.push(v).contains(x) {
        let ix = choose|ix: int| 0 <= ix < p.push(v).len() && p.push(v)[ix] == x;
        if ix < p.len() {
            assert(p[ix] == x);
        }
    }
    if p.contains(x) {
        let ix = choose|ix: int| 0 <= ix < p.len() && p[ix] == x;
        assert(p.push(v)[ix] == x);
    }
    if v == x {
        assert(p.push(v)[p.len() as int] == x);
    }
}

/// Membership in a nonempty sequence, split at its last element.
proof fn lemma_drop_last_contains<T>(s: Seq<T>, x: T)
    requires
        s.len() > 0,
    ensures
        s.contains(x) <==> (s.drop_last().contains(x) || s.last() == x),
{
    if s.contains(x) {
        let ix = choose|ix: int| 0 <= ix < s.len() && s[ix] == x;
        if ix < s.len() - 1 {
            assert(s.drop_last()[ix] == x);
        }
    }
    if s.drop_last().contains(x) {
        let ix = choose|ix: int| 0 <= ix < s.drop_last().len() && s.drop_last()[ix] == x;
        assert(s[ix] == x);
    }
}

} // verus!
