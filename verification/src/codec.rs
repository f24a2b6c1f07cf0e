use vstd::prelude::*;
use vstd::string::StringExecFns;

use crate::loader::{Loader, LoaderModel};
use crate::lockfile::{Lockfile, LockfileModel};
use crate::plugin::{Checksum, ChecksumModel, DepModel, Dependency, Info, InfoModel};
use crate::strutil;
use crate::strutil::{spec_split, lemma_split_at_first};

verus! {

/// The lockfile's persisted form: a line-oriented text document. Every
/// field stands on a line of its own, ended by a newline; one-character
/// marker lines separate and terminate the variable-length parts, so no
/// field content is ever mistaken for structure. A field must not itself
/// hold a newline; `encodable` decides that.

/// A field value that can stand on one line.
pub open spec fn spec_no_newline(s: Seq<char>) -> bool {
    forall|i: int| 0 <= i < s.len() ==> s[i] != '\n'
}

/// One line of the document: the content and its terminator.
pub open spec fn spec_line(s: Seq<char>) -> Seq<char> {
    s + seq!['\n']
}

/// The one-character content a flag is written as.
pub open spec fn spec_bool_chars(b: bool) -> Seq<char> {
    if b {
        seq!['T']
    } else {
        seq!['F']
    }
}

pub open spec fn spec_enc_dep(d: DepModel) -> Seq<char> {
    spec_line(d.id) + spec_line(d.source) + spec_line(d.name) + spec_line(
        spec_bool_chars(d.required),
    )
}

pub open spec fn spec_enc_deps(ds: Seq<DepModel>) -> Seq<char>
    decreases ds.len(),
{
    if ds.len() == 0 {
        spec_line(seq!['E'])
    } else {
        spec_line(seq!['M']) + spec_enc_dep(ds.first()) + spec_enc_deps(ds.drop_first())
    }
}

pub open spec fn spec_enc_depblock(o: Option<Seq<DepModel>>) -> Seq<char> {
    match o {
        None => spec_line(seq!['N']),
        Some(ds) => spec_line(seq!['D']) + spec_enc_deps(ds),
    }
}

pub open spec fn spec_enc_checksum(o: Option<ChecksumModel>) -> Seq<char> {
    match o {
        None => spec_line(seq!['N']),
        Some(c) => spec_line(seq!['C']) + spec_line(c.method) + spec_line(c.hash),
    }
}

pub open spec fn spec_enc_mod(m: InfoModel) -> Seq<char> {
    spec_line(m.name) + spec_line(m.id) + spec_line(m.version) + spec_line(m.source) + spec_line(
        m.download_url,
    ) + spec_enc_depblock(m.dependencies) + spec_enc_checksum(m.checksum)
}

pub open spec fn spec_enc_mods(ms: Seq<InfoModel>) -> Seq<char>
    decreases ms.len(),
{
    if ms.len() == 0 {
        spec_line(seq!['E'])
    } else {
        spec_line(seq!['M']) + spec_enc_mod(ms.first()) + spec_enc_mods(ms.drop_first())
    }
}

pub open spec fn spec_enc_lockfile(m: LockfileModel) -> Seq<char> {
    spec_line(m.loader.name) + spec_line(m.loader.minecraft_version) + spec_line(m.loader.version)
        + spec_line(spec_bool_chars(m.loader.snapshot)) + spec_enc_mods(m.mods)
}

pub open spec fn spec_wf_dep(d: DepModel) -> bool {
    spec_no_newline(d.id) && spec_no_newline(d.source) && spec_no_newline(d.name)
}

pub open spec fn spec_wf_info(m: InfoModel) -> bool {
    spec_no_newline(m.name) && spec_no_newline(m.id) && spec_no_newline(m.version)
        && spec_no_newline(m.source) && spec_no_newline(m.download_url) && (match m.dependencies {
        Some(ds) => forall|k: int| 0 <= k < ds.len() ==> spec_wf_dep(#[trigger] ds[k]),
        None => true,
    }) && (match m.checksum {
        Some(c) => spec_no_newline(c.method) && spec_no_newline(c.hash),
        None => true,
    })
}

/// A lockfile every field of which can stand on its own line.
pub open spec fn spec_wf_lockfile(m: LockfileModel) -> bool {
    spec_no_newline(m.loader.name) && spec_no_newline(m.loader.minecraft_version)
        && spec_no_newline(m.loader.version) && (forall|k: int|
        0 <= k < m.mods.len() ==> spec_wf_info(#[trigger] m.mods[k]))
}

/// The content of a flag line, read back.
pub open spec fn spec_parse_bool(l: Seq<char>) -> Option<bool> {
    if l == seq!['T'] {
        Some(true)
    } else if l == seq!['F'] {
        Some(false)
    } else {
        None
    }
}

/// A dependency read from its four lines.
pub open spec fn spec_parse_dep_l(lines: Seq<Seq<char>>) -> Option<DepModel> {
    if lines.len() < 4 {
        None
    } else {
        match spec_parse_bool(lines[3]) {
            Some(req) => Some(
                DepModel { id: lines[0], source: lines[1], name: lines[2], required: req },
            ),
            None => None,
        }
    }
}

/// A dependency list read from marker-separated lines; the result carries
/// how many lines it consumed.
pub open spec fn spec_parse_deps_l(lines: Seq<Seq<char>>) -> Option<(Seq<DepModel>, nat)>
    decreases lines.len(),
{
    if lines.len() == 0 {
        None
    } else if lines[0] == seq!['E'] {
        Some((Seq::empty(), 1 as nat))
    } else if lines[0] == seq!['M'] {
        if lines.len() < 5 {
            None
        } else {
            match spec_parse_dep_l(lines.subrange(1, 5)) {
                Some(d) => match spec_parse_deps_l(lines.skip(5)) {
                    Some(p) => Some((seq![d] + p.0, (5 + p.1) as nat)),
                    None => None,
                },
                None => None,
            }
        }
    } else {
        None
    }
}

/// A checksum block read from one or three lines.
pub open spec fn spec_parse_cs_l(lines: Seq<Seq<char>>) -> Option<(Option<ChecksumModel>, nat)> {
    if lines.len() < 1 {
        None
    } else if lines[0] == seq!['N'] {
        Some((None, 1 as nat))
    } else if lines[0] == seq!['C'] {
        if lines.len() < 3 {
            None
        } else {
            Some((Some(ChecksumModel { method: lines[1], hash: lines[2] }), 3 as nat))
        }
    } else {
        None
    }
}

/// One artifact record read from its lines.
pub open spec fn spec_parse_mod_l(lines: Seq<Seq<char>>) -> Option<(InfoModel, nat)> {
    if lines.len() < 6 {
        None
    } else {
        let deps = if lines[5] == seq!['N'] {
            Some((Option::<Seq<DepModel>>::None, 6 as nat))
        } else if lines[5] == seq!['D'] {
            match spec_parse_deps_l(lines.skip(6)) {
                Some(p) => Some((Some(p.0), (6 + p.1) as nat)),
                None => None,
            }
        } else {
            None
        };
        match deps {
            Some(dp) => if dp.1 <= lines.len() {
                match spec_parse_cs_l(lines.skip(dp.1 as int)) {
                    Some(cp) => Some(
                        (
                            InfoModel {
                                name: lines[0],
                                id: lines[1],
                                version: lines[2],
                                source: lines[3],
                                download_url: lines[4],
                                dependencies: dp.0,
                                checksum: cp.0,
                            },
                            (dp.1 + cp.1) as nat,
                        ),
                    ),
                    None => None,
                }
            } else {
                None
            },
            None => None,
        }
    }
}

/// The artifact list read from marker-separated lines.
pub open spec fn spec_parse_mods_l(lines: Seq<Seq<char>>) -> Option<(Seq<InfoModel>, nat)>
    decreases lines.len(),
{
    if lines.len() == 0 {
        None
    } else if lines[0] == seq!['E'] {
        Some((Seq::empty(), 1 as nat))
    } else if lines[0] == seq!['M'] {
        match spec_parse_mod_l(lines.skip(1)) {
            Some(p) => if 1 + p.1 < lines.len() {
                match spec_parse_mods_l(lines.skip(1 + p.1 as int)) {
                    Some(q) => Some((seq![p.0] + q.0, (1 + p.1 + q.1) as nat)),
                    None => None,
                }
            } else {
                None
            },
            None => None,
        }
    } else {
        None
    }
}

/// The lockfile a document parses to, when its lines are exactly the
/// loader's four, the artifact list, and the final empty piece after the
/// last terminator.
pub open spec fn spec_parse_lockfile(s: Seq<char>) -> Option<LockfileModel> {
    let lines = spec_split(s, '\n');
    if lines.len() < 5 {
        None
    } else {
        match spec_parse_bool(lines[3]) {
            Some(snap) => match spec_parse_mods_l(lines.skip(4)) {
                Some(p) => if 4 + p.1 + 1 == lines.len() && lines.last() == Seq::<char>::empty() {
                    Some(
                        LockfileModel {
                            loader: LoaderModel {
                                name: lines[0],
                                minecraft_version: lines[1],
                                version: lines[2],
                                snapshot: snap,
                            },
                            mods: p.0,
                        },
                    )
                } else {
                    None
                },
                None => None,
            },
            None => None,
        }
    }
}

/// The lines an encoded document splits into.
pub open spec fn spec_dep_lines(d: DepModel) -> Seq<Seq<char>> {
    seq![d.id, d.source, d.name, spec_bool_chars(d.required)]
}

pub open spec fn spec_deps_lines(ds: Seq<DepModel>) -> Seq<Seq<char>>
    decreases ds.len(),
{
    if ds.len() == 0 {
        seq![seq!['E']]
    } else {
        seq![seq!['M']] + spec_dep_lines(ds.first()) + spec_deps_lines(ds.drop_first())
    }
}

pub open spec fn spec_depblock_lines(o: Option<Seq<DepModel>>) -> Seq<Seq<char>> {
    match o {
        None => seq![seq!['N']],
        Some(ds) => seq![seq!['D']] + spec_deps_lines(ds),
    }
}

pub open spec fn spec_cs_lines(o: Option<ChecksumModel>) -> Seq<Seq<char>> {
    match o {
        None => seq![seq!['N']],
        Some(c) => seq![seq!['C'], c.method, c.hash],
    }
}

pub open spec fn spec_mod_lines(m: InfoModel) -> Seq<Seq<char>> {
    seq![m.name, m.id, m.version, m.source, m.download_url] + spec_depblock_lines(m.dependencies)
        + spec_cs_lines(m.checksum)
}

pub open spec fn spec_mods_lines(ms: Seq<InfoModel>) -> Seq<Seq<char>>
    decreases ms.len(),
{
    if ms.len() == 0 {
        seq![seq!['E']]
    } else {
        seq![seq!['M']] + spec_mod_lines(ms.first()) + spec_mods_lines(ms.drop_first())
    }
}

pub open spec fn spec_lockfile_lines(m: LockfileModel) -> Seq<Seq<char>> {
    seq![
        m.loader.name,
        m.loader.minecraft_version,
        m.loader.version,
        spec_bool_chars(m.loader.snapshot),
    ] + spec_mods_lines(m.mods) + seq![Seq::<char>::empty()]
}

/// Splitting one line off the front of a document.
proof fn lemma_split_line(x: Seq<char>, rest: Seq<char>)
    requires
        spec_no_newline(x),
    ensures
        spec_split(spec_line(x) + rest, '\n') =~= seq![x] + spec_split(rest, '\n'),
{
    let s = spec_line(x) + rest;
    assert(s[x.len() as int] == '\n');
    assert(forall|j: int| 0 <= j < x.len() ==> s[j] == x[j]);
    lemma_split_at_first(s, '\n', x.len() as int);
    assert(s.subrange(0, x.len() as int) =~= x);
    assert(s.subrange(x.len() as int + 1, s.len() as int) =~= rest);
}

proof fn lemma_split_enc_dep(d: DepModel, rest: Seq<char>)
    requires
        spec_wf_dep(d),
    ensures
        spec_split(spec_enc_dep(d) + rest, '\n') =~= spec_dep_lines(d) + spec_split(rest, '\n'),
{
    let b = spec_bool_chars(d.required);
    assert(spec_no_newline(b));
    assert(spec_enc_dep(d) + rest =~= spec_line(d.id) + (spec_line(d.source) + (spec_line(d.name)
        + (spec_line(b) + rest))));
    lemma_split_line(b, rest);
    lemma_split_line(d.name, spec_line(b) + rest);
    lemma_split_line(d.source, spec_line(d.name) + (spec_line(b) + rest));
    lemma_split_line(d.id, spec_line(d.source) + (spec_line(d.name) + (spec_line(b) + rest)));
}

proof fn lemma_split_enc_deps(ds: Seq<DepModel>, rest: Seq<char>)
    requires
        forall|k: int| 0 <= k < ds.len() ==> spec_wf_dep(#[trigger] ds[k]),
    ensures
        spec_split(spec_enc_deps(ds) + rest, '\n') =~= spec_deps_lines(ds) + spec_split(
            rest,
            '\n',
        ),
    decreases ds.len(),
{
    if ds.len() == 0 {
        assert(spec_enc_deps(ds) + rest =~= spec_line(seq!['E']) + rest);
        assert(spec_no_newline(seq!['E']));
        lemma_split_line(seq!['E'], rest);
    } else {
        let tail = spec_enc_deps(ds.drop_first()) + rest;
        assert(spec_enc_deps(ds) + rest =~= spec_line(seq!['M']) + (spec_enc_dep(ds.first())
            + tail));
        assert(spec_no_newline(seq!['M']));
        assert(forall|k: int|
            0 <= k < ds.drop_first().len() ==> ds.drop_first()[k] == ds[k + 1]);
        lemma_split_enc_deps(ds.drop_first(), rest);
        lemma_split_enc_dep(ds.first(), tail);
        lemma_split_line(seq!['M'], spec_enc_dep(ds.first()) + tail);
    }
}

proof fn lemma_split_enc_cs(o: Option<ChecksumModel>, rest: Seq<char>)
    requires
        match o {
            Some(c) => spec_no_newline(c.method) && spec_no_newline(c.hash),
            None => true,
        },
    ensures
        spec_split(spec_enc_checksum(o) + rest, '\n') =~= spec_cs_lines(o) + spec_split(
            rest,
            '\n',
        ),
{
    match o {
        None => {
            assert(spec_enc_checksum(o) + rest =~= spec_line(seq!['N']) + rest);
            assert(spec_no_newline(seq!['N']));
            lemma_split_line(seq!['N'], rest);
        },
        Some(c) => {
            assert(spec_enc_checksum(o) + rest =~= spec_line(seq!['C']) + (spec_line(c.method) + (
            spec_line(c.hash) + rest)));
            assert(spec_no_newline(seq!['C']));
            lemma_split_line(c.hash, rest);
            lemma_split_line(c.method, spec_line(c.hash) + rest);
            lemma_split_line(seq!['C'], spec_line(c.method) + (spec_line(c.hash) + rest));
        },
    }
}

proof fn lemma_split_enc_depblock(o: Option<Seq<DepModel>>, rest: Seq<char>)
    requires
        match o {
            Some(ds) => forall|k: int| 0 <= k < ds.len() ==> spec_wf_dep(#[trigger] ds[k]),
            None => true,
        },
    ensures
        spec_split(spec_enc_depblock(o) + rest, '\n') =~= spec_depblock_lines(o) + spec_split(
            rest,
            '\n',
        ),
{
    match o {
        None => {
            assert(spec_enc_depblock(o) + rest =~= spec_line(seq!['N']) + rest);
            assert(spec_no_newline(seq!['N']));
            lemma_split_line(seq!['N'], rest);
        },
        Some(ds) => {
            assert(spec_enc_depblock(o) + rest =~= spec_line(seq!['D']) + (spec_enc_deps(ds)
                + rest));
            assert(spec_no_newline(seq!['D']));
            lemma_split_enc_deps(ds, rest);
            lemma_split_line(seq!['D'], spec_enc_deps(ds) + rest);
        },
    }
}

proof fn lemma_split_enc_mod(m: InfoModel, rest: Seq<char>)
    requires
        spec_wf_info(m),
    ensures
        spec_split(spec_enc_mod(m) + rest, '\n') =~= spec_mod_lines(m) + spec_split(rest, '\n'),
{
    let r1 = spec_enc_checksum(m.checksum) + rest;
    let r2 = spec_enc_depblock(m.dependencies) + r1;
    assert(spec_enc_mod(m) + rest =~= spec_line(m.name) + (spec_line(m.id) + (spec_line(m.version)
        + (spec_line(m.source) + (spec_line(m.download_url) + r2)))));
    lemma_split_enc_cs(m.checksum, rest);
    lemma_split_enc_depblock(m.dependencies, r1);
    lemma_split_line(m.download_url, r2);
    lemma_split_line(m.source, spec_line(m.download_url) + r2);
    lemma_split_line(m.version, spec_line(m.source) + (spec_line(m.download_url) + r2));
    lemma_split_line(
        m.id,
        spec_line(m.version) + (spec_line(m.source) + (spec_line(m.download_url) + r2)),
    );
    lemma_split_line(
        m.name,
        spec_line(m.id) + (spec_line(m.version) + (spec_line(m.source) + (spec_line(
            m.download_url,
        ) + r2))),
    );
}

proof fn lemma_split_enc_mods(ms: Seq<InfoModel>, rest: Seq<char>)
    requires
        forall|k: int| 0 <= k < ms.len() ==> spec_wf_info(#[trigger] ms[k]),
    ensures
        spec_split(spec_enc_mods(ms) + rest, '\n') =~= spec_mods_lines(ms) + spec_split(
            rest,
            '\n',
        ),
    decreases ms.len(),
{
    if ms.len() == 0 {
        assert(spec_enc_mods(ms) + rest =~= spec_line(seq!['E']) + rest);
        assert(spec_no_newline(seq!['E']));
        lemma_split_line(seq!['E'], rest);
    } else {
        let tail = spec_enc_mods(ms.drop_first()) + rest;
        assert(spec_enc_mods(ms) + rest =~= spec_line(seq!['M']) + (spec_enc_mod(ms.first())
            + tail));
        assert(spec_no_newline(seq!['M']));
        assert(forall|k: int|
            0 <= k < ms.drop_first().len() ==> ms.drop_first()[k] == ms[k + 1]);
        lemma_split_enc_mods(ms.drop_first(), rest);
        lemma_split_enc_mod(ms.first(), tail);
        lemma_split_line(seq!['M'], spec_enc_mod(ms.first()) + tail);
    }
}

/// An encoded document splits into exactly its line list.
proof fn lemma_split_enc_lockfile(m: LockfileModel)
    requires
        spec_wf_lockfile(m),
    ensures
        spec_split(spec_enc_lockfile(m), '\n') =~= spec_lockfile_lines(m),
{
    let b = spec_bool_chars(m.loader.snapshot);
    let r1 = spec_enc_mods(m.mods);
    assert(spec_enc_lockfile(m) =~= spec_line(m.loader.name) + (spec_line(
        m.loader.minecraft_version,
    ) + (spec_line(m.loader.version) + (spec_line(b) + r1))));
    assert(spec_no_newline(b));
    assert(r1 + Seq::<char>::empty() =~= r1);
    assert(spec_split(Seq::<char>::empty(), '\n') =~= seq![Seq::<char>::empty()]);
    lemma_split_enc_mods(m.mods, Seq::<char>::empty());
    lemma_split_line(b, r1);
    lemma_split_line(m.loader.version, spec_line(b) + r1);
    lemma_split_line(m.loader.minecraft_version, spec_line(m.loader.version) + (spec_line(b) + r1));
    lemma_split_line(
        m.loader.name,
        spec_line(m.loader.minecraft_version) + (spec_line(m.loader.version) + (spec_line(b) + r1)),
    );
}

/// Reading a dependency list's lines back yields the list and consumes
/// exactly its lines.
proof fn lemma_parse_deps_lines(ds: Seq<DepModel>, extra: Seq<Seq<char>>)
    ensures
        spec_parse_deps_l(spec_deps_lines(ds) + extra) == Some(
            (ds, spec_deps_lines(ds).len() as nat),
        ),
        spec_deps_lines(ds).len() >= 1,
    decreases ds.len(),
{
    let lines = spec_deps_lines(ds) + extra;
    if ds.len() == 0 {
        assert(lines[0] == seq!['E']);
        assert(spec_parse_deps_l(lines) == Some((Seq::<DepModel>::empty(), 1 as nat)));
        assert(Seq::<DepModel>::empty() =~= ds);
    } else {
        let d = ds.first();
        assert(lines[0] == seq!['M']);
        assert(lines[0] != seq!['E']) by {
            assert(lines[0][0] == 'M');
        }
        lemma_parse_deps_lines(ds.drop_first(), extra);
        assert(lines.len() >= 5);
        assert(lines.subrange(1, 5) =~= spec_dep_lines(d));
        assert(spec_parse_bool(spec_bool_chars(d.required)) == Some(d.required)) by {
            if d.required {
                assert(spec_bool_chars(d.required)[0] == 'T');
            } else {
                assert(spec_bool_chars(d.required)[0] == 'F');
                assert(spec_bool_chars(d.required) != seq!['T']) by {
                    assert(spec_bool_chars(d.required)[0] != 'T');
                }
            }
        }
        assert(spec_parse_dep_l(spec_dep_lines(d)) == Some(d));
        assert(lines.skip(5) =~= spec_deps_lines(ds.drop_first()) + extra);
        assert(seq![d] + ds.drop_first() =~= ds);
    }
}

/// Reading a checksum block's lines back.
proof fn lemma_parse_cs_lines(o: Option<ChecksumModel>, extra: Seq<Seq<char>>)
    ensures
        spec_parse_cs_l(spec_cs_lines(o) + extra) == Some((o, spec_cs_lines(o).len() as nat)),
        spec_cs_lines(o).len() >= 1,
{
    let lines = spec_cs_lines(o) + extra;
    match o {
        None => {
            assert(lines[0] == seq!['N']);
        },
        Some(c) => {
            assert(lines[0] == seq!['C']);
            assert(lines[0] != seq!['N']) by {
                assert(lines[0][0] == 'C');
            }
            assert(lines[1] == c.method);
            assert(lines[2] == c.hash);
        },
    }
}

/// Reading one record's lines back.
proof fn lemma_parse_mod_lines(m: InfoModel, extra: Seq<Seq<char>>)
    ensures
        spec_parse_mod_l(spec_mod_lines(m) + extra) == Some((m, spec_mod_lines(m).len() as nat)),
        spec_mod_lines(m).len() >= 7,
{
    let lines = spec_mod_lines(m) + extra;
    match m.dependencies {
        None => {
            assert(lines[5] == seq!['N']);
            assert(lines.skip(6) =~= spec_cs_lines(m.checksum) + extra);
            lemma_parse_cs_lines(m.checksum, extra);
        },
        Some(ds) => {
            assert(lines[5] == seq!['D']);
            assert(lines[5] != seq!['N']) by {
                assert(lines[5][0] == 'D');
            }
            assert(lines.skip(6) =~= spec_deps_lines(ds) + (spec_cs_lines(m.checksum) + extra));
            lemma_parse_deps_lines(ds, spec_cs_lines(m.checksum) + extra);
            let nd = spec_deps_lines(ds).len();
            assert(lines.skip(6 + nd as int) =~= spec_cs_lines(m.checksum) + extra);
            lemma_parse_cs_lines(m.checksum, extra);
        },
    }
}

/// Reading the artifact list's lines back.
#[verifier::rlimit(100)]
proof fn lemma_parse_mods_lines(ms: Seq<InfoModel>, extra: Seq<Seq<char>>)
    requires
        extra.len() >= 1,
    ensures
        spec_parse_mods_l(spec_mods_lines(ms) + extra) == Some(
            (ms, spec_mods_lines(ms).len() as nat),
        ),
        spec_mods_lines(ms).len() >= 1,
    decreases ms.len(),
{
    let lines = spec_mods_lines(ms) + extra;
    if ms.len() == 0 {
        assert(lines[0] == seq!['E']);
        assert(Seq::<InfoModel>::empty() =~= ms);
    } else {
        let m = ms.first();
        assert(lines[0] == seq!['M']);
        assert(lines[0] != seq!['E']) by {
            assert(lines[0][0] == 'M');
        }
        lemma_parse_mods_lines(ms.drop_first(), extra);
        assert(lines.skip(1) =~= spec_mod_lines(m) + (spec_mods_lines(ms.drop_first()) + extra));
        lemma_parse_mod_lines(m, spec_mods_lines(ms.drop_first()) + extra);
        let nm = spec_mod_lines(m).len();
        assert(1 + nm < lines.len());
        assert(lines.skip(1 + nm as int) =~= spec_mods_lines(ms.drop_first()) + extra);
        assert(seq![m] + ms.drop_first() =~= ms);
    }
}

/// Writing a lockfile out and reading the document back yields a
/// structurally identical lockfile: the same loader configuration and the
/// same artifact records in the same order.
pub proof fn lemma_encode_parse_roundtrip(m: LockfileModel)
    requires
        spec_wf_lockfile(m),
    ensures
        spec_parse_lockfile(spec_enc_lockfile(m)) == Some(m),
{
    lemma_split_enc_lockfile(m);
    let lines = spec_split(spec_enc_lockfile(m), '\n');
    let head = seq![
        m.loader.name,
        m.loader.minecraft_version,
        m.loader.version,
        spec_bool_chars(m.loader.snapshot),
    ];
    assert(lines =~= head + spec_mods_lines(m.mods) + seq![Seq::<char>::empty()]);
    lemma_parse_mods_lines(m.mods, seq![Seq::<char>::empty()]);
    assert(lines.skip(4) =~= spec_mods_lines(m.mods) + seq![Seq::<char>::empty()]);
    assert(spec_parse_bool(lines[3]) == Some(m.loader.snapshot)) by {
        if m.loader.snapshot {
            assert(spec_bool_chars(m.loader.snapshot)[0] == 'T');
        } else {
            assert(spec_bool_chars(m.loader.snapshot)[0] == 'F');
            assert(spec_bool_chars(m.loader.snapshot) != seq!['T']) by {
                assert(spec_bool_chars(m.loader.snapshot)[0] != 'T');
            }
        }
    }
    assert(lines.last() == Seq::<char>::empty());
    let parsed = spec_parse_lockfile(spec_enc_lockfile(m));
    assert(parsed is Some);
    assert(parsed->0.loader == m.loader);
    assert(parsed->0.mods == m.mods);
    assert(parsed->0 == m);
}

} // verus!

verus! {

/// Append one field as a line of the document.
fn push_line(out: &mut String, s: &str)
    ensures
        final(out)@ == old(out)@ + spec_line(s@),
{
    out.append(s);
    out.append("\n");
    proof {
        reveal_strlit("\n");
        assert("\n"@ =~= seq!['\n']);
        assert(out@ =~= old(out)@ + spec_line(s@));
    }
}

/// Append a flag line.
fn push_bool(out: &mut String, b: bool)
    ensures
        final(out)@ == old(out)@ + spec_line(spec_bool_chars(b)),
{
    if b {
        push_line(out, "T");
        proof {
            reveal_strlit("T");
            assert("T"@ =~= spec_bool_chars(b));
        }
    } else {
        push_line(out, "F");
        proof {
            reveal_strlit("F");
            assert("F"@ =~= spec_bool_chars(b));
        }
    }
}

fn encode_dep(out: &mut String, d: &Dependency)
    ensures
        final(out)@ == old(out)@ + spec_enc_dep(d@),
{
    push_line(out, d.id.as_str());
    proof {
        assert(out@ =~= old(out)@ + spec_line(d@.id));
    }
    push_line(out, d.source.as_str());
    proof {
        assert(out@ =~= old(out)@ + (spec_line(d@.id) + spec_line(d@.source)));
    }
    push_line(out, d.name.as_str());
    proof {
        assert(out@ =~= old(out)@ + (spec_line(d@.id) + spec_line(d@.source) + spec_line(
            d@.name,
        )));
    }
    push_bool(out, d.required);
    proof {
        assert(out@ =~= old(out)@ + spec_enc_dep(d@));
    }
}

fn encode_deps(out: &mut String, ds: &Vec<Dependency>)
    ensures
        final(out)@ == old(out)@ + spec_enc_deps(ds@.map_values(|d: Dependency| d@)),
{
    let ghost dm = ds@.map_values(|d: Dependency| d@);
    let n = ds.len();
    let mut i: usize = 0;
    proof {
        assert(dm.skip(0) =~= dm);
    }
    while i < n
        invariant
            dm == ds@.map_values(|d: Dependency| d@),
            n == ds@.len(),
            n == dm.len(),
            0 <= i <= n,
            out@ + spec_enc_deps(dm.skip(i as int)) == old(out)@ + spec_enc_deps(dm),
        decreases n - i,
    {
        let ghost before = out@;
        push_line(out, "M");
        encode_dep(out, &ds[i]);
        proof {
            reveal_strlit("M");
            assert("M"@ =~= seq!['M']);
            assert(dm.skip(i as int).first() == dm[i as int]);
            assert(dm[i as int] == ds@[i as int]@);
            assert(dm.skip(i as int).drop_first() =~= dm.skip(i + 1));
            assert(spec_enc_deps(dm.skip(i as int)) == spec_line(seq!['M']) + spec_enc_dep(
                dm[i as int],
            ) + spec_enc_deps(dm.skip(i + 1)));
            assert(out@ =~= before + (spec_line(seq!['M']) + spec_enc_dep(dm[i as int])));
            assert(out@ + spec_enc_deps(dm.skip(i + 1)) =~= before + spec_enc_deps(
                dm.skip(i as int),
            ));
        }
        i += 1;
    }
    let ghost before = out@;
    push_line(out, "E");
    proof {
        reveal_strlit("E");
        assert("E"@ =~= seq!['E']);
        assert(dm.skip(n as int) =~= Seq::<DepModel>::empty());
        assert(spec_enc_deps(dm.skip(n as int)) == spec_line(seq!['E']));
        assert(out@ =~= before + spec_enc_deps(dm.skip(n as int)));
    }
}

fn encode_mod(out: &mut String, m: &Info)
    ensures
        final(out)@ == old(out)@ + spec_enc_mod(m@),
{
    push_line(out, m.name.as_str());
    proof {
        assert(out@ =~= old(out)@ + spec_line(m@.name));
    }
    push_line(out, m.id.as_str());
    proof {
        assert(out@ =~= old(out)@ + (spec_line(m@.name) + spec_line(m@.id)));
    }
    push_line(out, m.version.as_str());
    proof {
        assert(out@ =~= old(out)@ + (spec_line(m@.name) + spec_line(m@.id) + spec_line(
            m@.version,
        )));
    }
    push_line(out, m.source.as_str());
    proof {
        assert(out@ =~= old(out)@ + (spec_line(m@.name) + spec_line(m@.id) + spec_line(m@.version)
            + spec_line(m@.source)));
    }
    push_line(out, m.download_url.as_str());
    proof {
        assert(out@ =~= old(out)@ + (spec_line(m@.name) + spec_line(m@.id) + spec_line(m@.version)
            + spec_line(m@.source) + spec_line(m@.download_url)));
    }
    let ghost head = spec_line(m@.name) + spec_line(m@.id) + spec_line(m@.version) + spec_line(
        m@.source,
    ) + spec_line(m@.download_url);
    match &m.dependencies {
        None => {
            push_line(out, "N");
            proof {
                reveal_strlit("N");
                assert("N"@ =~= seq!['N']);
                assert(out@ =~= old(out)@ + (head + spec_enc_depblock(m@.dependencies)));
            }
        },
        Some(ds) => {
            push_line(out, "D");
            encode_deps(out, ds);
            proof {
                reveal_strlit("D");
                assert("D"@ =~= seq!['D']);
                assert(spec_enc_depblock(m@.dependencies) == spec_line(seq!['D'])
                    + spec_enc_deps(ds@.map_values(|d: Dependency| d@)));
                assert(out@ =~= old(out)@ + (head + spec_enc_depblock(m@.dependencies)));
            }
        },
    }
    match &m.checksum {
        None => {
            push_line(out, "N");
            proof {
                reveal_strlit("N");
                assert("N"@ =~= seq!['N']);
                assert(out@ =~= old(out)@ + spec_enc_mod(m@));
            }
        },
        Some(c) => {
            push_line(out, "C");
            push_line(out, c.method.as_str());
            push_line(out, c.hash.as_str());
            proof {
                reveal_strlit("C");
                assert("C"@ =~= seq!['C']);
                assert(spec_enc_checksum(m@.checksum) == spec_line(seq!['C']) + spec_line(
                    c@.method,
                ) + spec_line(c@.hash));
                assert(out@ =~= old(out)@ + spec_enc_mod(m@));
            }
        },
    }
}

fn encode_mods(out: &mut String, mods: &Vec<Info>)
    ensures
        final(out)@ == old(out)@ + spec_enc_mods(mods@.map_values(|m: Info| m@)),
{
    let ghost mm = mods@.map_values(|m: Info| m@);
    let n = mods.len();
    let mut i: usize = 0;
    proof {
        assert(mm.skip(0) =~= mm);
    }
    while i < n
        invariant
            mm == mods@.map_values(|m: Info| m@),
            n == mods@.len(),
            n == mm.len(),
            0 <= i <= n,
            out@ + spec_enc_mods(mm.skip(i as int)) == old(out)@ + spec_enc_mods(mm),
        decreases n - i,
    {
        let ghost before = out@;
        push_line(out, "M");
        encode_mod(out, &mods[i]);
        proof {
            reveal_strlit("M");
            assert("M"@ =~= seq!['M']);
            assert(mm.skip(i as int).first() == mm[i as int]);
            assert(mm[i as int] == mods@[i as int]@);
            assert(mm.skip(i as int).drop_first() =~= mm.skip(i + 1));
            assert(spec_enc_mods(mm.skip(i as int)) == spec_line(seq!['M']) + spec_enc_mod(
                mm[i as int],
            ) + spec_enc_mods(mm.skip(i + 1)));
            assert(out@ =~= before + (spec_line(seq!['M']) + spec_enc_mod(mm[i as int])));
            assert(out@ + spec_enc_mods(mm.skip(i + 1)) =~= before + spec_enc_mods(
                mm.skip(i as int),
            ));
        }
        i += 1;
    }
    let ghost before = out@;
    push_line(out, "E");
    proof {
        reveal_strlit("E");
        assert("E"@ =~= seq!['E']);
        assert(mm.skip(n as int) =~= Seq::<InfoModel>::empty());
        assert(spec_enc_mods(mm.skip(n as int)) == spec_line(seq!['E']));
        assert(out@ =~= before + spec_enc_mods(mm.skip(n as int)));
    }
}

/// Write a lockfile out as its persisted document.
pub fn encode_lockfile(lf: &Lockfile) -> (r: String)
    ensures
        r@ == spec_enc_lockfile(lf@),
{
    let mut out = String::new();
    push_line(&mut out, lf.loader.name.as_str());
    proof {
        assert(out@ =~= spec_line(lf@.loader.name));
    }
    push_line(&mut out, lf.loader.minecraft_version.as_str());
    proof {
        assert(out@ =~= spec_line(lf@.loader.name) + spec_line(lf@.loader.minecraft_version));
    }
    push_line(&mut out, lf.loader.version.as_str());
    proof {
        assert(out@ =~= spec_line(lf@.loader.name) + spec_line(lf@.loader.minecraft_version)
            + spec_line(lf@.loader.version));
    }
    push_bool(&mut out, lf.loader.snapshot);
    proof {
        assert(out@ =~= spec_line(lf@.loader.name) + spec_line(lf@.loader.minecraft_version)
            + spec_line(lf@.loader.version) + spec_line(spec_bool_chars(lf@.loader.snapshot)));
    }
    encode_mods(&mut out, &lf.mods);
    proof {
        assert(out@ =~= spec_enc_lockfile(lf@));
    }
    out
}

/// Whether every field of the lockfile can stand on its own line, so that
/// the document will read back as written.
pub fn encodable(lf: &Lockfile) -> (r: bool)
    ensures
        r == spec_wf_lockfile(lf@),
{
    if !no_newline(lf.loader.name.as_str()) {
        return false;
    }
    if !no_newline(lf.loader.minecraft_version.as_str()) {
        return false;
    }
    if !no_newline(lf.loader.version.as_str()) {
        return false;
    }
    let n = lf.mods.len();
    let mut i: usize = 0;
    while i < n
        invariant
            n == lf.mods@.len(),
            n == lf@.mods.len(),
            0 <= i <= n,
            spec_no_newline(lf@.loader.name),
            spec_no_newline(lf@.loader.minecraft_version),
            spec_no_newline(lf@.loader.version),
            forall|k: int| 0 <= k < i ==> spec_wf_info(#[trigger] lf@.mods[k]),
        decreases n - i,
    {
        proof {
            assert(lf@.mods[i as int] == lf.mods@[i as int]@);
        }
        if !info_encodable(&lf.mods[i]) {
            return false;
        }
        i += 1;
    }
    true
}

fn info_encodable(m: &Info) -> (r: bool)
    ensures
        r == spec_wf_info(m@),
{
    if !(no_newline(m.name.as_str()) && no_newline(m.id.as_str()) && no_newline(m.version.as_str())
        && no_newline(m.source.as_str()) && no_newline(m.download_url.as_str())) {
        return false;
    }
    match &m.checksum {
        Some(c) => {
            if !(no_newline(c.method.as_str()) && no_newline(c.hash.as_str())) {
                return false;
            }
        },
        None => {},
    }
    match &m.dependencies {
        Some(ds) => {
            let ghost dm = ds@.map_values(|d: Dependency| d@);
            let n = ds.len();
            let mut k: usize = 0;
            while k < n
                invariant
                    dm == ds@.map_values(|d: Dependency| d@),
                    m@.dependencies == Some(dm),
                    n == ds@.len(),
                    n == dm.len(),
                    0 <= k <= n,
                    forall|j: int| 0 <= j < k ==> spec_wf_dep(#[trigger] dm[j]),
                decreases n - k,
            {
                proof {
                    assert(dm[k as int] == ds@[k as int]@);
                }
                let d = &ds[k];
                if !(no_newline(d.id.as_str()) && no_newline(d.source.as_str()) && no_newline(
                    d.name.as_str(),
                )) {
                    proof {
                        assert(!spec_wf_dep(dm[k as int]));
                        assert(match m@.dependencies {
                            Some(ds2) => !spec_wf_dep(ds2[k as int]),
                            None => false,
                        });
                    }
                    return false;
                }
                k += 1;
            }
        },
        None => {},
    }
    true
}

fn no_newline(s: &str) -> (r: bool)
    ensures
        r == spec_no_newline(s@),
{
    !strutil::str_contains_char(s, '\n')
}

} // verus!

verus! {

fn parse_bool_line(l: &String) -> (r: Option<bool>)
    ensures
        r == spec_parse_bool(l@),
{
    proof {
        reveal_strlit("T");
        reveal_strlit("F");
        assert("T"@ =~= seq!['T']);
        assert("F"@ =~= seq!['F']);
    }
    if strutil::string_eq_str(l, "T") {
        Some(true)
    } else if strutil::string_eq_str(l, "F") {
        Some(false)
    } else {
        None
    }
}

fn parse_deps_lines(lines: &Vec<String>, i: usize) -> (r: Option<(Vec<Dependency>, usize)>)
    requires
        i <= lines.deep_view().len(),
    ensures
        match r {
            Some(p) => i < p.1 <= lines.deep_view().len() && spec_parse_deps_l(
                lines.deep_view().skip(i as int),
            ) == Some((p.0@.map_values(|d: Dependency| d@), (p.1 - i) as nat)),
            None => spec_parse_deps_l(lines.deep_view().skip(i as int)) is None,
        },
    decreases lines.deep_view().len() - i,
{
    let ghost l = lines.deep_view();
    let n = lines.len();
    proof {
        assert(n == l.len());
        assert(l.skip(i as int).len() == l.len() - i);
    }
    if i == n {
        return None;
    }
    proof {
        assert(l.skip(i as int)[0] == l[i as int]);
        assert(l[i as int] == lines@[i as int]@);
        reveal_strlit("E");
        reveal_strlit("M");
        assert("E"@ =~= seq!['E']);
        assert("M"@ =~= seq!['M']);
    }
    if strutil::string_eq_str(&lines[i], "E") {
        let v: Vec<Dependency> = Vec::new();
        proof {
            assert(v@.map_values(|d: Dependency| d@) =~= Seq::<DepModel>::empty());
        }
        return Some((v, i + 1));
    }
    if !strutil::string_eq_str(&lines[i], "M") {
        return None;
    }
    if n - i < 5 {
        return None;
    }
    let ghost four = l.skip(i as int).subrange(1, 5);
    proof {
        assert(four[0] == l[i + 1]);
        assert(four[1] == l[i + 2]);
        assert(four[2] == l[i + 3]);
        assert(four[3] == l[i + 4]);
        assert(l[i + 4] == lines@[i + 4]@);
    }
    let req = match parse_bool_line(&lines[i + 4]) {
        Some(b) => b,
        None => {
            proof {
                assert(spec_parse_dep_l(four) is None);
            }
            return None;
        },
    };
    let d = Dependency {
        id: lines[i + 1].clone(),
        source: lines[i + 2].clone(),
        name: lines[i + 3].clone(),
        required: req,
    };
    proof {
        assert(l[i + 1] == lines@[i + 1]@);
        assert(l[i + 2] == lines@[i + 2]@);
        assert(l[i + 3] == lines@[i + 3]@);
        assert(spec_parse_dep_l(four) == Some(d@));
    }
    match parse_deps_lines(lines, i + 5) {
        Some((rest, j)) => {
            let ghost rest_m = rest@.map_values(|x: Dependency| x@);
            let mut out = rest;
            out.insert(0, d);
            proof {
                assert(out@ =~= seq![d] + rest@);
                assert(out@.map_values(|x: Dependency| x@) =~= seq![d@] + rest_m);
                assert(l.skip(i as int).skip(5) =~= l.skip(i + 5));
            }
            Some((out, j))
        },
        None => {
            proof {
                assert(l.skip(i as int).skip(5) =~= l.skip(i + 5));
            }
            None
        },
    }
}

fn parse_cs_lines(lines: &Vec<String>, i: usize) -> (r: Option<(Option<Checksum>, usize)>)
    requires
        i <= lines.deep_view().len(),
    ensures
        match r {
            Some(p) => i < p.1 <= lines.deep_view().len() && spec_parse_cs_l(
                lines.deep_view().skip(i as int),
            ) == Some(
                (
                    match p.0 {
                        Some(c) => Some(c@),
                        None => None,
                    },
                    (p.1 - i) as nat,
                ),
            ),
            None => spec_parse_cs_l(lines.deep_view().skip(i as int)) is None,
        },
{
    let ghost l = lines.deep_view();
    let n = lines.len();
    proof {
        assert(n == l.len());
        assert(l.skip(i as int).len() == l.len() - i);
    }
    if i == n {
        return None;
    }
    proof {
        assert(l.skip(i as int)[0] == l[i as int]);
        assert(l[i as int] == lines@[i as int]@);
        reveal_strlit("N");
        reveal_strlit("C");
        assert("N"@ =~= seq!['N']);
        assert("C"@ =~= seq!['C']);
    }
    if strutil::string_eq_str(&lines[i], "N") {
        return Some((None, i + 1));
    }
    if !strutil::string_eq_str(&lines[i], "C") {
        return None;
    }
    if n - i < 3 {
        return None;
    }
    proof {
        assert(l.skip(i as int)[1] == l[i + 1]);
        assert(l.skip(i as int)[2] == l[i + 2]);
        assert(l[i + 1] == lines@[i + 1]@);
        assert(l[i + 2] == lines@[i + 2]@);
    }
    let c = Checksum { method: lines[i + 1].clone(), hash: lines[i + 2].clone() };
    Some((Some(c), i + 3))
}

fn parse_mod_lines(lines: &Vec<String>, i: usize) -> (r: Option<(Info, usize)>)
    requires
        i <= lines.deep_view().len(),
    ensures
        match r {
            Some(p) => i < p.1 <= lines.deep_view().len() && spec_parse_mod_l(
                lines.deep_view().skip(i as int),
            ) == Some((p.0@, (p.1 - i) as nat)),
            None => spec_parse_mod_l(lines.deep_view().skip(i as int)) is None,
        },
{
    let ghost l = lines.deep_view();
    let n = lines.len();
    proof {
        assert(n == l.len());
        assert(l.skip(i as int).len() == l.len() - i);
    }
    if n - i < 6 {
        return None;
    }
    proof {
        assert(l.skip(i as int)[0] == l[i as int]);
        assert(l.skip(i as int)[1] == l[i + 1]);
        assert(l.skip(i as int)[2] == l[i + 2]);
        assert(l.skip(i as int)[3] == l[i + 3]);
        assert(l.skip(i as int)[4] == l[i + 4]);
        assert(l.skip(i as int)[5] == l[i + 5]);
        assert(l[i as int] == lines@[i as int]@);
        assert(l[i + 1] == lines@[i + 1]@);
        assert(l[i + 2] == lines@[i + 2]@);
        assert(l[i + 3] == lines@[i + 3]@);
        assert(l[i + 4] == lines@[i + 4]@);
        assert(l[i + 5] == lines@[i + 5]@);
        reveal_strlit("N");
        reveal_strlit("D");
        assert("N"@ =~= seq!['N']);
        assert("D"@ =~= seq!['D']);
    }
    let deps: Option<Vec<Dependency>>;
    let after_deps: usize;
    if strutil::string_eq_str(&lines[i + 5], "N") {
        deps = None;
        after_deps = i + 6;
    } else if strutil::string_eq_str(&lines[i + 5], "D") {
        proof {
            assert(l.skip(i as int).skip(6) =~= l.skip(i + 6));
        }
        match parse_deps_lines(lines, i + 6) {
            Some((ds, j)) => {
                deps = Some(ds);
                after_deps = j;
            },
            None => {
                return None;
            },
        }
    } else {
        return None;
    }
    proof {
        assert(l.skip(i as int).skip(after_deps - i) =~= l.skip(after_deps as int));
    }
    match parse_cs_lines(lines, after_deps) {
        Some((cs, j2)) => {
            let info = Info {
                name: lines[i].clone(),
                id: lines[i + 1].clone(),
                version: lines[i + 2].clone(),
                source: lines[i + 3].clone(),
                download_url: lines[i + 4].clone(),
                dependencies: deps,
                checksum: cs,
            };
            Some((info, j2))
        },
        None => None,
    }
}

fn parse_mods_lines(lines: &Vec<String>, i: usize) -> (r: Option<(Vec<Info>, usize)>)
    requires
        i <= lines.deep_view().len(),
    ensures
        match r {
            Some(p) => i < p.1 <= lines.deep_view().len() && spec_parse_mods_l(
                lines.deep_view().skip(i as int),
            ) == Some((p.0@.map_values(|m: Info| m@), (p.1 - i) as nat)),
            None => spec_parse_mods_l(lines.deep_view().skip(i as int)) is None,
        },
    decreases lines.deep_view().len() - i,
{
    let ghost l = lines.deep_view();
    let n = lines.len();
    proof {
        assert(n == l.len());
        assert(l.skip(i as int).len() == l.len() - i);
    }
    if i == n {
        return None;
    }
    proof {
        assert(l.skip(i as int)[0] == l[i as int]);
        assert(l[i as int] == lines@[i as int]@);
        reveal_strlit("E");
        reveal_strlit("M");
        assert("E"@ =~= seq!['E']);
        assert("M"@ =~= seq!['M']);
    }
    if strutil::string_eq_str(&lines[i], "E") {
        let v: Vec<Info> = Vec::new();
        proof {
            assert(v@.map_values(|m: Info| m@) =~= Seq::<InfoModel>::empty());
        }
        return Some((v, i + 1));
    }
    if !strutil::string_eq_str(&lines[i], "M") {
        return None;
    }
    proof {
        assert(l.skip(i as int).skip(1) =~= l.skip(i + 1));
    }
    match parse_mod_lines(lines, i + 1) {
        Some((m, j)) => {
            if j >= n {
                proof {
                    assert(!(1 + (j - (i + 1)) < l.skip(i as int).len()));
                }
                return None;
            }
            match parse_mods_lines(lines, j) {
                Some((rest, j2)) => {
                    let ghost rest_m = rest@.map_values(|x: Info| x@);
                    let mut out = rest;
                    out.insert(0, m);
                    proof {
                        assert(out@ =~= seq![out@[0]] + rest@);
                        assert(out@.map_values(|x: Info| x@) =~= seq![out@[0]@] + rest_m);
                        assert(l.skip(i as int).skip(1 + (j - (i + 1))) =~= l.skip(j as int));
                    }
                    Some((out, j2))
                },
                None => {
                    proof {
                        assert(l.skip(i as int).skip(1 + (j - (i + 1))) =~= l.skip(j as int));
                    }
                    None
                },
            }
        },
        None => None,
    }
}

/// Read a persisted document back into a lockfile, or nothing when the
/// document does not follow the format.
pub fn parse_lockfile(s: &str) -> (r: Option<Lockfile>)
    ensures
        match r {
            Some(lf) => spec_parse_lockfile(s@) == Some(lf@),
            None => spec_parse_lockfile(s@) is None,
        },
{
    let lines = strutil::split_str(s, '\n');
    let ghost l = lines.deep_view();
    let n = lines.len();
    proof {
        assert(n == l.len());
    }
    if n < 5 {
        return None;
    }
    proof {
        assert(l[3] == lines@[3]@);
        assert(l[0] == lines@[0]@);
        assert(l[1] == lines@[1]@);
        assert(l[2] == lines@[2]@);
        assert(l[n - 1] == lines@[n - 1]@);
    }
    let snap = match parse_bool_line(&lines[3]) {
        Some(b) => b,
        None => {
            return None;
        },
    };
    match parse_mods_lines(&lines, 4) {
        Some((mods, j)) => {
            if j >= n || j + 1 != n {
                return None;
            }
            if lines[n - 1].as_str().unicode_len() != 0 {
                proof {
                    assert(l.last() != Seq::<char>::empty());
                }
                return None;
            }
            proof {
                assert(l.last() =~= Seq::<char>::empty());
            }
            let lf = Lockfile {
                loader: Loader::new(
                    lines[0].as_str(),
                    lines[1].as_str(),
                    lines[2].as_str(),
                    snap,
                ),
                mods,
            };
            Some(lf)
        },
        None => None,
    }
}

} // verus!
