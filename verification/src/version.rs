//! Version tokens, parsed and ordered.
//!
//! A token is split on dots into numeric components; its shape decides
//! how the loader resolvers treat it, and ordering against the historical
//! cutoffs compares component lists lexicographically.

use vstd::prelude::*;
use vstd::string::{StrSliceExecFns, StringExecFns};

use crate::strutil::spec_contains_char;

verus! {

/// The shape of a parsed version token.
///
/// `Ideal` is a three-component numeric version such as `1.9.4`; `General`
/// is any other dot-separated all-numeric token such as `1.9` or
/// `12.16.1.1938`; `Complex` is everything else, including the `latest`
/// sentinel and legacy tokens such as `1.7.10_pre4`.
#[derive(PartialEq, Eq, Structural, Clone, Copy, Debug)]
pub enum VersionKind {
    Ideal,
    General,
    Complex,
}

/// A parsed version: its shape and its leading numeric components, kept
/// only to evaluate ordering against the historical cutoffs.
pub struct VersionTag {
    pub kind: VersionKind,
    pub chunks: Vec<u64>,
}

/// The outcome of comparing two versions component-wise.
#[derive(PartialEq, Eq, Structural, Clone, Copy, Debug)]
pub enum Cmp {
    Lt,
    Eq,
    Gt,
}

pub open spec fn spec_is_digit(c: char) -> bool {
    48 <= (c as u32) <= 57
}

pub open spec fn spec_digit_val(c: char) -> int {
    (c as u32) - 48
}

/// The numeric value of a digit string, most significant digit first.
pub open spec fn spec_chunk_val(s: Seq<char>) -> int
    decreases s.len(),
{
    if s.len() == 0 {
        0
    } else {
        spec_chunk_val(s.drop_last()) * 10 + spec_digit_val(s.last())
    }
}

/// A component made only of digits.
pub open spec fn spec_is_digits(s: Seq<char>) -> bool {
    s.len() > 0 && forall|i: int| 0 <= i < s.len() ==> spec_is_digit(s[i])
}

/// A digit component whose value a `u64` can hold.
pub open spec fn spec_is_numeric(s: Seq<char>) -> bool {
    spec_is_digits(s) && spec_chunk_val(s) <= u64::MAX
}

/// A numeric component with no leading zero, as a semantic version wants.
pub open spec fn spec_is_canonical(s: Seq<char>) -> bool {
    spec_is_numeric(s) && (s.len() == 1 || s[0] != '0')
}

/// The components of `s`, split on `.`.
pub open spec fn spec_split(s: Seq<char>) -> Seq<Seq<char>> {
    crate::strutil::spec_split(s, '.')
}

/// The values of the longest numeric prefix of the components.
pub open spec fn spec_numeric_prefix(comps: Seq<Seq<char>>) -> Seq<int>
    decreases comps.len(),
{
    if comps.len() == 0 {
        Seq::empty()
    } else if spec_is_numeric(comps.first()) {
        seq![spec_chunk_val(comps.first())] + spec_numeric_prefix(comps.drop_first())
    } else {
        Seq::empty()
    }
}

/// The shape a token parses to.
pub open spec fn spec_kind(s: Seq<char>) -> VersionKind {
    let comps = spec_split(s);
    if comps.len() == 3 && (forall|i: int| 0 <= i < 3 ==> spec_is_canonical(comps[i])) {
        VersionKind::Ideal
    } else if forall|i: int| 0 <= i < comps.len() ==> spec_is_numeric(comps[i]) {
        VersionKind::General
    } else {
        VersionKind::Complex
    }
}

/// The numeric components a token parses to.
pub open spec fn spec_chunks(s: Seq<char>) -> Seq<int> {
    spec_numeric_prefix(spec_split(s))
}

/// A token that names a concrete, non-legacy version.
pub open spec fn spec_valid_version(s: Seq<char>) -> bool {
    spec_kind(s) != VersionKind::Complex
}

/// Component-wise comparison; a missing component compares below any
/// present one, so `1.9` sits below `1.9.4`.
pub open spec fn spec_cmp_chunks(a: Seq<int>, b: Seq<int>) -> Cmp
    decreases a.len(),
{
    if a.len() == 0 && b.len() == 0 {
        Cmp::Eq
    } else if a.len() == 0 {
        Cmp::Lt
    } else if b.len() == 0 {
        Cmp::Gt
    } else if a.first() < b.first() {
        Cmp::Lt
    } else if a.first() > b.first() {
        Cmp::Gt
    } else {
        spec_cmp_chunks(a.drop_first(), b.drop_first())
    }
}

/// The values of a `u64` vector, as mathematical integers.
pub open spec fn spec_vals(v: Seq<u64>) -> Seq<int> {
    v.map_values(|x: u64| x as int)
}

impl VersionTag {
    /// A parse is faithful when kind and chunks are the ones the token's
    /// characters dictate.
    pub open spec fn matches(&self, s: Seq<char>) -> bool {
        self.kind == spec_kind(s) && spec_vals(self.chunks@) == spec_chunks(s)
    }
}

/// A digit prefix never exceeds the whole component's value.
proof fn lemma_chunk_prefix_le(s: Seq<char>, i: int)
    requires
        spec_is_digits(s),
        0 <= i <= s.len(),
    ensures
        spec_chunk_val(s.subrange(0, i)) <= spec_chunk_val(s),
    decreases s.len() - i,
{
    if i == s.len() {
        assert(s.subrange(0, i) =~= s);
    } else {
        lemma_chunk_prefix_le(s, i + 1);
        let p = s.subrange(0, i + 1);
        assert(p.drop_last() =~= s.subrange(0, i));
        assert(spec_chunk_val(p) == spec_chunk_val(s.subrange(0, i)) * 10 + spec_digit_val(
            s[i],
        ));
        assert(spec_chunk_val(s.subrange(0, i)) >= 0) by {
            lemma_chunk_val_nonneg(s.subrange(0, i));
        }
        assert(spec_digit_val(s[i]) >= 0);
    }
}

proof fn lemma_chunk_val_nonneg(s: Seq<char>)
    requires
        forall|i: int| 0 <= i < s.len() ==> spec_is_digit(s[i]),
    ensures
        spec_chunk_val(s) >= 0,
    decreases s.len(),
{
    if s.len() > 0 {
        lemma_chunk_val_nonneg(s.drop_last());
    }
}

/// The numeric value of one component, or `None` when it is not a digit
/// string whose value fits a `u64`.
fn chunk_value(s: &str) -> (r: Option<u64>)
    ensures
        match r {
            Some(v) => spec_is_numeric(s@) && v == spec_chunk_val(s@),
            None => !spec_is_numeric(s@),
        },
{
    let len = s.unicode_len();
    if len == 0 {
        return None;
    }
    let mut acc: u64 = 0;
    let mut i: usize = 0;
    while i < len
        invariant
            len == s@.len(),
            0 < len,
            0 <= i <= len,
            forall|j: int| 0 <= j < i ==> spec_is_digit(s@[j]),
            acc == spec_chunk_val(s@.subrange(0, i as int)),
        decreases len - i,
    {
        let c = s.get_char(i);
        let u = c as u32;
        if u < 48 || u > 57 {
            assert(!spec_is_digit(s@[i as int]));
            return None;
        }
        let d = (u - 48) as u64;
        proof {
            assert(s@.subrange(0, i + 1).drop_last() =~= s@.subrange(0, i as int));
        }
        if acc > u64::MAX / 10 || acc * 10 > u64::MAX - d {
            proof {
                if spec_is_digits(s@) {
                    lemma_chunk_prefix_le(s@, i + 1);
                }
            }
            return None;
        }
        acc = acc * 10 + d;
        i += 1;
    }
    proof {
        assert(s@.subrange(0, len as int) =~= s@);
    }
    Some(acc)
}

/// Whether a nonempty digit component carries a leading zero.
fn chunk_canonical(s: &str, v: u64) -> (r: bool)
    requires
        spec_is_numeric(s@),
        v == spec_chunk_val(s@),
    ensures
        r == spec_is_canonical(s@),
{
    let len = s.unicode_len();
    if len == 1 {
        true
    } else {
        s.get_char(0) != '0'
    }
}

impl VersionTag {
    /// Parse a version token. Every token parses; an unrecognized shape
    /// comes back as `Complex` with its leading numeric components.
    pub fn parse(s: &str) -> (r: VersionTag)
        ensures
            r.matches(s@),
    {
        let comps = crate::strutil::split_str(s, '.');
        let mut vals: Vec<u64> = Vec::new();
        let mut numeric_prefix_done = false;
        let mut all_numeric = true;
        let mut all_canonical = true;
        let n = comps.len();
        let mut i: usize = 0;
        while i < n
            invariant
                n == comps.deep_view().len(),
                comps.deep_view() == spec_split(s@),
                0 <= i <= n,
                all_numeric == (forall|j: int|
                    0 <= j < i ==> spec_is_numeric(comps.deep_view()[j])),
                all_canonical == (forall|j: int|
                    0 <= j < i ==> spec_is_canonical(comps.deep_view()[j])),
                numeric_prefix_done == exists_nonnumeric(comps.deep_view(), i as int),
                spec_vals(vals@) =~= spec_numeric_prefix_upto(comps.deep_view(), i as int),
            decreases n - i,
        {
            let c = &comps[i];
            match chunk_value(c.as_str()) {
                Some(v) => {
                    if !numeric_prefix_done {
                        vals.push(v);
                    }
                    if !chunk_canonical(c.as_str(), v) {
                        all_canonical = false;
                    }
                },
                None => {
                    numeric_prefix_done = true;
                    all_numeric = false;
                    all_canonical = false;
                },
            }
            i += 1;
        }
        proof {
            lemma_numeric_prefix_upto(comps.deep_view(), n as int);
            assert(comps.deep_view().take(n as int) =~= comps.deep_view());
        }
        let kind = if n == 3 && all_canonical {
            VersionKind::Ideal
        } else if all_numeric {
            VersionKind::General
        } else {
            VersionKind::Complex
        };
        VersionTag { kind, chunks: vals }
    }

    /// Compare two parsed versions by their numeric components.
    pub fn compare(&self, other: &VersionTag) -> (r: Cmp)
        ensures
            r == spec_cmp_chunks(spec_vals(self.chunks@), spec_vals(other.chunks@)),
    {
        let an = self.chunks.len();
        let bn = other.chunks.len();
        let mut i: usize = 0;
        proof {
            assert(spec_vals(self.chunks@).skip(0) =~= spec_vals(self.chunks@));
            assert(spec_vals(other.chunks@).skip(0) =~= spec_vals(other.chunks@));
        }
        loop
            invariant
                an == self.chunks@.len(),
                bn == other.chunks@.len(),
                0 <= i <= an,
                i <= bn,
                forall|j: int| 0 <= j < i ==> self.chunks@[j] == other.chunks@[j],
                spec_cmp_chunks(spec_vals(self.chunks@), spec_vals(other.chunks@))
                    == spec_cmp_chunks(
                    spec_vals(self.chunks@).skip(i as int),
                    spec_vals(other.chunks@).skip(i as int),
                ),
            decreases an - i,
        {
            if i == an && i == bn {
                return Cmp::Eq;
            }
            if i == an {
                return Cmp::Lt;
            }
            if i == bn {
                return Cmp::Gt;
            }
            let a = self.chunks[i];
            let b = other.chunks[i];
            if a < b {
                return Cmp::Lt;
            }
            if a > b {
                return Cmp::Gt;
            }
            proof {
                assert(spec_vals(self.chunks@).skip(i as int).drop_first() =~= spec_vals(
                    self.chunks@,
                ).skip(i + 1));
                assert(spec_vals(other.chunks@).skip(i as int).drop_first() =~= spec_vals(
                    other.chunks@,
                ).skip(i + 1));
            }
            i += 1;
        }
    }

    /// Whether the token failed to parse as a plain version.
    pub fn is_complex(&self) -> (r: bool)
        ensures
            r == (self.kind == VersionKind::Complex),
    {
        self.kind == VersionKind::Complex
    }
}

/// Whether some component before `i` is non-numeric.
pub open spec fn exists_nonnumeric(comps: Seq<Seq<char>>, i: int) -> bool {
    exists|j: int| 0 <= j < i && !spec_is_numeric(comps[j])
}

/// The numeric prefix values among the first `i` components.
pub open spec fn spec_numeric_prefix_upto(comps: Seq<Seq<char>>, i: int) -> Seq<int>
    decreases i,
{
    if i <= 0 {
        Seq::empty()
    } else if exists_nonnumeric(comps, i - 1) {
        spec_numeric_prefix_upto(comps, i - 1)
    } else if spec_is_numeric(comps[i - 1]) {
        spec_numeric_prefix_upto(comps, i - 1) + seq![spec_chunk_val(comps[i - 1])]
    } else {
        spec_numeric_prefix_upto(comps, i - 1)
    }
}

/// At the end of the scan, the incremental prefix equals the recursive one.
proof fn lemma_numeric_prefix_upto(comps: Seq<Seq<char>>, i: int)
    requires
        0 <= i <= comps.len(),
    ensures
        spec_numeric_prefix_upto(comps, i) =~= spec_numeric_prefix(comps.take(i)),
    decreases i,
{
    if i > 0 {
        lemma_numeric_prefix_upto(comps, i - 1);
        let front = comps.take(i - 1);
        let c = comps[i - 1];
        lemma_numeric_prefix_snoc(front, c);
        assert(comps.take(i) =~= front.push(c));
        if exists_nonnumeric(comps, i - 1) {
            let j = choose|j: int| 0 <= j < i - 1 && !spec_is_numeric(comps[j]);
            assert(front[j] == comps[j]);
            assert(exists|k: int| 0 <= k < front.len() && !spec_is_numeric(front[k]));
        } else {
            assert(forall|j: int| 0 <= j < front.len() ==> spec_is_numeric(front[j]));
        }
    }
}

/// Appending one component extends the numeric prefix exactly when every
/// earlier component was numeric and the new one is too.
proof fn lemma_numeric_prefix_snoc(comps: Seq<Seq<char>>, c: Seq<char>)
    ensures
        (forall|j: int| 0 <= j < comps.len() ==> spec_is_numeric(comps[j]))
            && spec_is_numeric(c) ==> spec_numeric_prefix(comps.push(c))
            =~= spec_numeric_prefix(comps) + seq![spec_chunk_val(c)],
        (forall|j: int| 0 <= j < comps.len() ==> spec_is_numeric(comps[j])) && !spec_is_numeric(
            c,
        ) ==> spec_numeric_prefix(comps.push(c)) =~= spec_numeric_prefix(comps),
        (exists|j: int| 0 <= j < comps.len() && !spec_is_numeric(comps[j]))
            ==> spec_numeric_prefix(comps.push(c)) =~= spec_numeric_prefix(comps),
    decreases comps.len(),
{
    if comps.len() == 0 {
        assert(comps.push(c).first() == c);
        assert(comps.push(c).drop_first() =~= Seq::<Seq<char>>::empty());
        if spec_is_numeric(c) {
            assert(comps.push(c).drop_first().len() == 0);
            assert(spec_numeric_prefix(comps.push(c).drop_first()) =~= Seq::<int>::empty());
            assert(seq![spec_chunk_val(c)] + Seq::<int>::empty() =~= seq![spec_chunk_val(c)]);
            assert(spec_numeric_prefix(comps.push(c)) =~= seq![spec_chunk_val(c)]);
            assert(spec_numeric_prefix(comps) + seq![spec_chunk_val(c)] =~= seq![
                spec_chunk_val(c),
            ]);
        }
    } else {
        lemma_numeric_prefix_snoc(comps.drop_first(), c);
        assert(comps.push(c).first() == comps.first());
        assert(comps.push(c).drop_first() =~= comps.drop_first().push(c));
        assert(forall|j: int|
            0 <= j < comps.drop_first().len() ==> comps.drop_first()[j] == comps[j + 1]);
        if spec_is_numeric(comps.first()) {
            let v0 = seq![spec_chunk_val(comps.first())];
            if forall|j: int| 0 <= j < comps.len() ==> spec_is_numeric(comps[j]) {
                if spec_is_numeric(c) {
                    assert(spec_numeric_prefix(comps.drop_first().push(c))
                        == spec_numeric_prefix(comps.drop_first()) + seq![spec_chunk_val(c)]);
                    assert(v0 + (spec_numeric_prefix(comps.drop_first()) + seq![
                        spec_chunk_val(c),
                    ]) =~= (v0 + spec_numeric_prefix(comps.drop_first())) + seq![
                        spec_chunk_val(c),
                    ]);
                }
            } else {
                let j = choose|j: int| 0 <= j < comps.len() && !spec_is_numeric(comps[j]);
                assert(j != 0);
                assert(!spec_is_numeric(comps.drop_first()[j - 1]));
                assert(exists|k: int|
                    0 <= k < comps.drop_first().len() && !spec_is_numeric(
                        comps.drop_first()[k],
                    ));
            }
        } else {
            assert(spec_numeric_prefix(comps.push(c)) =~= Seq::<int>::empty());
            assert(spec_numeric_prefix(comps) =~= Seq::<int>::empty());
        }
    }
}

} // verus!

verus! {

/// When every component is numeric, the numeric prefix covers them all.
pub proof fn lemma_numeric_prefix_all(comps: Seq<Seq<char>>)
    requires
        forall|i: int| 0 <= i < comps.len() ==> spec_is_numeric(comps[i]),
    ensures
        spec_numeric_prefix(comps).len() == comps.len(),
        forall|i: int|
            0 <= i < comps.len() ==> spec_numeric_prefix(comps)[i] == spec_chunk_val(comps[i]),
    decreases comps.len(),
{
    if comps.len() > 0 {
        assert(forall|j: int|
            0 <= j < comps.drop_first().len() ==> comps.drop_first()[j] == comps[j + 1]);
        lemma_numeric_prefix_all(comps.drop_first());
    }
}

/// The components a version's chunks are read from: under `Ideal` and
/// `General` every component is numeric, so the chunk list covers them
/// all.
pub proof fn lemma_kind_chunks(s: Seq<char>)
    ensures
        spec_kind(s) == VersionKind::Ideal ==> spec_chunks(s).len() == 3,
        spec_kind(s) == VersionKind::General ==> spec_chunks(s).len() == spec_split(s).len()
            && spec_chunks(s).len() >= 1,
{
    crate::strutil::lemma_split_len(s, '.');
    if spec_kind(s) == VersionKind::Ideal {
        assert(forall|i: int|
            0 <= i < spec_split(s).len() ==> spec_is_numeric(spec_split(s)[i]));
        lemma_numeric_prefix_all(spec_split(s));
    } else if spec_kind(s) == VersionKind::General {
        lemma_numeric_prefix_all(spec_split(s));
    }
}

} // verus!

verus! {

/// Component-wise comparison is transitive on "not greater".
pub proof fn lemma_cmp_le_trans(a: Seq<int>, b: Seq<int>, c: Seq<int>)
    requires
        spec_cmp_chunks(a, b) != Cmp::Gt,
        spec_cmp_chunks(b, c) != Cmp::Gt,
    ensures
        spec_cmp_chunks(a, c) != Cmp::Gt,
    decreases a.len(),
{
    if a.len() == 0 {
    } else {
        assert(b.len() > 0);
        assert(c.len() > 0);
        if a.first() == b.first() && b.first() == c.first() {
            lemma_cmp_le_trans(a.drop_first(), b.drop_first(), c.drop_first());
        }
    }
}

} // verus!

verus! {

/// Component-wise comparison answers `equal` exactly on equal chunk
/// lists.
pub proof fn lemma_cmp_eq_iff(a: Seq<int>, b: Seq<int>)
    ensures
        (spec_cmp_chunks(a, b) == Cmp::Eq) <==> (a == b),
    decreases a.len(),
{
    if a.len() > 0 && b.len() > 0 {
        lemma_cmp_eq_iff(a.drop_first(), b.drop_first());
        assert(forall|i: int| 0 <= i < a.drop_first().len() ==> a.drop_first()[i] == a[i + 1]);
        assert(forall|i: int| 0 <= i < b.drop_first().len() ==> b.drop_first()[i] == b[i + 1]);
        if a.first() == b.first() && a.drop_first() == b.drop_first() {
            assert(a.len() == b.len());
            assert forall|i: int| 0 <= i < a.len() implies a[i] == b[i] by {
                if i > 0 {
                    assert(a.drop_first()[i - 1] == a[i]);
                    assert(b.drop_first()[i - 1] == b[i]);
                }
            }
            assert(a =~= b);
        }
        if a == b {
            assert(a.drop_first() =~= b.drop_first());
        }
    } else {
        if a.len() == 0 && b.len() == 0 {
            assert(a =~= b);
        }
    }
}

} // verus!

verus! {

/// The digit character for a value below ten.
pub open spec fn spec_dec_digit(v: int) -> char {
    if v == 0 {
        '0'
    } else if v == 1 {
        '1'
    } else if v == 2 {
        '2'
    } else if v == 3 {
        '3'
    } else if v == 4 {
        '4'
    } else if v == 5 {
        '5'
    } else if v == 6 {
        '6'
    } else if v == 7 {
        '7'
    } else if v == 8 {
        '8'
    } else {
        '9'
    }
}

/// The decimal rendering of a non-negative number, most significant digit
/// first.
pub open spec fn spec_dec_of(n: int) -> Seq<char>
    decreases n,
{
    if n < 10 {
        seq![spec_dec_digit(n)]
    } else {
        spec_dec_of(n / 10) + seq![spec_dec_digit(n % 10)]
    }
}

fn dec_digit_str(v: u64) -> (r: &'static str)
    requires
        v < 10,
    ensures
        r@ == seq![spec_dec_digit(v as int)],
{
    let r = match v {
        0 => "0",
        1 => "1",
        2 => "2",
        3 => "3",
        4 => "4",
        5 => "5",
        6 => "6",
        7 => "7",
        8 => "8",
        _ => "9",
    };
    proof {
        reveal_strlit("0");
        reveal_strlit("1");
        reveal_strlit("2");
        reveal_strlit("3");
        reveal_strlit("4");
        reveal_strlit("5");
        reveal_strlit("6");
        reveal_strlit("7");
        reveal_strlit("8");
        reveal_strlit("9");
        assert(r@ =~= seq![spec_dec_digit(v as int)]);
    }
    r
}

/// Render a number in decimal.
pub fn dec_str(n: u64) -> (r: String)
    ensures
        r@ == spec_dec_of(n as int),
    decreases n,
{
    if n < 10 {
        dec_digit_str(n).to_owned()
    } else {
        let mut s = dec_str(n / 10);
        s.append(dec_digit_str(n % 10));
        s
    }
}

/// The numeric value of a digit token, or `None` when the token is not a
/// digit string whose value fits a `u64`.
pub fn parse_u64(s: &str) -> (r: Option<u64>)
    ensures
        match r {
            Some(v) => spec_is_numeric(s@) && v == spec_chunk_val(s@),
            None => !spec_is_numeric(s@),
        },
{
    chunk_value(s)
}

} // verus!
