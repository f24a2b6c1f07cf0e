use vstd::prelude::*;
use vstd::string::StrSliceExecFns;

verus! {

/// Character-level string helpers shared by the parsers and resolvers.

/// True when `s` holds `c` somewhere.
pub open spec fn spec_contains_char(s: Seq<char>, c: char) -> bool {
    exists|i: int| 0 <= i < s.len() && s[i] == c
}

/// Equality of two string slices, decided character by character.
pub fn str_eq(a: &str, b: &str) -> (r: bool)
    ensures
        r == (a@ == b@),
{
    let alen = a.unicode_len();
    let blen = b.unicode_len();
    if alen != blen {
        assert(a@ != b@) by {
            assert(a@.len() != b@.len());
        }
        return false;
    }
    let mut i: usize = 0;
    while i < alen
        invariant
            alen == a@.len(),
            alen == b@.len(),
            0 <= i <= alen,
            forall|j: int| 0 <= j < i ==> a@[j] == b@[j],
        decreases alen - i,
    {
        if a.get_char(i) != b.get_char(i) {
            return false;
        }
        i += 1;
    }
    proof {
        assert(a@ =~= b@);
    }
    true
}

/// Equality of an owned string and a string slice.
pub fn string_eq_str(a: &String, b: &str) -> (r: bool)
    ensures
        r == (a@ == b@),
{
    str_eq(a.as_str(), b)
}

/// Equality of two owned strings.
pub fn string_eq(a: &String, b: &String) -> (r: bool)
    ensures
        r == (a@ == b@),
{
    str_eq(a.as_str(), b.as_str())
}

/// Whether a list of strings holds one whose characters equal `s`.
pub fn vec_contains_str(v: &Vec<String>, s: &str) -> (r: bool)
    ensures
        r == (exists|i: int| 0 <= i < v@.len() && v@[i]@ == s@),
{
    let mut i: usize = 0;
    while i < v.len()
        invariant
            0 <= i <= v@.len(),
            forall|j: int| 0 <= j < i ==> v@[j]@ != s@,
        decreases v@.len() - i,
    {
        if string_eq_str(&v[i], s) {
            return true;
        }
        i += 1;
    }
    false
}

/// True when `s` ends with `suffix`.
pub open spec fn spec_ends_with(s: Seq<char>, suffix: Seq<char>) -> bool {
    s.len() >= suffix.len() && s.subrange(s.len() - suffix.len(), s.len() as int) == suffix
}

/// Whether `s` ends with the characters of `suffix`.
pub fn str_ends_with(s: &str, suffix: &str) -> (r: bool)
    ensures
        r == spec_ends_with(s@, suffix@),
{
    let slen = s.unicode_len();
    let xlen = suffix.unicode_len();
    if slen < xlen {
        return false;
    }
    let mut i: usize = 0;
    while i < xlen
        invariant
            slen == s@.len(),
            xlen == suffix@.len(),
            xlen <= slen,
            0 <= i <= xlen,
            forall|j: int| 0 <= j < i ==> s@[s@.len() - suffix@.len() + j] == suffix@[j],
        decreases xlen - i,
    {
        if s.get_char(slen - xlen + i) != suffix.get_char(i) {
            return false;
        }
        i += 1;
    }
    proof {
        assert(s@.subrange(s@.len() - suffix@.len(), s@.len() as int) =~= suffix@);
    }
    true
}

/// The index just after the last occurrence of `c`, or `None` when absent.
pub fn find_last_char(s: &str, c: char) -> (r: Option<usize>)
    ensures
        match r {
            Some(i) => i < s@.len() && s@[i as int] == c
                && (forall|j: int| i < j < s@.len() ==> s@[j] != c),
            None => !spec_contains_char(s@, c),
        },
{
    let len = s.unicode_len();
    let mut i: usize = len;
    while i > 0
        invariant
            len == s@.len(),
            0 <= i <= len,
            forall|j: int| i <= j < len ==> s@[j] != c,
        decreases i,
    {
        i -= 1;
        if s.get_char(i) == c {
            return Some(i);
        }
    }
    None
}

/// Whether `s` holds the character `c`.
pub fn str_contains_char(s: &str, c: char) -> (r: bool)
    ensures
        r == spec_contains_char(s@, c),
{
    match find_last_char(s, c) {
        Some(_) => true,
        None => false,
    }
}

} // verus!

verus! {

/// The pieces of `s`, split on the separator `sep`; always at least one
/// piece, and an empty string is one empty piece.
pub open spec fn spec_split(s: Seq<char>, sep: char) -> Seq<Seq<char>>
    decreases s.len(),
{
    if s.len() == 0 {
        seq![Seq::<char>::empty()]
    } else if s[0] == sep {
        seq![Seq::<char>::empty()] + spec_split(s.drop_first(), sep)
    } else {
        let r = spec_split(s.drop_first(), sep);
        seq![seq![s[0]] + r[0]] + r.drop_first()
    }
}

pub proof fn lemma_split_len(s: Seq<char>, sep: char)
    ensures
        spec_split(s, sep).len() >= 1,
    decreases s.len(),
{
    if s.len() > 0 {
        lemma_split_len(s.drop_first(), sep);
    }
}

/// Splitting a string whose first separator sits at `i` yields the prefix
/// before `i` and then the split of what follows it.
pub proof fn lemma_split_at_first(s: Seq<char>, sep: char, i: int)
    requires
        0 <= i < s.len(),
        s[i] == sep,
        forall|j: int| 0 <= j < i ==> s[j] != sep,
    ensures
        spec_split(s, sep) =~= seq![s.subrange(0, i)] + spec_split(
            s.subrange(i + 1, s.len() as int),
            sep,
        ),
    decreases i,
{
    lemma_split_len(s.drop_first(), sep);
    if i == 0 {
        assert(s.subrange(0, 0) =~= Seq::<char>::empty());
        assert(s.subrange(1, s.len() as int) =~= s.drop_first());
    } else {
        let t = s.drop_first();
        lemma_split_at_first(t, sep, i - 1);
        assert(t.subrange(0, i - 1) =~= s.subrange(1, i));
        assert(t.subrange(i, t.len() as int) =~= s.subrange(i + 1, s.len() as int));
        assert(spec_split(t, sep) =~= seq![s.subrange(1, i)] + spec_split(
            s.subrange(i + 1, s.len() as int),
            sep,
        ));
        assert(seq![s[0]] + spec_split(t, sep)[0] =~= s.subrange(0, i));
    }
}

/// Splitting a string with no separator yields that one piece.
pub proof fn lemma_split_no_sep(s: Seq<char>, sep: char)
    requires
        !spec_contains_char(s, sep),
    ensures
        spec_split(s, sep) =~= seq![s],
    decreases s.len(),
{
    if s.len() == 0 {
        assert(s =~= Seq::<char>::empty());
    } else {
        assert(s[0] != sep);
        let t = s.drop_first();
        assert(forall|j: int| 0 <= j < t.len() ==> t[j] == s[j + 1]);
        lemma_split_no_sep(t, sep);
        assert(seq![s[0]] + t =~= s);
        assert(seq![t].drop_first() =~= Seq::<Seq<char>>::empty());
        assert(seq![seq![s[0]] + t] + Seq::<Seq<char>>::empty() =~= seq![seq![s[0]] + t]);
        assert(spec_split(s, sep) =~= seq![seq![s[0]] + t]);
    }
}

/// Split `s` on the separator.
pub fn split_str(s: &str, sep: char) -> (r: Vec<String>)
    ensures
        r.deep_view() == spec_split(s@, sep),
{
    let len = s.unicode_len();
    let mut pieces: Vec<String> = Vec::new();
    let mut start: usize = 0;
    let mut i: usize = 0;
    proof {
        assert(s@.subrange(0, len as int) =~= s@);
        assert(pieces.deep_view() =~= Seq::<Seq<char>>::empty());
    }
    loop
        invariant
            len == s@.len(),
            0 <= start <= i <= len,
            forall|j: int| start <= j < i ==> s@[j] != sep,
            pieces.deep_view() + spec_split(s@.subrange(start as int, len as int), sep)
                =~= spec_split(s@, sep),
        decreases len - i,
    {
        if i == len {
            let ghost before = pieces.deep_view();
            let piece = s.substring_char(start, len);
            pieces.push(piece.to_owned());
            proof {
                let rest = s@.subrange(start as int, len as int);
                assert(forall|j: int| 0 <= j < rest.len() ==> rest[j] == s@[start + j]);
                assert(!spec_contains_char(rest, sep));
                lemma_split_no_sep(rest, sep);
                assert(pieces.deep_view() =~= before.push(rest));
                assert(pieces.deep_view() =~= spec_split(s@, sep));
            }
            return pieces;
        }
        if s.get_char(i) == sep {
            let ghost before = pieces.deep_view();
            let piece = s.substring_char(start, i);
            pieces.push(piece.to_owned());
            proof {
                let rest = s@.subrange(start as int, len as int);
                let di = i - start;
                assert(rest[di] == sep);
                assert(forall|j: int| 0 <= j < di ==> rest[j] == s@[start + j]);
                assert(forall|j: int| 0 <= j < di ==> rest[j] != sep);
                lemma_split_at_first(rest, sep, di);
                assert(rest.subrange(0, di) =~= s@.subrange(start as int, i as int));
                assert(rest.subrange(di + 1, rest.len() as int) =~= s@.subrange(
                    i + 1,
                    len as int,
                ));
                assert(pieces.deep_view() =~= before.push(s@.subrange(start as int, i as int)));
                assert(pieces.deep_view() + spec_split(s@.subrange(i + 1, len as int), sep)
                    =~= spec_split(s@, sep));
            }
            start = i + 1;
        }
        i += 1;
    }
}

} // verus!

verus! {

/// The lowercase folding of a string, as the standard library computes it.
pub uninterp spec fn lower_of(s: Seq<char>) -> Seq<char>;

/// Relies on str::to_lowercase: the result depends on the characters
/// alone, and an empty string stays empty.
#[verifier::external_body]
pub(crate) fn to_lowercase(s: &str) -> (r: String)
    ensures
        r@ == lower_of(s@),
        s@.len() == 0 ==> r@.len() == 0,
{
    s.to_lowercase()
}

} // verus!
