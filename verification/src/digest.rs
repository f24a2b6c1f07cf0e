use vstd::prelude::*;
use vstd::string::StringExecFns;

use sha2::Digest;

use crate::error::Error;
use crate::strutil;

verus! {

/// Artifact downloads are checked against a declared digest: the digest of
/// the downloaded bytes, rendered as lowercase hex, must equal the
/// declared hex string. The digests themselves come from outside
/// implementations; the hex rendering and the comparison are this
/// module's own.

/// The SHA-1 digest of a byte sequence: 20 bytes.
pub uninterp spec fn sha1_of(data: Seq<u8>) -> Seq<u8>;

/// The SHA-256 digest of a byte sequence: 32 bytes.
pub uninterp spec fn sha256_of(data: Seq<u8>) -> Seq<u8>;

/// The SHA-512 digest of a byte sequence: 64 bytes.
pub uninterp spec fn sha512_of(data: Seq<u8>) -> Seq<u8>;

/// Relies on sha1::Sha1::digest: the 20-byte SHA-1 digest, a function of
/// the input bytes alone.
#[verifier::external_body]
fn sha1_digest(data: &Vec<u8>) -> (r: Vec<u8>)
    ensures
        r@ == sha1_of(data@),
        r@.len() == 20,
{
    sha1::Sha1::digest(data.as_slice()).to_vec()
}

/// Relies on sha2::Sha256::digest: the 32-byte SHA-256 digest, a function
/// of the input bytes alone.
#[verifier::external_body]
fn sha256_digest(data: &Vec<u8>) -> (r: Vec<u8>)
    ensures
        r@ == sha256_of(data@),
        r@.len() == 32,
{
    sha2::Sha256::digest(data.as_slice()).to_vec()
}

/// Relies on sha2::Sha512::digest: the 64-byte SHA-512 digest, a function
/// of the input bytes alone.
#[verifier::external_body]
fn sha512_digest(data: &Vec<u8>) -> (r: Vec<u8>)
    ensures
        r@ == sha512_of(data@),
        r@.len() == 64,
{
    sha2::Sha512::digest(data.as_slice()).to_vec()
}

/// The lowercase hex digit for a value below sixteen.
pub open spec fn spec_hex_digit(v: int) -> char {
    if v == 0 {
        '0'
    } else if v == 1 {
        '1'
    } else if v == 2 {
        '2'
    } else if v == 3 {
        '3'
    } else if v == 4 {
        '4'
    } else if v == 5 {
        '5'
    } else if v == 6 {
        '6'
    } else if v == 7 {
        '7'
    } else if v == 8 {
        '8'
    } else if v == 9 {
        '9'
    } else if v == 10 {
        'a'
    } else if v == 11 {
        'b'
    } else if v == 12 {
        'c'
    } else if v == 13 {
        'd'
    } else if v == 14 {
        'e'
    } else {
        'f'
    }
}

/// The lowercase hex rendering of a byte sequence: two digits per byte,
/// high nibble first.
pub open spec fn spec_hex_of(data: Seq<u8>) -> Seq<char>
    decreases data.len(),
{
    if data.len() == 0 {
        Seq::empty()
    } else {
        spec_hex_of(data.drop_last()) + seq![
            spec_hex_digit(data.last() as int / 16),
            spec_hex_digit(data.last() as int % 16),
        ]
    }
}

/// The hex digit for a nibble, as a one-character string slice.
fn hex_digit_str(v: u8) -> (r: &'static str)
    requires
        v < 16,
    ensures
        r@ == seq![spec_hex_digit(v as int)],
{
    let r = match v {
        0 => "0",
        1 => "1",
        2 => "2",
        3 => "3",
        4 => "4",
        5 => "5",
        6 => "6",
        7 => "7",
        8 => "8",
        9 => "9",
        10 => "a",
        11 => "b",
        12 => "c",
        13 => "d",
        14 => "e",
        _ => "f",
    };
    proof {
        reveal_strlit("0");
        reveal_strlit("1");
        reveal_strlit("2");
        reveal_strlit("3");
        reveal_strlit("4");
        reveal_strlit("5");
        reveal_strlit("6");
        reveal_strlit("7");
        reveal_strlit("8");
        reveal_strlit("9");
        reveal_strlit("a");
        reveal_strlit("b");
        reveal_strlit("c");
        reveal_strlit("d");
        reveal_strlit("e");
        reveal_strlit("f");
        assert(r@ =~= seq![spec_hex_digit(v as int)]);
    }
    r
}

/// Render a byte sequence as lowercase hex.
pub fn to_hex(data: &Vec<u8>) -> (r: String)
    ensures
        r@ == spec_hex_of(data@),
{
    let mut out = String::new();
    let mut i: usize = 0;
    let n = data.len();
    while i < n
        invariant
            n == data@.len(),
            0 <= i <= n,
            out@ == spec_hex_of(data@.take(i as int)),
        decreases n - i,
    {
        let b = data[i];
        out.append(hex_digit_str(b / 16));
        out.append(hex_digit_str(b % 16));
        proof {
            assert(data@.take(i + 1).drop_last() =~= data@.take(i as int));
            assert(data@.take(i + 1).last() == data@[i as int]);
            assert(out@ =~= spec_hex_of(data@.take(i + 1)));
        }
        i += 1;
    }
    proof {
        assert(data@.take(n as int) =~= data@);
    }
    out
}

/// Hex rendering yields two digits per byte.
pub proof fn lemma_hex_len(data: Seq<u8>)
    ensures
        spec_hex_of(data).len() == 2 * data.len(),
    decreases data.len(),
{
    if data.len() > 0 {
        lemma_hex_len(data.drop_last());
    }
}

/// The digest a checksum method assigns to a byte sequence, as lowercase
/// hex; methods other than the supported three have no digest.
pub open spec fn spec_method_digest(method: Seq<char>, data: Seq<u8>) -> Option<Seq<char>> {
    if method == "sha1"@ {
        Some(spec_hex_of(sha1_of(data)))
    } else if method == "sha256"@ {
        Some(spec_hex_of(sha256_of(data)))
    } else if method == "sha512"@ {
        Some(spec_hex_of(sha512_of(data)))
    } else {
        None
    }
}

/// The lowercase hex digest of `data` under the named method, or `None`
/// for an unsupported method name. The digest's hex length is fixed by
/// the method: forty, sixty-four or one hundred twenty-eight characters.
pub fn hex_digest(method: &str, data: &Vec<u8>) -> (r: Option<String>)
    ensures
        match r {
            Some(h) => spec_method_digest(method@, data@) == Some(h@) && (method@ == "sha1"@
                ==> h@.len() == 40) && (method@ == "sha256"@ ==> h@.len() == 64) && (method@
                == "sha512"@ ==> h@.len() == 128),
            None => spec_method_digest(method@, data@) is None,
        },
{
    proof {
        reveal_strlit("sha1");
        reveal_strlit("sha256");
        reveal_strlit("sha512");
        assert("sha1"@.len() == 4);
        assert("sha256"@.len() == 6);
        assert("sha512"@.len() == 6);
        assert("sha1"@ != "sha256"@);
        assert("sha1"@ != "sha512"@);
        assert("sha256"@ != "sha512"@) by {
            assert("sha256"@[3] != "sha512"@[3]);
        }
    }
    if strutil::str_eq(method, "sha1") {
        let d = sha1_digest(data);
        proof {
            lemma_hex_len(d@);
        }
        Some(to_hex(&d))
    } else if strutil::str_eq(method, "sha256") {
        let d = sha256_digest(data);
        proof {
            lemma_hex_len(d@);
        }
        Some(to_hex(&d))
    } else if strutil::str_eq(method, "sha512") {
        let d = sha512_digest(data);
        proof {
            lemma_hex_len(d@);
        }
        Some(to_hex(&d))
    } else {
        None
    }
}

/// Check downloaded bytes against a declared digest: `Ok` exactly when the
/// bytes' digest, rendered as lowercase hex, equals the declared string.
/// The mismatch error carries both hex strings.
pub fn verify_checksum(method: &str, data: &Vec<u8>, expected: &str) -> (r: Result<(), Error>)
    requires
        spec_method_digest(method@, data@) is Some,
    ensures
        match r {
            Ok(_) => spec_method_digest(method@, data@) == Some(expected@),
            Err(e) => match e {
                Error::ChecksumMismatch { expected: e_hex, actual: a_hex } => e_hex@ == expected@
                    && spec_method_digest(method@, data@) == Some(a_hex@) && a_hex@ != expected@
                    && (method@ == "sha1"@ ==> a_hex@.len() == 40) && (method@ == "sha256"@
                    ==> a_hex@.len() == 64) && (method@ == "sha512"@ ==> a_hex@.len() == 128),
                _ => false,
            },
        },
{
    match hex_digest(method, data) {
        Some(actual) => {
            if strutil::string_eq_str(&actual, expected) {
                Ok(())
            } else {
                Err(Error::ChecksumMismatch { expected: expected.to_owned(), actual })
            }
        },
        None => vstd::pervasive::unreached(),
    }
}

} // verus!
